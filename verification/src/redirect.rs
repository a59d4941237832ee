use vstd::prelude::*;

verus! {

/// A stream that forwards reads and writes to the stream it wraps.
pub struct RedirectStream<T> {
    stream: T,
}

impl<T> RedirectStream<T> {
    /// The wrapped stream.
    pub closed spec fn inner(&self) -> T {
        self.stream
    }

    /// Wraps `stream`.
    pub fn from_stream(stream: T) -> (r: RedirectStream<T>)
        ensures
            r.inner() == stream,
    {
        RedirectStream { stream }
    }

    /// The wrapped stream, unwrapped.
    pub fn into_stream(self) -> (r: T)
        ensures
            r == self.inner(),
    {
        self.stream
    }

    /// The wrapped stream, to read from and write to.
    pub fn stream_mut(&mut self) -> (r: &mut T)
        ensures
            *r == old(self).inner(),
            final(self).inner() == *final(r),
    {
        &mut self.stream
    }
}

} // verus!
