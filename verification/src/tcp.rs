use crate::addr::{to_socket_addr, LwipIpAddr, SockAddr};
use crate::mailbox::{after_ops, after_push, delivered, law_fifo, pushed, Mailbox, MailboxOp};
use crate::stack::{
    lemma_packets_drop_first, lemma_packets_push, packets, read_effect, read_packet, ReadPoll, ERR_MEM,
    ERR_OK,
};
use vstd::prelude::*;
use vstd::seq_lib::lemma_flatten_concat;

verus! {

/// The largest packet lwIP hands over at once (its lengths are 16-bit).
pub const MAX_SEGMENT: usize = 65535;

/// The deciding part of a TCP connection that lwIP accepted: the received
/// data waiting to be read, and the flags its callbacks set.
pub struct TcpStream {
    src_addr: SockAddr,
    dest_addr: SockAddr,
    inbox: Mailbox<Vec<u8>>,
    write_waiting: bool,
    errored: bool,
}

/// The abstract state of a [`TcpStream`].
pub struct TcpStreamView {
    /// The peer's address (the connection's remote end in lwIP).
    pub src_addr: SockAddr,
    /// The address the peer connected to (the local end in lwIP).
    pub dest_addr: SockAddr,
    /// Received chunks not yet read, oldest first; an empty chunk marks the
    /// end of the stream.
    pub received: Seq<Seq<u8>>,
    /// Whether a reader waits to be woken.
    pub read_waiting: bool,
    /// Whether a writer waits for send buffer space.
    pub write_waiting: bool,
    /// Whether lwIP reported a fatal error (and freed the connection).
    pub errored: bool,
}

impl View for TcpStream {
    type V = TcpStreamView;

    closed spec fn view(&self) -> TcpStreamView {
        TcpStreamView {
            src_addr: self.src_addr,
            dest_addr: self.dest_addr,
            received: packets(self.inbox@.0),
            read_waiting: self.inbox@.1,
            write_waiting: self.write_waiting,
            errored: self.errored,
        }
    }
}

/// What writing to a connection is to do now: wait for send buffer space,
/// or hand this many bytes to `tcp_write`.
#[derive(Clone, Copy, Debug, PartialEq, Eq, Structural)]
pub enum WritePlan {
    Pending,
    Write(u16),
}

/// `tcp_write` failed with this lwIP error code.
#[derive(Clone, Copy, Debug, PartialEq, Eq, Structural)]
pub struct TcpWriteError {
    pub code: i8,
}

/// How much of a `buf_len`-byte write goes to lwIP when its send buffer has
/// `snd_buf` bytes free: the smaller of the two, or nothing (wait) when that
/// is zero.
pub open spec fn write_plan(buf_len: usize, snd_buf: u16) -> WritePlan {
    let n: usize = if buf_len < snd_buf as usize {
        buf_len
    } else {
        snd_buf as usize
    };
    if n == 0 {
        WritePlan::Pending
    } else {
        WritePlan::Write(n as u16)
    }
}

/// The chunk that a delivery queues: the data, or an empty chunk when the
/// peer closed its side.
pub open spec fn recv_chunk(data: Option<Vec<u8>>) -> Seq<u8> {
    match data {
        Some(d) => d@,
        None => Seq::<u8>::empty(),
    }
}

impl TcpStream {
    /// Every received chunk fits in lwIP's 16-bit lengths.
    pub closed spec fn wf(&self) -> bool {
        forall|i: int| 0 <= i < self.inbox@.0.len() ==> #[trigger] self.inbox@.0[i]@.len() <= MAX_SEGMENT
    }

    /// A connection between lwIP's remote end `remote_ip:remote_port` (the
    /// peer) and its local end `local_ip:local_port` (where the peer
    /// connected to), with nothing received. Both ends are IPv4.
    pub fn new(remote_ip: &LwipIpAddr, remote_port: u16, local_ip: &LwipIpAddr, local_port: u16) -> (r:
        TcpStream)
        requires
            remote_ip is V4,
            local_ip is V4,
        ensures
            r.wf(),
            r@.src_addr == (SockAddr { ip: remote_ip->V4_0, port: remote_port }),
            r@.dest_addr == (SockAddr { ip: local_ip->V4_0, port: local_port }),
            r@.received == Seq::<Seq<u8>>::empty(),
            !r@.read_waiting,
            !r@.write_waiting,
            !r@.errored,
    {
        let src_addr = to_socket_addr(remote_ip, remote_port);
        let dest_addr = to_socket_addr(local_ip, local_port);
        let r = TcpStream {
            src_addr,
            dest_addr,
            inbox: Mailbox::new(),
            write_waiting: false,
            errored: false,
        };
        assert(packets(r.inbox@.0) =~= Seq::<Seq<u8>>::empty());
        r
    }

    /// The peer's address.
    pub fn local_addr(&self) -> (r: SockAddr)
        ensures
            r == self@.src_addr,
    {
        self.src_addr
    }

    /// The address the peer connected to.
    pub fn remote_addr(&self) -> (r: SockAddr)
        ensures
            r == self@.dest_addr,
    {
        self.dest_addr
    }

    /// lwIP delivered received data (`Some`), or the peer closed its side
    /// (`None`, queued as an empty chunk). Returns whether to wake a
    /// waiting reader.
    pub fn recv(&mut self, data: Option<Vec<u8>>) -> (wake: bool)
        requires
            old(self).wf(),
            data matches Some(d) ==> d@.len() <= MAX_SEGMENT,
        ensures
            final(self).wf(),
            (final(self)@.received, final(self)@.read_waiting) == after_push(
                (old(self)@.received, old(self)@.read_waiting),
                recv_chunk(data),
            ),
            final(self)@.received.len() == old(self)@.received.len() + 1,
            final(self)@.received.subrange(0, old(self)@.received.len() as int)
                == old(self)@.received,
            data matches Some(d) ==> final(self)@.received.last() == d@,
            data is None ==> final(self)@.received.last().len() == 0,
            wake == old(self)@.read_waiting,
            final(self)@.write_waiting == old(self)@.write_waiting,
            final(self)@.errored == old(self)@.errored,
            final(self)@.src_addr == old(self)@.src_addr,
            final(self)@.dest_addr == old(self)@.dest_addr,
    {
        let chunk = match data {
            Some(d) => d,
            None => Vec::new(),
        };
        proof {
            lemma_packets_push(self.inbox@.0, chunk);
            assert(packets(self.inbox@.0).push(chunk@).subrange(0, packets(self.inbox@.0).len() as int)
                =~= packets(self.inbox@.0));
        }
        let wake = self.inbox.push(chunk);
        assert forall|i: int| 0 <= i < self.inbox@.0.len() implies #[trigger] self.inbox@.0[i]@.len()
            <= MAX_SEGMENT by {
            if i < old(self).inbox@.0.len() {
                assert(self.inbox@.0[i] == old(self).inbox@.0[i]);
            }
        }
        wake
    }

    /// The length of the oldest unread chunk, if any.
    pub fn next_len(&self) -> (r: Option<usize>)
        ensures
            r == if self@.received.len() > 0 {
                Some(self@.received[0].len() as usize)
            } else {
                None::<usize>
            },
    {
        match self.inbox.front() {
            Some(p) => Some(p.len()),
            None => None,
        }
    }

    /// Reads the oldest received chunk into the front of `buf`, or records
    /// the reader as waiting. A chunk of `n` bytes read is to be
    /// acknowledged to lwIP (`tcp_recved`) as `n`; `n` is 0 at the end of
    /// the stream. The chunk must fit in `buf`.
    pub fn poll_read(&mut self, buf: &mut [u8]) -> (r: ReadPoll)
        requires
            old(self).wf(),
            old(self)@.received.len() > 0 ==> old(self)@.received[0].len() <= old(buf)@.len(),
        ensures
            final(self).wf(),
            final(self)@.write_waiting == old(self)@.write_waiting,
            final(self)@.errored == old(self)@.errored,
            final(self)@.src_addr == old(self)@.src_addr,
            final(self)@.dest_addr == old(self)@.dest_addr,
            read_effect(
                old(self)@.received,
                old(self)@.read_waiting,
                old(buf)@,
                r,
                final(self)@.received,
                final(self)@.read_waiting,
                final(buf)@,
            ),
            r matches ReadPoll::Ready(n) ==> n <= MAX_SEGMENT,
    {
        proof {
            if self.inbox@.0.len() > 0 {
                lemma_packets_drop_first(self.inbox@.0);
                assert(self.inbox@.0[0]@.len() <= MAX_SEGMENT);
            }
        }
        let r = read_packet(&mut self.inbox, buf);
        assert forall|i: int| 0 <= i < self.inbox@.0.len() implies #[trigger] self.inbox@.0[i]@.len()
            <= MAX_SEGMENT by {
            assert(self.inbox@.0[i] == old(self).inbox@.0[i + 1]);
        }
        r
    }

    /// How much of a `buf_len`-byte write to hand to lwIP when its send
    /// buffer has `snd_buf` bytes free: as much as fits. When nothing fits
    /// (or there is nothing to write) the writer waits for `sent`.
    pub fn poll_write(&mut self, buf_len: usize, snd_buf: u16) -> (r: WritePlan)
        ensures
            r == write_plan(buf_len, snd_buf),
            final(self)@.write_waiting == (old(self)@.write_waiting || r == WritePlan::Pending),
            final(self)@.received == old(self)@.received,
            final(self)@.read_waiting == old(self)@.read_waiting,
            final(self)@.errored == old(self)@.errored,
            final(self)@.src_addr == old(self)@.src_addr,
            final(self)@.dest_addr == old(self)@.dest_addr,
            final(self).wf() == old(self).wf(),
    {
        let mut to_write: usize = buf_len;
        if (snd_buf as usize) < to_write {
            to_write = snd_buf as usize;
        }
        if to_write == 0 {
            self.write_waiting = true;
            return WritePlan::Pending;
        }
        WritePlan::Write(to_write as u16)
    }

    /// What a write of `n` bytes returns, given `tcp_write`'s error code.
    /// Success and lack of memory both report the `n` bytes as written (and
    /// are followed by `tcp_output`); any other code is an error.
    pub fn write_outcome(err: i8, n: u16) -> (r: Result<usize, TcpWriteError>)
        ensures
            r == if err == ERR_OK || err == ERR_MEM {
                Ok::<usize, TcpWriteError>(n as usize)
            } else {
                Err(TcpWriteError { code: err })
            },
    {
        if err == ERR_OK || err == ERR_MEM {
            Ok(n as usize)
        } else {
            Err(TcpWriteError { code: err })
        }
    }

    /// lwIP acknowledged sent data. Returns whether to wake a writer that
    /// waits for send buffer space.
    pub fn sent(&mut self) -> (wake: bool)
        ensures
            wake == old(self)@.write_waiting,
            !final(self)@.write_waiting,
            final(self)@.received == old(self)@.received,
            final(self)@.read_waiting == old(self)@.read_waiting,
            final(self)@.errored == old(self)@.errored,
            final(self)@.src_addr == old(self)@.src_addr,
            final(self)@.dest_addr == old(self)@.dest_addr,
            final(self).wf() == old(self).wf(),
    {
        let wake = self.write_waiting;
        self.write_waiting = false;
        wake
    }

    /// lwIP reported a fatal error on the connection.
    pub fn set_errored(&mut self)
        ensures
            final(self)@.errored,
            final(self)@.received == old(self)@.received,
            final(self)@.read_waiting == old(self)@.read_waiting,
            final(self)@.write_waiting == old(self)@.write_waiting,
            final(self)@.src_addr == old(self)@.src_addr,
            final(self)@.dest_addr == old(self)@.dest_addr,
            final(self).wf() == old(self).wf(),
    {
        self.errored = true;
    }

    /// Whether dropping the connection is to unhook its callbacks and close
    /// it in lwIP: only while lwIP has not freed it after an error.
    pub fn close_on_drop(&self) -> (r: bool)
        ensures
            r == !self@.errored,
    {
        !self.errored
    }
}


/// A write hands lwIP as much as both the data and the send buffer allow,
/// and waits only when one of them is empty.
pub proof fn law_write_amount(buf_len: usize, snd_buf: u16)
    ensures
        write_plan(buf_len, snd_buf) matches WritePlan::Write(n) ==> 0 < n <= snd_buf && n as usize
            <= buf_len && (n == snd_buf || n as usize == buf_len),
        write_plan(buf_len, snd_buf) == WritePlan::Pending <==> (buf_len == 0 || snd_buf == 0),
{
}

/// The end of the stream reads as a chunk of no bytes: when the peer closes
/// a connection with nothing left unread, the next read is ready with 0.
pub proof fn law_close_reads_empty(
    received: Seq<Seq<u8>>,
    w0: bool,
    buf0: Seq<u8>,
    r: ReadPoll,
    q1: Seq<Seq<u8>>,
    w1: bool,
    buf1: Seq<u8>,
)
    requires
        received.len() == 0,
        read_effect(received.push(Seq::<u8>::empty()), false, buf0, r, q1, w1, buf1),
    ensures
        r == ReadPoll::Ready(0),
        buf1 == buf0,
{
    assert(buf1 =~= buf0) by {
        assert(buf1.subrange(0, buf1.len() as int) =~= buf1);
        assert(buf0.subrange(0, buf0.len() as int) =~= buf0);
    }
}

/// Received data is read back in the order it arrived and unchanged: data
/// delivered to a connection with nothing unread is what the next read
/// copies out.
pub proof fn law_read_gives_received(
    data: Seq<u8>,
    buf0: Seq<u8>,
    r: ReadPoll,
    q1: Seq<Seq<u8>>,
    w1: bool,
    buf1: Seq<u8>,
)
    requires
        data.len() <= buf0.len(),
        read_effect(Seq::<Seq<u8>>::empty().push(data), false, buf0, r, q1, w1, buf1),
    ensures
        r == ReadPoll::Ready(data.len() as usize),
        buf1.subrange(0, data.len() as int) == data,
{
}

/// A delivery queues exactly the delivered bytes, all of them and nothing
/// else; a close queues a chunk of no bytes.
pub proof fn law_recv_chunk(d: Vec<u8>)
    ensures
        recv_chunk(Some(d)) == d@,
        recv_chunk(Some(d)).len() == d@.len(),
        forall|i: int| 0 <= i < d@.len() ==> #[trigger] recv_chunk(Some(d))[i] == d@[i],
        recv_chunk(None).len() == 0,
{
}

/// What is delivered to a connection with nothing unread is read back whole:
/// after a delivery of `d`, a read into a buffer of at least `d.len()` bytes
/// is ready with `d.len()` bytes, the buffer's first `d.len()` bytes are `d`,
/// the rest of the buffer is untouched, and nothing is left unread.
pub proof fn law_recv_then_read(
    w0: bool,
    d: Vec<u8>,
    q1: Seq<Seq<u8>>,
    w1: bool,
    buf0: Seq<u8>,
    r: ReadPoll,
    q2: Seq<Seq<u8>>,
    w2: bool,
    buf2: Seq<u8>,
)
    requires
        (q1, w1) == after_push((Seq::<Seq<u8>>::empty(), w0), recv_chunk(Some(d))),
        d@.len() <= buf0.len(),
        read_effect(q1, w1, buf0, r, q2, w2, buf2),
    ensures
        r == ReadPoll::Ready(d@.len() as usize),
        buf2.subrange(0, d@.len() as int) == d@,
        buf2.subrange(d@.len() as int, buf2.len() as int) == buf0.subrange(
            d@.len() as int,
            buf0.len() as int,
        ),
        q2.len() == 0,
{
    assert(q1[0] == recv_chunk(Some(d)));
}

/// A close delivered to a connection with nothing unread reads back as 0
/// bytes, with the buffer untouched.
pub proof fn law_close_then_read(
    w0: bool,
    q1: Seq<Seq<u8>>,
    w1: bool,
    buf0: Seq<u8>,
    r: ReadPoll,
    q2: Seq<Seq<u8>>,
    w2: bool,
    buf2: Seq<u8>,
)
    requires
        (q1, w1) == after_push((Seq::<Seq<u8>>::empty(), w0), recv_chunk(None)),
        read_effect(q1, w1, buf0, r, q2, w2, buf2),
    ensures
        r == ReadPoll::Ready(0),
        buf2 == buf0,
{
    assert(buf2 =~= buf0) by {
        assert(buf2.subrange(0, buf2.len() as int) =~= buf2);
        assert(buf0.subrange(0, buf0.len() as int) =~= buf0);
    }
}

/// Received data is read back in order and unchanged, over any sequence of
/// deliveries and reads. Seen through the connection's queue of chunks and
/// reader flag, a delivery is a push of its chunk (`recv` ensures this, with
/// [`recv_chunk`]) and a read is a poll (`poll_read` ensures [`read_effect`],
/// which `law_read_is_poll` shows is a poll). Then the chunks read, in order,
/// are the first chunks of those queued at the start followed by those
/// delivered, and the rest are still queued; so the bytes read, followed by
/// the bytes still queued, are the bytes that were queued and delivered. A
/// read returns 0 bytes only for an empty chunk, which is how a close is
/// delivered.
pub proof fn law_reads_in_order(s: (Seq<Seq<u8>>, bool), ops: Seq<MailboxOp<Seq<u8>>>)
    ensures
        delivered(s, ops) == (s.0 + pushed(ops)).take(delivered(s, ops).len() as int),
        after_ops(s, ops).0 == (s.0 + pushed(ops)).skip(delivered(s, ops).len() as int),
        delivered(s, ops).flatten() + after_ops(s, ops).0.flatten() == s.0.flatten() + pushed(
            ops,
        ).flatten(),
{
    law_fifo(s, ops);
    lemma_flatten_concat(delivered(s, ops), after_ops(s, ops).0);
    lemma_flatten_concat(s.0, pushed(ops));
}

} // verus!
