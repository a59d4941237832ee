use std::collections::VecDeque;
use vstd::prelude::*;

verus! {

/// A first-in first-out queue between a producer (an lwIP callback) and a
/// consumer (a task that polls it), with a flag that records that the
/// consumer found it empty and is waiting to be woken.
pub struct Mailbox<T> {
    items: VecDeque<T>,
    waiting: bool,
}

impl<T> View for Mailbox<T> {
    /// The queued items, oldest first, and whether a consumer waits.
    type V = (Seq<T>, bool);

    closed spec fn view(&self) -> (Seq<T>, bool) {
        (self.items@, self.waiting)
    }
}

/// The mailbox after `item` is pushed: the item queued at the back, no
/// consumer waiting.
pub open spec fn after_push<T>(m: (Seq<T>, bool), item: T) -> (Seq<T>, bool) {
    (m.0.push(item), false)
}

/// The mailbox after a poll: the oldest item gone; or, when there is none,
/// the consumer recorded as waiting.
pub open spec fn after_poll<T>(m: (Seq<T>, bool)) -> (Seq<T>, bool) {
    if m.0.len() > 0 {
        (m.0.drop_first(), m.1)
    } else {
        (m.0, true)
    }
}

/// What a poll returns: the oldest item, if any.
pub open spec fn poll_result<T>(m: (Seq<T>, bool)) -> Option<T> {
    if m.0.len() > 0 {
        Some(m.0[0])
    } else {
        None
    }
}

impl<T> Mailbox<T> {
    /// An empty mailbox with no consumer waiting.
    pub fn new() -> (r: Mailbox<T>)
        ensures
            r@.0 == Seq::<T>::empty(),
            !r@.1,
    {
        Mailbox { items: VecDeque::new(), waiting: false }
    }

    /// Queues `item` at the back. Returns whether a consumer was waiting, in
    /// which case it is to be woken; no consumer waits afterwards.
    pub fn push(&mut self, item: T) -> (wake: bool)
        ensures
            final(self)@ == after_push(old(self)@, item),
            wake == old(self)@.1,
    {
        self.items.push_back(item);
        let wake = self.waiting;
        self.waiting = false;
        wake
    }

    /// Takes the oldest item. When there is none, the consumer is recorded
    /// as waiting and `None` is returned.
    pub fn poll(&mut self) -> (r: Option<T>)
        ensures
            final(self)@ == after_poll(old(self)@),
            r == poll_result(old(self)@),
    {
        match self.items.pop_front() {
            Some(x) => {
                assert(old(self).items@.subrange(1, old(self).items@.len() as int)
                    =~= old(self).items@.drop_first());
                assert(self@ =~= after_poll(old(self)@));
                Some(x)
            },
            None => {
                self.waiting = true;
                None
            },
        }
    }

    /// The oldest item, left in place.
    pub fn front(&self) -> (r: Option<&T>)
        ensures
            match r {
                Some(x) => self@.0.len() > 0 && *x == self@.0[0],
                None => self@.0.len() == 0,
            },
    {
        if self.items.len() == 0 {
            None
        } else {
            Some(&self.items[0])
        }
    }

    /// The number of queued items.
    pub fn len(&self) -> (r: usize)
        ensures
            r == self@.0.len(),
    {
        self.items.len()
    }

    /// Whether a consumer waits to be woken.
    pub fn is_waiting(&self) -> (r: bool)
        ensures
            r == self@.1,
    {
        self.waiting
    }
}

/// A push queues exactly the pushed item behind the others and clears the
/// waiting flag; a poll of a non-empty mailbox gives its oldest item and
/// removes just that one, and a poll of an empty one gives nothing, changes
/// no item and leaves the consumer waiting.
pub proof fn law_push_poll<T>(m: (Seq<T>, bool), x: T)
    ensures
        after_push(m, x).0.len() == m.0.len() + 1,
        after_push(m, x).0.subrange(0, m.0.len() as int) == m.0,
        after_push(m, x).0[m.0.len() as int] == x,
        !after_push(m, x).1,
        m.0.len() > 0 ==> poll_result(m) == Some(m.0[0]),
        m.0.len() > 0 ==> after_poll(m).0 == m.0.subrange(1, m.0.len() as int),
        m.0.len() > 0 ==> after_poll(m).1 == m.1,
        m.0.len() == 0 ==> poll_result(m) is None && after_poll(m).0 == m.0 && after_poll(m).1,
{
    assert(m.0.push(x).subrange(0, m.0.len() as int) =~= m.0);
    assert(m.0.len() > 0 ==> m.0.drop_first() =~= m.0.subrange(1, m.0.len() as int));
}

/// One operation on a mailbox: a producer pushes an item, or a consumer
/// polls.
pub enum MailboxOp<T> {
    Push(T),
    Poll,
}

/// The mailbox after one operation.
pub open spec fn after_op<T>(m: (Seq<T>, bool), op: MailboxOp<T>) -> (Seq<T>, bool) {
    match op {
        MailboxOp::Push(x) => after_push(m, x),
        MailboxOp::Poll => after_poll(m),
    }
}

/// The mailbox after a sequence of operations, applied first to last.
pub open spec fn after_ops<T>(m: (Seq<T>, bool), ops: Seq<MailboxOp<T>>) -> (Seq<T>, bool)
    decreases ops.len(),
{
    if ops.len() == 0 {
        m
    } else {
        after_op(after_ops(m, ops.drop_last()), ops.last())
    }
}

/// The items that the polls of `ops` took out, in the order they were taken.
pub open spec fn delivered<T>(m: (Seq<T>, bool), ops: Seq<MailboxOp<T>>) -> Seq<T>
    decreases ops.len(),
{
    if ops.len() == 0 {
        Seq::empty()
    } else {
        let before = after_ops(m, ops.drop_last());
        match (ops.last(), poll_result(before)) {
            (MailboxOp::Poll, Some(x)) => delivered(m, ops.drop_last()).push(x),
            _ => delivered(m, ops.drop_last()),
        }
    }
}

/// The items that the pushes of `ops` put in, in the order they were pushed.
pub open spec fn pushed<T>(ops: Seq<MailboxOp<T>>) -> Seq<T>
    decreases ops.len(),
{
    if ops.len() == 0 {
        Seq::empty()
    } else {
        match ops.last() {
            MailboxOp::Push(x) => pushed(ops.drop_last()).push(x),
            MailboxOp::Poll => pushed(ops.drop_last()),
        }
    }
}

/// Items leave in the order they came, each once: over any sequence of
/// interleaved pushes and polls, the items taken out, followed by those still
/// queued, are the items that were queued at the start followed by the items
/// pushed, in push order. So the items taken out are a prefix of that
/// sequence: none is lost, duplicated or reordered.
pub proof fn law_fifo<T>(m: (Seq<T>, bool), ops: Seq<MailboxOp<T>>)
    ensures
        delivered(m, ops) + after_ops(m, ops).0 == m.0 + pushed(ops),
        delivered(m, ops) == (m.0 + pushed(ops)).take(delivered(m, ops).len() as int),
        after_ops(m, ops).0 == (m.0 + pushed(ops)).skip(delivered(m, ops).len() as int),
    decreases ops.len(),
{
    if ops.len() > 0 {
        let rest = ops.drop_last();
        law_fifo(m, rest);
        let before = after_ops(m, rest);
        let d = delivered(m, rest);
        match ops.last() {
            MailboxOp::Push(x) => {
                assert(d + before.0.push(x) =~= (d + before.0).push(x));
                assert(m.0 + pushed(rest).push(x) =~= (m.0 + pushed(rest)).push(x));
            },
            MailboxOp::Poll => {
                if before.0.len() > 0 {
                    assert(d.push(before.0[0]) + before.0.drop_first() =~= d + before.0);
                }
            },
        }
    } else {
        assert(Seq::<T>::empty() + m.0 =~= m.0 + Seq::<T>::empty());
    }
    let all = m.0 + pushed(ops);
    let dl = delivered(m, ops);
    assert(all.take(dl.len() as int) =~= dl);
    assert(all.skip(dl.len() as int) =~= after_ops(m, ops).0);
}

/// A consumer that polls an empty mailbox is left waiting, and the next
/// push wakes it and delivers the pushed item.
pub proof fn law_wake_after_empty_poll<T>(m: (Seq<T>, bool), item: T)
    requires
        m.0.len() == 0,
    ensures
        poll_result(m) is None,
        after_poll(m).1,
        poll_result(after_push(after_poll(m), item)) == Some(item),
        !after_push(after_poll(m), item).1,
{
}

/// A push wakes a consumer only if one was waiting, and never twice: after
/// a push no consumer waits.
pub proof fn law_wake_once<T>(m: (Seq<T>, bool), x: T, y: T)
    ensures
        !after_push(m, x).1,
        !after_push(after_push(m, x), y).1,
{
}

} // verus!
