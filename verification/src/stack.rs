use crate::mailbox::{after_poll, after_push, poll_result, Mailbox};
use vstd::prelude::*;

verus! {

/// What polling a packet source gives: the length of a packet copied into
/// the caller's buffer, or nothing yet (the caller is woken later).
#[derive(Clone, Copy, Debug, PartialEq, Eq, Structural)]
pub enum ReadPoll {
    Ready(usize),
    Pending,
}

/// What reading a packet does, from queue `q0` (with reader flag `w0`) and
/// buffer `buf0` to queue `q1`, flag `w1` and buffer `buf1`, giving `r`: the
/// oldest packet is taken into the front of the buffer, the rest of the
/// buffer kept; or, with no packet, the reader is recorded as waiting.
pub open spec fn read_effect(
    q0: Seq<Seq<u8>>,
    w0: bool,
    buf0: Seq<u8>,
    r: ReadPoll,
    q1: Seq<Seq<u8>>,
    w1: bool,
    buf1: Seq<u8>,
) -> bool {
    &&& buf1.len() == buf0.len()
    &&& match r {
        ReadPoll::Ready(n) => {
            &&& q0.len() > 0
            &&& n == q0[0].len()
            &&& buf1.subrange(0, n as int) == q0[0]
            &&& buf1.subrange(n as int, buf1.len() as int) == buf0.subrange(n as int, buf0.len() as int)
            &&& q1 == q0.drop_first()
            &&& w1 == w0
        },
        ReadPoll::Pending => {
            &&& q0.len() == 0
            &&& q1 == q0
            &&& w1
            &&& buf1 == buf0
        },
    }
}

/// The bytes of a queue of packets, one sequence per packet.
pub open spec fn packets(q: Seq<Vec<u8>>) -> Seq<Seq<u8>> {
    q.map_values(|p: Vec<u8>| p@)
}

/// Takes the oldest packet of `inbox` into the front of `buf`. The packet
/// must fit in `buf` (the copy would panic otherwise).
pub fn read_packet(inbox: &mut Mailbox<Vec<u8>>, buf: &mut [u8]) -> (r: ReadPoll)
    requires
        old(inbox)@.0.len() > 0 ==> old(inbox)@.0[0]@.len() <= old(buf)@.len(),
    ensures
        final(buf)@.len() == old(buf)@.len(),
        match r {
            ReadPoll::Ready(n) => {
                let p = old(inbox)@.0[0]@;
                &&& old(inbox)@.0.len() > 0
                &&& n == p.len()
                &&& final(buf)@.subrange(0, n as int) == p
                &&& final(buf)@.subrange(n as int, final(buf)@.len() as int) == old(buf)@.subrange(
                    n as int,
                    old(buf)@.len() as int,
                )
                &&& final(inbox)@.0 == old(inbox)@.0.drop_first()
                &&& final(inbox)@.1 == old(inbox)@.1
            },
            ReadPoll::Pending => {
                &&& old(inbox)@.0.len() == 0
                &&& final(inbox)@.0 == old(inbox)@.0
                &&& final(inbox)@.1
                &&& final(buf)@ == old(buf)@
            },
        },
{
    match inbox.poll() {
        Some(pkt) => {
            let n: usize = pkt.len();
            let mut i: usize = 0;
            while i < n
                invariant
                    n == pkt@.len(),
                    n <= buf@.len(),
                    buf@.len() == old(buf)@.len(),
                    i <= n,
                    forall|j: int| 0 <= j < i ==> buf@[j] == pkt@[j],
                    forall|j: int| n <= j < buf@.len() ==> buf@[j] == old(buf)@[j],
                decreases n - i,
            {
                buf[i] = pkt[i];
                i = i + 1;
            }
            assert(buf@.subrange(0, n as int) =~= pkt@);
            assert(buf@.subrange(n as int, buf@.len() as int) =~= old(buf)@.subrange(
                n as int,
                old(buf)@.len() as int,
            ));
            ReadPoll::Ready(n)
        },
        None => ReadPoll::Pending,
    }
}


/// lwIP's `ERR_OK`.
pub const ERR_OK: i8 = 0;

/// lwIP's `ERR_MEM`.
pub const ERR_MEM: i8 = -1;

pub proof fn lemma_packets_push(q: Seq<Vec<u8>>, p: Vec<u8>)
    ensures
        packets(q.push(p)) == packets(q).push(p@),
{
    assert(packets(q.push(p)) =~= packets(q).push(p@));
}

pub proof fn lemma_packets_drop_first(q: Seq<Vec<u8>>)
    requires
        q.len() > 0,
    ensures
        packets(q.drop_first()) == packets(q).drop_first(),
        packets(q)[0] == q[0]@,
{
    assert(packets(q.drop_first()) =~= packets(q).drop_first());
}

/// The deciding part of the TCP/IP stack's packet path: the packets that
/// lwIP sends out, waiting to be read by the TUN side.
pub struct NetStack {
    packets: Mailbox<Vec<u8>>,
}

impl View for NetStack {
    /// The waiting packets, oldest first, and whether a reader waits.
    type V = (Seq<Seq<u8>>, bool);

    closed spec fn view(&self) -> (Seq<Seq<u8>>, bool) {
        (packets(self.packets@.0), self.packets@.1)
    }
}

/// Why writing a packet into the stack failed.
#[derive(Clone, Copy, Debug, PartialEq, Eq, Structural)]
pub enum StackWriteError {
    /// lwIP's input function refused the packet.
    InputFailed,
    /// The network interface has no input function.
    NoInputFn,
}

impl StackWriteError {
    /// The message of the I/O error that reports this failure.
    pub fn message(&self) -> (r: &'static str)
        ensures
            r@ == match *self {
                StackWriteError::InputFailed => "input failed"@,
                StackWriteError::NoInputFn => "none input fn"@,
            },
    {
        match self {
            StackWriteError::InputFailed => "input failed",
            StackWriteError::NoInputFn => "none input fn",
        }
    }
}

impl NetStack {
    /// A stack with no packets waiting and no reader waiting.
    pub fn new() -> (r: NetStack)
        ensures
            r@.0 == Seq::<Seq<u8>>::empty(),
            !r@.1,
    {
        let r = NetStack { packets: Mailbox::new() };
        assert(packets(r.packets@.0) =~= Seq::<Seq<u8>>::empty());
        r
    }

    /// Queues a packet that lwIP sends out. Returns the number to report
    /// (the packet's length when a waiting reader is woken, else 0) and
    /// whether to wake the reader.
    pub fn output(&mut self, pkt: Vec<u8>) -> (r: (usize, bool))
        ensures
            final(self)@ == after_push(old(self)@, pkt@),
            r.1 == old(self)@.1,
            r.0 == if old(self)@.1 {
                pkt@.len()
            } else {
                0
            },
    {
        let n: usize = pkt.len();
        proof {
            lemma_packets_push(self.packets@.0, pkt);
        }
        let wake = self.packets.push(pkt);
        if wake {
            (n, true)
        } else {
            (0, false)
        }
    }

    /// The length of the oldest waiting packet, if any.
    pub fn next_len(&self) -> (r: Option<usize>)
        ensures
            r == if self@.0.len() > 0 {
                Some(self@.0[0].len() as usize)
            } else {
                None::<usize>
            },
    {
        match self.packets.front() {
            Some(p) => Some(p.len()),
            None => None,
        }
    }

    /// Reads the oldest waiting packet into the front of `buf`, or records
    /// the reader as waiting. The packet must fit in `buf`.
    pub fn poll_read(&mut self, buf: &mut [u8]) -> (r: ReadPoll)
        requires
            old(self)@.0.len() > 0 ==> old(self)@.0[0].len() <= old(buf)@.len(),
        ensures
            read_effect(
                old(self)@.0,
                old(self)@.1,
                old(buf)@,
                r,
                final(self)@.0,
                final(self)@.1,
                final(buf)@,
            ),
    {
        proof {
            if self.packets@.0.len() > 0 {
                lemma_packets_drop_first(self.packets@.0);
            }
        }
        read_packet(&mut self.packets, buf)
    }

    /// What writing a packet of `len` bytes into the stack returns, given
    /// what lwIP's input function returned (`None` when the interface has
    /// none). On an error the packet buffer is to be freed by the caller.
    pub fn input_outcome(len: usize, input_err: Option<i8>) -> (r: Result<usize, StackWriteError>)
        ensures
            r == match input_err {
                None => Err(StackWriteError::NoInputFn),
                Some(e) => if e == ERR_OK {
                    Ok(len)
                } else {
                    Err(StackWriteError::InputFailed)
                },
            },
    {
        match input_err {
            None => Err(StackWriteError::NoInputFn),
            Some(e) => if e == ERR_OK {
                Ok(len)
            } else {
                Err(StackWriteError::InputFailed)
            },
        }
    }
}

/// What the stack sends out is read back unchanged: when a packet is output
/// into a stack with no packets waiting, the next read gives that packet,
/// byte for byte, and leaves no packet waiting.
pub proof fn law_read_gives_output(
    s0: (Seq<Seq<u8>>, bool),
    pkt: Seq<u8>,
    buf0: Seq<u8>,
    r: ReadPoll,
    s2: (Seq<Seq<u8>>, bool),
    buf2: Seq<u8>,
)
    requires
        s0.0.len() == 0,
        pkt.len() <= buf0.len(),
        read_effect(after_push(s0, pkt).0, after_push(s0, pkt).1, buf0, r, s2.0, s2.1, buf2),
    ensures
        r == ReadPoll::Ready(pkt.len() as usize),
        buf2.subrange(0, pkt.len() as int) == pkt,
        s2.0.len() == 0,
{
}

/// Packets are read in the order they were output: a packet output behind
/// waiting packets is read after them.
pub proof fn law_output_order(s0: (Seq<Seq<u8>>, bool), pkt: Seq<u8>)
    requires
        s0.0.len() > 0,
    ensures
        after_push(s0, pkt).0[0] == s0.0[0],
        after_push(s0, pkt).0.drop_first() == s0.0.drop_first().push(pkt),
{
    assert(s0.0.push(pkt).drop_first() =~= s0.0.drop_first().push(pkt));
}

/// A reader that found no packet is woken by the next output, which then
/// reports the packet's length and leaves just that packet waiting.
pub proof fn law_output_wakes_reader(
    q0: Seq<Seq<u8>>,
    w0: bool,
    buf0: Seq<u8>,
    q1: Seq<Seq<u8>>,
    w1: bool,
    buf1: Seq<u8>,
    pkt: Seq<u8>,
)
    requires
        read_effect(q0, w0, buf0, ReadPoll::Pending, q1, w1, buf1),
    ensures
        w1,
        after_push((q1, w1), pkt) == (seq![pkt], false),
{
    assert(q1.push(pkt) =~= seq![pkt]);
}

/// A read is a poll of the packet queue: it leaves the queue and the reader
/// flag as a poll does, and copies out exactly the packet the poll takes
/// (reporting its length), or nothing when the poll finds none.
pub proof fn law_read_is_poll(
    q0: Seq<Seq<u8>>,
    w0: bool,
    buf0: Seq<u8>,
    r: ReadPoll,
    q1: Seq<Seq<u8>>,
    w1: bool,
    buf1: Seq<u8>,
)
    requires
        read_effect(q0, w0, buf0, r, q1, w1, buf1),
    ensures
        (q1, w1) == after_poll((q0, w0)),
        match r {
            ReadPoll::Ready(n) => poll_result((q0, w0)) == Some(buf1.subrange(0, n as int)),
            ReadPoll::Pending => poll_result((q0, w0)) is None,
        },
{
}

} // verus!
