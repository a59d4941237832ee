use crate::addr::{to_socket_addr, LwipIpAddr, SockAddr};
use std::collections::HashMap;
use vstd::prelude::*;

verus! {

/// A datagram on its way to the proxy: its payload and where it goes.
#[derive(Debug)]
pub struct UdpPacket {
    pub data: Vec<u8>,
    pub addr: SockAddr,
}

/// A datagram that lwIP received from the TUN side: payload, sender and
/// destination.
#[derive(Debug)]
pub struct RecvItem {
    pub data: Vec<u8>,
    pub src_addr: SockAddr,
    pub dest_addr: SockAddr,
}

impl RecvItem {
    /// The item for a datagram from `src_ip:src_port` to
    /// `dest_ip:dest_port` (both IPv4) with payload `data`.
    pub fn new(src_ip: &LwipIpAddr, src_port: u16, dest_ip: &LwipIpAddr, dest_port: u16, data: Vec<u8>) -> (r:
        RecvItem)
        requires
            src_ip is V4,
            dest_ip is V4,
        ensures
            r.data@ == data@,
            r.src_addr == (SockAddr { ip: src_ip->V4_0, port: src_port }),
            r.dest_addr == (SockAddr { ip: dest_ip->V4_0, port: dest_port }),
    {
        let src_addr = to_socket_addr(src_ip, src_port);
        let dest_addr = to_socket_addr(dest_ip, dest_port);
        RecvItem { data, src_addr, dest_addr }
    }

    /// The datagram to forward to the proxy: the payload, addressed to
    /// where the sender sent it.
    pub fn into_packet(self) -> (r: UdpPacket)
        ensures
            r.data@ == self.data@,
            r.addr == self.dest_addr,
    {
        UdpPacket { data: self.data, addr: self.dest_addr }
    }
}

/// The key under which a sender's session is kept: address and port in one
/// number.
pub open spec fn spec_session_key(a: SockAddr) -> u64 {
    ((a.ip as int) * 65536 + (a.port as int)) as u64
}

/// The key under which a sender's session is kept.
pub fn session_key(a: SockAddr) -> (r: u64)
    ensures
        r == spec_session_key(a),
{
    assert((a.ip as int) * 65536 + (a.port as int) < 0x1_0000_0000_0000) by (nonlinear_arith)
        requires
            0 <= a.ip < 0x1_0000_0000,
            0 <= a.port < 65536,
    ;
    (a.ip as u64) * 65536 + (a.port as u64)
}

/// Different senders have different keys.
pub proof fn law_session_key_injective(a: SockAddr, b: SockAddr)
    requires
        spec_session_key(a) == spec_session_key(b),
    ensures
        a == b,
{
    let x: int = a.ip as int;
    let y: int = b.ip as int;
    let p: int = a.port as int;
    let q: int = b.port as int;
    assert(x * 65536 + p < 0x1_0000_0000_0000) by (nonlinear_arith)
        requires
            0 <= x < 0x1_0000_0000,
            0 <= p < 65536,
    ;
    assert(y * 65536 + q < 0x1_0000_0000_0000) by (nonlinear_arith)
        requires
            0 <= y < 0x1_0000_0000,
            0 <= q < 65536,
    ;
    assert(x == y && p == q) by (nonlinear_arith)
        requires
            x * 65536 + p == y * 65536 + q,
            0 <= p < 65536,
            0 <= q < 65536,
    ;
}

/// What to do with a datagram from a sender.
#[derive(Clone, Copy, Debug, PartialEq, Eq, Structural)]
pub enum Route {
    /// The sender has a session: forward through it.
    Forward,
    /// The sender has none: open one (through the proxy) first.
    Open,
}

/// How long a UDP session lives after it is opened, in seconds. It is then
/// expired whatever traffic it carried.
pub const SESSION_TIMEOUT_SECS: u64 = 60;

/// What to do with a datagram from the TUN side.
pub enum UdpStep<'a, V> {
    /// Send this packet through the sender's session.
    Forward(&'a V, UdpPacket),
    /// The sender has no session: set one up through the proxy, then report
    /// how that went to [`UdpSessions::on_setup`] with the datagram.
    Open(RecvItem),
}

/// The open UDP sessions, one per sender, each with the handle `V` through
/// which its datagrams go.
pub struct UdpSessions<V> {
    map: HashMap<u64, V>,
}

impl<V> View for UdpSessions<V> {
    /// The session handle of each sender's key.
    type V = Map<u64, V>;

    closed spec fn view(&self) -> Map<u64, V> {
        self.map@
    }
}

impl<V> UdpSessions<V> {
    /// No sessions.
    pub fn new() -> (r: UdpSessions<V>)
        ensures
            r@ == Map::<u64, V>::empty(),
    {
        UdpSessions { map: HashMap::new() }
    }

    /// Whether a datagram from `src` is forwarded through an open session
    /// or needs one opened.
    pub fn route(&self, src: SockAddr) -> (r: Route)
        ensures
            r == if self@.contains_key(spec_session_key(src)) {
                Route::Forward
            } else {
                Route::Open
            },
    {
        broadcast use vstd::std_specs::hash::group_hash_axioms;

        let k: u64 = session_key(src);
        if self.map.contains_key(&k) {
            Route::Forward
        } else {
            Route::Open
        }
    }

    /// Decides what to do with a datagram that lwIP received: forward it
    /// through its sender's session, or open one first.
    pub fn on_datagram(&self, item: RecvItem) -> (r: UdpStep<'_, V>)
        ensures
            match r {
                UdpStep::Forward(h, pkt) => {
                    &&& self@.contains_key(spec_session_key(item.src_addr))
                    &&& *h == self@[spec_session_key(item.src_addr)]
                    &&& pkt.data@ == item.data@
                    &&& pkt.addr == item.dest_addr
                },
                UdpStep::Open(it) => {
                    &&& !self@.contains_key(spec_session_key(item.src_addr))
                    &&& it == item
                },
            },
    {
        broadcast use vstd::std_specs::hash::group_hash_axioms;

        let k: u64 = session_key(item.src_addr);
        match self.map.get(&k) {
            Some(h) => UdpStep::Forward(h, item.into_packet()),
            None => UdpStep::Open(item),
        }
    }

    /// Takes the outcome of setting up a session for the sender of `item`:
    /// with a session, records it and gives the packet to send through it
    /// (the session is to expire [`SESSION_TIMEOUT_SECS`] later); without
    /// one, the datagram is dropped and nothing is recorded.
    pub fn on_setup(&mut self, item: RecvItem, session: Option<V>) -> (r: Option<UdpPacket>)
        ensures
            match session {
                Some(h) => {
                    &&& final(self)@ == old(self)@.insert(spec_session_key(item.src_addr), h)
                    &&& r matches Some(pkt) && pkt.data@ == item.data@ && pkt.addr == item.dest_addr
                },
                None => final(self)@ == old(self)@ && r is None,
            },
    {
        match session {
            Some(h) => {
                self.open(item.src_addr, h);
                Some(item.into_packet())
            },
            None => None,
        }
    }

    /// Records the session opened for `src`.
    pub fn open(&mut self, src: SockAddr, handle: V)
        ensures
            final(self)@ == old(self)@.insert(spec_session_key(src), handle),
    {
        broadcast use vstd::std_specs::hash::group_hash_axioms;

        let k: u64 = session_key(src);
        self.map.insert(k, handle);
    }

    /// The session of `src`, if it has one.
    pub fn get(&self, src: SockAddr) -> (r: Option<&V>)
        ensures
            match r {
                Some(v) => self@.contains_key(spec_session_key(src)) && *v == self@[spec_session_key(src)],
                None => !self@.contains_key(spec_session_key(src)),
            },
    {
        broadcast use vstd::std_specs::hash::group_hash_axioms;

        let k: u64 = session_key(src);
        self.map.get(&k)
    }

    /// The session of `src` timed out: forget it (whatever session `src`
    /// has now).
    pub fn expire(&mut self, src: SockAddr) -> (r: Option<V>)
        ensures
            final(self)@ == old(self)@.remove(spec_session_key(src)),
            match r {
                Some(v) => old(self)@.contains_key(spec_session_key(src)) && v == old(self)@[spec_session_key(src)],
                None => !old(self)@.contains_key(spec_session_key(src)),
            },
    {
        broadcast use vstd::std_specs::hash::group_hash_axioms;

        let k: u64 = session_key(src);
        self.map.remove(&k)
    }
}


/// A session opened for a sender is the one its datagrams are routed
/// through, and opening it leaves every other sender's session as it was.
pub proof fn law_open_then_route<V>(m: Map<u64, V>, src: SockAddr, handle: V, other: SockAddr)
    requires
        other != src,
    ensures
        m.insert(spec_session_key(src), handle).contains_key(spec_session_key(src)),
        m.insert(spec_session_key(src), handle)[spec_session_key(src)] == handle,
        m.insert(spec_session_key(src), handle).contains_key(spec_session_key(other)) == m.contains_key(
            spec_session_key(other),
        ),
        m.insert(spec_session_key(src), handle)[spec_session_key(other)] == m[spec_session_key(other)],
{
    if spec_session_key(other) == spec_session_key(src) {
        law_session_key_injective(other, src);
    }
}

/// Expiring a sender's session leaves no session for it and every other
/// sender's session as it was.
pub proof fn law_expire_only_that_sender<V>(m: Map<u64, V>, src: SockAddr, other: SockAddr)
    requires
        other != src,
    ensures
        !m.remove(spec_session_key(src)).contains_key(spec_session_key(src)),
        m.remove(spec_session_key(src)).contains_key(spec_session_key(other)) == m.contains_key(
            spec_session_key(other),
        ),
        m.remove(spec_session_key(src))[spec_session_key(other)] == m[spec_session_key(other)],
{
    if spec_session_key(other) == spec_session_key(src) {
        law_session_key_injective(other, src);
    }
}

/// A sender whose session could not be set up gets none: the table is left
/// as it was, so its next datagram again asks for a session to be opened.
pub proof fn law_failed_setup_records_nothing<V>(m: Map<u64, V>, m1: Map<u64, V>, src: SockAddr)
    requires
        !m.contains_key(spec_session_key(src)),
        m1 == m,
    ensures
        !m1.contains_key(spec_session_key(src)),
{
}

/// Once a sender's session is set up, its datagrams go through that
/// session until the session expires; expiry leaves the sender with none.
pub proof fn law_session_lifecycle<V>(m: Map<u64, V>, src: SockAddr, h: V)
    ensures
        m.insert(spec_session_key(src), h).contains_key(spec_session_key(src)),
        m.insert(spec_session_key(src), h)[spec_session_key(src)] == h,
        !m.insert(spec_session_key(src), h).remove(spec_session_key(src)).contains_key(
            spec_session_key(src),
        ),
{
}

} // verus!
