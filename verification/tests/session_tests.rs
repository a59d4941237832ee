use tun2socks::addr::{LwipIpAddr, SockAddr};
use tun2socks::redirect::RedirectStream;
use tun2socks::stack::ReadPoll;
use tun2socks::tcp::{TcpStream, TcpWriteError, WritePlan};
use tun2socks::udp::{session_key, RecvItem, Route, UdpSessions, UdpStep};

fn stream() -> TcpStream {
    TcpStream::new(&LwipIpAddr::V4(0x0a0a_0002), 50000, &LwipIpAddr::V4(0x5db8_d822), 80)
}

#[test]
fn tcp_stream_addresses() {
    let s = stream();
    assert_eq!(s.local_addr(), SockAddr { ip: 0x0a0a_0002, port: 50000 });
    assert_eq!(s.remote_addr(), SockAddr { ip: 0x5db8_d822, port: 80 });
}

#[test]
fn tcp_read_gives_received_data_then_end() {
    let mut s = stream();
    let mut buf = [0u8; 4];
    assert_eq!(s.poll_read(&mut buf), ReadPoll::Pending);
    assert!(s.recv(Some(vec![1, 2])));
    assert!(!s.recv(None));
    assert_eq!(s.poll_read(&mut buf), ReadPoll::Ready(2));
    assert_eq!(&buf[..2], &[1, 2]);
    assert_eq!(s.poll_read(&mut buf), ReadPoll::Ready(0));
    assert_eq!(s.poll_read(&mut buf), ReadPoll::Pending);
}

#[test]
fn tcp_write_plan_takes_the_smaller_size() {
    let mut s = stream();
    assert_eq!(s.poll_write(100, 40), WritePlan::Write(40));
    assert_eq!(s.poll_write(10, 40), WritePlan::Write(10));
    assert_eq!(s.poll_write(100_000, 65535), WritePlan::Write(65535));
    assert!(!s.sent());
    assert_eq!(s.poll_write(100, 0), WritePlan::Pending);
    assert!(s.sent());
    assert!(!s.sent());
    assert_eq!(s.poll_write(0, 40), WritePlan::Pending);
}

#[test]
fn tcp_write_outcome_codes() {
    assert_eq!(TcpStream::write_outcome(0, 12), Ok(12));
    assert_eq!(TcpStream::write_outcome(-1, 12), Ok(12));
    assert_eq!(TcpStream::write_outcome(-11, 12), Err(TcpWriteError { code: -11 }));
    assert_eq!(TcpStream::write_outcome(-6, 3), Err(TcpWriteError { code: -6 }));
}

#[test]
fn tcp_close_on_drop_unless_errored() {
    let mut s = stream();
    assert!(s.close_on_drop());
    s.set_errored();
    assert!(!s.close_on_drop());
}

#[test]
fn udp_recv_item_and_packet() {
    let item = RecvItem::new(&LwipIpAddr::V4(0x0a0a_0002), 5353, &LwipIpAddr::V4(0x0808_0808), 53, vec![7, 8]);
    assert_eq!(item.src_addr, SockAddr { ip: 0x0a0a_0002, port: 5353 });
    assert_eq!(item.dest_addr, SockAddr { ip: 0x0808_0808, port: 53 });
    let pkt = item.into_packet();
    assert_eq!(pkt.data, vec![7, 8]);
    assert_eq!(pkt.addr, SockAddr { ip: 0x0808_0808, port: 53 });
}

#[test]
fn udp_sessions_open_route_expire() {
    let a = SockAddr { ip: 0x0a0a_0002, port: 1000 };
    let b = SockAddr { ip: 0x0a0a_0002, port: 1001 };
    let mut t: UdpSessions<u32> = UdpSessions::new();
    assert_eq!(t.route(a), Route::Open);
    t.open(a, 7);
    assert_eq!(t.route(a), Route::Forward);
    assert_eq!(t.route(b), Route::Open);
    assert_eq!(t.get(a), Some(&7));
    assert_eq!(t.get(b), None);
    t.open(b, 8);
    assert_eq!(t.expire(a), Some(7));
    assert_eq!(t.route(a), Route::Open);
    assert_eq!(t.get(b), Some(&8));
    assert_eq!(t.expire(a), None);
}

#[test]
fn udp_session_keys_differ() {
    assert_eq!(session_key(SockAddr { ip: 1, port: 2 }), 65538);
    assert_ne!(session_key(SockAddr { ip: 1, port: 0 }), session_key(SockAddr { ip: 0, port: 1 }));
    assert_eq!(session_key(SockAddr { ip: 0xffff_ffff, port: 0xffff }), 0xffff_ffff_ffff);
}

#[test]
fn redirect_stream_wraps_and_unwraps() {
    let mut r = RedirectStream::from_stream(vec![1u8]);
    r.stream_mut().push(2);
    assert_eq!(r.into_stream(), vec![1, 2]);
}

#[test]
fn udp_step_opens_then_forwards() {
    let item = |d: u8| RecvItem::new(&LwipIpAddr::V4(0x0a0a_0002), 5353, &LwipIpAddr::V4(0x0808_0808), 53, vec![d]);
    let mut t: UdpSessions<u32> = UdpSessions::new();
    let first = match t.on_datagram(item(1)) {
        UdpStep::Open(it) => it,
        UdpStep::Forward(..) => panic!("no session yet"),
    };
    assert!(t.on_setup(first, None).is_none());
    assert_eq!(t.route(SockAddr { ip: 0x0a0a_0002, port: 5353 }), Route::Open);
    let again = match t.on_datagram(item(2)) {
        UdpStep::Open(it) => it,
        UdpStep::Forward(..) => panic!("set-up failed, so still no session"),
    };
    let pkt = t.on_setup(again, Some(9)).unwrap();
    assert_eq!(pkt.data, vec![2]);
    assert_eq!(pkt.addr, SockAddr { ip: 0x0808_0808, port: 53 });
    match t.on_datagram(item(3)) {
        UdpStep::Forward(h, pkt) => {
            assert_eq!(*h, 9);
            assert_eq!(pkt.data, vec![3]);
            assert_eq!(pkt.addr, SockAddr { ip: 0x0808_0808, port: 53 });
        }
        UdpStep::Open(_) => panic!("session is open"),
    }
    assert_eq!(t.expire(SockAddr { ip: 0x0a0a_0002, port: 5353 }), Some(9));
    assert!(matches!(t.on_datagram(item(4)), UdpStep::Open(_)));
}

#[test]
fn tcp_reads_many_chunks_in_order() {
    let mut s = stream();
    let chunks: Vec<Vec<u8>> = vec![vec![1, 2, 3], vec![4], vec![5, 6]];
    for c in &chunks {
        s.recv(Some(c.clone()));
    }
    s.recv(None);
    let mut got = Vec::new();
    let mut buf = [0u8; 8];
    loop {
        match s.poll_read(&mut buf) {
            ReadPoll::Ready(0) => break,
            ReadPoll::Ready(n) => got.extend_from_slice(&buf[..n]),
            ReadPoll::Pending => panic!("end of stream not reached"),
        }
    }
    assert_eq!(got, vec![1, 2, 3, 4, 5, 6]);
    assert_eq!(s.poll_read(&mut buf), ReadPoll::Pending);
}
