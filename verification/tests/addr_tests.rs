use tun2socks::addr::{
    format_ipv4, parse_ipv4, parse_socket_addr_v4, to_ip_addr_t, to_socket_addr, IpAddress,
    LwipIpAddr, SockAddr,
};

#[test]
fn format_ipv4_writes_dotted_decimal() {
    assert_eq!(format_ipv4(0x0a0a_0002), b"10.10.0.2".to_vec());
    assert_eq!(format_ipv4(0), b"0.0.0.0".to_vec());
    assert_eq!(format_ipv4(0xffff_ffff), b"255.255.255.255".to_vec());
    assert_eq!(format_ipv4(0x7f00_0001), b"127.0.0.1".to_vec());
    assert_eq!(format_ipv4(0xc0a8_6405), b"192.168.100.5".to_vec());
}

#[test]
fn parse_ipv4_accepts_dotted_decimal() {
    assert_eq!(parse_ipv4(b"10.10.0.2"), Some(0x0a0a_0002));
    assert_eq!(parse_ipv4(b"0.0.0.0"), Some(0));
    assert_eq!(parse_ipv4(b"255.255.255.255"), Some(0xffff_ffff));
    assert_eq!(parse_ipv4(b"10.0.0.104"), Some(0x0a00_0068));
}

#[test]
fn parse_ipv4_rejects_other_text() {
    for s in [
        &b""[..],
        b"1.2.3",
        b"1.2.3.4.5",
        b"256.1.1.1",
        b"1.2.3.256",
        b"01.2.3.4",
        b"1.2.3.04",
        b"1..2.3",
        b".1.2.3",
        b"1.2.3.",
        b"1.2.3.4 ",
        b" 1.2.3.4",
        b"1.2.3.-4",
        b"1.2.3.a",
        b"1000.2.3.4",
        b"0x1.2.3.4",
        b"1.2.3.4:80",
    ] {
        assert_eq!(parse_ipv4(s), None, "{:?}", std::str::from_utf8(s));
    }
}

#[test]
fn parse_ipv4_reads_back_format_ipv4() {
    for ip in [0u32, 1, 255, 256, 0x0102_0304, 0x0a0a_0001, 0xdead_beef, 0xffff_fffe, 0xffff_ffff] {
        assert_eq!(parse_ipv4(&format_ipv4(ip)), Some(ip));
    }
}

#[test]
fn parse_socket_addr_accepts_address_and_port() {
    assert_eq!(
        parse_socket_addr_v4(b"10.0.0.104:1080"),
        Some(SockAddr { ip: 0x0a00_0068, port: 1080 })
    );
    assert_eq!(
        parse_socket_addr_v4(b"1.2.3.4:0"),
        Some(SockAddr { ip: 0x0102_0304, port: 0 })
    );
    assert_eq!(
        parse_socket_addr_v4(b"1.2.3.4:65535"),
        Some(SockAddr { ip: 0x0102_0304, port: 65535 })
    );
    assert_eq!(
        parse_socket_addr_v4(b"1.2.3.4:080"),
        Some(SockAddr { ip: 0x0102_0304, port: 80 })
    );
}

#[test]
fn parse_socket_addr_rejects_other_text() {
    for s in [
        &b""[..],
        b"1.2.3.4",
        b"1.2.3.4:",
        b":80",
        b"1.2.3.4:65536",
        b"1.2.3.4:99999999",
        b"1.2.3.4:8a",
        b"1.2.3.4:80:1",
        b"1.2.3:80",
        b"01.2.3.4:80",
        b"1.2.3.4: 80",
    ] {
        assert_eq!(parse_socket_addr_v4(s), None, "{:?}", std::str::from_utf8(s));
    }
}

#[test]
fn to_socket_addr_keeps_address_and_port() {
    assert_eq!(
        to_socket_addr(&LwipIpAddr::V4(0x0a0a_0002), 443),
        SockAddr { ip: 0x0a0a_0002, port: 443 }
    );
    assert_eq!(to_socket_addr(&LwipIpAddr::V4(0), 0), SockAddr { ip: 0, port: 0 });
}

#[test]
fn to_ip_addr_t_converts_both_families() {
    assert_eq!(to_ip_addr_t(&IpAddress::V4(0x0808_0808)), Ok(LwipIpAddr::V4(0x0808_0808)));
    assert_eq!(to_ip_addr_t(&IpAddress::V6(1)), Ok(LwipIpAddr::V6(1)));
}

#[test]
fn socket_addr_round_trips_through_lwip() {
    let a = SockAddr { ip: 0xc0a8_0001, port: 53 };
    let lw = to_ip_addr_t(&IpAddress::V4(a.ip)).unwrap();
    assert_eq!(to_socket_addr(&lw, a.port), a);
}
