use ddns_ipv6::prefix::ra::{device_name, parse_ra_packet, socket_filter, RaListener};
use ddns_ipv6::{Error, Ipv6Addr};

fn addr(s: &str) -> Ipv6Addr {
    Ipv6Addr::parse(s).unwrap()
}

fn octets(a: Ipv6Addr) -> Vec<u8> {
    let mut bytes = Vec::new();
    for s in a.segments {
        bytes.extend_from_slice(&s.to_be_bytes());
    }
    bytes
}

/// A Prefix Information Option: 32 bytes.
fn pio(prefix: Ipv6Addr, a_flag: bool) -> Vec<u8> {
    let mut opt = Vec::with_capacity(32);
    opt.push(3); // type = Prefix Information
    opt.push(4); // length = 4 (32 bytes)
    opt.push(64); // prefix_length
    let flags: u8 = if a_flag { 0xC0 } else { 0x80 }; // A+L or L-only
    opt.push(flags);
    opt.extend_from_slice(&86400u32.to_be_bytes()); // valid_lifetime
    opt.extend_from_slice(&14400u32.to_be_bytes()); // preferred_lifetime
    opt.extend_from_slice(&[0u8; 4]); // reserved
    opt.extend_from_slice(&octets(prefix)); // prefix (16 bytes)
    opt
}

/// ICMPv6 header (4 bytes) and RA body (12 bytes).
fn header() -> Vec<u8> {
    let mut pkt = Vec::with_capacity(48);
    pkt.push(134); // type = Router Advertisement
    pkt.push(0); // code
    pkt.extend_from_slice(&[0u8, 0]); // checksum (zero for test)
    pkt.push(64); // cur_hop_limit
    pkt.push(0); // flags (M=0, O=0)
    pkt.extend_from_slice(&1800u16.to_be_bytes()); // router_lifetime
    pkt.extend_from_slice(&0u32.to_be_bytes()); // reachable_time
    pkt.extend_from_slice(&0u32.to_be_bytes()); // retrans_timer
    pkt
}

/// A minimal RA packet with a Prefix Information Option.
fn build_ra_packet(prefix: Ipv6Addr, a_flag: bool) -> Vec<u8> {
    let mut pkt = header();
    pkt.extend_from_slice(&pio(prefix, a_flag));
    assert_eq!(pkt.len(), 48);
    pkt
}

#[test]
fn parse_ra_with_global_pio() {
    let prefix = addr("2001:db8:1:2::");
    let pkt = build_ra_packet(prefix, true);
    let result = parse_ra_packet(&pkt);
    assert!(result.is_some(), "should parse global prefix");
    assert_eq!(result.unwrap(), addr("2001:db8:1:2::"));
}

#[test]
fn parse_ra_without_a_flag() {
    let prefix = addr("2001:db8:1:2::");
    let pkt = build_ra_packet(prefix, false);
    let result = parse_ra_packet(&pkt);
    assert!(result.is_none(), "should not return prefix when A flag is unset");
}

#[test]
fn parse_ra_non_global_prefix() {
    // fe80::/10 is link-local, not global unicast
    let prefix = addr("fe80::");
    let pkt = build_ra_packet(prefix, true);
    let result = parse_ra_packet(&pkt);
    assert!(result.is_none(), "should skip link-local prefixes");
}

#[test]
fn parse_ra_short_packet() {
    let result = parse_ra_packet(&[134, 0, 0, 0]);
    assert!(result.is_none());
}

#[test]
fn parse_ra_wrong_type() {
    // ICMPv6 type 135 is Neighbor Solicitation
    let prefix = addr("2001:db8:1:2::");
    let mut pkt = build_ra_packet(prefix, true);
    pkt[0] = 135;
    let result = parse_ra_packet(&pkt);
    assert!(result.is_none());
}

#[test]
fn parse_ra_skips_other_options() {
    let mut pkt = header();
    pkt.extend_from_slice(&[1, 1, 0, 0, 0, 0, 0, 0]); // source link-layer address
    pkt.extend_from_slice(&[3, 1, 64, 0xc0, 0, 0, 0, 0]); // too short to hold a prefix
    pkt.extend_from_slice(&pio(addr("2001:db8:7::"), false));
    pkt.extend_from_slice(&pio(addr("fd00::"), true));
    pkt.extend_from_slice(&pio(addr("2001:db8:1:2:3::"), true));
    pkt.extend_from_slice(&pio(addr("2001:db8:8::"), true));
    assert_eq!(parse_ra_packet(&pkt), Some(addr("2001:db8:1:2::")));
}

#[test]
fn parse_ra_stops_at_malformed_options() {
    let good = pio(addr("2001:db8:1:2::"), true);

    let mut zero = header();
    zero.extend_from_slice(&[1, 0]);
    zero.extend_from_slice(&good);
    assert_eq!(parse_ra_packet(&zero), None);

    let mut cut = header();
    cut.extend_from_slice(&good[..31]);
    assert_eq!(parse_ra_packet(&cut), None);

    assert_eq!(parse_ra_packet(&header()), None);
    assert_eq!(parse_ra_packet(&[]), None);
}

#[test]
fn filter_lets_advertisements_through_only() {
    let filter = socket_filter();
    for kind in 0..256usize {
        let blocked = filter[kind / 32] & (1u32 << (kind % 32)) != 0;
        assert_eq!(blocked, kind != 134);
    }
}

#[test]
fn device_names_must_fit() {
    let (buffer, len) = device_name("eth0").unwrap();
    assert_eq!(len, 4);
    assert_eq!(&buffer[..5], b"eth0\0");
    assert!(buffer[4..].iter().all(|b| *b == 0));
    assert_eq!(device_name("fifteen-letters").unwrap().1, 15);
    match device_name("sixteen-letters-") {
        Err(e) => assert_eq!(e.message(), "interface name too long"),
        Ok(_) => panic!("expected an error"),
    }
}

#[test]
fn listener_keeps_the_last_prefix() {
    let mut listener = RaListener::new("eth0".to_string());
    match listener.detect() {
        Err(Error::Prefix(t)) => assert_eq!(
            t,
            "RA listener: no prefix received yet; waiting for Router Advertisement"
        ),
        _ => panic!("expected no prefix"),
    }
    assert!(listener.receive(&build_ra_packet(addr("2001:db8:1:2::"), true)));
    assert_eq!(listener.detect().unwrap(), addr("2001:db8:1:2::"));
    assert!(!listener.receive(&[134, 0, 0, 0]));
    assert_eq!(listener.detect().unwrap(), addr("2001:db8:1:2::"));
    assert!(listener.receive(&build_ra_packet(addr("2001:db8:9:9::"), true)));
    assert_eq!(listener.detect().unwrap(), addr("2001:db8:9:9::"));
}
