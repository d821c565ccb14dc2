use ddns_ipv6::addr::IpAddr;
use ddns_ipv6::prefix::dns::{resolve_prefix, DnsResolver};
use ddns_ipv6::prefix::netlink::{
    concerns_prefix, detect_prefix, AddressInfo, CacheInfo, NetlinkWatcher, NetworkEvent,
};
use ddns_ipv6::{Error, Ipv6Addr};

fn addr(s: &str) -> Ipv6Addr {
    Ipv6Addr::parse(s).unwrap()
}

fn v6(s: &str) -> IpAddr {
    IpAddr::V6(addr(s))
}

fn info(s: &str, valid: u32, preferred: u32) -> AddressInfo {
    AddressInfo {
        ipv6: true,
        address: Some(v6(s)),
        secondary: false,
        permanent: true,
        cache: Some(CacheInfo { valid, preferred }),
    }
}

#[test]
fn dns_takes_the_first_global_address() {
    let answers = vec![IpAddr::V4, v6("fe80::1"), v6("2001:db8:1:2::5"), v6("2001:db8:9::1")];
    assert_eq!(resolve_prefix("r.example.com", Ok(answers)).unwrap(), addr("2001:db8:1:2::"));
}

#[test]
fn dns_without_global_address_fails() {
    let resolver = DnsResolver::new("r.example.com".to_string(), 300);
    match resolver.detect(Ok(vec![IpAddr::V4, v6("fd00::1")])) {
        Err(e) => assert_eq!(
            e.message(),
            "prefix detection failed: no global unicast AAAA record found for r.example.com"
        ),
        Ok(_) => panic!("expected an error"),
    }
}

#[test]
fn dns_failure_keeps_its_cause() {
    match resolve_prefix("r.example.com", Err("timed out".to_string())) {
        Err(Error::Prefix(t)) => assert_eq!(t, "DNS resolution failed: timed out"),
        _ => panic!("expected an error"),
    }
}

#[test]
fn dns_poll_tells_every_tick() {
    let mut resolver = DnsResolver::new("r.example.com".to_string(), 300);
    let first = addr("2001:db8:1:2::");
    let second = addr("2001:db8:9:9::");
    assert!(resolver.poll(&Err(Error::Prefix("down".to_string()))));
    assert_eq!(resolver.last, None);
    assert!(resolver.poll(&Ok(first)));
    assert!(resolver.poll(&Ok(first)));
    assert!(resolver.poll(&Err(Error::Prefix("down".to_string()))));
    assert_eq!(resolver.last, Some(first));
    assert!(resolver.poll(&Ok(second)));
    assert_eq!(resolver.last, Some(second));
}

#[test]
fn netlink_prefers_the_longest_valid_lifetime() {
    let list = vec![
        info("2001:db8:1::1", 100, 90),
        info("2001:db8:2::1", 200, 10),
        info("2001:db8:3::1", 200, 50),
        info("2001:db8:4::1", 200, 50),
    ];
    assert_eq!(detect_prefix("eth0", Ok(list)).unwrap(), addr("2001:db8:3::"));
}

#[test]
fn netlink_counts_missing_lifetimes_as_endless() {
    let mut endless = info("2001:db8:5::1", 0, 0);
    endless.cache = None;
    let list = vec![info("2001:db8:1::1", u32::MAX, 90), endless];
    assert_eq!(detect_prefix("eth0", Ok(list)).unwrap(), addr("2001:db8:5::"));
}

#[test]
fn netlink_skips_temporary_and_local_addresses() {
    let mut temporary = info("2001:db8:6::1", 500, 500);
    temporary.secondary = true;
    temporary.permanent = false;
    let mut kept = info("2001:db8:7::1", 100, 100);
    kept.secondary = true;
    let mut v4 = info("2001:db8:8::1", 900, 900);
    v4.ipv6 = false;
    let list = vec![temporary, info("fe80::1", 900, 900), v4, kept];
    assert_eq!(detect_prefix("eth0", Ok(list)).unwrap(), addr("2001:db8:7::"));
}

#[test]
fn netlink_without_candidates_fails() {
    match detect_prefix("eth0", Ok(vec![info("fe80::1", 1, 1)])) {
        Err(Error::Prefix(t)) => {
            assert_eq!(t, "no global unicast IPv6 address found on interface 'eth0'")
        }
        _ => panic!("expected an error"),
    }
    match detect_prefix("eth0", Err("no such device".to_string())) {
        Err(Error::Prefix(t)) => {
            assert_eq!(t, "netlink: failed to list addresses: no such device")
        }
        _ => panic!("expected an error"),
    }
}

#[test]
fn netlink_events_of_the_watched_interface_count() {
    let address = Some(v6("2001:db8::1"));
    assert!(concerns_prefix(&NetworkEvent::NewAddress { index: 2, address }, 2));
    assert!(concerns_prefix(&NetworkEvent::DelAddress { index: 2, address }, 2));
    assert!(!concerns_prefix(&NetworkEvent::NewAddress { index: 3, address }, 2));
    assert!(!concerns_prefix(&NetworkEvent::DelAddress { index: 3, address }, 2));
    let v4 = Some(IpAddr::V4);
    assert!(!concerns_prefix(&NetworkEvent::NewAddress { index: 2, address: v4 }, 2));
    assert!(!concerns_prefix(&NetworkEvent::DelAddress { index: 2, address: None }, 2));
    assert!(!concerns_prefix(&NetworkEvent::Other, 2));
    assert_eq!(NetlinkWatcher::new("eth0".to_string()).interface, "eth0");
}
