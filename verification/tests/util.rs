use ddns_ipv6::util::{
    combine, is_global_unicast, is_prefix, is_suffix, mask_to_64, suffix_from_addr,
};
use ddns_ipv6::Ipv6Addr;

fn addr(s: &str) -> Ipv6Addr {
    Ipv6Addr::parse(s).unwrap()
}

#[test]
fn combine_basic() {
    let prefix = addr("2001:db8:1:2::");
    let suffix = addr("::1");
    let result = combine(&prefix, &suffix);
    assert_eq!(result.to_string(), "2001:db8:1:2::1");
}

#[test]
fn combine_dead_beef() {
    let prefix = addr("2001:db8:1:2::");
    let suffix = addr("::dead:beef");
    let result = combine(&prefix, &suffix);
    assert_eq!(result.to_string(), "2001:db8:1:2::dead:beef");
}

#[test]
fn suffix_from_addr_full_address() {
    let a = addr("2001:db8:1:2:3:4:5:6");
    let suffix = suffix_from_addr(&a);
    assert_eq!(suffix.to_string(), "::3:4:5:6");
}

#[test]
fn suffix_from_addr_pure_suffix() {
    let a = addr("::dead:beef");
    let suffix = suffix_from_addr(&a);
    assert_eq!(suffix.to_string(), "::dead:beef");
}

#[test]
fn global_unicast_accepts_2000_prefix() {
    assert!(is_global_unicast(&addr("2001:db8:1:2:3:4:5:6")));
}

#[test]
fn global_unicast_rejects_link_local() {
    assert!(!is_global_unicast(&addr("fe80::1")));
}

#[test]
fn global_unicast_rejects_loopback() {
    assert!(!is_global_unicast(&addr("::1")));
}

#[test]
fn global_unicast_rejects_ula() {
    assert!(!is_global_unicast(&addr("fd00::1")));
}

#[test]
fn global_unicast_rejects_multicast() {
    assert!(!is_global_unicast(&addr("ff02::1")));
}

#[test]
fn global_unicast_is_2000_slash_3() {
    assert!(!is_global_unicast(&addr("1fff::")));
    assert!(is_global_unicast(&addr("2000::")));
    assert!(is_global_unicast(&addr("3fff:ffff::")));
    assert!(!is_global_unicast(&addr("4000::")));
    for top in [0x0000u16, 0x1fff, 0x2000, 0x2abc, 0x3fff, 0x4000, 0xe000, 0xffff] {
        let a = Ipv6Addr::new(top, 0, 0, 0, 0, 0, 0, 1);
        assert_eq!(is_global_unicast(&a), top & 0xe000 == 0x2000);
    }
}

#[test]
fn halves_make_the_whole() {
    let a = addr("2001:db8:1:2:3:4:5:6");
    let prefix = mask_to_64(&a);
    let suffix = suffix_from_addr(&a);
    assert_eq!(prefix, addr("2001:db8:1:2::"));
    assert!(is_prefix(&prefix) && !is_prefix(&a));
    assert!(is_suffix(&suffix) && !is_suffix(&a));
    assert_eq!(combine(&prefix, &suffix), a);
}

#[test]
fn rotation_changes_the_upper_half_only() {
    let suffix = addr("::3:4:5:6");
    let before = combine(&addr("2001:db8:1:2::"), &suffix);
    let after = combine(&addr("2001:db8:9:9::"), &suffix);
    assert_ne!(before, after);
    assert_eq!(suffix_from_addr(&before), suffix_from_addr(&after));
    assert_eq!(after, addr("2001:db8:9:9:3:4:5:6"));
}

#[test]
fn different_suffixes_give_different_addresses() {
    let prefix = addr("2001:db8:1:2::");
    assert_ne!(combine(&prefix, &addr("::1")), combine(&prefix, &addr("::2")));
}
