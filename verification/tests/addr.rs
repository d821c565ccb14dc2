use ddns_ipv6::Ipv6Addr;

fn round(s: &str) -> String {
    Ipv6Addr::parse(s).unwrap().to_string()
}

#[test]
fn reads_the_full_form() {
    assert_eq!(
        Ipv6Addr::parse("2001:0DB8:1:2:3:4:5:6").unwrap(),
        Ipv6Addr::new(0x2001, 0xdb8, 1, 2, 3, 4, 5, 6)
    );
    assert_eq!(round("0:0:0:0:0:0:0:0"), "::");
}

#[test]
fn reads_the_short_form() {
    assert_eq!(Ipv6Addr::parse("::").unwrap(), Ipv6Addr::new(0, 0, 0, 0, 0, 0, 0, 0));
    assert_eq!(Ipv6Addr::parse("::1").unwrap(), Ipv6Addr::new(0, 0, 0, 0, 0, 0, 0, 1));
    assert_eq!(Ipv6Addr::parse("1::").unwrap(), Ipv6Addr::new(1, 0, 0, 0, 0, 0, 0, 0));
    assert_eq!(Ipv6Addr::parse("1:2::7:8").unwrap(), Ipv6Addr::new(1, 2, 0, 0, 0, 0, 7, 8));
    assert_eq!(
        Ipv6Addr::parse("1:2:3:4:5:6:7::").unwrap(),
        Ipv6Addr::new(1, 2, 3, 4, 5, 6, 7, 0)
    );
    assert_eq!(
        Ipv6Addr::parse("::2:3:4:5:6:7:8").unwrap(),
        Ipv6Addr::new(0, 2, 3, 4, 5, 6, 7, 8)
    );
}

#[test]
fn reads_dotted_octets_at_the_end() {
    assert_eq!(
        Ipv6Addr::parse("::ffff:192.0.2.33").unwrap(),
        Ipv6Addr::new(0, 0, 0, 0, 0, 0xffff, 0xc000, 0x0221)
    );
    assert_eq!(
        Ipv6Addr::parse("1:2:3:4:5:6:1.2.3.4").unwrap(),
        Ipv6Addr::new(1, 2, 3, 4, 5, 6, 0x0102, 0x0304)
    );
    assert_eq!(
        Ipv6Addr::parse("::127.0.0.1").unwrap(),
        Ipv6Addr::new(0, 0, 0, 0, 0, 0, 0x7f00, 1)
    );
}

#[test]
fn refuses_what_is_no_address() {
    for s in [
        "", ":", ":::", "not-an-ip", "1", "1:2:3:4:5:6:7", "1:2:3:4:5:6:7:8:9", "1::2::3",
        "1:2:3:4:5:6:7::8", "::1:2:3:4:5:6:7:8", "12345::", "::g", ":1::2", "1:2:3:4:5:6:7:",
        ":1:2:3:4:5:6:7", "1.2.3.4", "1.2.3.4::", "::1.2.3", "::1.2.3.4.5", "::256.0.0.1",
        "::01.2.3.4", "::1.2.3.4:5", "1:2:3:4:5:1.2.3.4", "1:2:3:4:5:6:7:1.2.3.4", " ::1",
        "::1 ", "::1%eth0", "2001:db8:test::1", "::+1", "::0001.2.3.4",
    ] {
        assert!(Ipv6Addr::parse(s).is_none(), "{s}");
    }
}

#[test]
fn writes_the_canonical_form() {
    assert_eq!(round("2001:0db8:0000:0000:0000:0000:0000:0001"), "2001:db8::1");
    assert_eq!(round("::DEAD:BEEF"), "::dead:beef");
    assert_eq!(round("2001:db8:0:1:1:1:1:1"), "2001:db8:0:1:1:1:1:1");
    assert_eq!(round("1:0:0:2:0:0:0:3"), "1:0:0:2::3");
    assert_eq!(round("1:0:0:2:0:0:3:4"), "1::2:0:0:3:4");
    assert_eq!(round("0:0:1:0:0:0:0:0"), "0:0:1::");
    assert_eq!(round("::ffff:c000:0221"), "::ffff:192.0.2.33");
    assert_eq!(round("::ffff:0:0"), "::ffff:0.0.0.0");
    assert_eq!(round("::1.2.3.4"), "::102:304");
    assert_eq!(round("ff02::1:ff00:42"), "ff02::1:ff00:42");
}

#[test]
fn what_is_written_reads_back() {
    let samples: [u16; 7] = [0, 1, 9, 0xa, 0x10, 0x100, 0xffff];
    for i in 0..256usize {
        let mut s = [0u16; 8];
        for bit in 0..8usize {
            if i & (1 << bit) != 0 {
                s[bit] = samples[1 + (i + bit) % 6];
            }
        }
        let a = Ipv6Addr { segments: s };
        assert_eq!(Ipv6Addr::parse(&a.to_string()), Some(a));
    }
}

#[test]
fn different_addresses_are_written_differently() {
    let a = Ipv6Addr::new(0x2001, 0xdb8, 0, 0, 0, 0, 0, 1);
    let b = Ipv6Addr::new(0x2001, 0xdb8, 0, 0, 0, 0, 1, 0);
    assert_ne!(a.to_string(), b.to_string());
}
