use ddns_ipv6::updater::rfc2136::{
    split_server, tsig_algorithm, DnsRecord, Rfc2136Updater, TsigAlgorithm,
};
use ddns_ipv6::{ConfigError, Error, Ipv6Addr};

fn s(t: &str) -> String {
    t.to_string()
}

fn addr(t: &str) -> Ipv6Addr {
    Ipv6Addr::parse(t).unwrap()
}

fn updater(server: &str, key_name: &str, algorithm: &str) -> Result<Rfc2136Updater, Error> {
    Rfc2136Updater::new(s(server), s(key_name), s(algorithm), s("dGVzdC1zZWNyZXQ="))
}

#[test]
fn algorithms_are_known_by_name() {
    assert_eq!(tsig_algorithm("hmac-sha256"), Some(TsigAlgorithm::HmacSha256));
    assert_eq!(tsig_algorithm("hmac-sha512"), Some(TsigAlgorithm::HmacSha512));
    assert_eq!(tsig_algorithm("hmac-md5"), None);
    assert_eq!(tsig_algorithm("HMAC-SHA256"), None);
}

#[test]
fn clients_are_made_for_addresses() {
    for server in ["tcp://127.0.0.1:53", "udp://127.0.0.1:53"] {
        for algorithm in ["hmac-sha256", "hmac-sha512"] {
            let made = updater(server, "ddns-key.", algorithm).unwrap();
            assert!(matches!(made.client(), dns_update::DnsUpdater::Rfc2136(_)));
        }
    }
}

#[test]
fn unusable_servers_are_refused() {
    match updater("tcp://", "ddns-key.", "hmac-sha256") {
        Err(Error::Other(t)) => assert!(t.contains("Invalid address"), "{t}"),
        _ => panic!("expected a refusal"),
    }
}

#[test]
fn unknown_algorithms_are_refused_first() {
    match updater("tcp://", "ddns-key.", "hmac-md5") {
        Err(Error::Config(ConfigError::UnknownAlgorithm(name))) => assert_eq!(name, "hmac-md5"),
        _ => panic!("expected a refusal"),
    }
}

#[test]
fn zone_follows_the_first_dot() {
    assert_eq!(Rfc2136Updater::zone_from_domain("server-a.example.com"), "example.com");
    assert_eq!(Rfc2136Updater::zone_from_domain("example.com"), "com");
    assert_eq!(Rfc2136Updater::zone_from_domain("localhost"), "localhost");
    assert_eq!(Rfc2136Updater::zone_from_domain("a."), "");
    assert_eq!(Rfc2136Updater::zone_from_domain(".a.b"), "a.b");
}

#[test]
fn first_address_is_the_record() {
    let a = addr("2001:db8::1");
    let b = addr("2001:db8::2");
    let records = Ok(vec![DnsRecord::Other, DnsRecord::Aaaa(a), DnsRecord::Aaaa(b)]);
    assert_eq!(Rfc2136Updater::get_record("a.example.com", &records).unwrap(), Some(a));
    let none = Ok(vec![DnsRecord::Other]);
    assert_eq!(Rfc2136Updater::get_record("a.example.com", &none).unwrap(), None);
    match Rfc2136Updater::get_record("a.example.com", &Err(s("refused"))) {
        Err(Error::Update { domain, source }) => {
            assert_eq!(domain, "a.example.com");
            assert_eq!(source, "refused");
        }
        _ => panic!("expected an error"),
    }
}

#[test]
fn records_are_set_unless_correct() {
    let a = addr("2001:db8::1");
    let b = addr("2001:db8::2");
    let domain = "server-a.example.com";
    assert!(Rfc2136Updater::set_record(domain, &a, &Ok(vec![DnsRecord::Aaaa(a)])).is_none());
    for current in [Ok(vec![DnsRecord::Aaaa(b)]), Ok(vec![]), Err(s("refused"))] {
        let request = Rfc2136Updater::set_record(domain, &a, &current).unwrap();
        assert_eq!(request.domain, domain);
        assert_eq!(request.origin, "example.com");
        assert_eq!(request.ttl, 120);
        assert!(matches!(request.records[..], [DnsRecord::Aaaa(set)] if set == a));
        // What was set reads back, and is not set again.
        let now = Ok(request.records);
        assert_eq!(Rfc2136Updater::get_record(domain, &now).unwrap(), Some(a));
        assert!(Rfc2136Updater::set_record(domain, &a, &now).is_none());
    }
}

#[test]
fn server_addresses_split() {
    assert_eq!(
        split_server("tcp://ns1.example.com:53"),
        (s("tcp://"), s("ns1.example.com:53"))
    );
    assert_eq!(split_server("udp://ns1.example.com"), (s("udp://"), s("ns1.example.com:53")));
    assert_eq!(split_server("127.0.0.1:5353"), (s(""), s("127.0.0.1:5353")));
}
