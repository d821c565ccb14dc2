use ddns_ipv6::config::{PrefixConfig, ProviderConfig, ValidatedConfig};
use ddns_ipv6::daemon::{build_detector, build_updater, runs_cycle, Detector, Event, Updater};
use ddns_ipv6::{ConfigError, Error};

fn s(t: &str) -> String {
    t.to_string()
}

fn config(prefix: PrefixConfig, dns: ProviderConfig) -> ValidatedConfig {
    ValidatedConfig { prefix, dns, hosts: vec![], interval_secs: 60, docker: None }
}

fn cloudflare() -> ProviderConfig {
    ProviderConfig::Cloudflare { zone_id: s("abc"), api_token: s("token") }
}

fn rfc2136(server: &str, key_algorithm: &str) -> ProviderConfig {
    ProviderConfig::Rfc2136 {
        server: s(server),
        key_name: s("ddns-key."),
        key_algorithm: s(key_algorithm),
        key_secret: s("secret"),
    }
}

fn dns() -> PrefixConfig {
    PrefixConfig::Dns { reference_domain: s("r.example.com") }
}

#[test]
fn detectors_follow_the_configuration() {
    match build_detector(&config(dns(), cloudflare()), false) {
        Ok(Detector::Dns(d)) => {
            assert_eq!(d.reference_domain, "r.example.com");
            assert_eq!(d.interval_secs, 60);
        }
        _ => panic!("expected a resolver"),
    }
    let netlink = config(PrefixConfig::Netlink { interface: s("eth0") }, cloudflare());
    assert!(matches!(
        build_detector(&netlink, true),
        Ok(Detector::Netlink(d)) if d.interface == "eth0"
    ));
    let ra = config(PrefixConfig::Ra { interface: s("eth1") }, cloudflare());
    assert!(matches!(
        build_detector(&ra, true),
        Ok(Detector::Ra(d)) if d.interface == "eth1" && d.last_prefix.is_none()
    ));
}

#[test]
fn interfaces_are_watched_on_linux_only() {
    for prefix in [
        PrefixConfig::Netlink { interface: s("eth0") },
        PrefixConfig::Ra { interface: s("eth0") },
    ] {
        match build_detector(&config(prefix, cloudflare()), false) {
            Err(e) => assert_eq!(
                e.message(),
                "config: missing required field: netlink and ra methods are Linux-only"
            ),
            Ok(_) => panic!("expected a refusal"),
        }
    }
}

#[test]
fn updaters_follow_the_configuration() {
    match build_updater(&config(dns(), cloudflare())) {
        Ok(Updater::Cloudflare(u)) => {
            assert_eq!(u.zone_id, "abc");
            assert_eq!(u.api_token, "token");
        }
        _ => panic!("expected a Cloudflare updater"),
    }
    let made = build_updater(&config(dns(), rfc2136("tcp://127.0.0.1:53", "hmac-sha512")));
    assert!(matches!(made, Ok(Updater::Rfc2136(_))));
    let made = build_updater(&config(dns(), rfc2136("tcp://127.0.0.1:53", "hmac-md5")));
    assert!(matches!(made, Err(Error::Config(ConfigError::UnknownAlgorithm(_)))));
    let made = build_updater(&config(dns(), rfc2136("", "hmac-sha256")));
    assert!(matches!(made, Err(Error::Other(_))));
}

#[test]
fn shutdown_runs_no_cycle() {
    assert!(runs_cycle(Event::PrefixChange));
    assert!(runs_cycle(Event::ForceRefresh));
    assert!(!runs_cycle(Event::Shutdown));
}
