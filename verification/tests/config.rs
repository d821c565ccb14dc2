use ddns_ipv6::config::{
    default_socket_path, env_variable, interval, ipv6addr_from_str, resolve_env, validate, HostEntry,
    PrefixConfig, ProviderConfig, RawConfig, RawDns, RawDocker, RawPrefix,
};
use ddns_ipv6::ConfigError;

fn host(suffix: &str, domain: &str) -> HostEntry {
    HostEntry { suffix: ipv6addr_from_str(suffix).unwrap(), domain: domain.to_string() }
}

fn cloudflare(zone_id: &str, api_token: &str) -> RawDns {
    RawDns::Cloudflare { zone_id: zone_id.to_string(), api_token: api_token.to_string() }
}

fn rfc2136(key_algorithm: &str, key_secret: &str) -> RawDns {
    RawDns::Rfc2136 {
        server: "tcp://ns1.example.com:53".to_string(),
        key_name: "ddns-key.".to_string(),
        key_algorithm: key_algorithm.to_string(),
        key_secret: key_secret.to_string(),
    }
}

fn raw(dns: RawDns, hosts: Vec<HostEntry>, docker: Option<RawDocker>) -> RawConfig {
    RawConfig {
        prefix: RawPrefix::Dns { reference_domain: "router.example.com".to_string() },
        dns,
        hosts,
        interval_secs: ddns_ipv6::config::default_interval(),
        docker,
    }
}

fn one_host() -> Vec<HostEntry> {
    vec![host("::1", "test.example.com")]
}

#[test]
fn valid_dns_cloudflare_config() {
    let mut config = raw(
        cloudflare("abc123", "test-token"),
        vec![host("::1", "server-a.example.com"), host("::dead:beef", "server-b.example.com")],
        None,
    );
    config.prefix = RawPrefix::Dns { reference_domain: "my-router.example.com".to_string() };
    let config = validate(config, None).unwrap();

    assert_eq!(config.interval_secs, 300);
    assert_eq!(config.hosts.len(), 2);
    assert_eq!(config.hosts[0].suffix.to_string(), "::1");
    assert_eq!(config.hosts[1].domain, "server-b.example.com");
    match &config.prefix {
        PrefixConfig::Dns { reference_domain } => {
            assert_eq!(reference_domain, "my-router.example.com");
        }
        _ => panic!("expected DNS prefix config"),
    }
}

#[test]
fn valid_rfc2136_config() {
    let config =
        validate(raw(rfc2136("hmac-sha256", "dGVzdC1zZWNyZXQ="), one_host(), None), None).unwrap();
    match &config.dns {
        ProviderConfig::Rfc2136 { server, key_name, key_algorithm, key_secret } => {
            assert_eq!(server, "tcp://ns1.example.com:53");
            assert_eq!(key_name, "ddns-key.");
            assert_eq!(key_algorithm, "hmac-sha256");
            assert_eq!(key_secret, "dGVzdC1zZWNyZXQ=");
        }
        _ => panic!("expected RFC 2136 provider"),
    }
}

#[test]
fn empty_hosts_and_no_docker_errors() {
    let result = validate(raw(cloudflare("abc", "token"), vec![], None), None);
    assert!(matches!(result.unwrap_err(), ConfigError::EmptyHosts));
}

#[test]
fn invalid_suffix_errors() {
    let result = ipv6addr_from_str("not-an-ip");
    assert!(result.is_err());
    let err_str = result.unwrap_err().message();
    assert!(err_str.contains("invalid suffix"), "expected suffix error, got: {err_str}");
    assert_eq!(err_str, "invalid suffix 'not-an-ip': invalid IPv6 address syntax");
}

#[test]
fn default_interval() {
    let config = validate(raw(cloudflare("abc", "token"), one_host(), None), None).unwrap();
    assert_eq!(config.interval_secs, 300);
}

#[test]
fn unknown_algorithm_errors() {
    let result = validate(raw(rfc2136("hmac-md5", "dGVzdA=="), one_host(), None), None);
    assert!(result.is_err());
    match result.unwrap_err() {
        ConfigError::UnknownAlgorithm(algo) => assert_eq!(algo, "hmac-md5"),
        e => panic!("expected UnknownAlgorithm, got {e:?}"),
    }
}

#[test]
fn env_var_resolution() {
    let config = raw(cloudflare("abc", "env:DDNS_TEST_TOKEN"), one_host(), None);
    assert_eq!(config.secret_variable(), Some("DDNS_TEST_TOKEN".to_string()));
    let config = validate(config, Some("env-resolved-token".to_string())).unwrap();
    match &config.dns {
        ProviderConfig::Cloudflare { api_token, .. } => {
            assert_eq!(api_token, "env-resolved-token");
        }
        _ => panic!("expected cloudflare provider"),
    }
}

#[test]
fn missing_env_var_errors() {
    let result = validate(raw(cloudflare("abc", "env:DDNS_MISSING_VAR"), one_host(), None), None);
    match result.unwrap_err() {
        ConfigError::EnvNotSet(var) => assert_eq!(var, "DDNS_MISSING_VAR"),
        e => panic!("expected EnvNotSet, got {e:?}"),
    }
}

fn docker(enabled: bool, socket_path: String) -> Option<RawDocker> {
    Some(RawDocker { enabled, socket_path })
}

#[test]
fn docker_enabled_parses() {
    let config =
        raw(cloudflare("abc", "token"), one_host(), docker(true, default_socket_path()));
    let config = validate(config, None).unwrap();
    let dc = config.docker.expect("docker config should be present");
    assert_eq!(dc.socket_path, "/var/run/docker.sock");
}

#[test]
fn docker_custom_socket_path() {
    let config = raw(
        cloudflare("abc", "token"),
        one_host(),
        docker(true, "/custom/path/docker.sock".to_string()),
    );
    let config = validate(config, None).unwrap();
    let dc = config.docker.expect("docker config should be present");
    assert_eq!(dc.socket_path, "/custom/path/docker.sock");
}

#[test]
fn docker_disabled_returns_none() {
    let config =
        raw(cloudflare("abc", "token"), one_host(), docker(false, default_socket_path()));
    assert!(validate(config, None).unwrap().docker.is_none());
}

#[test]
fn docker_missing_returns_none() {
    let config = raw(cloudflare("abc", "token"), one_host(), None);
    assert!(validate(config, None).unwrap().docker.is_none());
}

#[test]
fn docker_empty_section_returns_none() {
    // An empty section leaves `enabled` at its default.
    let config = raw(
        cloudflare("abc", "token"),
        one_host(),
        docker(bool::default(), default_socket_path()),
    );
    assert!(validate(config, None).unwrap().docker.is_none());
}

#[test]
fn docker_only_no_static_hosts() {
    let config = raw(cloudflare("abc", "token"), vec![], docker(true, default_socket_path()));
    let config = validate(config, None).unwrap();
    assert!(config.hosts.is_empty());
    assert!(config.docker.is_some());
}

#[test]
fn secrets_resolve_through_the_environment() {
    assert_eq!(env_variable("env:TOKEN"), Some("TOKEN".to_string()));
    assert_eq!(env_variable("env:"), Some(String::new()));
    assert_eq!(env_variable("token"), None);
    assert_eq!(env_variable("ENV:TOKEN"), None);
    assert_eq!(resolve_env("plain", None).unwrap().into_string(), "plain");
    assert_eq!(resolve_env("plain", Some("other".to_string())).unwrap().into_string(), "plain");
    assert_eq!(resolve_env("env:X", Some("v".to_string())).unwrap().into_string(), "v");
}

#[test]
fn unknown_algorithm_comes_before_missing_variable() {
    let config = raw(rfc2136("hmac-md5", "env:UNSET"), vec![], None);
    assert_eq!(config.secret_variable(), None);
    assert!(matches!(validate(config, None), Err(ConfigError::UnknownAlgorithm(_))));

    let config = raw(rfc2136("hmac-sha512", "env:UNSET"), vec![], None);
    assert_eq!(config.secret_variable(), Some("UNSET".to_string()));
    assert!(matches!(validate(config, None), Err(ConfigError::EnvNotSet(_))));
}

#[test]
fn disabled_docker_is_no_source_of_hosts() {
    let config = raw(cloudflare("abc", "token"), vec![], docker(false, default_socket_path()));
    assert!(matches!(validate(config, None), Err(ConfigError::EmptyHosts)));
}

#[test]
fn interfaces_are_kept() {
    let mut config = raw(cloudflare("abc", "token"), one_host(), None);
    config.prefix = RawPrefix::Netlink { interface: "eth0".to_string() };
    config.interval_secs = 7;
    let config = validate(config, None).unwrap();
    assert_eq!(config.interval_secs, 7);
    assert!(matches!(&config.prefix, PrefixConfig::Netlink { interface } if interface == "eth0"));

    let mut config = raw(cloudflare("abc", "token"), one_host(), None);
    config.prefix = RawPrefix::Ra { interface: "wan".to_string() };
    let config = validate(config, None).unwrap();
    assert!(matches!(&config.prefix, PrefixConfig::Ra { interface } if interface == "wan"));
}

#[test]
fn interval_may_follow_the_last_host() {
    assert_eq!(interval(Some(60), None), 60);
    assert_eq!(interval(Some(60), Some(90)), 60);
    assert_eq!(interval(None, Some(90)), 90);
    assert_eq!(interval(None, None), 300);
}
