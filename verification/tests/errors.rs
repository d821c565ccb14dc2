use ddns_ipv6::{ConfigError, Error};

fn s(t: &str) -> String {
    t.to_string()
}

#[test]
fn config_messages() {
    assert_eq!(ConfigError::Io(s("gone")).message(), "IO error reading config: gone");
    assert_eq!(ConfigError::Parse(s("line 1")).message(), "TOML parse error: line 1");
    assert_eq!(ConfigError::MissingField(s("dns")).message(), "missing required field: dns");
    assert_eq!(ConfigError::EnvNotSet(s("X")).message(), "environment variable not set: X");
    assert_eq!(ConfigError::EmptyHosts.message(), "hosts list is empty");
    assert_eq!(ConfigError::InvalidSuffix(s("a"), s("b")).message(), "invalid suffix 'a': b");
    assert_eq!(
        ConfigError::UnknownAlgorithm(s("hmac-md5")).message(),
        "unknown key algorithm 'hmac-md5'; expected hmac-sha256 or hmac-sha512"
    );
}

#[test]
fn error_messages() {
    assert_eq!(Error::from(ConfigError::EmptyHosts).message(), "config: hosts list is empty");
    assert_eq!(Error::Prefix(s("none")).message(), "prefix detection failed: none");
    assert_eq!(
        Error::Update { domain: s("a.example.com"), source: s("refused") }.message(),
        "DNS update failed for a.example.com: refused"
    );
    assert_eq!(Error::Io(s("broken pipe")).message(), "IO error: broken pipe");
    assert_eq!(Error::Other(s("odd")).message(), "odd");
}
