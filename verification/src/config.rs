//! The configuration, from its raw form to one that can be used.

use vstd::prelude::*;

use crate::addr::Ipv6Addr;
use crate::error::ConfigError;
use crate::text::{same_text, strip_prefix};

verus! {

/// A string value that may be given as `env:VAR`, which stands for the value of an
/// environment variable. Plain strings stand for themselves.
#[derive(Debug, Clone)]
pub struct Secret(String);

impl View for Secret {
    type V = Seq<char>;

    closed spec fn view(&self) -> Seq<char> {
        self.0@
    }
}

impl Secret {
    /// The resolved value.
    pub fn into_string(self) -> (s: String)
        ensures
            s@ == self@,
    {
        self.0
    }
}

/// The environment variable that a value refers to, if it refers to one.
pub open spec fn env_reference(value: Seq<char>) -> Option<Seq<char>> {
    if crate::text::starts_with(value, "env:"@) {
        Some(value.skip("env:"@.len() as int))
    } else {
        None
    }
}

/// The environment variable to read before [`resolve_env`].
pub fn env_variable(value: &str) -> (variable: Option<String>)
    ensures
        match variable {
            Some(v) => env_reference(value@) == Some(v@),
            None => env_reference(value@) is None,
        },
{
    strip_prefix(value, "env:")
}

/// Resolves a value. `found` is what the environment holds under the variable that
/// the value refers to, and is not looked at for plain values.
pub fn resolve_env(value: &str, found: Option<String>) -> (secret: Result<Secret, ConfigError>)
    ensures
        match (env_reference(value@), found) {
            (None, _) => secret matches Ok(s) && s@ == value@,
            (Some(_), Some(v)) => secret matches Ok(s) && s@ == v@,
            (Some(variable), None) => secret matches Err(ConfigError::EnvNotSet(v)) && v@
                == variable,
        },
{
    match strip_prefix(value, "env:") {
        Some(variable) => match found {
            Some(v) => Ok(Secret(v)),
            None => Err(ConfigError::EnvNotSet(variable)),
        },
        None => Ok(Secret(value.to_string())),
    }
}

/// Reads the suffix of a host.
pub fn ipv6addr_from_str(s: &str) -> (suffix: Result<Ipv6Addr, ConfigError>)
    ensures
        match suffix {
            Ok(a) => crate::addr::parsed(s@) == Some(a.segments@),
            Err(e) => crate::addr::parsed(s@) is None && (e matches ConfigError::InvalidSuffix(
                text,
                cause,
            ) && text@ == s@ && cause@ == "invalid IPv6 address syntax"@),
        },
{
    match Ipv6Addr::parse(s) {
        Some(a) => Ok(a),
        None => Err(
            ConfigError::InvalidSuffix(s.to_string(), "invalid IPv6 address syntax".to_string()),
        ),
    }
}

/// How to learn the prefix.
#[derive(Debug, Clone)]
pub enum PrefixConfig {
    Dns { reference_domain: String },
    Netlink { interface: String },
    Ra { interface: String },
}

/// A host: the suffix it keeps, and the domain whose record follows it.
#[derive(Debug)]
pub struct HostEntry {
    pub suffix: Ipv6Addr,
    pub domain: String,
}

impl Clone for HostEntry {
    fn clone(&self) -> (copy: HostEntry)
        ensures
            copy == *self,
    {
        HostEntry { suffix: self.suffix, domain: self.domain.clone() }
    }
}

/// Where the container daemon listens.
#[derive(Debug, Clone)]
pub struct DockerConfig {
    pub socket_path: String,
}

/// How to update records, with all references to the environment resolved.
#[derive(Debug, Clone)]
pub enum ProviderConfig {
    Cloudflare { zone_id: String, api_token: String },
    Rfc2136 { server: String, key_name: String, key_algorithm: String, key_secret: String },
}

/// The polling interval in seconds when none is configured.
pub fn default_interval() -> (secs: u64)
    ensures
        secs == 300,
{
    300
}

/// The polling interval in seconds. It may be given at the top level or, as the last line
/// of a file whose last table is a host, among the keys of that host.
pub fn interval(top_level: Option<u64>, last_host: Option<u64>) -> (secs: u64)
    ensures
        secs == match (top_level, last_host) {
            (Some(s), _) => s,
            (None, Some(s)) => s,
            (None, None) => 300,
        },
{
    match (top_level, last_host) {
        (Some(secs), _) => secs,
        (None, Some(secs)) => secs,
        (None, None) => default_interval(),
    }
}

/// The socket of the container daemon when none is configured.
pub fn default_socket_path() -> (path: String)
    ensures
        path@ == "/var/run/docker.sock"@,
{
    "/var/run/docker.sock".to_string()
}

/// The configuration as it is written down; secrets are not resolved yet.
#[derive(Debug)]
pub struct RawConfig {
    pub prefix: RawPrefix,
    pub dns: RawDns,
    pub hosts: Vec<HostEntry>,
    pub interval_secs: u64,
    pub docker: Option<RawDocker>,
}

/// The detection section.
#[derive(Debug)]
pub enum RawPrefix {
    Dns { reference_domain: String },
    Netlink { interface: String },
    Ra { interface: String },
}

/// The update section.
#[derive(Debug)]
pub enum RawDns {
    Cloudflare { zone_id: String, api_token: String },
    Rfc2136 { server: String, key_name: String, key_algorithm: String, key_secret: String },
}

/// The container section.
#[derive(Debug)]
pub struct RawDocker {
    pub enabled: bool,
    pub socket_path: String,
}

/// A configuration ready for use.
#[derive(Debug, Clone)]
pub struct ValidatedConfig {
    pub prefix: PrefixConfig,
    pub dns: ProviderConfig,
    pub hosts: Vec<HostEntry>,
    pub interval_secs: u64,
    pub docker: Option<DockerConfig>,
}

/// The key algorithms that updates can be signed with.
pub open spec fn known_algorithm(name: Seq<char>) -> bool {
    name == "hmac-sha256"@ || name == "hmac-sha512"@
}

/// Whether a key algorithm is known.
pub fn is_known_algorithm(name: &str) -> (known: bool)
    ensures
        known == known_algorithm(name@),
{
    same_text(name, "hmac-sha256") || same_text(name, "hmac-sha512")
}

impl ValidatedConfig {
    /// What holds of every usable configuration: there is a source of hosts, and the
    /// key algorithm, where there is one, is known.
    pub open spec fn wf(&self) -> bool {
        &&& self.hosts@.len() > 0 || self.docker is Some
        &&& self.dns matches ProviderConfig::Rfc2136 { key_algorithm, .. } ==> known_algorithm(
            key_algorithm@,
        )
    }
}

impl RawConfig {
    /// The key algorithm of the update section is one that is not known.
    pub open spec fn algorithm_unknown(&self) -> bool {
        self.dns matches RawDns::Rfc2136 { key_algorithm, .. } && !known_algorithm(key_algorithm@)
    }

    /// The secret of the update section as written.
    pub open spec fn secret(&self) -> Seq<char> {
        match self.dns {
            RawDns::Cloudflare { api_token, .. } => api_token@,
            RawDns::Rfc2136 { key_secret, .. } => key_secret@,
        }
    }

    /// The secret once the variable it may refer to has been read.
    pub open spec fn resolved_secret(&self, found: Option<String>) -> Option<Seq<char>> {
        match (env_reference(self.secret()), found) {
            (None, _) => Some(self.secret()),
            (Some(_), Some(v)) => Some(v@),
            (Some(_), None) => None,
        }
    }

    /// Containers are to be discovered.
    pub open spec fn docker_enabled(&self) -> bool {
        self.docker matches Some(d) && d.enabled
    }

    /// The environment variable to read before [`validate`]: the one that the secret
    /// refers to, unless the algorithm is unknown and the secret of no use.
    pub fn secret_variable(&self) -> (variable: Option<String>)
        ensures
            match variable {
                Some(v) => !self.algorithm_unknown() && env_reference(self.secret()) == Some(v@),
                None => self.algorithm_unknown() || env_reference(self.secret()) is None,
            },
    {
        match &self.dns {
            RawDns::Cloudflare { api_token, .. } => env_variable(api_token.as_str()),
            RawDns::Rfc2136 { key_algorithm, key_secret, .. } => {
                if is_known_algorithm(key_algorithm.as_str()) {
                    env_variable(key_secret.as_str())
                } else {
                    None
                }
            },
        }
    }
}

/// The detection section, checked.
pub open spec fn same_prefix(raw: RawPrefix, prefix: PrefixConfig) -> bool {
    match raw {
        RawPrefix::Dns { reference_domain } => prefix == (PrefixConfig::Dns { reference_domain }),
        RawPrefix::Netlink { interface } => prefix == (PrefixConfig::Netlink { interface }),
        RawPrefix::Ra { interface } => prefix == (PrefixConfig::Ra { interface }),
    }
}

/// The update section, checked, with its secret resolved.
pub open spec fn same_provider(raw: RawDns, dns: ProviderConfig, secret: Seq<char>) -> bool {
    match (raw, dns) {
        (
            RawDns::Cloudflare { zone_id, .. },
            ProviderConfig::Cloudflare { zone_id: zone, api_token },
        ) => zone == zone_id && api_token@ == secret,
        (
            RawDns::Rfc2136 { server, key_name, key_algorithm, .. },
            ProviderConfig::Rfc2136 {
                server: to,
                key_name: name,
                key_algorithm: algorithm,
                key_secret,
            },
        ) => to == server && name == key_name && algorithm == key_algorithm && key_secret@
            == secret,
        _ => false,
    }
}

/// Checks a configuration and resolves its secret. `found` is what the environment
/// holds under [`RawConfig::secret_variable`].
///
/// An unknown algorithm is reported first, then a variable that is not set, then the
/// lack of any hosts.
pub fn validate(raw: RawConfig, found: Option<String>) -> (config: Result<
    ValidatedConfig,
    ConfigError,
>)
    ensures
        if raw.algorithm_unknown() {
            config matches Err(ConfigError::UnknownAlgorithm(name)) && name
                == raw.dns->Rfc2136_key_algorithm
        } else if raw.resolved_secret(found) is None {
            config matches Err(ConfigError::EnvNotSet(v)) && Some(v@) == env_reference(raw.secret())
        } else if raw.hosts@.len() == 0 && !raw.docker_enabled() {
            config matches Err(ConfigError::EmptyHosts)
        } else {
            &&& config matches Ok(c)
            &&& same_prefix(raw.prefix, c.prefix)
            &&& same_provider(raw.dns, c.dns, raw.resolved_secret(found).unwrap())
            &&& c.hosts == raw.hosts
            &&& c.interval_secs == raw.interval_secs
            &&& c.docker is Some <==> raw.docker_enabled()
            &&& c.docker matches Some(d) ==> d.socket_path == raw.docker.unwrap().socket_path
        },
        config matches Ok(c) ==> c.wf(),
{
    let prefix = match raw.prefix {
        RawPrefix::Dns { reference_domain } => PrefixConfig::Dns { reference_domain },
        RawPrefix::Netlink { interface } => PrefixConfig::Netlink { interface },
        RawPrefix::Ra { interface } => PrefixConfig::Ra { interface },
    };
    let dns = match raw.dns {
        RawDns::Cloudflare { zone_id, api_token } => {
            match resolve_env(api_token.as_str(), found) {
                Ok(secret) => ProviderConfig::Cloudflare {
                    zone_id,
                    api_token: secret.into_string(),
                },
                Err(e) => {
                    return Err(e);
                },
            }
        },
        RawDns::Rfc2136 { server, key_name, key_algorithm, key_secret } => {
            if !is_known_algorithm(key_algorithm.as_str()) {
                return Err(ConfigError::UnknownAlgorithm(key_algorithm));
            }
            match resolve_env(key_secret.as_str(), found) {
                Ok(secret) => ProviderConfig::Rfc2136 {
                    server,
                    key_name,
                    key_algorithm,
                    key_secret: secret.into_string(),
                },
                Err(e) => {
                    return Err(e);
                },
            }
        },
    };
    let docker = match raw.docker {
        Some(d) => if d.enabled {
            Some(DockerConfig { socket_path: d.socket_path })
        } else {
            None
        },
        None => None,
    };
    if raw.hosts.len() == 0 && docker.is_none() {
        return Err(ConfigError::EmptyHosts);
    }
    Ok(
        ValidatedConfig {
            prefix,
            dns,
            hosts: raw.hosts,
            interval_secs: raw.interval_secs,
            docker,
        },
    )
}

/// A value refers to a variable if it is `env:` and the name of the variable in full; every
/// other value stands for itself.
pub proof fn law_env_reference(value: Seq<char>, variable: Seq<char>)
    ensures
        env_reference(seq!['e', 'n', 'v', ':'] + variable) == Some(variable),
        env_reference(value) == Some(variable) ==> value == seq!['e', 'n', 'v', ':'] + variable,
{
    reveal_strlit("env:");
    assert("env:"@ =~= seq!['e', 'n', 'v', ':']);
    crate::text::law_starts_with("env:"@, variable);
    if env_reference(value) is Some {
        crate::text::law_starts_with_is(value, "env:"@);
    }
}

/// The secret of a configuration is the token or the key, whichever its provider has. It
/// resolves to the value of the variable that it refers to, or to itself.
pub proof fn law_secret(raw: RawConfig, variable: Seq<char>, found: Option<String>)
    ensures
        raw.dns matches RawDns::Cloudflare { api_token, .. } ==> raw.secret() == api_token@,
        raw.dns matches RawDns::Rfc2136 { key_secret, .. } ==> raw.secret() == key_secret@,
        raw.secret() == seq!['e', 'n', 'v', ':'] + variable ==> match found {
            Some(value) => raw.resolved_secret(found) == Some(value@),
            None => raw.resolved_secret(found) is None,
        },
        !(raw.secret().len() >= 4 && raw.secret().take(4) == seq!['e', 'n', 'v', ':'])
            ==> raw.resolved_secret(found) == Some(raw.secret()),
{
    law_env_reference(raw.secret(), variable);
    if let Some(v) = env_reference(raw.secret()) {
        law_env_reference(raw.secret(), v);
        assert(raw.secret().take(4) =~= seq!['e', 'n', 'v', ':']);
    }
}

/// An algorithm is refused if the provider has one and it is neither `hmac-sha256` nor
/// `hmac-sha512`.
pub proof fn law_algorithm_unknown(raw: RawConfig)
    ensures
        raw.algorithm_unknown() <==> (raw.dns matches RawDns::Rfc2136 { key_algorithm, .. }
            && key_algorithm@ != "hmac-sha256"@ && key_algorithm@ != "hmac-sha512"@),
{
}

/// Containers are discovered if their section is there and says so.
pub proof fn law_docker_enabled(raw: RawConfig)
    ensures
        raw.docker is None ==> !raw.docker_enabled(),
        raw.docker matches Some(d) ==> raw.docker_enabled() == d.enabled,
{
}

/// What a usable configuration holds.
pub proof fn law_usable(config: ValidatedConfig)
    ensures
        config.wf() <==> (config.hosts@.len() > 0 || config.docker is Some) && (
        config.dns matches ProviderConfig::Rfc2136 { key_algorithm, .. } ==> key_algorithm@
            == "hmac-sha256"@ || key_algorithm@ == "hmac-sha512"@),
{
}

/// The detection section is taken over with its method and its one key.
pub proof fn law_same_prefix(raw: RawPrefix, prefix: PrefixConfig)
    requires
        same_prefix(raw, prefix),
    ensures
        raw matches RawPrefix::Dns { reference_domain } ==> (
        prefix matches PrefixConfig::Dns { reference_domain: d } && d@ == reference_domain@),
        raw matches RawPrefix::Netlink { interface } ==> (
        prefix matches PrefixConfig::Netlink { interface: i } && i@ == interface@),
        raw matches RawPrefix::Ra { interface } ==> (prefix matches PrefixConfig::Ra {
            interface: i,
        } && i@ == interface@),
{
}

/// The update section is taken over with its provider and all its keys, its secret being
/// the resolved one.
pub proof fn law_same_provider(raw: RawDns, dns: ProviderConfig, secret: Seq<char>)
    requires
        same_provider(raw, dns, secret),
    ensures
        raw matches RawDns::Cloudflare { zone_id, .. } ==> (dns matches ProviderConfig::Cloudflare {
            zone_id: z,
            api_token,
        } && z@ == zone_id@ && api_token@ == secret),
        raw matches RawDns::Rfc2136 { server, key_name, key_algorithm, .. } ==> (
        dns matches ProviderConfig::Rfc2136 {
            server: s,
            key_name: n,
            key_algorithm: a,
            key_secret,
        } && s@ == server@ && n@ == key_name@ && a@ == key_algorithm@ && key_secret@ == secret),
{
}

} // verus!
