//! What can go wrong, and how it is told.

use vstd::prelude::*;

use crate::text::{concat2, concat3};

verus! {

/// Any failure of the daemon.
#[derive(Debug)]
pub enum Error {
    Config(ConfigError),
    Prefix(String),
    Update { domain: String, source: String },
    Io(String),
    Other(String),
}

/// A configuration that cannot be used.
#[derive(Debug)]
pub enum ConfigError {
    Io(String),
    Parse(String),
    MissingField(String),
    EnvNotSet(String),
    EmptyHosts,
    InvalidSuffix(String, String),
    UnknownAlgorithm(String),
}

impl From<ConfigError> for Error {
    fn from(e: ConfigError) -> (r: Error) {
        Error::Config(e)
    }
}

impl vstd::std_specs::convert::FromSpecImpl<ConfigError> for Error {
    open spec fn obeys_from_spec() -> bool {
        true
    }

    open spec fn from_spec(e: ConfigError) -> Error {
        Error::Config(e)
    }
}

/// The message of a configuration error.
pub open spec fn config_message(e: ConfigError) -> Seq<char> {
    match e {
        ConfigError::Io(cause) => "IO error reading config: "@ + cause@,
        ConfigError::Parse(cause) => "TOML parse error: "@ + cause@,
        ConfigError::MissingField(field) => "missing required field: "@ + field@,
        ConfigError::EnvNotSet(variable) => "environment variable not set: "@ + variable@,
        ConfigError::EmptyHosts => "hosts list is empty"@,
        ConfigError::InvalidSuffix(suffix, cause) => "invalid suffix '"@ + suffix@ + "': "@
            + cause@,
        ConfigError::UnknownAlgorithm(name) => "unknown key algorithm '"@ + name@
            + "'; expected hmac-sha256 or hmac-sha512"@,
    }
}

/// The message of an error.
pub open spec fn error_message(e: Error) -> Seq<char> {
    match e {
        Error::Config(cause) => "config: "@ + config_message(cause),
        Error::Prefix(cause) => "prefix detection failed: "@ + cause@,
        Error::Update { domain, source } => "DNS update failed for "@ + domain@ + ": "@ + source@,
        Error::Io(cause) => "IO error: "@ + cause@,
        Error::Other(cause) => cause@,
    }
}

impl ConfigError {
    /// The message for a user.
    pub fn message(&self) -> (text: String)
        ensures
            text@ == config_message(*self),
    {
        match self {
            ConfigError::Io(cause) => concat2("IO error reading config: ", cause.as_str()),
            ConfigError::Parse(cause) => concat2("TOML parse error: ", cause.as_str()),
            ConfigError::MissingField(field) => concat2("missing required field: ", field.as_str()),
            ConfigError::EnvNotSet(variable) => concat2(
                "environment variable not set: ",
                variable.as_str(),
            ),
            ConfigError::EmptyHosts => "hosts list is empty".to_string(),
            ConfigError::InvalidSuffix(suffix, cause) => {
                let mut text = concat3("invalid suffix '", suffix.as_str(), "': ");
                text.append(cause.as_str());
                text
            },
            ConfigError::UnknownAlgorithm(name) => concat3(
                "unknown key algorithm '",
                name.as_str(),
                "'; expected hmac-sha256 or hmac-sha512",
            ),
        }
    }
}

impl Error {
    /// The message for a user.
    pub fn message(&self) -> (text: String)
        ensures
            text@ == error_message(*self),
    {
        match self {
            Error::Config(cause) => concat2("config: ", cause.message().as_str()),
            Error::Prefix(cause) => concat2("prefix detection failed: ", cause.as_str()),
            Error::Update { domain, source } => {
                let mut text = concat3("DNS update failed for ", domain.as_str(), ": ");
                text.append(source.as_str());
                text
            },
            Error::Io(cause) => concat2("IO error: ", cause.as_str()),
            Error::Other(cause) => cause.clone(),
        }
    }
}

/// A message made of `front` and a cause ends in the whole cause.
proof fn lemma_ends_in(front: Seq<char>, cause: Seq<char>)
    ensures
        (front + cause).len() == front.len() + cause.len(),
        (front + cause).take(front.len() as int) == front,
        (front + cause).skip(front.len() as int) == cause,
{
    assert((front + cause).take(front.len() as int) =~= front);
    assert((front + cause).skip(front.len() as int) =~= cause);
}

/// The message of a configuration error ends in its whole cause, behind what the cause is
/// of.
pub proof fn law_config_message_ends_in_cause(text: String)
    ensures
        ({
            let m = config_message(ConfigError::Io(text));
            m.take(25) == "IO error reading config: "@ && m.skip(25) == text@
        }),
        ({
            let m = config_message(ConfigError::Parse(text));
            m.take(18) == "TOML parse error: "@ && m.skip(18) == text@
        }),
        ({
            let m = config_message(ConfigError::MissingField(text));
            m.take(24) == "missing required field: "@ && m.skip(24) == text@
        }),
        ({
            let m = config_message(ConfigError::EnvNotSet(text));
            m.take(30) == "environment variable not set: "@ && m.skip(30) == text@
        }),
{
    reveal_strlit("IO error reading config: ");
    reveal_strlit("TOML parse error: ");
    reveal_strlit("missing required field: ");
    reveal_strlit("environment variable not set: ");
    lemma_ends_in("IO error reading config: "@, text@);
    lemma_ends_in("TOML parse error: "@, text@);
    lemma_ends_in("missing required field: "@, text@);
    lemma_ends_in("environment variable not set: "@, text@);
}

/// The messages about a suffix and an algorithm quote what was configured, in full.
pub proof fn law_config_message_quotes(text: String, cause: String)
    ensures
        ({
            let m = config_message(ConfigError::InvalidSuffix(text, cause));
            let n = text@.len() as int;
            &&& m.take(16) == "invalid suffix '"@
            &&& m.subrange(16, 16 + n) == text@
            &&& m.subrange(16 + n, 19 + n) == "': "@
            &&& m.skip(19 + n) == cause@
        }),
        ({
            let m = config_message(ConfigError::UnknownAlgorithm(text));
            let n = text@.len() as int;
            &&& m.take(23) == "unknown key algorithm '"@
            &&& m.subrange(23, 23 + n) == text@
            &&& m.skip(23 + n) == "'; expected hmac-sha256 or hmac-sha512"@
        }),
{
    reveal_strlit("invalid suffix '");
    reveal_strlit("': ");
    reveal_strlit("unknown key algorithm '");
    let n = text@.len() as int;
    let m = config_message(ConfigError::InvalidSuffix(text, cause));
    assert(m.take(16) =~= "invalid suffix '"@);
    assert(m.subrange(16, 16 + n) =~= text@);
    assert(m.subrange(16 + n, 19 + n) =~= "': "@);
    assert(m.skip(19 + n) =~= cause@);
    let m = config_message(ConfigError::UnknownAlgorithm(text));
    assert(m.take(23) =~= "unknown key algorithm '"@);
    assert(m.subrange(23, 23 + n) =~= text@);
    assert(m.skip(23 + n) =~= "'; expected hmac-sha256 or hmac-sha512"@);
}

/// The message of an error ends in its whole cause; that of a failed update names the domain
/// in full before it.
pub proof fn law_error_message_ends_in_cause(config: ConfigError, domain: String, text: String)
    ensures
        ({
            let m = error_message(Error::Config(config));
            m.take(8) == "config: "@ && m.skip(8) == config_message(config)
        }),
        ({
            let m = error_message(Error::Prefix(text));
            m.take(25) == "prefix detection failed: "@ && m.skip(25) == text@
        }),
        ({
            let m = error_message(Error::Update { domain, source: text });
            let n = domain@.len() as int;
            &&& m.take(22) == "DNS update failed for "@
            &&& m.subrange(22, 22 + n) == domain@
            &&& m.subrange(22 + n, 24 + n) == ": "@
            &&& m.skip(24 + n) == text@
        }),
        ({
            let m = error_message(Error::Io(text));
            m.take(10) == "IO error: "@ && m.skip(10) == text@
        }),
        error_message(Error::Other(text)) == text@,
{
    reveal_strlit("config: ");
    reveal_strlit("prefix detection failed: ");
    reveal_strlit("DNS update failed for ");
    reveal_strlit(": ");
    reveal_strlit("IO error: ");
    lemma_ends_in("config: "@, config_message(config));
    lemma_ends_in("prefix detection failed: "@, text@);
    lemma_ends_in("IO error: "@, text@);
    let m = error_message(Error::Update { domain, source: text });
    let n = domain@.len() as int;
    assert(m.take(22) =~= "DNS update failed for "@);
    assert(m.subrange(22, 22 + n) =~= domain@);
    assert(m.subrange(22 + n, 24 + n) =~= ": "@);
    assert(m.skip(24 + n) =~= text@);
}

} // verus!
