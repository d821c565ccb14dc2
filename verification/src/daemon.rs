//! From a configuration to the parts of the daemon, and the events that drive it.

use vstd::prelude::*;

use crate::config::{PrefixConfig, ProviderConfig, ValidatedConfig};
use crate::error::{ConfigError, Error};
use crate::prefix::dns::DnsResolver;
use crate::prefix::netlink::NetlinkWatcher;
use crate::prefix::ra::RaListener;
use crate::updater::cloudflare::CloudflareUpdater;
use crate::updater::rfc2136::Rfc2136Updater;

verus! {

/// A way to learn the prefix.
pub enum Detector {
    Dns(DnsResolver),
    Netlink(NetlinkWatcher),
    Ra(RaListener),
}

/// A way to update records.
pub enum Updater {
    Cloudflare(CloudflareUpdater),
    Rfc2136(Rfc2136Updater),
}

/// The detector that the configuration asks for. Watching an interface works on Linux only.
pub fn build_detector(config: &ValidatedConfig, on_linux: bool) -> (detector: Result<
    Detector,
    Error,
>)
    ensures
        match config.prefix {
            PrefixConfig::Dns { reference_domain } => detector matches Ok(Detector::Dns(d))
                && d.reference_domain == reference_domain && d.interval_secs
                == config.interval_secs && d.last is None,
            PrefixConfig::Netlink { interface } => if on_linux {
                detector matches Ok(Detector::Netlink(d)) && d.interface == interface
            } else {
                is_linux_only(detector)
            },
            PrefixConfig::Ra { interface } => if on_linux {
                detector matches Ok(Detector::Ra(d)) && d.interface == interface
                    && d.last_prefix is None
            } else {
                is_linux_only(detector)
            },
        },
{
    match &config.prefix {
        PrefixConfig::Dns { reference_domain } => Ok(
            Detector::Dns(DnsResolver::new(reference_domain.clone(), config.interval_secs)),
        ),
        PrefixConfig::Netlink { interface } => {
            if !on_linux {
                return Err(linux_only());
            }
            Ok(Detector::Netlink(NetlinkWatcher::new(interface.clone())))
        },
        PrefixConfig::Ra { interface } => {
            if !on_linux {
                return Err(linux_only());
            }
            Ok(Detector::Ra(RaListener::new(interface.clone())))
        },
    }
}

/// Whether the detector was refused because the system is not Linux.
pub open spec fn is_linux_only(detector: Result<Detector, Error>) -> bool {
    detector matches Err(Error::Config(ConfigError::MissingField(t))) && t@
        == "netlink and ra methods are Linux-only"@
}

/// The error for detectors that need Linux.
fn linux_only() -> (e: Error)
    ensures
        e matches Error::Config(ConfigError::MissingField(t)) && t@
            == "netlink and ra methods are Linux-only"@,
{
    Error::Config(
        ConfigError::MissingField("netlink and ra methods are Linux-only".to_string()),
    )
}

/// The updater that the configuration asks for.
pub fn build_updater(config: &ValidatedConfig) -> (updater: Result<Updater, Error>)
    ensures
        match config.dns {
            ProviderConfig::Cloudflare { zone_id, api_token } => updater matches Ok(
                Updater::Cloudflare(u),
            ) && u.zone_id == zone_id && u.api_token == api_token,
            ProviderConfig::Rfc2136 { server, key_name, key_algorithm, key_secret } =>
            match crate::updater::rfc2136::algorithm_named(key_algorithm@) {
                None => updater matches Err(Error::Config(ConfigError::UnknownAlgorithm(name)))
                    && name@ == key_algorithm@,
                Some(algorithm) => match crate::updater::rfc2136::client_for(
                    server@,
                    key_name@,
                    vstd::utf8::encode_utf8(key_secret@),
                    algorithm,
                ) {
                    Ok(client) => updater matches Ok(Updater::Rfc2136(u)) && u.made_client()
                        == client,
                    Err(cause) => updater matches Err(Error::Other(t)) && t@ == cause,
                },
            },
        },
{
    match &config.dns {
        ProviderConfig::Cloudflare { zone_id, api_token } => Ok(
            Updater::Cloudflare(CloudflareUpdater::new(zone_id.clone(), api_token.clone())),
        ),
        ProviderConfig::Rfc2136 { server, key_name, key_algorithm, key_secret } => {
            match Rfc2136Updater::new(
                server.clone(),
                key_name.clone(),
                key_algorithm.clone(),
                key_secret.clone(),
            ) {
                Ok(updater) => Ok(Updater::Rfc2136(updater)),
                Err(e) => Err(e),
            }
        },
    }
}

/// A configuration that was validated names an algorithm that the updater knows.
pub proof fn law_validated_algorithm_is_known(config: ValidatedConfig)
    requires
        config.wf(),
    ensures
        config.dns matches ProviderConfig::Rfc2136 { key_algorithm, .. }
            ==> crate::updater::rfc2136::algorithm_named(key_algorithm@) is Some,
{
}

/// What the main loop waits for.
#[derive(Clone, Copy, Debug)]
pub enum Event {
    PrefixChange,
    ForceRefresh,
    Shutdown,
}

/// Whether an event calls for an update cycle: a change of the prefix and a forced
/// refresh do, a shutdown ends the loop instead.
pub fn runs_cycle(event: Event) -> (yes: bool)
    ensures
        yes == !(event is Shutdown),
{
    match event {
        Event::PrefixChange => true,
        Event::ForceRefresh => true,
        Event::Shutdown => false,
    }
}

} // verus!
