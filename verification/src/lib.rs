//! Keeps AAAA records in step with a rotating IPv6 prefix.

pub mod addr;
pub mod config;
pub mod cycle;
pub mod daemon;
pub mod docker;
pub mod error;
pub mod number;
pub mod prefix;
pub mod text;
pub mod updater;
pub mod util;

pub use addr::Ipv6Addr;
pub use error::{ConfigError, Error};
