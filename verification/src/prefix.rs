//! The three ways to learn the current prefix.

pub mod dns;
pub mod netlink;
pub mod ra;
