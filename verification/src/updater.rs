//! The two ways to update records, and how both are tried again.

pub mod cloudflare;
pub mod retry;
pub mod rfc2136;
