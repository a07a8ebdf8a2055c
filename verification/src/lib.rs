//! A fee-grant authorization engine: an account that has delegated a fee
//! allowance to third parties decides here, deterministically and
//! statefully, whether a proposed spend is authorized. Two policies share
//! one coordinator shape: an allowlist over message senders and targets,
//! and a per-sender rate limit over a trailing one-hour usage window.

pub mod allowlist;
pub mod coins;
pub mod grant;
pub mod granter;
pub mod ledger;
pub mod ratelimit;
