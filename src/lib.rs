//! Uptime reporting for a remote monitoring service: weekly records are folded
//! into per-check statistics, fetches are dispatched under a concurrency cap,
//! failed checks are dropped, and the survivors are ranked by name.
pub mod dates;
pub mod dispatch;
pub mod rank;
pub mod uptime;
