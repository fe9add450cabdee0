//! Verified core of a market-data acquisition pipeline.
//!
//! The crate covers the logic that must be right for the numbers to be right:
//! a currency rate graph that synthesizes reverse and cross rates on demand
//! (`rates`), the retry and rate-limit bookkeeping of the provider client
//! (`retry`, `limiter`), the folding of per-ticker provider responses into one
//! instrument record (`fetch`), batch collection that tolerates per-ticker
//! failures (`batch`), and the small pure helpers around them (`calendar`,
//! `config`, `symbols`, `menu`).
//!
//! All monetary quantities are integers in micro-units (one millionth of the
//! major unit); exchange rates are exact rationals.  Network, JSON, storage
//! and rendering live outside this crate and hand plain values in.

pub mod batch;
pub mod calendar;
pub mod config;
pub mod fetch;
pub mod limiter;
pub mod menu;
pub mod rates;
pub mod retry;
pub mod symbols;

pub use rates::convert_currency;
pub use rates::get_rate_map;
pub use rates::Rate;
pub use rates::RateTable;
