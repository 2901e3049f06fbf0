//! Shared utilities: a bounded least-recently-used cache and a handful of
//! small helpers for validation, durations, identifiers, retries,
//! configuration, environment values and logging.
//!
//! Every function carries a contract. Verus proves them all but those of a
//! few small functions that call into `std` or `toml`; each of these says in
//! its comment what it calls and what is taken on trust.

use vstd::prelude::*;

pub mod cache_laws;
pub mod collections;
pub mod config;
pub mod env;
pub mod error;
pub mod id;
pub mod logging;
mod recency_list;
pub mod retry;
pub mod text;
pub mod time;
pub mod validation;

verus! {

/// The version of this crate.
pub const VERSION: &'static str = "0.0.1";

/// Returns the crate version.
pub fn version() -> (v: &'static str)
    ensures
        v@ == VERSION@,
{
    VERSION
}

} // verus!
