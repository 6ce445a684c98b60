//! Chunked-upload engine for a small photo-sync server.
//!
//! The core of the library is [`engine::UploadEngine`]: session bookkeeping,
//! chunk ingestion, cancellation, merge/finalize, and lifecycle event
//! broadcast for uploads that arrive split into indexed chunks.

pub mod api;
pub mod auth;
pub mod config;
pub mod engine;
pub mod events;
pub mod hex;
pub mod laws;
pub mod misc;
pub mod models;
pub mod net;
pub mod outside;
pub mod registry;
pub mod store;

use vstd::prelude::*;

verus! {

/// Integer-truncated progress percentage, `received * 100 / total`.
///
/// Matches the wire format used in progress events: the result is exact
/// integer division, so for example 5 of 1000 bytes reports 0 percent.
pub fn progress_percent(received: u64, total: u64) -> (r: u8)
    requires
        total > 0,
        received <= total,
    ensures
        r == received * 100 / (total as int),
{
    let wide: u128 = (received as u128) * 100 / (total as u128);
    proof {
        assert(received * 100 / (total as int) <= 100) by (nonlinear_arith)
            requires
                total > 0,
                received <= total,
        ;
    }
    wide as u8
}

} // verus!
