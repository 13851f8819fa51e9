//! File identification and deduplication engine.
//!
//! Given a batch of orphan file paths (filesystem entries discovered under a
//! watched location whose content identity is still unknown), the library
//! assigns each one a content-derived identity, deduplicates identical content
//! into a single canonical `Object` record, links every file path to its
//! object, and emits the paired set of local mutations and replicated
//! operations that keep every other device converging to the same mapping.
//!
//! The local store and the replication log are modelled as plain verified
//! data; the filesystem, the database transport and serialization live with
//! the caller, which hands the library plain values.

use vstd::prelude::*;

pub mod driver;
pub mod ids;
pub mod pairing;
pub mod record;
pub mod report;
pub mod resolve;
pub mod step;
pub mod store;

verus! {

/// Orphan file paths are processed in bounded chunks of this many rows, so
/// that each database batch stays small while amortizing per-batch overhead.
pub const CHUNK_SIZE: usize = 100;

} // verus!
