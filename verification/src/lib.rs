//! Content-identifier indexing primitives.
//!
//! Two independent pairs of components built around content identifiers
//! (CIDs): a 64-bit hash summary with a reserved sentinel together with a
//! division-free slot-placement function for fixed-capacity bucket tables,
//! and a compact two-variant CID key together with a CID-keyed map built on
//! it.

pub mod cid;
pub mod cid_hashmap;
pub mod download;
pub mod hash;
pub mod selector;
pub mod small_cid;
pub mod util;
