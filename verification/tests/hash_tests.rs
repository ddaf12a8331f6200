//! Tests for the hash summary and slot placement.

use cid_index::cid::{Cid, BLAKE2B256, CANONICAL_VERSION, DAG_CBOR};
use cid_index::hash::{from_ideal_slot_ix, ideal_slot_ix, summary};
use cid_index::util::NonMaximalU64;

/// A CID built the way the canonical object format does: version 1, the
/// DAG-CBOR codec and the Blake2b-256 hash of the CBOR encoding of a short
/// text value.
fn cid_from_cbor_blake2b(value: &str) -> Cid {
    assert!(value.len() < 24);
    // CBOR header of a short text string: major type 3 with the length.
    let mut data = vec![0x60u8 + value.len() as u8];
    data.extend_from_slice(value.as_bytes());
    let digest = blake2b_simd::Params::new().hash_length(32).hash(&data);
    Cid {
        version: CANONICAL_VERSION,
        codec: DAG_CBOR,
        hash_code: BLAKE2B256,
        digest: digest.as_bytes().to_vec(),
    }
}

/// A version-1 CID over an identity multihash of the given bytes.
fn cid_v1_identity(codec: u64, digest: &[u8]) -> Cid {
    Cid { version: 1, codec, hash_code: 0x0, digest: digest.to_vec() }
}

/// Hash stability tests.
#[test]
fn snapshots() {
    for (cid, expected) in [
        (Cid { version: 0, codec: 0, hash_code: 0, digest: Vec::new() }, 0),
        (cid_from_cbor_blake2b("forest"), 7060553106844083342),
        (cid_from_cbor_blake2b("lotus"), 10998694778601859716),
        (cid_from_cbor_blake2b("libp2p"), 15878333306608412239),
        (cid_from_cbor_blake2b("ChainSafe"), 17464860692676963753),
        (cid_from_cbor_blake2b("haskell"), 10392497608425502268),
        (cid_v1_identity(0xAB, &[]), 170),
        (cid_v1_identity(0xAC, &[1, 2, 3, 4]), 171),
        (
            cid_v1_identity(0xAD, &[1, 2, 3, 4, 5, 6, 7, 8]),
            578437695752307371,
        ),
    ] {
        assert_eq!(summary(&cid), NonMaximalU64::new(expected).unwrap())
    }
}

fn do_backwards(ideal: usize, num_buckets: usize) {
    let mut candidates = from_ideal_slot_ix(ideal, num_buckets);
    let first = candidates.next();
    assert!(first.is_some(), "must have at least one candidate");
    // Bounded walk: no point in checking e.g. u64::MAX candidates.
    let mut current = first;
    let mut checked: usize = 0;
    while let Some(candidate) = current {
        assert_eq!(ideal, ideal_slot_ix(candidate, num_buckets));
        checked += 1;
        if checked >= 1024 {
            break;
        }
        current = candidates.next();
    }
}

/// Small offsets and lengths can be checked exhaustively.
#[test]
fn small_backwards() {
    for num_buckets in 1..u8::MAX {
        let num_buckets = usize::from(num_buckets);
        for ideal in 0..num_buckets {
            do_backwards(ideal, num_buckets)
        }
    }
}

/// The summary never takes the reserved sentinel value, and the remapping
/// saturates at zero.
#[test]
fn sentinel_reserved() {
    assert!(NonMaximalU64::new(u64::MAX).is_none());
    assert_eq!(NonMaximalU64::fit(u64::MAX).get(), u64::MAX - 1);
    assert_eq!(NonMaximalU64::fit(0).get(), 0);
    assert_eq!(NonMaximalU64::fit(171).get(), 170);
    for digest in [&[][..], &[0xFFu8; 64][..], &[7u8; 31][..]] {
        let cid = Cid { version: 1, codec: 0x71, hash_code: 0xb220, digest: digest.to_vec() };
        assert_ne!(summary(&cid).get(), u64::MAX);
    }
}

/// The slot index stays below the bucket count for a spread of inputs.
#[test]
fn slot_always_in_range() {
    for num_buckets in [1usize, 2, 3, 7, 255, 1 << 20, usize::MAX] {
        for hash in [0u64, 1, 0xdead_beef, u64::MAX / 2, u64::MAX - 1] {
            let hash = NonMaximalU64::new(hash).unwrap();
            assert!(ideal_slot_ix(hash, num_buckets) < num_buckets);
        }
    }
}

/// A bucket count of one maps every hash to slot zero.
#[test]
fn single_bucket_always_zero() {
    for hash in [0u64, 1, 12345, u64::MAX / 3, u64::MAX - 1] {
        let hash = NonMaximalU64::new(hash).unwrap();
        assert_eq!(ideal_slot_ix(hash, 1), 0);
    }
}

/// The forward function distributes two buckets at the expected boundary.
#[test]
fn two_buckets_split_at_half() {
    let low = NonMaximalU64::new(0).unwrap();
    let below = NonMaximalU64::new(u64::MAX / 2).unwrap();
    let above = NonMaximalU64::new(u64::MAX / 2 + 1).unwrap();
    assert_eq!(ideal_slot_ix(low, 2), 0);
    assert_eq!(ideal_slot_ix(below, 2), 0);
    assert_eq!(ideal_slot_ix(above, 2), 1);
}
