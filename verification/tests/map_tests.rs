//! Tests for the compact CID key and the CID-keyed hash map.

use std::collections::hash_map::DefaultHasher;
use std::collections::HashMap;
use std::hash::{Hash, Hasher};

use cid_index::cid::{Cid, BLAKE2B256, CANONICAL_VERSION, DAG_CBOR};
use cid_index::cid_hashmap::CidHashMap;
use cid_index::small_cid::SmallCid;

/// A CID of the canonical shape: version 1, DAG-CBOR, Blake2b-256, 32-byte
/// digest.
fn canonical_cid(seed: u8) -> Cid {
    Cid {
        version: CANONICAL_VERSION,
        codec: DAG_CBOR,
        hash_code: BLAKE2B256,
        digest: vec![seed; 32],
    }
}

/// A CID outside the canonical shape.
fn odd_cid(seed: u8) -> Cid {
    Cid { version: 0, codec: 0x70, hash_code: 0x12, digest: vec![seed, 2, 3] }
}

/// The fields of a CID as a plain tuple, for the reference map.
fn key_of(c: &Cid) -> (u64, u64, u64, Vec<u8>) {
    (c.version, c.codec, c.hash_code, c.digest.clone())
}

fn hash_of(key: &SmallCid) -> u64 {
    let mut hasher = DefaultHasher::new();
    key.hash(&mut hasher);
    hasher.finish()
}

/// Decoding the encoding of a CID yields an equal CID, for both shapes.
#[test]
fn compact_key_round_trip() {
    for c in [
        canonical_cid(7),
        canonical_cid(0),
        odd_cid(1),
        Cid { version: 1, codec: DAG_CBOR, hash_code: BLAKE2B256, digest: vec![0; 31] },
        Cid { version: 1, codec: DAG_CBOR, hash_code: BLAKE2B256, digest: vec![0; 33] },
        Cid { version: 2, codec: DAG_CBOR, hash_code: BLAKE2B256, digest: vec![0; 32] },
        Cid { version: 1, codec: 0x55, hash_code: BLAKE2B256, digest: vec![0; 32] },
        Cid { version: 1, codec: DAG_CBOR, hash_code: 0x11, digest: vec![0; 32] },
    ] {
        let key = SmallCid::from(c.clone());
        assert_eq!(key.to_cid(), c);
    }
}

/// The inline fast path is chosen exactly for the canonical shape.
#[test]
fn compact_key_variant_choice() {
    assert!(matches!(SmallCid::from(canonical_cid(1)), SmallCid::Inline(_)));
    assert!(matches!(SmallCid::from(odd_cid(1)), SmallCid::Full(_)));
    let short = Cid { version: 1, codec: DAG_CBOR, hash_code: BLAKE2B256, digest: vec![0; 31] };
    assert!(matches!(SmallCid::from(short), SmallCid::Full(_)));
    let wrong_version =
        Cid { version: 0, codec: DAG_CBOR, hash_code: BLAKE2B256, digest: vec![0; 32] };
    assert!(matches!(SmallCid::from(wrong_version), SmallCid::Full(_)));
}

/// Keys are equal exactly when the CIDs are, and equal keys hash alike.
#[test]
fn key_equality_matches_cid_equality() {
    let a = canonical_cid(1);
    let b = canonical_cid(2);
    let c = odd_cid(1);
    assert_eq!(SmallCid::from(a.clone()), SmallCid::from(a.clone()));
    assert_ne!(SmallCid::from(a.clone()), SmallCid::from(b.clone()));
    assert_ne!(SmallCid::from(a.clone()), SmallCid::from(c.clone()));
    assert_eq!(SmallCid::from(c.clone()), SmallCid::from(c.clone()));
    assert_eq!(
        hash_of(&SmallCid::from(a.clone())),
        hash_of(&SmallCid::from(a.clone()))
    );
    assert_eq!(
        hash_of(&SmallCid::from(c.clone())),
        hash_of(&SmallCid::from(c.clone()))
    );
}

/// Inserting a key not present returns `None`.
#[test]
fn insert_new_key_is_none() {
    let mut map: CidHashMap<u64> = CidHashMap::new();
    assert!(map.insert(canonical_cid(1), 10).is_none());
    assert!(map.insert(odd_cid(1), 11).is_none());
}

/// Inserting a key already present returns the overwritten value.
#[test]
fn insert_existing_key_is_some() {
    let mut map: CidHashMap<u64> = CidHashMap::new();
    map.insert(canonical_cid(1), 10);
    assert_eq!(map.insert(canonical_cid(1), 20), Some(10));
    assert_eq!(map.get(canonical_cid(1)), Some(&20));
    assert_eq!(map.len(), 1);
}

/// A scripted sequence of operations applied in lockstep to the CID-keyed
/// map and to a reference map returns equal results after every step.
#[test]
fn map_differential() {
    let cids = [
        canonical_cid(1),
        canonical_cid(2),
        canonical_cid(1),
        odd_cid(1),
        odd_cid(9),
        canonical_cid(3),
        odd_cid(1),
    ];
    let mut ours: CidHashMap<u64> = CidHashMap::new();
    let mut reference: HashMap<(u64, u64, u64, Vec<u8>), u64> = HashMap::new();
    for (step, c) in cids.iter().enumerate() {
        let value = step as u64 * 3;
        assert_eq!(ours.insert(c.clone(), value), reference.insert(key_of(c), value));
        for probe in &cids {
            assert_eq!(ours.contains_key(probe.clone()), reference.contains_key(&key_of(probe)));
            assert_eq!(ours.get(probe.clone()), reference.get(&key_of(probe)));
        }
        assert_eq!(ours.len(), reference.len());
    }
    for c in &cids {
        assert_eq!(ours.remove(c.clone()), reference.remove(&key_of(c)));
        assert_eq!(ours.len(), reference.len());
        assert_eq!(ours.contains_key(c.clone()), reference.contains_key(&key_of(c)));
    }
    assert_eq!(ours.len(), 0);
    assert_eq!(ours.remove(canonical_cid(200)), None);
}

/// The capacity never falls below the length.
#[test]
fn capacity_at_least_len() {
    let mut map: CidHashMap<u64> = CidHashMap::new();
    for i in 0..10u8 {
        map.insert(canonical_cid(i), i as u64);
        assert!(map.capacity() >= map.len());
    }
}

/// Extending inserts in order, so the last pair wins on a repeated CID.
#[test]
fn extend_last_write_wins() {
    let mut map: CidHashMap<u64> = CidHashMap::new();
    map.insert(canonical_cid(1), 1);
    map.extend(vec![
        (canonical_cid(2), 2),
        (canonical_cid(1), 100),
        (odd_cid(1), 3),
        (canonical_cid(2), 200),
    ]);
    assert_eq!(map.len(), 3);
    assert_eq!(map.get(canonical_cid(1)), Some(&100));
    assert_eq!(map.get(canonical_cid(2)), Some(&200));
    assert_eq!(map.get(odd_cid(1)), Some(&3));
}

/// Iterating a populated map and collecting the pairs back yields a map
/// with equal contents.
#[test]
fn iteration_round_trip() {
    let entries: Vec<(Cid, u64)> = vec![
        (canonical_cid(1), 10),
        (canonical_cid(2), 20),
        (odd_cid(5), 30),
        (odd_cid(6), 40),
    ];
    let original = CidHashMap::from_pairs(entries.clone());
    let mut iter = original.clone().into_iter();
    let mut pairs: Vec<(Cid, u64)> = Vec::new();
    while let Some(pair) = iter.next() {
        pairs.push(pair);
    }
    assert_eq!(pairs.len(), 4);
    let rebuilt: CidHashMap<u64> = CidHashMap::from_pairs(pairs);
    assert_eq!(rebuilt.len(), original.len());
    for (c, v) in &entries {
        assert_eq!(rebuilt.get(c.clone()), Some(v));
        assert_eq!(original.get(c.clone()), Some(v));
    }
}

/// A map built from pairs equals one built by single insertions.
#[test]
fn from_pairs_matches_inserts() {
    let pairs = vec![(canonical_cid(1), 1u64), (odd_cid(2), 2), (canonical_cid(3), 3)];
    let bulk = CidHashMap::from_pairs(pairs.clone());
    let mut single: CidHashMap<u64> = CidHashMap::new();
    for (c, v) in pairs {
        single.insert(c, v);
    }
    assert_eq!(bulk.len(), single.len());
    for c in [canonical_cid(1), odd_cid(2), canonical_cid(3)] {
        assert_eq!(bulk.get(c.clone()), single.get(c));
    }
}
