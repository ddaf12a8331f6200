//! A content identifier (CID) modelled as plain values.
//!
//! A CID is an immutable value made of a version tag, a content codec tag, a
//! hash-function code and a digest whose length is determined by the hash
//! function. CIDs are compared by full structural equality of all four
//! fields. The overwhelming majority of identifiers produced by the
//! canonical object format share one shape — version 1, the DAG-CBOR codec,
//! the Blake2b-256 hash function and a 32-byte digest — which the compact
//! key representation exploits.

use vstd::prelude::*;

verus! {

/// Content codec tag of the canonical object format (DAG-CBOR).
pub const DAG_CBOR: u64 = 0x71;

/// Hash-function code of the canonical object format (Blake2b-256).
pub const BLAKE2B256: u64 = 0xb220;

/// Digest length, in bytes, of the canonical object format.
pub const CANONICAL_DIGEST_LEN: usize = 32;

/// CID version tag of the canonical object format.
pub const CANONICAL_VERSION: u64 = 1;

/// The mathematical value of a content identifier: the four fields, with the
/// digest as a byte sequence.
#[verifier::ext_equal]
pub ghost struct CidSpec {
    pub version: u64,
    pub codec: u64,
    pub hash_code: u64,
    pub digest: Seq<u8>,
}

/// A content identifier.
#[derive(Debug, Hash)]
pub struct Cid {
    /// Version tag.
    pub version: u64,
    /// Content codec tag.
    pub codec: u64,
    /// Hash-function code.
    pub hash_code: u64,
    /// Digest bytes.
    pub digest: Vec<u8>,
}

impl View for Cid {
    type V = CidSpec;

    open spec fn view(&self) -> CidSpec {
        CidSpec {
            version: self.version,
            codec: self.codec,
            hash_code: self.hash_code,
            digest: self.digest@,
        }
    }
}

/// Whether `c` has the canonical shape: version 1, the DAG-CBOR codec, the
/// Blake2b-256 hash function and a 32-byte digest.
pub open spec fn is_canonical(c: CidSpec) -> bool {
    &&& c.version == CANONICAL_VERSION
    &&& c.codec == DAG_CBOR
    &&& c.hash_code == BLAKE2B256
    &&& c.digest.len() == CANONICAL_DIGEST_LEN
}

impl Clone for Cid {
    /// An equal CID: all four fields are copied.
    fn clone(&self) -> (r: Cid)
        ensures
            r@ == self@,
    {
        let digest = self.digest.clone();
        proof {
            assert(digest@ =~= self.digest@);
        }
        Cid { version: self.version, codec: self.codec, hash_code: self.hash_code, digest }
    }
}

impl PartialEq for Cid {
    /// Full structural equality of all four fields.
    fn eq(&self, other: &Cid) -> (r: bool) {
        let r = self.version == other.version && self.codec == other.codec
            && self.hash_code == other.hash_code && self.digest == other.digest;
        proof {
            if r {
                assert(self.digest@ =~= other.digest@);
                assert(self@ =~= other@);
            }
        }
        r
    }
}

impl vstd::std_specs::cmp::PartialEqSpecImpl for Cid {
    open spec fn obeys_eq_spec() -> bool {
        true
    }

    /// Two CIDs are equal exactly when their mathematical values coincide.
    open spec fn eq_spec(&self, other: &Cid) -> bool {
        self@ == other@
    }
}

impl Eq for Cid {}

impl Cid {
    /// Whether this CID has the canonical shape.
    pub fn is_canonical_shape(&self) -> (r: bool)
        ensures
            r == is_canonical(self@),
    {
        self.version == CANONICAL_VERSION && self.codec == DAG_CBOR
            && self.hash_code == BLAKE2B256 && self.digest.len() == CANONICAL_DIGEST_LEN
    }
}

} // verus!
