//! A lossless, two-variant compact encoding of a CID.
//!
//! A generic CID representation reserves a large buffer for any supported
//! digest length, although nearly all identifiers produced by the canonical
//! object format carry one specific 32-byte digest. The compact key stores
//! only the digest for that shape and falls back to an owned full copy for
//! every other CID, cutting per-key memory by roughly two-thirds with no
//! change in observable behaviour.

use vstd::prelude::*;
use vstd::std_specs::cmp::PartialEqSpec;

use crate::cid::{
    is_canonical, Cid, CidSpec, BLAKE2B256, CANONICAL_DIGEST_LEN, CANONICAL_VERSION, DAG_CBOR,
};

verus! {

/// A compact CID key: an inline digest for the canonical shape, an owned
/// full copy for everything else.
#[derive(Debug, Hash)]
pub enum SmallCid {
    /// The digest of a CID of the canonical shape; the other three fields
    /// are implied.
    Inline(Vec<u8>),
    /// An arbitrary CID, stored whole.
    Full(Cid),
}

impl View for SmallCid {
    /// The CID a key stands for.
    open spec fn view(&self) -> CidSpec {
        match *self {
            SmallCid::Inline(d) => CidSpec {
                version: CANONICAL_VERSION,
                codec: DAG_CBOR,
                hash_code: BLAKE2B256,
                digest: d@,
            },
            SmallCid::Full(c) => c@,
        }
    }

    type V = CidSpec;
}

impl SmallCid {
    /// The keys that encoding can produce: an inline digest always has the
    /// canonical length, and the fallback is never used for a CID of the
    /// canonical shape.
    pub open spec fn wf(self) -> bool {
        match self {
            SmallCid::Inline(d) => d@.len() == CANONICAL_DIGEST_LEN,
            SmallCid::Full(c) => !is_canonical(c@),
        }
    }

    /// What encoding a CID yields: the inline fast path exactly for the
    /// canonical shape, the owned fallback otherwise.
    pub open spec fn encode_spec(c: Cid) -> SmallCid {
        if is_canonical(c@) {
            SmallCid::Inline(c.digest)
        } else {
            SmallCid::Full(c)
        }
    }

    /// Reconstructs the CID this key stands for; the lossless inverse of
    /// encoding.
    pub fn to_cid(self) -> (r: Cid)
        ensures
            r@ == self@,
    {
        match self {
            SmallCid::Inline(d) => Cid {
                version: CANONICAL_VERSION,
                codec: DAG_CBOR,
                hash_code: BLAKE2B256,
                digest: d,
            },
            SmallCid::Full(c) => c,
        }
    }
}

impl Clone for SmallCid {
    /// An equal key: the variant is kept and its payload copied.
    fn clone(&self) -> (r: SmallCid)
        ensures
            r@ == self@,
            r.wf() == self.wf(),
    {
        match self {
            SmallCid::Inline(d) => {
                let digest = d.clone();
                proof {
                    assert(digest@ =~= d@);
                }
                SmallCid::Inline(digest)
            },
            SmallCid::Full(c) => SmallCid::Full(c.clone()),
        }
    }
}

impl From<Cid> for SmallCid {
    /// Encodes a CID, choosing the inline fast path exactly when the CID has
    /// the canonical shape.
    fn from(c: Cid) -> (r: SmallCid) {
        if c.is_canonical_shape() {
            SmallCid::Inline(c.digest)
        } else {
            SmallCid::Full(c)
        }
    }
}

impl vstd::std_specs::convert::FromSpecImpl<Cid> for SmallCid {
    open spec fn obeys_from_spec() -> bool {
        true
    }

    open spec fn from_spec(c: Cid) -> SmallCid {
        SmallCid::encode_spec(c)
    }
}

impl PartialEq for SmallCid {
    /// Keys of the same variant compare by their payloads; keys of
    /// different variants are never equal.
    fn eq(&self, other: &SmallCid) -> (r: bool) {
        match (self, other) {
            (SmallCid::Inline(a), SmallCid::Inline(b)) => {
                let r = a == b;
                proof {
                    if r {
                        assert(a@ =~= b@);
                    }
                }
                r
            },
            (SmallCid::Full(a), SmallCid::Full(b)) => a == b,
            _ => false,
        }
    }
}

impl vstd::std_specs::cmp::PartialEqSpecImpl for SmallCid {
    open spec fn obeys_eq_spec() -> bool {
        true
    }

    open spec fn eq_spec(&self, other: &SmallCid) -> bool {
        match (*self, *other) {
            (SmallCid::Inline(a), SmallCid::Inline(b)) => a@ == b@,
            (SmallCid::Full(a), SmallCid::Full(b)) => a@ == b@,
            _ => false,
        }
    }
}

impl Eq for SmallCid {}

/// Law: encoding is total and lossless. For every CID, the key it encodes
/// to is well formed and stands for that same CID, so decoding the encoding
/// of any CID yields an equal CID.
pub proof fn lemma_encode_round_trip(c: Cid)
    ensures
        SmallCid::encode_spec(c).wf(),
        SmallCid::encode_spec(c)@ == c@,
{
    if is_canonical(c@) {
        assert(SmallCid::encode_spec(c)@ =~= c@);
    }
}

/// Law: among the keys that encoding can produce, key equality coincides
/// with equality of the CIDs the keys stand for.
pub proof fn lemma_wf_key_equality(a: SmallCid, b: SmallCid)
    requires
        a.wf(),
        b.wf(),
    ensures
        a.eq_spec(&b) <==> a@ == b@,
{
    match (a, b) {
        (SmallCid::Inline(x), SmallCid::Inline(y)) => {
            if x@ == y@ {
                assert(a@ =~= b@);
            }
        },
        (SmallCid::Inline(x), SmallCid::Full(c)) => {
            assert(is_canonical(a@));
        },
        (SmallCid::Full(c), SmallCid::Inline(y)) => {
            assert(is_canonical(b@));
        },
        (SmallCid::Full(c), SmallCid::Full(d)) => {},
    }
}

/// Law: two CIDs encode to equal keys exactly when they are equal CIDs, so
/// the compact key is a sound hash-map key for CIDs.
pub proof fn lemma_key_equality(a: Cid, b: Cid)
    ensures
        SmallCid::encode_spec(a).eq_spec(&SmallCid::encode_spec(b)) <==> a.eq_spec(&b),
{
    lemma_encode_round_trip(a);
    lemma_encode_round_trip(b);
    lemma_wf_key_equality(SmallCid::encode_spec(a), SmallCid::encode_spec(b));
}

} // verus!
