//! Hash summary and slot placement.
//!
//! `summary` folds a CID's codec tag, hash-function code and digest into a
//! single 64-bit fingerprint that never equals the reserved sentinel.
//! `ideal_slot_ix` maps such a fingerprint to an index of a bucket table of
//! a caller-chosen positive size with a widened multiplication and a shift
//! instead of a division. `from_ideal_slot_ix` reverse-engineers, for a
//! target index, the hash values that land on it; it serves as a test
//! oracle for the placement function.

use vstd::arithmetic::div_mod::{
    lemma_div_pos_is_pos, lemma_fundamental_div_mod, lemma_fundamental_div_mod_converse_div,
    lemma_mod_division_less_than_divisor, lemma_multiply_divide_lt,
};
use vstd::arithmetic::power2::lemma2_to64;
use vstd::bits::lemma_u128_shr_is_div;
use vstd::prelude::*;

use crate::cid::{Cid, CidSpec};
use crate::util::{fit_to_non_maximal, NonMaximalU64};

verus! {

/// The size of the 64-bit hash space: one more than `u64::MAX`.
pub const HASH_SPACE: u128 = 0x1_0000_0000_0000_0000;

/// The `i`-th complete 8-byte chunk of `d`, read as a little-endian 64-bit
/// value.
pub open spec fn le_chunk(d: Seq<u8>, i: int) -> u64 {
    (d[8 * i] as u64) | ((d[8 * i + 1] as u64) << 8) | ((d[8 * i + 2] as u64) << 16) | ((d[8 * i
        + 3] as u64) << 24) | ((d[8 * i + 4] as u64) << 32) | ((d[8 * i + 5] as u64) << 40) | ((d[8
        * i + 6] as u64) << 48) | ((d[8 * i + 7] as u64) << 56)
}

/// `seed` XOR-ed with the first `n` complete 8-byte chunks of `d`.
pub open spec fn xor_chunks(seed: u64, d: Seq<u8>, n: int) -> u64
    decreases n,
{
    if n <= 0 {
        seed
    } else {
        xor_chunks(seed, d, n - 1) ^ le_chunk(d, n - 1)
    }
}

/// The summary of a CID: an accumulator seeded with `codec XOR hash_code`
/// absorbs every complete 8-byte little-endian chunk of the digest by XOR
/// (trailing bytes are discarded), and the result is remapped away from the
/// reserved sentinel.
pub open spec fn summary_spec(c: CidSpec) -> u64 {
    fit_to_non_maximal(xor_chunks(c.codec ^ c.hash_code, c.digest, c.digest.len() as int / 8))
}

/// Law: no CID's summary is the reserved sentinel value.
pub proof fn lemma_summary_avoids_sentinel(c: CidSpec)
    ensures
        summary_spec(c) != u64::MAX,
{
}

/// Summarizes a CID's internal hash as a 64-bit, non-maximal fingerprint.
pub fn summary(cid: &Cid) -> (r: NonMaximalU64)
    ensures
        r.spec_get() == summary_spec(cid@),
        r.spec_get() != u64::MAX,
{
    let seed = cid.codec ^ cid.hash_code;
    let len = cid.digest.len();
    let n = len / 8;
    proof {
        lemma_fundamental_div_mod(len as int, 8);
        lemma_mod_division_less_than_divisor(len as int, 8);
    }
    let mut acc = seed;
    let mut i: usize = 0;
    while i < n
        invariant
            i <= n,
            8 * (n as int) <= cid.digest@.len(),
            8 * (n as int) <= usize::MAX,
            n == cid.digest@.len() as int / 8,
            seed == cid@.codec ^ cid@.hash_code,
            acc == xor_chunks(seed, cid.digest@, i as int),
        decreases n - i,
    {
        let base = 8 * i;
        let chunk = (cid.digest[base] as u64) | ((cid.digest[base + 1] as u64) << 8) | ((cid.digest[base
            + 2] as u64) << 16) | ((cid.digest[base + 3] as u64) << 24) | ((cid.digest[base
            + 4] as u64) << 32) | ((cid.digest[base + 5] as u64) << 40) | ((cid.digest[base
            + 6] as u64) << 48) | ((cid.digest[base + 7] as u64) << 56);
        proof {
            assert(chunk == le_chunk(cid.digest@, i as int));
        }
        acc = acc ^ chunk;
        i = i + 1;
    }
    NonMaximalU64::fit(acc)
}

/// The bucket index a hash is mapped to: the high half of the full-width
/// product of the hash and the bucket count. This partitions the 64-bit
/// hash space into `num_buckets` contiguous, near-equal ranges.
pub open spec fn slot_of(hash: int, num_buckets: int) -> int {
    hash * num_buckets / (HASH_SPACE as int)
}

/// Law: for every 64-bit hash value and every positive bucket count, the
/// ideal slot index lies below the bucket count.
pub proof fn lemma_slot_in_range(hash: int, num_buckets: int)
    requires
        0 <= hash <= u64::MAX,
        1 <= num_buckets,
    ensures
        0 <= slot_of(hash, num_buckets) < num_buckets,
{
    let m = HASH_SPACE as int;
    assert(0 <= hash * num_buckets < m * num_buckets) by (nonlinear_arith)
        requires
            0 <= hash < m,
            1 <= num_buckets,
    ;
    lemma_multiply_divide_lt(hash * num_buckets, m, num_buckets);
    lemma_div_pos_is_pos(hash * num_buckets, m);
}

/// Law: with a single bucket, every hash value lands on slot zero.
pub proof fn lemma_single_bucket(hash: int)
    requires
        0 <= hash <= u64::MAX,
    ensures
        slot_of(hash, 1) == 0,
{
    lemma_slot_in_range(hash, 1);
}

/// Desired slot for a hash with a given table length.
///
/// The division by the hash-space size is carried out as a right shift of
/// the widened product, avoiding a slow division on the lookup path.
pub fn ideal_slot_ix(hash: NonMaximalU64, num_buckets: usize) -> (r: usize)
    requires
        1 <= num_buckets,
    ensures
        r == slot_of(hash.spec_get() as int, num_buckets as int),
        r < num_buckets,
{
    let h = hash.get();
    proof {
        assert((h as int) * (num_buckets as int) < (HASH_SPACE as int) * (num_buckets as int))
            by (nonlinear_arith)
            requires
                0 <= (h as int) < (HASH_SPACE as int),
                1 <= num_buckets as int,
        ;
        assert((HASH_SPACE as int) * (num_buckets as int) <= (HASH_SPACE as int) * (u64::MAX
            as int)) by (nonlinear_arith)
            requires
                1 <= (num_buckets as int) <= (u64::MAX as int),
        ;
    }
    let wide: u128 = (h as u128) * (num_buckets as u128);
    let shifted = wide >> 64;
    proof {
        lemma_u128_shr_is_div(wide, 64);
        lemma2_to64();
        lemma_multiply_divide_lt(wide as int, HASH_SPACE as int, num_buckets as int);
        lemma_div_pos_is_pos(wide as int, HASH_SPACE as int);
    }
    shifted as usize
}

/// The least hash value whose slot can be `ideal`: the lower end of the
/// `ideal`-th range of the partitioned hash space, rounded up.
pub open spec fn min_hash_for(ideal: int, num_buckets: int) -> int {
    (HASH_SPACE as int * ideal + num_buckets - 1) / num_buckets
}

/// The number of consecutive hash values the reverse mapping walks for one
/// bucket: a lower bound on every bucket's width.
pub open spec fn bucket_height(num_buckets: int) -> int {
    u64::MAX as int / num_buckets
}

/// How many candidates the reverse mapping yields: the bucket height,
/// shortened by one when the window would otherwise end in the reserved
/// maximal value.
pub open spec fn candidate_count(ideal: int, num_buckets: int) -> int {
    if min_hash_for(ideal, num_buckets) + bucket_height(num_buckets) == HASH_SPACE as int {
        bucket_height(num_buckets) - 1
    } else {
        bucket_height(num_buckets)
    }
}

/// Bounds on the candidate window of one bucket: the window starts at or
/// after the bucket's exact lower end, is at least one wide before the
/// final shortening, and stays within the 64-bit hash space.
proof fn lemma_candidate_window(ideal: int, num_buckets: int)
    requires
        1 <= num_buckets <= u64::MAX,
        0 <= ideal < num_buckets,
    ensures
        0 <= min_hash_for(ideal, num_buckets),
        HASH_SPACE as int * ideal <= min_hash_for(ideal, num_buckets) * num_buckets,
        min_hash_for(ideal, num_buckets) * num_buckets <= HASH_SPACE as int * ideal + num_buckets
            - 1,
        1 <= bucket_height(num_buckets),
        bucket_height(num_buckets) * num_buckets <= u64::MAX,
        min_hash_for(ideal, num_buckets) + bucket_height(num_buckets) <= HASH_SPACE as int,
        min_hash_for(ideal, num_buckets) + candidate_count(ideal, num_buckets) <= u64::MAX,
{
    let m = HASH_SPACE as int;
    let x = m * ideal + num_buckets - 1;
    let min = min_hash_for(ideal, num_buckets);
    let height = bucket_height(num_buckets);
    assert(0 <= m * ideal) by (nonlinear_arith)
        requires
            0 <= ideal,
            0 < m,
    ;
    lemma_div_pos_is_pos(x, num_buckets);
    lemma_fundamental_div_mod(x, num_buckets);
    lemma_mod_division_less_than_divisor(x, num_buckets);
    assert(num_buckets * min == min * num_buckets) by (nonlinear_arith);
    lemma_fundamental_div_mod(u64::MAX as int, num_buckets);
    lemma_mod_division_less_than_divisor(u64::MAX as int, num_buckets);
    assert(num_buckets * height == height * num_buckets) by (nonlinear_arith);
    if height < 1 {
        assert(num_buckets * height <= 0) by (nonlinear_arith)
            requires
                height <= 0,
                1 <= num_buckets,
        ;
    }
    assert(m * ideal <= m * (num_buckets - 1)) by (nonlinear_arith)
        requires
            ideal <= num_buckets - 1,
            0 < m,
    ;
    assert((min + height) * num_buckets == min * num_buckets + height * num_buckets)
        by (nonlinear_arith);
    assert((min + height) * num_buckets <= m * (num_buckets - 1) + num_buckets - 1 + u64::MAX);
    assert(m * (num_buckets - 1) + num_buckets - 1 + u64::MAX < (m + 1) * num_buckets)
        by (nonlinear_arith)
        requires
            1 <= num_buckets,
            m == HASH_SPACE as int,
    ;
    assert(min + height <= m) by (nonlinear_arith)
        requires
            (min + height) * num_buckets < (m + 1) * num_buckets,
            1 <= num_buckets,
    ;
}

/// Every hash value in the candidate window of a bucket lands on that
/// bucket, and none of them is the reserved maximal value.
pub proof fn lemma_candidate_hits_ideal(ideal: int, num_buckets: int, h: int)
    requires
        1 <= num_buckets <= u64::MAX,
        0 <= ideal < num_buckets,
        min_hash_for(ideal, num_buckets) <= h,
        h < min_hash_for(ideal, num_buckets) + candidate_count(ideal, num_buckets),
    ensures
        slot_of(h, num_buckets) == ideal,
        0 <= h <= u64::MAX - 1,
{
    let m = HASH_SPACE as int;
    let min = min_hash_for(ideal, num_buckets);
    let height = bucket_height(num_buckets);
    lemma_candidate_window(ideal, num_buckets);
    assert(min * num_buckets <= h * num_buckets) by (nonlinear_arith)
        requires
            min <= h,
            1 <= num_buckets,
    ;
    assert(h * num_buckets <= (min + height - 1) * num_buckets) by (nonlinear_arith)
        requires
            h <= min + height - 1,
            1 <= num_buckets,
    ;
    assert((min + height - 1) * num_buckets == min * num_buckets + height * num_buckets
        - num_buckets) by (nonlinear_arith);
    assert(m * ideal <= h * num_buckets <= m * ideal + m - 2);
    assert(h * num_buckets == ideal * m + (h * num_buckets - m * ideal)) by (nonlinear_arith);
    lemma_fundamental_div_mod_converse_div(
        h * num_buckets,
        m,
        ideal,
        h * num_buckets - m * ideal,
    );
}

/// Law: every bucket index of every positive bucket count is reachable.
/// The least candidate hash for the index lands exactly on it; the one
/// exception left out here is the case where that least candidate is the
/// reserved maximal value, which the non-maximal hash domain excludes.
pub proof fn lemma_slot_reachability(ideal: int, num_buckets: int)
    requires
        1 <= num_buckets <= u64::MAX,
        0 <= ideal < num_buckets,
        min_hash_for(ideal, num_buckets) < u64::MAX,
    ensures
        0 <= min_hash_for(ideal, num_buckets) <= u64::MAX - 1,
        slot_of(min_hash_for(ideal, num_buckets), num_buckets) == ideal,
        1 <= candidate_count(ideal, num_buckets),
{
    lemma_candidate_window(ideal, num_buckets);
    lemma_candidate_hits_ideal(ideal, num_buckets, min_hash_for(ideal, num_buckets));
}

/// The candidate hashes for one bucket index, yielded in increasing order.
pub struct SlotCandidates {
    next: u64,
    remaining: u64,
    target: Ghost<(usize, usize)>,
}

impl SlotCandidates {
    /// The window still to be yielded lies within the candidate window of
    /// the target bucket.
    #[verifier::type_invariant]
    spec fn window_inv(self) -> bool {
        let ideal = self.target@.0 as int;
        let n = self.target@.1 as int;
        &&& 1 <= n <= u64::MAX
        &&& 0 <= ideal < n
        &&& self.remaining > 0 ==> {
            &&& min_hash_for(ideal, n) <= self.next as int
            &&& self.next + self.remaining <= min_hash_for(ideal, n) + candidate_count(ideal, n)
        }
    }

    /// The bucket index every yielded candidate lands on.
    pub closed spec fn spec_ideal(self) -> usize {
        self.target@.0
    }

    /// The bucket count the candidates are computed for.
    pub closed spec fn spec_buckets(self) -> usize {
        self.target@.1
    }

    /// How many candidates are still to be yielded.
    pub closed spec fn spec_len(self) -> u64 {
        self.remaining
    }

    /// Yields the next candidate hash: its slot under the target bucket
    /// count is exactly the target index.
    pub fn next(&mut self) -> (r: Option<NonMaximalU64>)
        ensures
            final(self).spec_ideal() == old(self).spec_ideal(),
            final(self).spec_buckets() == old(self).spec_buckets(),
            old(self).spec_len() == 0 ==> r is None && final(self).spec_len() == 0,
            old(self).spec_len() > 0 ==> {
                &&& final(self).spec_len() == old(self).spec_len() - 1
                &&& r matches Some(h) && slot_of(
                    h.spec_get() as int,
                    old(self).spec_buckets() as int,
                ) == old(self).spec_ideal()
            },
    {
        proof {
            use_type_invariant(&*self);
        }
        if self.remaining == 0 {
            return None;
        }
        let h = self.next;
        proof {
            lemma_candidate_hits_ideal(self.target@.0 as int, self.target@.1 as int, h as int);
        }
        self.remaining = self.remaining - 1;
        self.next = h + 1;
        match NonMaximalU64::new(h) {
            Some(candidate) => Some(candidate),
            None => {
                proof {
                    assert(false);
                }
                None
            },
        }
    }
}

/// Reverse engineers hashes which will be mapped to `ideal`.
///
/// The yielded window covers at least one value for every target index
/// whose least candidate is not the reserved maximal hash; that single
/// exception yields an empty window, since no non-maximal hash can land on
/// such an index.
pub fn from_ideal_slot_ix(ideal: usize, num_buckets: usize) -> (r: SlotCandidates)
    requires
        1 <= num_buckets,
        ideal < num_buckets,
    ensures
        r.spec_ideal() == ideal,
        r.spec_buckets() == num_buckets,
        r.spec_len() == candidate_count(ideal as int, num_buckets as int),
        min_hash_for(ideal as int, num_buckets as int) < u64::MAX ==> r.spec_len() >= 1,
{
    proof {
        lemma_candidate_window(ideal as int, num_buckets as int);
        assert((ideal as u128) * HASH_SPACE == (HASH_SPACE as int) * (ideal as int))
            by (nonlinear_arith);
    }
    let numerator: u128 = (ideal as u128) * HASH_SPACE + (num_buckets as u128 - 1);
    let min128 = numerator / (num_buckets as u128);
    let min = min128 as u64;
    let height = u64::MAX / (num_buckets as u64);
    let count = if (min as u128) + (height as u128) == HASH_SPACE {
        height - 1
    } else {
        height
    };
    proof {
        if min_hash_for(ideal as int, num_buckets as int) < u64::MAX {
            lemma_slot_reachability(ideal as int, num_buckets as int);
        }
    }
    SlotCandidates { next: min, remaining: count, target: Ghost((ideal, num_buckets)) }
}

} // verus!
