//! A hash map keyed by CIDs that stores compact CID keys internally.
//!
//! The map presents a CID-keyed interface that behaves like a plain map
//! keyed by full CID equality, while every key is held as a `SmallCid`, so
//! the overwhelming majority of keys occupy a third of the usual space.
//! Entries are held with pairwise-distinct keys; insertion order carries no
//! meaning.

use vstd::prelude::*;

use crate::cid::{Cid, CidSpec};
use crate::small_cid::{lemma_encode_round_trip, lemma_wf_key_equality, SmallCid};

verus! {

/// Well-formed entry storage: every key is a key that encoding can produce,
/// and no two entries stand for the same CID.
pub open spec fn entries_wf<V>(s: Seq<(SmallCid, V)>) -> bool {
    &&& forall|i: int| 0 <= i < s.len() ==> (#[trigger] s[i]).0.wf()
    &&& forall|i: int, j: int|
        0 <= i < s.len() && 0 <= j < s.len() && i != j ==> (#[trigger] s[i]).0@ != (
        #[trigger] s[j]).0@
}

/// The map a sequence of entries stands for.
spec fn map_of<V>(s: Seq<(SmallCid, V)>) -> Map<CidSpec, V>
    decreases s.len(),
{
    if s.len() == 0 {
        Map::empty()
    } else {
        map_of(s.drop_last()).insert(s.last().0@, s.last().1)
    }
}

/// A key is in the map of a sequence exactly when some entry carries it.
proof fn lemma_map_of_contains_key<V>(s: Seq<(SmallCid, V)>, k: CidSpec)
    ensures
        map_of(s).contains_key(k) <==> exists|i: int|
            0 <= i < s.len() && (#[trigger] s[i]).0@ == k,
    decreases s.len(),
{
    if s.len() > 0 {
        lemma_map_of_contains_key(s.drop_last(), k);
        assert(forall|i: int| 0 <= i < s.len() - 1 ==> s.drop_last()[i] == s[i]);
        if s.last().0@ == k {
            assert(s[s.len() - 1].0@ == k);
        } else {
            if exists|i: int| 0 <= i < s.len() && (#[trigger] s[i]).0@ == k {
                let i = choose|i: int| 0 <= i < s.len() && (#[trigger] s[i]).0@ == k;
                assert(s.drop_last()[i].0@ == k);
            }
        }
    }
}

/// Under distinct keys, each entry's key maps to that entry's value.
proof fn lemma_map_of_get<V>(s: Seq<(SmallCid, V)>, i: int)
    requires
        entries_wf(s),
        0 <= i < s.len(),
    ensures
        map_of(s).contains_key(s[i].0@),
        map_of(s)[s[i].0@] == s[i].1,
    decreases s.len(),
{
    if i < s.len() - 1 {
        assert(forall|j: int| 0 <= j < s.len() - 1 ==> s.drop_last()[j] == s[j]);
        assert(entries_wf(s.drop_last()));
        lemma_map_of_get(s.drop_last(), i);
        assert(s[i].0@ != s.last().0@);
    }
}

/// Under distinct keys, the map of a sequence has exactly as many entries.
proof fn lemma_map_of_len<V>(s: Seq<(SmallCid, V)>)
    requires
        entries_wf(s),
    ensures
        map_of(s).dom().finite(),
        map_of(s).len() == s.len(),
    decreases s.len(),
{
    if s.len() == 0 {
        assert(map_of(s).dom() =~= Set::<CidSpec>::empty());
    } else {
        assert(forall|j: int| 0 <= j < s.len() - 1 ==> s.drop_last()[j] == s[j]);
        assert(entries_wf(s.drop_last()));
        lemma_map_of_len(s.drop_last());
        lemma_map_of_contains_key(s.drop_last(), s.last().0@);
        assert(!map_of(s.drop_last()).contains_key(s.last().0@));
    }
}

/// Removing the entry at `i` by swapping in the final entry removes exactly
/// that entry's key from the map the sequence stands for.
proof fn lemma_swap_remove_entries<V>(s: Seq<(SmallCid, V)>, i: int)
    requires
        entries_wf(s),
        0 <= i < s.len(),
    ensures
        entries_wf(s.update(i, s.last()).drop_last()),
        map_of(s.update(i, s.last()).drop_last()) == map_of(s).remove(s[i].0@),
{
    let s1 = s.update(i, s.last()).drop_last();
    assert(forall|j: int|
        0 <= j < s1.len() ==> #[trigger] s1[j] == (if j == i {
            s[s.len() - 1]
        } else {
            s[j]
        }));
    assert(entries_wf(s1));
    let key = s[i].0@;
    assert forall|k: CidSpec|
        map_of(s1).contains_key(k) == (map_of(s).remove(key).contains_key(k)) by {
        lemma_map_of_contains_key(s1, k);
        lemma_map_of_contains_key(s, k);
        if exists|j: int| 0 <= j < s1.len() && (#[trigger] s1[j]).0@ == k {
            let j = choose|j: int| 0 <= j < s1.len() && (#[trigger] s1[j]).0@ == k;
            let j2: int = if j == i {
                s.len() - 1
            } else {
                j
            };
            assert(s[j2].0@ == k);
            assert(j2 != i || j != i);
        }
        if map_of(s).contains_key(k) && k != key {
            let j = choose|j: int| 0 <= j < s.len() && (#[trigger] s[j]).0@ == k;
            let j2: int = if j == s.len() - 1 {
                i
            } else {
                j
            };
            assert(s1[j2].0@ == k);
        }
    }
    assert forall|k: CidSpec| #[trigger]
        map_of(s1).contains_key(k) implies map_of(s1)[k] == map_of(s).remove(key)[k] by {
        lemma_map_of_contains_key(s1, k);
        let j = choose|j: int| 0 <= j < s1.len() && (#[trigger] s1[j]).0@ == k;
        lemma_map_of_get(s1, j);
        let j2: int = if j == i {
            s.len() - 1
        } else {
            j
        };
        lemma_map_of_get(s, j2);
    }
    assert(map_of(s1) =~= map_of(s).remove(key));
}

/// Distinct CIDs among a sequence of pairs.
pub open spec fn pairs_distinct<V>(pairs: Seq<(Cid, V)>) -> bool {
    forall|i: int, j: int|
        0 <= i < pairs.len() && 0 <= j < pairs.len() && i != j ==> (#[trigger] pairs[i]).0@ != (
        #[trigger] pairs[j]).0@
}

/// The map that results from inserting a sequence of pairs in order into
/// `m`: on a repeated CID, the last pair wins.
pub open spec fn map_extended<V>(m: Map<CidSpec, V>, pairs: Seq<(Cid, V)>) -> Map<CidSpec, V>
    decreases pairs.len(),
{
    if pairs.len() == 0 {
        m
    } else {
        map_extended(m.insert(pairs[0].0@, pairs[0].1), pairs.drop_first())
    }
}

/// Inserting pairs whose CIDs all differ from `k` leaves `k` untouched.
proof fn lemma_map_extended_frame<V>(m: Map<CidSpec, V>, pairs: Seq<(Cid, V)>, k: CidSpec)
    requires
        forall|i: int| 0 <= i < pairs.len() ==> (#[trigger] pairs[i]).0@ != k,
    ensures
        map_extended(m, pairs).contains_key(k) == m.contains_key(k),
        m.contains_key(k) ==> map_extended(m, pairs)[k] == m[k],
    decreases pairs.len(),
{
    if pairs.len() > 0 {
        assert(forall|i: int| 0 <= i < pairs.len() - 1 ==> pairs.drop_first()[i] == pairs[i + 1]);
        lemma_map_extended_frame(m.insert(pairs[0].0@, pairs[0].1), pairs.drop_first(), k);
    }
}

/// A key is in an extended map exactly when it was there before or some
/// pair carries it.
proof fn lemma_map_extended_contains<V>(m: Map<CidSpec, V>, pairs: Seq<(Cid, V)>, k: CidSpec)
    ensures
        map_extended(m, pairs).contains_key(k) <==> (m.contains_key(k) || exists|i: int|
            0 <= i < pairs.len() && (#[trigger] pairs[i]).0@ == k),
    decreases pairs.len(),
{
    if pairs.len() > 0 {
        assert(forall|i: int| 0 <= i < pairs.len() - 1 ==> pairs.drop_first()[i] == pairs[i + 1]);
        lemma_map_extended_contains(m.insert(pairs[0].0@, pairs[0].1), pairs.drop_first(), k);
        if pairs[0].0@ != k {
            if exists|i: int| 0 <= i < pairs.len() && (#[trigger] pairs[i]).0@ == k {
                let i = choose|i: int| 0 <= i < pairs.len() && (#[trigger] pairs[i]).0@ == k;
                assert(pairs.drop_first()[i - 1].0@ == k);
            }
        }
    }
}

/// Under distinct CIDs, each pair's CID ends up mapped to that pair's
/// value.
proof fn lemma_map_extended_get<V>(m: Map<CidSpec, V>, pairs: Seq<(Cid, V)>, i: int)
    requires
        pairs_distinct(pairs),
        0 <= i < pairs.len(),
    ensures
        map_extended(m, pairs).contains_key(pairs[i].0@),
        map_extended(m, pairs)[pairs[i].0@] == pairs[i].1,
    decreases pairs.len(),
{
    assert(forall|j: int| 0 <= j < pairs.len() - 1 ==> pairs.drop_first()[j] == pairs[j + 1]);
    if i == 0 {
        lemma_map_extended_frame(
            m.insert(pairs[0].0@, pairs[0].1),
            pairs.drop_first(),
            pairs[0].0@,
        );
    } else {
        assert(pairs_distinct(pairs.drop_first()));
        lemma_map_extended_get(m.insert(pairs[0].0@, pairs[0].1), pairs.drop_first(), i - 1);
    }
}

/// Pairs that mirror a well-formed entry sequence rebuild exactly the map
/// that sequence stands for.
proof fn lemma_pairs_rebuild<V>(s: Seq<(SmallCid, V)>, pairs: Seq<(Cid, V)>)
    requires
        entries_wf(s),
        pairs.len() == s.len(),
        forall|i: int|
            0 <= i < s.len() ==> (#[trigger] pairs[i]).0@ == s[i].0@ && pairs[i].1 == s[i].1,
    ensures
        pairs_distinct(pairs),
        map_extended(Map::empty(), pairs) == map_of(s),
{
    let me = map_extended(Map::<CidSpec, V>::empty(), pairs);
    let mo = map_of(s);
    assert forall|k: CidSpec|
        #![trigger me.dom().contains(k)]
        #![trigger mo.dom().contains(k)]
        me.dom().contains(k) == mo.dom().contains(k) by {
        lemma_map_extended_contains(Map::<CidSpec, V>::empty(), pairs, k);
        lemma_map_of_contains_key(s, k);
        if exists|i: int| 0 <= i < pairs.len() && (#[trigger] pairs[i]).0@ == k {
            let i = choose|i: int| 0 <= i < pairs.len() && (#[trigger] pairs[i]).0@ == k;
            assert(s[i].0@ == k);
        }
        if exists|i: int| 0 <= i < s.len() && (#[trigger] s[i]).0@ == k {
            let i = choose|i: int| 0 <= i < s.len() && (#[trigger] s[i]).0@ == k;
            assert(pairs[i].0@ == k);
        }
    }
    assert(me.dom() =~= mo.dom());
    assert forall|k: CidSpec| #[trigger] mo.dom().contains(k) implies me[k] == mo[k] by {
        lemma_map_of_contains_key(s, k);
        let i = choose|i: int| 0 <= i < s.len() && (#[trigger] s[i]).0@ == k;
        lemma_map_of_get(s, i);
        lemma_map_extended_get(Map::<CidSpec, V>::empty(), pairs, i);
    }
    assert(me =~= mo);
}

/// Law: rebuilding a map from the pairs its iterator yields reproduces the
/// original map. `into_iter` guarantees its pairs collect to the map it was
/// called on, and `from_pairs` builds exactly that collection, so the
/// composition is the identity on map contents.
pub proof fn lemma_iteration_round_trip<V>(
    m: Map<CidSpec, V>,
    pairs: Seq<(Cid, V)>,
    rebuilt: Map<CidSpec, V>,
)
    requires
        map_extended(Map::empty(), pairs) == m,
        rebuilt == map_extended(Map::empty(), pairs),
    ensures
        rebuilt == m,
{
}

/// Relies on std's `Vec::capacity`: a vector's length never exceeds its
/// capacity.
#[verifier::external_body]
fn vec_capacity<T>(v: &Vec<T>) -> (r: usize)
    ensures
        r >= v@.len(),
{
    v.capacity()
}

/// A hash map with CID-typed keys, stored as compact CID keys.
#[derive(Debug)]
pub struct CidHashMap<V> {
    entries: Vec<(SmallCid, V)>,
}

/// An owned iterator over a map's `(CID, value)` pairs.
#[derive(Debug)]
pub struct IntoIter<V> {
    pairs: Vec<(Cid, V)>,
}

impl<V> View for IntoIter<V> {
    type V = Seq<(Cid, V)>;

    /// The pairs still to be yielded, in order.
    closed spec fn view(&self) -> Seq<(Cid, V)> {
        self.pairs@
    }
}

impl<V> IntoIter<V> {
    /// Yields the next pair, front to back.
    pub fn next(&mut self) -> (r: Option<(Cid, V)>)
        ensures
            old(self)@.len() == 0 ==> r is None && final(self)@ == old(self)@,
            old(self)@.len() > 0 ==> r == Some(old(self)@[0]) && final(self)@ == old(
                self,
            )@.drop_first(),
    {
        if self.pairs.len() == 0 {
            None
        } else {
            let pair = self.pairs.remove(0);
            proof {
                assert(self.pairs@ =~= old(self)@.drop_first());
            }
            Some(pair)
        }
    }
}

impl<V> View for CidHashMap<V> {
    type V = Map<CidSpec, V>;

    /// The map from CIDs to values this container stands for.
    closed spec fn view(&self) -> Map<CidSpec, V> {
        map_of(self.entries@)
    }
}

impl<V> CidHashMap<V> {
    /// Entry storage always holds well-formed, pairwise-distinct keys.
    #[verifier::type_invariant]
    spec fn wf(self) -> bool {
        entries_wf(self.entries@)
    }

    /// Creates an empty map with CID-typed keys.
    pub fn new() -> (r: Self)
        ensures
            r@ == Map::<CidSpec, V>::empty(),
    {
        CidHashMap { entries: Vec::new() }
    }

    /// The position of the entry carrying `key`'s CID, if one exists.
    fn position_of(&self, key: &SmallCid) -> (r: Option<usize>)
        requires
            key.wf(),
        ensures
            r matches Some(i) ==> (i as int) < self.entries@.len() && self.entries@[i as int].0@
                == key@,
            r is None ==> forall|i: int|
                0 <= i < self.entries@.len() ==> (#[trigger] self.entries@[i]).0@ != key@,
    {
        proof {
            use_type_invariant(self);
        }
        let n = self.entries.len();
        let mut i: usize = 0;
        while i < n
            invariant
                n == self.entries@.len(),
                i <= n,
                key.wf(),
                entries_wf(self.entries@),
                forall|j: int| 0 <= j < i ==> (#[trigger] self.entries@[j]).0@ != key@,
            decreases n - i,
        {
            proof {
                lemma_wf_key_equality(self.entries@[i as int].0, *key);
            }
            if self.entries[i].0 == *key {
                return Some(i);
            }
            i = i + 1;
        }
        None
    }

    /// Returns `true` if the map contains a value for the specified key.
    pub fn contains_key(&self, k: Cid) -> (r: bool)
        ensures
            r == self@.contains_key(k@),
    {
        let key = SmallCid::from(k);
        proof {
            lemma_encode_round_trip(k);
            lemma_map_of_contains_key(self.entries@, key@);
        }
        self.position_of(&key).is_some()
    }

    /// Returns a reference to the value corresponding to the key.
    pub fn get(&self, k: Cid) -> (r: Option<&V>)
        ensures
            self@.contains_key(k@) ==> (r matches Some(v) && *v == self@[k@]),
            !self@.contains_key(k@) ==> r is None,
    {
        let key = SmallCid::from(k);
        proof {
            lemma_encode_round_trip(k);
            lemma_map_of_contains_key(self.entries@, key@);
        }
        match self.position_of(&key) {
            Some(i) => {
                proof {
                    use_type_invariant(self);
                    lemma_map_of_get(self.entries@, i as int);
                }
                Some(&self.entries[i].1)
            },
            None => None,
        }
    }

    /// Inserts a key-value pair into the map; if the map did not have this
    /// key present, `None` is returned, otherwise the overwritten value.
    pub fn insert(&mut self, k: Cid, v: V) -> (r: Option<V>)
        ensures
            final(self)@ == old(self)@.insert(k@, v),
            old(self)@.contains_key(k@) ==> (r matches Some(prev) && prev == old(self)@[k@]),
            !old(self)@.contains_key(k@) ==> r is None,
    {
        proof {
            use_type_invariant(&*self);
        }
        let key = SmallCid::from(k);
        proof {
            lemma_encode_round_trip(k);
            lemma_map_of_contains_key(self.entries@, key@);
        }
        let pos = self.position_of(&key);
        let ghost s0 = self.entries@;
        let mut entries: Vec<(SmallCid, V)> = Vec::new();
        std::mem::swap(&mut entries, &mut self.entries);
        let r = match pos {
            Some(i) => {
                proof {
                    lemma_map_of_get(s0, i as int);
                    lemma_swap_remove_entries(s0, i as int);
                }
                let removed = entries.swap_remove(i);
                let ghost s1 = entries@;
                entries.push((key, v));
                proof {
                    assert(entries@.drop_last() =~= s1);
                    assert(forall|j: int|
                        0 <= j < s1.len() ==> #[trigger] entries@[j] == s1[j]);
                    assert(entries_wf(entries@));
                    assert(map_of(entries@) =~= map_of(s0).insert(key@, v));
                }
                Some(removed.1)
            },
            None => {
                entries.push((key, v));
                proof {
                    assert(entries@.drop_last() =~= s0);
                    assert(forall|j: int|
                        0 <= j < s0.len() ==> #[trigger] entries@[j] == s0[j]);
                    assert(entries_wf(entries@));
                }
                None
            },
        };
        self.entries = entries;
        r
    }

    /// Removes a key from the map, returning the value at the key if the
    /// key was previously in the map.
    pub fn remove(&mut self, k: Cid) -> (r: Option<V>)
        ensures
            final(self)@ == old(self)@.remove(k@),
            old(self)@.contains_key(k@) ==> (r matches Some(prev) && prev == old(self)@[k@]),
            !old(self)@.contains_key(k@) ==> r is None,
    {
        proof {
            use_type_invariant(&*self);
        }
        let key = SmallCid::from(k);
        proof {
            lemma_encode_round_trip(k);
            lemma_map_of_contains_key(self.entries@, key@);
        }
        let pos = self.position_of(&key);
        match pos {
            Some(i) => {
                let ghost s0 = self.entries@;
                proof {
                    lemma_map_of_get(s0, i as int);
                    lemma_swap_remove_entries(s0, i as int);
                }
                let mut entries: Vec<(SmallCid, V)> = Vec::new();
                std::mem::swap(&mut entries, &mut self.entries);
                let removed = entries.swap_remove(i);
                self.entries = entries;
                Some(removed.1)
            },
            None => {
                proof {
                    assert(map_of(self.entries@).remove(k@) =~= map_of(self.entries@));
                }
                None
            },
        }
    }

    /// The number of elements in the map.
    pub fn len(&self) -> (r: usize)
        ensures
            r == self@.len(),
    {
        proof {
            use_type_invariant(self);
            lemma_map_of_len(self.entries@);
        }
        self.entries.len()
    }

    /// The number of elements the map can hold without reallocating.
    pub fn capacity(&self) -> (r: usize)
        ensures
            r >= self@.len(),
    {
        proof {
            use_type_invariant(self);
            lemma_map_of_len(self.entries@);
        }
        vec_capacity(&self.entries)
    }

    /// Inserts every pair, front to back; on a repeated CID the last pair
    /// wins, as a sequence of single insertions would.
    pub fn extend(&mut self, pairs: Vec<(Cid, V)>)
        ensures
            final(self)@ == map_extended(old(self)@, pairs@),
    {
        let mut pairs = pairs;
        let ghost m0 = self@;
        let ghost p0 = pairs@;
        while pairs.len() > 0
            invariant
                map_extended(m0, p0) == map_extended(self@, pairs@),
                m0 == old(self)@,
            decreases pairs@.len(),
        {
            let ghost m_before = self@;
            let ghost p_before = pairs@;
            let pair = pairs.remove(0);
            self.insert(pair.0, pair.1);
            proof {
                assert(pairs@ =~= p_before.drop_first());
            }
        }
    }

    /// Builds a map from `(CID, value)` pairs, inserting them in order.
    pub fn from_pairs(pairs: Vec<(Cid, V)>) -> (r: Self)
        ensures
            r@ == map_extended(Map::<CidSpec, V>::empty(), pairs@),
    {
        let mut r = CidHashMap::new();
        r.extend(pairs);
        r
    }

    /// Turns the map into an iterator of `(CID, value)` pairs. The pairs
    /// carry pairwise-distinct CIDs and collect back to exactly this map.
    pub fn into_iter(self) -> (r: IntoIter<V>)
        ensures
            pairs_distinct(r@),
            map_extended(Map::<CidSpec, V>::empty(), r@) == self@,
            r@.len() == self@.len(),
    {
        proof {
            use_type_invariant(&self);
            lemma_map_of_len(self.entries@);
        }
        let CidHashMap { mut entries } = self;
        let ghost orig = entries@;
        let mut pairs: Vec<(Cid, V)> = Vec::new();
        while entries.len() > 0
            invariant
                entries@ =~= orig.skip(pairs@.len() as int),
                pairs@.len() <= orig.len(),
                forall|j: int|
                    0 <= j < pairs@.len() ==> (#[trigger] pairs@[j]).0@ == orig[j].0@
                        && pairs@[j].1 == orig[j].1,
            decreases entries@.len(),
        {
            let ghost k = pairs@.len() as int;
            let entry = entries.remove(0);
            let c = entry.0.to_cid();
            pairs.push((c, entry.1));
            proof {
                assert(entries@ =~= orig.skip(k + 1));
            }
        }
        proof {
            lemma_pairs_rebuild(orig, pairs@);
        }
        IntoIter { pairs }
    }
}

impl<V: Clone> Clone for CidHashMap<V> {
    /// A map over the same CIDs, each value a clone of the stored value.
    fn clone(&self) -> (r: CidHashMap<V>)
        ensures
            r@.dom() == self@.dom(),
            forall|k: CidSpec| #[trigger]
                self@.contains_key(k) ==> vstd::pervasive::cloned::<V>(self@[k], r@[k]),
    {
        proof {
            use_type_invariant(self);
        }
        let n = self.entries.len();
        let mut entries: Vec<(SmallCid, V)> = Vec::new();
        let mut i: usize = 0;
        while i < n
            invariant
                n == self.entries@.len(),
                i <= n,
                entries@.len() == i,
                entries_wf(self.entries@),
                forall|j: int|
                    0 <= j < i ==> (#[trigger] entries@[j]).0@ == self.entries@[j].0@
                        && entries@[j].0.wf() == self.entries@[j].0.wf()
                        && vstd::pervasive::cloned::<V>(self.entries@[j].1, entries@[j].1),
            decreases n - i,
        {
            let key = self.entries[i].0.clone();
            let value = self.entries[i].1.clone();
            entries.push((key, value));
            i = i + 1;
        }
        let r = CidHashMap { entries };
        proof {
            assert forall|k: CidSpec|
                r@.dom().contains(k) == self@.dom().contains(k) by {
                lemma_map_of_contains_key(r.entries@, k);
                lemma_map_of_contains_key(self.entries@, k);
                if exists|j: int|
                    0 <= j < r.entries@.len() && (#[trigger] r.entries@[j]).0@ == k {
                    let j = choose|j: int|
                        0 <= j < r.entries@.len() && (#[trigger] r.entries@[j]).0@ == k;
                    assert(self.entries@[j].0@ == k);
                }
                if exists|j: int|
                    0 <= j < self.entries@.len() && (#[trigger] self.entries@[j]).0@ == k {
                    let j = choose|j: int|
                        0 <= j < self.entries@.len() && (#[trigger] self.entries@[j]).0@ == k;
                    assert(r.entries@[j].0@ == k);
                }
            }
            assert(r@.dom() =~= self@.dom());
            assert forall|k: CidSpec| #[trigger]
                self@.contains_key(k) implies vstd::pervasive::cloned::<V>(self@[k], r@[k]) by {
                lemma_map_of_contains_key(self.entries@, k);
                let j = choose|j: int|
                    0 <= j < self.entries@.len() && (#[trigger] self.entries@[j]).0@ == k;
                lemma_map_of_get(self.entries@, j);
                lemma_map_of_get(r.entries@, j);
            }
        }
        r
    }
}

impl<V> Default for CidHashMap<V> {
    /// The empty map.
    fn default() -> (r: Self)
        ensures
            r@ == Map::<CidSpec, V>::empty(),
    {
        CidHashMap::new()
    }
}

} // verus!
