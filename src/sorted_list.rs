//! A multimap kept as a sequence of `(key, value)` pairs sorted by key; among
//! equal keys the values keep the order in which they were inserted.

use vstd::prelude::*;
use core::cmp::Ordering;
use crate::sort_key::SortKey;
use vstd::std_specs::cmp::PartialEqSpec;

verus! {

/// Pairs ordered by key rank, ties kept in insertion order, with no pair stored
/// twice (values compared with their `==`).
#[derive(Clone, Debug)]
pub struct SortedList<K, V> {
    keys: Vec<K>,
    values: Vec<V>,
}

/// Entries are in non-decreasing key order.
pub open spec fn sorted_by_key<K: SortKey, V>(s: Seq<(K, V)>) -> bool {
    forall|i: int, j: int| 0 <= i < j < s.len() ==> s[i].0.rank() <= s[j].0.rank()
}

/// Among entries with one key, no later value equals an earlier one.
pub open spec fn no_repeated_pair<K, V: PartialEq>(s: Seq<(K, V)>) -> bool {
    forall|i: int, j: int|
        0 <= i < j < s.len() && s[i].0 == s[j].0 ==> !s[j].1.eq_spec(&s[i].1)
}

/// `s` holds a pair with key `k` whose value equals `v`.
pub open spec fn holds_pair<K, V: PartialEq>(s: Seq<(K, V)>, k: K, v: V) -> bool {
    exists|i: int| 0 <= i < s.len() && s[i].0 == k && v.eq_spec(&s[i].1)
}

/// `p` is the place right after every entry whose key ranks at or below `k`.
pub open spec fn is_upper_place<K: SortKey, V>(s: Seq<(K, V)>, k: K, p: int) -> bool {
    &&& 0 <= p <= s.len()
    &&& forall|i: int| 0 <= i < p ==> s[i].0.rank() <= k.rank()
    &&& forall|i: int| p <= i < s.len() ==> s[i].0.rank() > k.rank()
}

/// `p` is the place of the first entry whose key ranks at or above `k`.
pub open spec fn is_lower_place<K: SortKey, V>(s: Seq<(K, V)>, k: K, p: int) -> bool {
    &&& 0 <= p <= s.len()
    &&& forall|i: int| 0 <= i < p ==> s[i].0.rank() < k.rank()
    &&& forall|i: int| p <= i < s.len() ==> s[i].0.rank() >= k.rank()
}

/// Number of entries whose key ranks at or below `k`.
pub open spec fn count_at_or_below<K: SortKey, V>(s: Seq<(K, V)>, k: K) -> int
    decreases s.len(),
{
    if s.len() == 0 {
        0
    } else {
        count_at_or_below(s.drop_last(), k) + if s.last().0.rank() <= k.rank() {
            1int
        } else {
            0int
        }
    }
}

/// The pairs after inserting `(k, v)`: unchanged if the pair is held already,
/// otherwise with the pair placed after every entry that ranks at or below `k`.
pub open spec fn inserted<K: SortKey, V: PartialEq>(s: Seq<(K, V)>, k: K, v: V) -> Seq<(K, V)> {
    if holds_pair(s, k, v) {
        s
    } else {
        s.insert(count_at_or_below(s, k), (k, v))
    }
}

/// The pairs after inserting each of `items`, first to last.
pub open spec fn inserted_all<K: SortKey, V: PartialEq>(s: Seq<(K, V)>, items: Seq<(K, V)>) -> Seq<
    (K, V),
>
    decreases items.len(),
{
    if items.len() == 0 {
        s
    } else {
        let last = items.last();
        inserted(inserted_all(s, items.drop_last()), last.0, last.1)
    }
}

/// In a sorted sequence, the count of entries at or below `k` is the place
/// right after them.
pub proof fn lemma_count_is_upper_place<K: SortKey, V>(s: Seq<(K, V)>, k: K)
    requires
        sorted_by_key(s),
    ensures
        is_upper_place(s, k, count_at_or_below(s, k)),
    decreases s.len(),
{
    if s.len() > 0 {
        let t = s.drop_last();
        assert(sorted_by_key(t));
        lemma_count_is_upper_place(t, k);
        let c = count_at_or_below(t, k);
        if s.last().0.rank() <= k.rank() {
            if c < t.len() {
                assert(t[c].0.rank() > k.rank());
                assert(s[c] == t[c]);
                assert(s[c].0.rank() <= s[s.len() - 1].0.rank());
            }
            assert(c == t.len());
            assert forall|i: int| 0 <= i < s.len() implies s[i].0.rank() <= k.rank() by {
                if i < t.len() {
                    assert(s[i] == t[i]);
                }
            }
        } else {
            assert forall|i: int| 0 <= i < c implies s[i].0.rank() <= k.rank() by {
                assert(s[i] == t[i]);
            }
            assert forall|i: int| c <= i < s.len() implies s[i].0.rank() > k.rank() by {
                if i < t.len() {
                    assert(s[i] == t[i]);
                }
            }
        }
    }
}

/// Two places right after the entries at or below `k` are one place.
pub proof fn lemma_upper_place_unique<K: SortKey, V>(s: Seq<(K, V)>, k: K, p: int, q: int)
    requires
        is_upper_place(s, k, p),
        is_upper_place(s, k, q),
    ensures
        p == q,
{
    if p < q {
        assert(s[p].0.rank() > k.rank());
    } else if q < p {
        assert(s[q].0.rank() > k.rank());
    }
}

/// `s` holds an entry with key `k`.
pub open spec fn holds_key<K, V>(s: Seq<(K, V)>, k: K) -> bool {
    exists|i: int| 0 <= i < s.len() && s[i].0 == k
}

/// The values of the entries at places `lo` up to `hi`.
pub open spec fn value_run<K, V>(s: Seq<(K, V)>, lo: int, hi: int) -> Seq<V> {
    s.subrange(lo, hi).map_values(|e: (K, V)| e.1)
}

/// Relies on `Vec::shrink_to_fit`, which lowers the capacity and keeps the elements.
#[verifier::external_body]
fn shrink_vec<T>(v: &mut Vec<T>)
    ensures
        final(v)@ == old(v)@,
{
    v.shrink_to_fit()
}

impl<K: SortKey, V: PartialEq> SortedList<K, V> {
    /// The stored pairs, front to back.
    pub closed spec fn view(&self) -> Seq<(K, V)> {
        Seq::new(self.keys@.len(), |i: int| (self.keys@[i], self.values@[i]))
    }

    pub closed spec fn aligned(&self) -> bool {
        self.keys@.len() == self.values@.len()
    }

    /// The list's invariant.
    pub open spec fn wf(&self) -> bool {
        &&& self.aligned()
        &&& sorted_by_key(self@)
        &&& no_repeated_pair(self@)
    }

    /// Creates an empty list.
    pub fn new() -> (r: Self)
        ensures
            r.wf(),
            r@ == Seq::<(K, V)>::empty(),
    {
        let r = SortedList { keys: Vec::new(), values: Vec::new() };
        assert(r@ =~= Seq::<(K, V)>::empty());
        r
    }

    /// Creates an empty list with room for `len` pairs.
    pub fn with_capacity(len: usize) -> (r: Self)
        ensures
            r.wf(),
            r@ == Seq::<(K, V)>::empty(),
    {
        let r = SortedList { keys: Vec::with_capacity(len), values: Vec::with_capacity(len) };
        assert(r@ =~= Seq::<(K, V)>::empty());
        r
    }

    /// Number of stored pairs.
    pub fn len(&self) -> (r: usize)
        requires
            self.wf(),
        ensures
            r == self@.len(),
    {
        self.keys.len()
    }

    /// Whether no pair is stored.
    pub fn is_empty(&self) -> (r: bool)
        requires
            self.wf(),
        ensures
            r == (self@.len() == 0),
    {
        self.keys.len() == 0
    }

    /// The value at position `index`.
    pub fn get(&self, index: usize) -> (r: &V)
        requires
            self.wf(),
            index < self@.len(),
        ensures
            *r == self@[index as int].1,
    {
        &self.values[index]
    }

    /// First position whose key ranks at or above `key`.
    fn lower_bound(&self, key: &K) -> (r: usize)
        requires
            self.wf(),
        ensures
            is_lower_place(self@, *key, r as int),
    {
        let mut lo: usize = 0;
        let mut hi: usize = self.keys.len();
        while lo < hi
            invariant
                self.wf(),
                0 <= lo <= hi <= self@.len(),
                forall|i: int| 0 <= i < lo ==> self@[i].0.rank() < key.rank(),
                forall|i: int| hi <= i < self@.len() ==> self@[i].0.rank() >= key.rank(),
            decreases hi - lo,
        {
            let mid = lo + (hi - lo) / 2;
            assert(self@[mid as int].0 == self.keys@[mid as int]);
            match self.keys[mid].compare(key) {
                Ordering::Less => {
                    lo = mid + 1;
                },
                _ => {
                    hi = mid;
                },
            }
        }
        lo
    }

    /// First position whose key ranks above `key`.
    fn upper_bound(&self, key: &K) -> (r: usize)
        requires
            self.wf(),
        ensures
            is_upper_place(self@, *key, r as int),
    {
        let mut lo: usize = 0;
        let mut hi: usize = self.keys.len();
        while lo < hi
            invariant
                self.wf(),
                0 <= lo <= hi <= self@.len(),
                forall|i: int| 0 <= i < lo ==> self@[i].0.rank() <= key.rank(),
                forall|i: int| hi <= i < self@.len() ==> self@[i].0.rank() > key.rank(),
            decreases hi - lo,
        {
            let mid = lo + (hi - lo) / 2;
            assert(self@[mid as int].0 == self.keys@[mid as int]);
            match self.keys[mid].compare(key) {
                Ordering::Greater => {
                    hi = mid;
                },
                _ => {
                    lo = mid + 1;
                },
            }
        }
        lo
    }

    /// Where a new pair `(key, value)` belongs: right after the last entry of
    /// `key`, or `None` when the pair is stored already.
    fn find_insertion_position(&self, key: &K, value: &V) -> (r: Option<usize>)
        requires
            self.wf(),
            V::obeys_eq_spec(),
        ensures
            r is None <==> holds_pair(self@, *key, *value),
            r matches Some(p) ==> is_upper_place(self@, *key, p as int),
    {
        let lo = self.lower_bound(key);
        let hi = self.upper_bound(key);
        assert(lo <= hi) by {
            if hi < lo {
                assert(self@[hi as int].0.rank() > key.rank());
            }
        }
        let mut i: usize = lo;
        while i < hi
            invariant
                self.wf(),
                V::obeys_eq_spec(),
                is_lower_place(self@, *key, lo as int),
                is_upper_place(self@, *key, hi as int),
                lo <= i <= hi,
                forall|j: int| lo <= j < i ==> !value.eq_spec(&self@[j].1),
            decreases hi - i,
        {
            assert(self@[i as int].1 == self.values@[i as int]);
            if *value == self.values[i] {
                proof {
                    K::rank_injective(&self@[i as int].0, key);
                }
                return None;
            }
            i += 1;
        }
        assert forall|j: int| 0 <= j < self@.len() && self@[j].0 == *key implies !value.eq_spec(
            &self@[j].1,
        ) by {
            assert(lo <= j < hi);
        }
        Some(hi)
    }

    /// Stores `(key, value)` after every entry of `key` unless that pair is stored
    /// already; says whether it was stored.
    pub fn insert(&mut self, key: K, value: V) -> (r: bool)
        requires
            old(self).wf(),
            V::obeys_eq_spec(),
        ensures
            final(self).wf(),
            r == !holds_pair(old(self)@, key, value),
            final(self)@ == inserted(old(self)@, key, value),
    {
        proof {
            lemma_count_is_upper_place(self@, key);
        }
        match self.find_insertion_position(&key, &value) {
            None => false,
            Some(p) => {
                let ghost s = self@;
                self.keys.insert(p, key);
                self.values.insert(p, value);
                assert(self@ =~= s.insert(p as int, (key, value)));
                proof {
                    lemma_upper_place_unique(s, key, p as int, count_at_or_below(s, key));
                }
                proof {
                    let t = self@;
                    assert forall|i: int, j: int| 0 <= i < j < t.len() && t[i].0 == t[j].0 implies !t[j].1.eq_spec(&t[i].1) by {
                        if j == p {
                            assert(t[i] == s[i]);
                        } else if i == p {
                            assert(t[j] == s[j - 1]);
                        } else {
                            let ii = if i < p { i } else { i - 1 };
                            let jj = if j < p { j } else { j - 1 };
                            assert(t[i] == s[ii]);
                            assert(t[j] == s[jj]);
                        }
                    }
                }
                true
            },
        }
    }

    /// `Ok` with the place of the first entry of `key` if it is stored, otherwise
    /// `Err` with the place where it would go.
    fn find_first_position(&self, key: &K) -> (r: Result<usize, usize>)
        requires
            self.wf(),
        ensures
            r is Ok <==> holds_key(self@, *key),
            match r {
                Ok(p) => is_lower_place(self@, *key, p as int),
                Err(p) => is_lower_place(self@, *key, p as int),
            },
    {
        let lo = self.lower_bound(key);
        if lo < self.keys.len() && matches!(self.keys[lo].compare(key), Ordering::Equal) {
            proof {
                K::rank_injective(&self@[lo as int].0, key);
            }
            Ok(lo)
        } else {
            proof {
                if holds_key(self@, *key) {
                    let i = choose|i: int| 0 <= i < self@.len() && self@[i].0 == *key;
                    if i > lo {
                        assert(self@[lo as int].0.rank() <= self@[i].0.rank());
                    }
                }
            }
            Err(lo)
        }
    }

    /// `Ok` with the place right after the last entry of `key` if it is stored,
    /// otherwise `Err` with the place where it would go.
    fn find_last_position(&self, key: &K) -> (r: Result<usize, usize>)
        requires
            self.wf(),
        ensures
            r is Ok <==> holds_key(self@, *key),
            match r {
                Ok(p) => is_upper_place(self@, *key, p as int),
                Err(p) => is_upper_place(self@, *key, p as int),
            },
    {
        let hi = self.upper_bound(key);
        if hi > 0 && matches!(self.keys[hi - 1].compare(key), Ordering::Equal) {
            proof {
                K::rank_injective(&self@[hi - 1].0, key);
            }
            Ok(hi)
        } else {
            proof {
                if holds_key(self@, *key) {
                    let i = choose|i: int| 0 <= i < self@.len() && self@[i].0 == *key;
                    if i < hi - 1 {
                        assert(self@[i].0.rank() <= self@[hi - 1].0.rank());
                    }
                }
            }
            Err(hi)
        }
    }

    /// The values stored under `key`, in insertion order.
    pub fn values_of(&self, key: &K) -> (r: &[V])
        requires
            self.wf(),
        ensures
            exists|lo: int, hi: int|
                is_lower_place(self@, *key, lo) && is_upper_place(self@, *key, hi) && r@
                    == value_run(self@, lo, hi),
    {
        let lo = self.lower_bound(key);
        let hi = self.upper_bound(key);
        assert(lo <= hi) by {
            if hi < lo {
                assert(self@[hi as int].0.rank() > key.rank());
            }
        }
        let r = vstd::slice::slice_subrange(self.values.as_slice(), lo, hi);
        assert(r@ =~= value_run(self@, lo as int, hi as int));
        r
    }

    /// The first value stored under `key`, if any.
    pub fn first_value_of(&self, key: &K) -> (r: Option<&V>)
        requires
            self.wf(),
        ensures
            r is Some <==> holds_key(self@, *key),
            r matches Some(v) ==> exists|p: int|
                is_lower_place(self@, *key, p) && p < self@.len() && self@[p] == (*key, *v),
    {
        match self.find_first_position(key) {
            Ok(p) => {
                proof {
                    K::rank_injective(&self@[p as int].0, key);
                }
                Some(&self.values[p])
            },
            Err(_) => None,
        }
    }

    /// The last value stored under `key`, if any.
    pub fn last_value_of(&self, key: &K) -> (r: Option<&V>)
        requires
            self.wf(),
        ensures
            r is Some <==> holds_key(self@, *key),
            r matches Some(v) ==> exists|p: int|
                is_upper_place(self@, *key, p) && 0 < p && self@[p - 1] == (*key, *v),
    {
        match self.find_last_position(key) {
            Ok(p) => {
                proof {
                    K::rank_injective(&self@[p - 1].0, key);
                }
                Some(&self.values[p - 1])
            },
            Err(_) => None,
        }
    }

    /// Releases spare capacity; the pairs stay as they are.
    pub fn shrink_to_fit(&mut self)
        requires
            old(self).wf(),
        ensures
            final(self).wf(),
            final(self)@ == old(self)@,
    {
        shrink_vec(&mut self.keys);
        shrink_vec(&mut self.values);
        assert(self@ =~= old(self)@);
    }

    /// Removes the pair at position `index`.
    pub fn remove(&mut self, index: usize)
        requires
            old(self).wf(),
            index < old(self)@.len(),
        ensures
            final(self).wf(),
            final(self)@ == old(self)@.remove(index as int),
    {
        let ghost s = self@;
        self.keys.remove(index);
        self.values.remove(index);
        assert(self@ =~= s.remove(index as int));
        proof {
            let t = self@;
            assert forall|i: int, j: int| 0 <= i < j < t.len() implies t[i].0.rank() <= t[j].0.rank() && (t[i].0 == t[j].0 ==> !t[j].1.eq_spec(&t[i].1)) by {
                let ii = if i < index { i } else { i + 1 };
                let jj = if j < index { j } else { j + 1 };
                assert(t[i] == s[ii]);
                assert(t[j] == s[jj]);
            }
        }
    }

    /// All keys, front to back; a key appears once per stored pair.
    pub fn keys(&self) -> (r: &[K])
        requires
            self.wf(),
        ensures
            r@ == self@.map_values(|e: (K, V)| e.0),
    {
        let r = self.keys.as_slice();
        assert(r@ =~= self@.map_values(|e: (K, V)| e.0));
        r
    }

    /// All values, front to back.
    pub fn values(&self) -> (r: &[V])
        requires
            self.wf(),
        ensures
            r@ == self@.map_values(|e: (K, V)| e.1),
    {
        let r = self.values.as_slice();
        assert(r@ =~= self@.map_values(|e: (K, V)| e.1));
        r
    }

    /// Walks all pairs: keys in order, values of one key in insertion order.
    pub fn iter(&self) -> (r: Tuples<'_, K, V>)
        requires
            self.wf(),
        ensures
            r.wf(),
            r@ == self@,
    {
        let r = Tuples { keys: &self.keys, values: &self.values, low: 0, high: self.keys.len() };
        assert(r@ =~= self@);
        r
    }

    /// Walks the pairs whose keys lie within `bounds` (start bound, end bound).
    pub fn range(&self, bounds: (KeyBound<K>, KeyBound<K>)) -> (r: Tuples<'_, K, V>)
        requires
            self.wf(),
        ensures
            r.wf(),
            exists|lo: int, hi: int|
                #[trigger] is_range_run(self@, bounds, lo, hi) && r@ == self@.subrange(lo, hi),
    {
        let start = match &bounds.0 {
            KeyBound::Included(k) => self.lower_bound(k),
            KeyBound::Excluded(k) => self.upper_bound(k),
            KeyBound::Unbounded => 0,
        };
        let end = match &bounds.1 {
            KeyBound::Included(k) => self.upper_bound(k),
            KeyBound::Excluded(k) => self.lower_bound(k),
            KeyBound::Unbounded => self.keys.len(),
        };
        let high = if end <= start {
            start
        } else {
            end
        };
        let r = Tuples { keys: &self.keys, values: &self.values, low: start, high };
        assert(r@ =~= self@.subrange(start as int, high as int));
        proof {
            assert forall|i: int| 0 <= i < self@.len() implies (within(self@[i].0, bounds) <==> (
            start <= i < high)) by {
                if i < start {
                    assert(!above_start(self@[i].0, bounds.0));
                } else if i >= end {
                    assert(!below_end(self@[i].0, bounds.1));
                } else {
                    assert(above_start(self@[i].0, bounds.0));
                    assert(below_end(self@[i].0, bounds.1));
                }
            }
        }
        assert(is_range_run(self@, bounds, start as int, high as int));
        r
    }

    /// Consumes the list into its pairs, to be taken from either end.
    pub fn into_iter(self) -> (r: IntoTuples<K, V>)
        requires
            self.wf(),
        ensures
            r.wf(),
            r@ == self@,
    {
        let r = IntoTuples { keys: self.keys, values: self.values };
        assert(r@ =~= self@);
        r
    }

    /// Inserts each of `items`, first to last.
    pub fn extend(&mut self, items: Vec<(K, V)>)
        requires
            old(self).wf(),
            V::obeys_eq_spec(),
        ensures
            final(self).wf(),
            final(self)@ == inserted_all(old(self)@, items@),
    {
        let ghost start = self@;
        let mut items = items;
        let ghost all = items@;
        let total = items.len();
        assert(all.len() == total);
        let mut rest: Vec<(K, V)> = Vec::new();
        while items.len() > 0
            invariant
                items@.len() + rest@.len() == all.len(),
                all.len() <= usize::MAX,
                items@ =~= all.subrange(0, items@.len() as int),
                rest@ =~= all.subrange(items@.len() as int, all.len() as int).reverse(),
            decreases items@.len(),
        {
            let e = items.pop().unwrap();
            rest.push(e);
        }
        let mut n: usize = 0;
        while rest.len() > 0
            invariant
                self.wf(),
                V::obeys_eq_spec(),
                n + rest@.len() == all.len(),
                all.len() <= usize::MAX,
                rest@ =~= all.subrange(n as int, all.len() as int).reverse(),
                self@ == inserted_all(start, all.subrange(0, n as int)),
            decreases rest@.len(),
        {
            let (k, v) = rest.pop().unwrap();
            proof {
                assert(all.subrange(0, n as int + 1).drop_last() =~= all.subrange(0, n as int));
                assert(all.subrange(0, n as int + 1).last() == all[n as int]);
            }
            self.insert(k, v);
            n = n + 1;
        }
        assert(all.subrange(0, n as int) =~= all);
    }

    /// A list holding each of `items`, inserted first to last.
    pub fn from_pairs(items: Vec<(K, V)>) -> (r: Self)
        requires
            V::obeys_eq_spec(),
        ensures
            r.wf(),
            r@ == inserted_all(Seq::<(K, V)>::empty(), items@),
    {
        let mut r = Self::new();
        r.extend(items);
        r
    }
}

/// One end of a key range.
#[derive(Clone, Copy, Debug, PartialEq, Eq)]
pub enum KeyBound<K> {
    Included(K),
    Excluded(K),
    Unbounded,
}

/// `k` is at or after the start bound `b`.
pub open spec fn above_start<K: SortKey>(k: K, b: KeyBound<K>) -> bool {
    match b {
        KeyBound::Included(s) => k.rank() >= s.rank(),
        KeyBound::Excluded(s) => k.rank() > s.rank(),
        KeyBound::Unbounded => true,
    }
}

/// `k` is at or before the end bound `b`.
pub open spec fn below_end<K: SortKey>(k: K, b: KeyBound<K>) -> bool {
    match b {
        KeyBound::Included(e) => k.rank() <= e.rank(),
        KeyBound::Excluded(e) => k.rank() < e.rank(),
        KeyBound::Unbounded => true,
    }
}

/// `k` lies within the pair of bounds `b`.
pub open spec fn within<K: SortKey>(k: K, b: (KeyBound<K>, KeyBound<K>)) -> bool {
    above_start(k, b.0) && below_end(k, b.1)
}

/// Places `lo` up to `hi` are exactly the entries whose keys lie within `b`.
pub open spec fn is_range_run<K: SortKey, V>(
    s: Seq<(K, V)>,
    b: (KeyBound<K>, KeyBound<K>),
    lo: int,
    hi: int,
) -> bool {
    &&& 0 <= lo <= hi <= s.len()
    &&& forall|i: int| 0 <= i < s.len() ==> (within(#[trigger] s[i].0, b) <==> lo <= i < hi)
}

/// Borrowed pairs of a `SortedList` still to be walked, taken from either end.
pub struct Tuples<'a, K, V> {
    keys: &'a Vec<K>,
    values: &'a Vec<V>,
    low: usize,
    high: usize,
}

impl<'a, K, V> Tuples<'a, K, V> {
    /// The pairs still to be walked.
    pub closed spec fn view(&self) -> Seq<(K, V)> {
        Seq::new(
            (self.high - self.low) as nat,
            |i: int| (self.keys@[self.low + i], self.values@[self.low + i]),
        )
    }

    pub closed spec fn wf(&self) -> bool {
        &&& self.low <= self.high <= self.keys@.len()
        &&& self.keys@.len() == self.values@.len()
    }

    /// Takes the first remaining pair.
    pub fn next(&mut self) -> (r: Option<(&'a K, &'a V)>)
        requires
            old(self).wf(),
        ensures
            final(self).wf(),
            old(self)@.len() == 0 ==> r is None && final(self)@ == old(self)@,
            old(self)@.len() > 0 ==> (r matches Some(p) && (*p.0, *p.1) == old(self)@[0]
                && final(self)@ == old(self)@.drop_first()),
    {
        if self.low < self.high {
            let low = self.low;
            self.low = self.low + 1;
            assert(self@ =~= old(self)@.drop_first());
            Some((&self.keys[low], &self.values[low]))
        } else {
            None
        }
    }

    /// Takes the last remaining pair.
    pub fn next_back(&mut self) -> (r: Option<(&'a K, &'a V)>)
        requires
            old(self).wf(),
        ensures
            final(self).wf(),
            old(self)@.len() == 0 ==> r is None && final(self)@ == old(self)@,
            old(self)@.len() > 0 ==> (r matches Some(p) && (*p.0, *p.1) == old(self)@.last()
                && final(self)@ == old(self)@.drop_last()),
    {
        if self.high > self.low {
            self.high = self.high - 1;
            let high = self.high;
            assert(self@ =~= old(self)@.drop_last());
            Some((&self.keys[high], &self.values[high]))
        } else {
            None
        }
    }

    /// Number of pairs still to be walked.
    pub fn len(&self) -> (r: usize)
        requires
            self.wf(),
        ensures
            r == self@.len(),
    {
        self.high - self.low
    }
}

/// Owned pairs of a consumed `SortedList`, taken from either end.
pub struct IntoTuples<K, V> {
    keys: Vec<K>,
    values: Vec<V>,
}

impl<K, V> IntoTuples<K, V> {
    /// The pairs not taken yet.
    pub closed spec fn view(&self) -> Seq<(K, V)> {
        Seq::new(self.keys@.len(), |i: int| (self.keys@[i], self.values@[i]))
    }

    pub closed spec fn wf(&self) -> bool {
        self.keys@.len() == self.values@.len()
    }

    /// Takes the first remaining pair.
    pub fn next(&mut self) -> (r: Option<(K, V)>)
        requires
            old(self).wf(),
        ensures
            final(self).wf(),
            old(self)@.len() == 0 ==> r is None && final(self)@ == old(self)@,
            old(self)@.len() > 0 ==> r == Some(old(self)@[0]) && final(self)@ == old(
                self,
            )@.drop_first(),
    {
        if self.keys.len() > 0 {
            let k = self.keys.remove(0);
            let v = self.values.remove(0);
            assert(self@ =~= old(self)@.drop_first());
            Some((k, v))
        } else {
            None
        }
    }

    /// Takes the last remaining pair.
    pub fn next_back(&mut self) -> (r: Option<(K, V)>)
        requires
            old(self).wf(),
        ensures
            final(self).wf(),
            old(self)@.len() == 0 ==> r is None && final(self)@ == old(self)@,
            old(self)@.len() > 0 ==> r == Some(old(self)@.last()) && final(self)@ == old(
                self,
            )@.drop_last(),
    {
        if self.keys.len() > 0 {
            let k = self.keys.pop().unwrap();
            let v = self.values.pop().unwrap();
            assert(self@ =~= old(self)@.drop_last());
            Some((k, v))
        } else {
            None
        }
    }

    /// Number of pairs not taken yet.
    pub fn len(&self) -> (r: usize)
        requires
            self.wf(),
        ensures
            r == self@.len(),
    {
        self.keys.len()
    }
}

} // verus!

verus! {

/// The values stored under key `k`, front to back.
pub open spec fn values_under<K, V>(s: Seq<(K, V)>, k: K) -> Seq<V>
    decreases s.len(),
{
    if s.len() == 0 {
        Seq::empty()
    } else {
        let prev = values_under(s.drop_last(), k);
        if s.last().0 == k {
            prev.push(s.last().1)
        } else {
            prev
        }
    }
}

/// The values under key `k` that inserting `items` in turn keeps: each value of
/// an item with key `k` that equals none kept before it, in the items' order.
pub open spec fn kept_under<K, V: PartialEq>(items: Seq<(K, V)>, k: K) -> Seq<V>
    decreases items.len(),
{
    if items.len() == 0 {
        Seq::empty()
    } else {
        let prev = kept_under(items.drop_last(), k);
        let last = items.last();
        if last.0 == k && !(exists|i: int| 0 <= i < prev.len() && last.1.eq_spec(&prev[i])) {
            prev.push(last.1)
        } else {
            prev
        }
    }
}

proof fn lemma_values_under_add<K, V>(a: Seq<(K, V)>, b: Seq<(K, V)>, k: K)
    ensures
        values_under(a + b, k) == values_under(a, k) + values_under(b, k),
    decreases b.len(),
{
    if b.len() == 0 {
        assert(a + b =~= a);
        assert(values_under(a, k) + values_under(b, k) =~= values_under(a, k));
    } else {
        assert((a + b).drop_last() =~= a + b.drop_last());
        lemma_values_under_add(a, b.drop_last(), k);
        if b.last().0 == k {
            assert(values_under(a, k) + values_under(b.drop_last(), k).push(b.last().1)
                =~= (values_under(a, k) + values_under(b.drop_last(), k)).push(b.last().1));
        }
    }
}

proof fn lemma_values_under_absent<K, V>(s: Seq<(K, V)>, k: K)
    requires
        forall|i: int| 0 <= i < s.len() ==> s[i].0 != k,
    ensures
        values_under(s, k) == Seq::<V>::empty(),
    decreases s.len(),
{
    if s.len() > 0 {
        lemma_values_under_absent(s.drop_last(), k);
    }
}

proof fn lemma_holds_pair_values_under<K, V: PartialEq>(s: Seq<(K, V)>, k: K, v: V)
    ensures
        holds_pair(s, k, v) <==> exists|i: int|
            0 <= i < values_under(s, k).len() && v.eq_spec(&values_under(s, k)[i]),
    decreases s.len(),
{
    if s.len() > 0 {
        let t = s.drop_last();
        lemma_holds_pair_values_under(t, k, v);
        let prev = values_under(t, k);
        let cur = values_under(s, k);
        if holds_pair(s, k, v) {
            let i = choose|i: int| 0 <= i < s.len() && s[i].0 == k && v.eq_spec(&s[i].1);
            if i < t.len() {
                assert(t[i] == s[i]);
                let j = choose|j: int| 0 <= j < prev.len() && v.eq_spec(&prev[j]);
                assert(cur[j] == prev[j]);
            } else {
                assert(cur[prev.len() as int] == s.last().1);
            }
        }
        if exists|i: int| 0 <= i < cur.len() && v.eq_spec(&cur[i]) {
            let i = choose|i: int| 0 <= i < cur.len() && v.eq_spec(&cur[i]);
            if i < prev.len() {
                assert(cur[i] == prev[i]);
                let j = choose|j: int| 0 <= j < t.len() && t[j].0 == k && v.eq_spec(&t[j].1);
                assert(t[j] == s[j]);
            } else {
                assert(s[s.len() - 1].0 == k);
            }
        }
    }
}

/// Inserting keeps a sorted sequence sorted.
pub proof fn lemma_inserted_sorted<K: SortKey, V: PartialEq>(s: Seq<(K, V)>, k: K, v: V)
    requires
        sorted_by_key(s),
    ensures
        sorted_by_key(inserted(s, k, v)),
{
    if !holds_pair(s, k, v) {
        lemma_count_is_upper_place(s, k);
        let p = count_at_or_below(s, k);
        let t = s.insert(p, (k, v));
        assert forall|i: int, j: int| 0 <= i < j < t.len() implies t[i].0.rank() <= t[j].0.rank() by {
            if i < p && j == p {
                assert(t[i] == s[i]);
            } else if i == p && j > p {
                assert(t[j] == s[j - 1]);
            } else {
                let ii = if i < p { i } else { i - 1 };
                let jj = if j < p { j } else { j - 1 };
                assert(t[i] == s[ii]);
                assert(t[j] == s[jj]);
            }
        }
    }
}

/// Inserting keeps a sorted sequence sorted, and adds the new value, if it is
/// added at all, after every value already stored under its key; the values
/// under other keys stay as they were.
pub proof fn lemma_insert_keeps_order<K: SortKey, V: PartialEq>(s: Seq<(K, V)>, k: K, v: V, key: K)
    requires
        sorted_by_key(s),
    ensures
        sorted_by_key(inserted(s, k, v)),
        values_under(inserted(s, k, v), key) == if k == key && !holds_pair(s, k, v) {
            values_under(s, key).push(v)
        } else {
            values_under(s, key)
        },
{
    if !holds_pair(s, k, v) {
        lemma_count_is_upper_place(s, k);
        let p = count_at_or_below(s, k);
        let pre = s.subrange(0, p);
        let post = s.subrange(p, s.len() as int);
        let t = s.insert(p, (k, v));
        assert(t =~= pre + seq![(k, v)] + post);
        assert(s =~= pre + post);
        lemma_inserted_sorted(s, k, v);
        lemma_values_under_add(pre + seq![(k, v)], post, key);
        lemma_values_under_add(pre, seq![(k, v)], key);
        lemma_values_under_add(pre, post, key);
        let one = seq![(k, v)];
        assert(one.drop_last() =~= Seq::<(K, V)>::empty());
        assert(one.last() == (k, v));
        assert(values_under(Seq::<(K, V)>::empty(), key) == Seq::<V>::empty());
        if k == key {
            assert(values_under(one, key) =~= seq![v]);
        } else {
            assert(values_under(one, key) =~= Seq::<V>::empty());
        }
        if k == key {
            assert forall|i: int| 0 <= i < post.len() implies post[i].0 != key by {
                assert(post[i] == s[p + i]);
            }
            lemma_values_under_absent(post, key);
            assert(values_under(pre, key) + values_under(seq![(k, v)], key) + values_under(
                post,
                key,
            ) =~= values_under(pre, key).push(v));
            assert(values_under(pre, key) + values_under(post, key) =~= values_under(pre, key));
        } else {
            assert(values_under(pre, key) + values_under(seq![(k, v)], key) =~= values_under(
                pre,
                key,
            ));
        }
    }
}

/// Whatever pairs are inserted, in whatever order, into an empty list: the
/// entries come out in non-decreasing key order, and the values under each key
/// are those kept, in the order in which they were inserted.
pub proof fn lemma_inserts_keep_order<K: SortKey, V: PartialEq>(items: Seq<(K, V)>, key: K)
    ensures
        sorted_by_key(inserted_all(Seq::<(K, V)>::empty(), items)),
        values_under(inserted_all(Seq::<(K, V)>::empty(), items), key) == kept_under(items, key),
    decreases items.len(),
{
    if items.len() > 0 {
        let rest = items.drop_last();
        let last = items.last();
        lemma_inserts_keep_order(rest, key);
        let s = inserted_all(Seq::<(K, V)>::empty(), rest);
        lemma_insert_keeps_order(s, last.0, last.1, key);
        lemma_holds_pair_values_under(s, last.0, last.1);
    }
}

/// Inserting a pair a second time leaves the pairs as the first insert left them.
pub proof fn lemma_insert_twice<K: SortKey, V: PartialEq>(s: Seq<(K, V)>, k: K, v: V)
    requires
        sorted_by_key(s),
        v.eq_spec(&v),
    ensures
        holds_pair(inserted(s, k, v), k, v),
        inserted(inserted(s, k, v), k, v) == inserted(s, k, v),
{
    if !holds_pair(s, k, v) {
        let p = count_at_or_below(s, k);
        lemma_count_is_upper_place(s, k);
        let t = s.insert(p, (k, v));
        assert(t[p] == (k, v));
    }
}

/// After `(k, v)` is inserted, a value `w` that differs from `v` and was not
/// stored under `k` is still taken under `k`.
pub proof fn lemma_insert_distinct_value<K: SortKey, V: PartialEq>(s: Seq<(K, V)>, k: K, v: V, w: V)
    requires
        sorted_by_key(s),
        !w.eq_spec(&v),
        !holds_pair(s, k, w),
    ensures
        !holds_pair(inserted(s, k, v), k, w),
        inserted(inserted(s, k, v), k, w).len() == inserted(s, k, v).len() + 1,
{
    lemma_insert_keeps_order(s, k, v, k);
    lemma_count_is_upper_place(inserted(s, k, v), k);
    if !holds_pair(s, k, v) {
        let p = count_at_or_below(s, k);
        lemma_count_is_upper_place(s, k);
        let t = s.insert(p, (k, v));
        if holds_pair(t, k, w) {
            let i = choose|i: int| 0 <= i < t.len() && t[i].0 == k && w.eq_spec(&t[i].1);
            if i < p {
                assert(t[i] == s[i]);
            } else if i > p {
                assert(t[i] == s[i - 1]);
            } else {
                assert(t[i] == (k, v));
            }
        }
    }
}

} // verus!
