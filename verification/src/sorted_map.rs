//! A map that keeps its entries in the order of the keys.

use vstd::prelude::*;

use crate::data::Data;

verus! {

/// A key with a strict total order.
pub trait Key: Copy {
    /// The key comes before the other one.
    spec fn before(self, other: Self) -> bool;

    /// No key comes before itself.
    proof fn before_irreflexive(a: Self)
        ensures
            !a.before(a),
    ;

    /// The order is transitive.
    proof fn before_transitive(a: Self, b: Self, c: Self)
        requires
            a.before(b),
            b.before(c),
        ensures
            a.before(c),
    ;

    /// Two different keys are ordered one way or the other.
    proof fn before_total(a: Self, b: Self)
        ensures
            a.before(b) || b.before(a) || a == b,
    ;

    /// Tells whether the key comes before the other one.
    fn is_before(&self, other: &Self) -> (r: bool)
        ensures
            r == self.before(*other),
    ;
}

impl Key for u8 {
    open spec fn before(self, other: Self) -> bool {
        self < other
    }

    proof fn before_irreflexive(a: Self) {
    }

    proof fn before_transitive(a: Self, b: Self, c: Self) {
    }

    proof fn before_total(a: Self, b: Self) {
    }

    fn is_before(&self, other: &Self) -> (r: bool) {
        *self < *other
    }
}

impl Key for u64 {
    open spec fn before(self, other: Self) -> bool {
        self < other
    }

    proof fn before_irreflexive(a: Self) {
    }

    proof fn before_transitive(a: Self, b: Self, c: Self) {
    }

    proof fn before_total(a: Self, b: Self) {
    }

    fn is_before(&self, other: &Self) -> (r: bool) {
        *self < *other
    }
}

/// At position `i` the first string has the smaller byte, and up to there the two agree.
pub open spec fn splits_at(a: Seq<u8>, b: Seq<u8>, i: int) -> bool {
    &&& 0 <= i < a.len()
    &&& a[i] < b[i]
    &&& forall|j: int| 0 <= j < i ==> a[j] == b[j]
}

/// The lexicographic order of two byte strings of one length.
pub open spec fn lexicographic(a: Seq<u8>, b: Seq<u8>) -> bool {
    exists|i: int| splits_at(a, b, i)
}

/// Two byte strings that agree up to position `i` are equal or lexicographically ordered.
proof fn lemma_lexicographic_total_from(a: Seq<u8>, b: Seq<u8>, i: int)
    requires
        a.len() == b.len(),
        0 <= i <= a.len(),
        forall|j: int| 0 <= j < i ==> a[j] == b[j],
    ensures
        lexicographic(a, b) || lexicographic(b, a) || a =~= b,
    decreases a.len() - i,
{
    if i < a.len() {
        if a[i] < b[i] {
            assert(splits_at(a, b, i));
        } else if b[i] < a[i] {
            assert(splits_at(b, a, i));
        } else {
            lemma_lexicographic_total_from(a, b, i + 1);
        }
    }
}

impl<const N: usize> Key for [u8; N] {
    open spec fn before(self, other: Self) -> bool {
        lexicographic(self@, other@)
    }

    proof fn before_irreflexive(a: Self) {
    }

    proof fn before_transitive(a: Self, b: Self, c: Self) {
        let i = choose|i: int| splits_at(a@, b@, i);
        let j = choose|j: int| splits_at(b@, c@, j);
        if i <= j {
            assert(splits_at(a@, c@, i));
        } else {
            assert(splits_at(a@, c@, j));
        }
    }

    proof fn before_total(a: Self, b: Self) {
        lemma_lexicographic_total_from(a@, b@, 0);
        if a@ =~= b@ {
            assert(a =~= b);
        }
    }

    fn is_before(&self, other: &Self) -> (r: bool) {
        let mut i: usize = 0;
        while i < N
            invariant
                0 <= i <= N,
                forall|j: int| 0 <= j < i ==> self@[j] == other@[j],
            decreases N - i,
        {
            if self[i] < other[i] {
                assert(splits_at(self@, other@, i as int));
                return true;
            }
            if self[i] > other[i] {
                assert forall|k: int| !splits_at(self@, other@, k) by {
                    if splits_at(self@, other@, k) && k > i {
                        assert(self@[i as int] == other@[i as int]);
                    }
                }
                return false;
            }
            i = i + 1;
        }
        assert forall|k: int| !splits_at(self@, other@, k) by {
        }
        false
    }
}

/// Each key of the sequence comes before all that follow it.
pub open spec fn strictly_sorted<K: Key>(s: Seq<K>) -> bool {
    forall|i: int, j: int| 0 <= i < j < s.len() ==> (#[trigger] s[i]).before(#[trigger] s[j])
}

/// The sequence lists exactly the keys of the set, each once and in order.
pub open spec fn is_listing<K: Key>(s: Seq<K>, keys: Set<K>) -> bool {
    &&& strictly_sorted(s)
    &&& forall|k: K| #[trigger] keys.contains(k) <==> s.contains(k)
}

/// In a strictly sorted sequence no key occurs twice.
pub proof fn lemma_sorted_distinct<K: Key>(s: Seq<K>, i: int, j: int)
    requires
        strictly_sorted(s),
        0 <= i < s.len(),
        0 <= j < s.len(),
        s[i] == s[j],
    ensures
        i == j,
{
    K::before_irreflexive(s[i]);
    if i < j {
        assert(s[i].before(s[j]));
    } else if j < i {
        assert(s[j].before(s[i]));
    }
}

/// One more element in a prefix of a sequence.
pub proof fn lemma_take_contains<K>(s: Seq<K>, i: int)
    requires
        0 <= i < s.len(),
    ensures
        forall|k: K| #[trigger] s.take(i + 1).contains(k) <==> s.take(i).contains(k) || k == s[i],
{
    assert forall|k: K| #[trigger] s.take(i + 1).contains(k) <==> s.take(i).contains(k) || k
        == s[i] by {
        if s.take(i + 1).contains(k) {
            let t = s.take(i + 1);
            let j = choose|j: int| 0 <= j < t.len() && t[j] == k;
            if j < i {
                assert(s.take(i)[j] == k);
            }
        }
        if s.take(i).contains(k) {
            let t = s.take(i);
            let j = choose|j: int| 0 <= j < t.len() && t[j] == k;
            assert(s.take(i + 1)[j] == k);
        }
        if k == s[i] {
            assert(s.take(i + 1)[i] == k);
        }
    }
}

/// The first keys of two listings of one set are the same.
proof fn lemma_listing_first<K: Key>(s: Seq<K>, t: Seq<K>, keys: Set<K>)
    requires
        is_listing(s, keys),
        is_listing(t, keys),
        s.len() > 0,
        t.len() > 0,
    ensures
        s[0] == t[0],
{
    assert(s.contains(s[0]));
    assert(keys.contains(s[0]));
    assert(t.contains(s[0]));
    let j = choose|j: int| 0 <= j < t.len() && t[j] == s[0];
    assert(t.contains(t[0]));
    assert(keys.contains(t[0]));
    assert(s.contains(t[0]));
    let i = choose|i: int| 0 <= i < s.len() && s[i] == t[0];
    if j > 0 && i > 0 {
        assert(t[0].before(t[j]));
        assert(s[0].before(s[i]));
        K::before_transitive(s[0], t[0], s[0]);
        K::before_irreflexive(s[0]);
    }
}

/// Without its first key a listing lists the remaining keys.
proof fn lemma_listing_rest<K: Key>(s: Seq<K>, keys: Set<K>)
    requires
        is_listing(s, keys),
        s.len() > 0,
    ensures
        is_listing(s.drop_first(), keys.remove(s[0])),
{
    let rest = s.drop_first();
    assert forall|i: int, j: int| 0 <= i < j < rest.len() implies (#[trigger] rest[i]).before(
        #[trigger] rest[j],
    ) by {
        assert(s[i + 1].before(s[j + 1]));
    }
    assert forall|k: K| #[trigger] keys.remove(s[0]).contains(k) <==> rest.contains(k) by {
        if keys.remove(s[0]).contains(k) {
            assert(keys.contains(k));
            let i = choose|i: int| 0 <= i < s.len() && s[i] == k;
            assert(rest[i - 1] == k);
        }
        if rest.contains(k) {
            let i = choose|i: int| 0 <= i < rest.len() && rest[i] == k;
            assert(s[i + 1] == k);
            assert(s.contains(k));
            if k == s[0] {
                lemma_sorted_distinct(s, 0, i + 1);
            }
            assert(keys.contains(k));
        }
    }
}

/// A set of keys has only one listing.
pub proof fn lemma_listing_unique<K: Key>(s: Seq<K>, t: Seq<K>, keys: Set<K>)
    requires
        is_listing(s, keys),
        is_listing(t, keys),
    ensures
        s == t,
    decreases s.len(),
{
    if s.len() == 0 {
        if t.len() > 0 {
            assert(t.contains(t[0]));
            assert(keys.contains(t[0]));
            assert(s.contains(t[0]));
        }
        assert(s =~= t);
    } else if t.len() == 0 {
        assert(s.contains(s[0]));
        assert(keys.contains(s[0]));
        assert(t.contains(s[0]));
    } else {
        lemma_listing_first(s, t, keys);
        lemma_listing_rest(s, keys);
        lemma_listing_rest(t, keys);
        lemma_listing_unique(s.drop_first(), t.drop_first(), keys.remove(s[0]));
        assert(s =~= seq![s[0]] + s.drop_first());
        assert(t =~= seq![t[0]] + t.drop_first());
    }
}

/// A map from keys to values, kept in the order of the keys.
#[derive(Debug)]
pub struct SortedMap<K: Key, V: Data> {
    entries: Vec<(K, V)>,
}

/// The keys of a sequence of entries.
spec fn entry_keys<K: Key, V: Data>(entries: Seq<(K, V)>) -> Seq<K> {
    Seq::new(entries.len(), |i: int| entries[i].0)
}

/// The map that a sequence of entries stands for.
spec fn entry_map<K: Key, V: Data>(entries: Seq<(K, V)>) -> Map<K, V::M> {
    Map::new(
        |k: K| entry_keys(entries).contains(k),
        |k: K| entries[entry_keys(entries).index_of(k)].1.model(),
    )
}

/// In sorted entries the value of a key stands at the position of the key.
proof fn lemma_entry_at<K: Key, V: Data>(entries: Seq<(K, V)>, i: int)
    requires
        strictly_sorted(entry_keys(entries)),
        0 <= i < entries.len(),
    ensures
        entry_map(entries).contains_key(entries[i].0),
        entry_map(entries)[entries[i].0] == entries[i].1.model(),
{
    let keys = entry_keys(entries);
    assert(keys[i] == entries[i].0);
    assert(keys.contains(entries[i].0));
    let at = keys.index_of(entries[i].0);
    assert(0 <= at < keys.len() && keys[at] == entries[i].0);
    lemma_sorted_distinct(keys, i, at);
}

impl<K: Key, V: Data> SortedMap<K, V> {
    #[verifier::type_invariant]
    spec fn sorted(self) -> bool {
        strictly_sorted(entry_keys(self.entries@))
    }

    /// The keys in their order.
    pub closed spec fn keys(&self) -> Seq<K> {
        entry_keys(self.entries@)
    }

    /// Creates a map without entries.
    pub fn new() -> (r: Self)
        ensures
            r.model() == Map::<K, V::M>::empty(),
    {
        let r: SortedMap<K, V> = SortedMap { entries: Vec::new() };
        assert(r.model() =~= Map::<K, V::M>::empty());
        r
    }

    /// The number of entries.
    pub fn len(&self) -> (r: usize)
        ensures
            r == self.keys().len(),
            is_listing(self.keys(), self.model().dom()),
    {
        proof {
            use_type_invariant(self);
            let keys = self.keys();
            assert forall|k: K| #[trigger] self.model().dom().contains(k) <==> keys.contains(k) by {
            }
        }
        self.entries.len()
    }

    /// The key at a position in the order.
    pub fn key_at(&self, i: usize) -> (r: K)
        requires
            i < self.keys().len(),
        ensures
            r == self.keys()[i as int],
    {
        self.entries[i].0
    }

    /// The value at a position in the order of the keys.
    pub fn value_at(&self, i: usize) -> (r: &V)
        requires
            i < self.keys().len(),
        ensures
            self.model().contains_key(self.keys()[i as int]),
            r.model() == self.model()[self.keys()[i as int]],
    {
        proof {
            use_type_invariant(self);
            lemma_entry_at(self.entries@, i as int);
        }
        &self.entries[i].1
    }

    /// The keys in their order.
    pub fn key_list(&self) -> (r: Vec<K>)
        ensures
            r@ == self.keys(),
            is_listing(r@, self.model().dom()),
    {
        let len: usize = self.len();
        let mut list: Vec<K> = Vec::new();
        let mut i: usize = 0;
        while i < len
            invariant
                i <= len,
                len == self.keys().len(),
                list@ == self.keys().take(i as int),
            decreases len - i,
        {
            list.push(self.key_at(i));
            i = i + 1;
            assert(list@ =~= self.keys().take(i as int));
        }
        assert(list@ =~= self.keys());
        list
    }

    /// The position at which the key stands, or would have to stand.
    fn position(&self, k: &K) -> (r: usize)
        ensures
            r <= self.keys().len(),
            forall|i: int| 0 <= i < r ==> (#[trigger] self.keys()[i]).before(*k),
            forall|i: int| r <= i < self.keys().len() ==> !(#[trigger] self.keys()[i]).before(*k),
    {
        proof {
            use_type_invariant(self);
        }
        let mut low: usize = 0;
        let mut high: usize = self.entries.len();
        while low < high
            invariant
                low <= high <= self.entries.len(),
                strictly_sorted(self.keys()),
                self.keys().len() == self.entries.len(),
                forall|i: int| 0 <= i < low ==> (#[trigger] self.keys()[i]).before(*k),
                forall|i: int| high <= i < self.keys().len() ==> !(
                #[trigger] self.keys()[i]).before(*k),
            decreases high - low,
        {
            let mid: usize = low + (high - low) / 2;
            let ghost keys = self.keys();
            let at: K = self.entries[mid].0;
            assert(at == keys[mid as int]);
            if at.is_before(k) {
                proof {
                    assert forall|i: int| 0 <= i < mid + 1 implies (#[trigger] keys[i]).before(
                        *k,
                    ) by {
                        if i < mid {
                            assert(keys[i].before(keys[mid as int]));
                            K::before_transitive(keys[i], keys[mid as int], *k);
                        }
                    }
                }
                low = mid + 1;
            } else {
                proof {
                    assert forall|i: int| mid <= i < keys.len() implies !(
                    #[trigger] keys[i]).before(*k) by {
                        if i > mid && keys[i].before(*k) {
                            assert(keys[mid as int].before(keys[i]));
                            K::before_transitive(keys[mid as int], keys[i], *k);
                        }
                    }
                }
                high = mid;
            }
        }
        low
    }

    /// The value stored for a key.
    pub fn get(&self, k: &K) -> (r: Option<&V>)
        ensures
            match r {
                Some(v) => self.model().contains_key(*k) && v.model() == self.model()[*k],
                None => !self.model().contains_key(*k),
            },
    {
        let at: usize = self.position(k);
        proof {
            use_type_invariant(self);
            K::before_irreflexive(*k);
        }
        let ghost keys = self.keys();
        if at < self.entries.len() {
            let found: K = self.entries[at].0;
            assert(found == keys[at as int]);
            if !k.is_before(&found) {
                proof {
                    K::before_total(*k, found);
                    lemma_entry_at(self.entries@, at as int);
                }
                return Some(&self.entries[at].1);
            }
        }
        proof {
            if keys.contains(*k) {
                let i = choose|i: int| 0 <= i < keys.len() && keys[i] == *k;
                if i < at {
                    assert(keys[i].before(*k));
                } else if i > at {
                    assert(keys[at as int].before(keys[i]));
                }
            }
        }
        None
    }

    /// Tells whether a value is stored for the key.
    pub fn contains_key(&self, k: &K) -> (r: bool)
        ensures
            r == self.model().contains_key(*k),
    {
        match self.get(k) {
            Some(_) => true,
            None => false,
        }
    }

    /// Stores a value for a key, in place of the one that was stored for it.
    pub fn insert(&mut self, k: K, v: V)
        ensures
            final(self).model() == old(self).model().insert(k, v.model()),
    {
        let at: usize = self.position(&k);
        proof {
            use_type_invariant(&*self);
            K::before_irreflexive(k);
        }
        let ghost before = self.entries@;
        let ghost keys = entry_keys(before);
        let mut entries: Vec<(K, V)> = Vec::new();
        std::mem::swap(&mut entries, &mut self.entries);
        let mut replaces: bool = false;
        if at < entries.len() {
            let found: K = entries[at].0;
            assert(found == keys[at as int]);
            proof {
                K::before_total(k, found);
            }
            replaces = !k.is_before(&found);
        }
        if replaces {
            assert(keys[at as int] == k);
            entries.set(at, (k, v));
            let ghost after = entries@;
            proof {
                assert(entry_keys(after) =~= keys);
                lemma_entry_at(after, at as int);
                assert forall|x: K| entry_map(before).insert(k, v.model()).contains_key(
                    x,
                ) implies #[trigger] entry_map(after)[x] == entry_map(before).insert(
                    k,
                    v.model(),
                )[x] by {
                    if x != k {
                        let i = keys.index_of(x);
                        assert(keys[i] == x);
                        lemma_entry_at(before, i);
                        lemma_entry_at(after, i);
                    }
                }
                assert(entry_map(after) =~= entry_map(before).insert(k, v.model())) by {
                    assert forall|x: K| #[trigger] entry_map(after).dom().contains(x)
                        <==> entry_map(before).insert(k, v.model()).dom().contains(x) by {
                        assert(keys.contains(k));
                    }
                }
            }
        } else {
            entries.insert(at, (k, v));
            let ghost after = entries@;
            proof {
                lemma_inserted(before, after, at as int, k, v);
            }
        }
        self.entries = entries;
    }
}

/// The elements of a finite set of keys, each once and in order.
pub open spec fn listing<K: Key>(keys: Set<K>) -> Seq<K> {
    choose|s: Seq<K>| is_listing(s, keys)
}

/// What lists a set of keys is the listing of it.
pub proof fn lemma_listing<K: Key>(s: Seq<K>, keys: Set<K>)
    requires
        is_listing(s, keys),
    ensures
        s == listing(keys),
{
    lemma_listing_unique(s, listing(keys), keys);
}

/// The keys of two lists, each once and in order.
pub fn sorted_union<K: Key>(a: &Vec<K>, b: &Vec<K>) -> (r: Vec<K>)
    ensures
        is_listing(r@, a@.to_set().union(b@.to_set())),
{
    let mut keys: SortedMap<K, ()> = SortedMap::new();
    insert_keys(&mut keys, a);
    insert_keys(&mut keys, b);
    let r: Vec<K> = keys.key_list();
    assert(keys.model().dom() =~= a@.to_set().union(b@.to_set()));
    r
}

/// Adds the keys of a list to a set of keys.
fn insert_keys<K: Key>(keys: &mut SortedMap<K, ()>, list: &Vec<K>)
    ensures
        final(keys).model().dom() == old(keys).model().dom().union(list@.to_set()),
{
    let ghost before = keys.model().dom();
    let mut i: usize = 0;
    while i < list.len()
        invariant
            i <= list.len(),
            forall|k: K| #[trigger]
                keys.model().dom().contains(k) <==> before.contains(k) || list@.take(
                    i as int,
                ).contains(k),
        decreases list.len() - i,
    {
        keys.insert(list[i], ());
        proof {
            lemma_take_contains(list@, i as int);
        }
        i = i + 1;
    }
    assert(list@.take(i as int) =~= list@);
    assert(keys.model().dom() =~= before.union(list@.to_set()));
}

/// Inserting an entry between the smaller and the greater keys inserts it in the map.
proof fn lemma_inserted<K: Key, V: Data>(
    before: Seq<(K, V)>,
    after: Seq<(K, V)>,
    at: int,
    k: K,
    v: V,
)
    requires
        strictly_sorted(entry_keys(before)),
        0 <= at <= before.len(),
        after == before.insert(at, (k, v)),
        forall|i: int| 0 <= i < at ==> (#[trigger] entry_keys(before)[i]).before(k),
        at < before.len() ==> k.before(entry_keys(before)[at]),
    ensures
        strictly_sorted(entry_keys(after)),
        entry_map(after) == entry_map(before).insert(k, v.model()),
{
    let keys = entry_keys(before);
    let new_keys = entry_keys(after);
    assert forall|i: int| at <= i < keys.len() implies k.before(#[trigger] keys[i]) by {
        if i > at {
            assert(keys[at].before(keys[i]));
            K::before_transitive(k, keys[at], keys[i]);
        }
    }
    assert forall|i: int, j: int| 0 <= i < j < new_keys.len() implies (
    #[trigger] new_keys[i]).before(#[trigger] new_keys[j]) by {
        if i < at {
            assert(new_keys[i] == keys[i]);
            if j < at {
                assert(new_keys[j] == keys[j]);
            } else if j > at {
                assert(new_keys[j] == keys[j - 1]);
                assert(keys[i].before(keys[j - 1]));
            }
        } else {
            assert(new_keys[j] == keys[j - 1]);
            if i > at {
                assert(new_keys[i] == keys[i - 1]);
            }
        }
    }
    let target = entry_map(before).insert(k, v.model());
    assert(new_keys[at] == k);
    assert forall|x: K| #[trigger] entry_map(after).dom().contains(x) <==> target.dom().contains(
        x,
    ) by {
        if new_keys.contains(x) {
            let i = choose|i: int| 0 <= i < new_keys.len() && new_keys[i] == x;
            if i < at {
                assert(keys[i] == x);
            } else if i > at {
                assert(keys[i - 1] == x);
            }
        }
        if keys.contains(x) {
            let i = choose|i: int| 0 <= i < keys.len() && keys[i] == x;
            if i < at {
                assert(new_keys[i] == x);
            } else {
                assert(new_keys[i + 1] == x);
            }
        }
        if x == k {
            assert(new_keys.contains(k));
        }
    }
    assert forall|x: K| entry_map(after).dom().contains(x) implies #[trigger] entry_map(after)[x]
        == target[x] by {
        let i = choose|i: int| 0 <= i < new_keys.len() && new_keys[i] == x;
        lemma_entry_at(after, i);
        if i < at {
            assert(keys[i] == x);
            assert(after[i] == before[i]);
            lemma_entry_at(before, i);
            lemma_sorted_distinct_pair(new_keys, i, at);
        } else if i > at {
            assert(keys[i - 1] == x);
            assert(after[i] == before[i - 1]);
            lemma_entry_at(before, i - 1);
            lemma_sorted_distinct_pair(new_keys, at, i);
        }
    }
    assert(entry_map(after) =~= target);
}

/// Keys at different positions of a strictly sorted sequence differ.
proof fn lemma_sorted_distinct_pair<K: Key>(s: Seq<K>, i: int, j: int)
    requires
        strictly_sorted(s),
        0 <= i < j < s.len(),
    ensures
        s[i] != s[j],
{
    if s[i] == s[j] {
        lemma_sorted_distinct(s, i, j);
    }
}

/// Entries with the same keys and the same values stand for the same map.
proof fn lemma_same_entries<K: Key, V: Data>(a: Seq<(K, V)>, b: Seq<(K, V)>)
    requires
        strictly_sorted(entry_keys(a)),
        entry_keys(a) == entry_keys(b),
        forall|i: int| 0 <= i < a.len() ==> (#[trigger] a[i]).1.model() == b[i].1.model(),
    ensures
        entry_map(a) == entry_map(b),
{
    assert(a.len() == entry_keys(a).len());
    assert(b.len() == entry_keys(b).len());
    assert forall|k: K| entry_map(a).dom().contains(k) implies #[trigger] entry_map(a)[k]
        == entry_map(b)[k] by {
        let i = entry_keys(a).index_of(k);
        assert(entry_keys(a)[i] == k);
        assert(a[i].1.model() == b[i].1.model());
    }
    assert(entry_map(a) =~= entry_map(b));
}

/// Sorted entries with different keys stand for different maps.
proof fn lemma_other_keys<K: Key, V: Data>(a: Seq<(K, V)>, b: Seq<(K, V)>)
    requires
        strictly_sorted(entry_keys(a)),
        strictly_sorted(entry_keys(b)),
        entry_keys(a) != entry_keys(b),
    ensures
        entry_map(a) != entry_map(b),
{
    if entry_map(a) == entry_map(b) {
        let keys = entry_map(a).dom();
        assert forall|k: K| #[trigger] keys.contains(k) <==> entry_keys(a).contains(k) by {
        }
        assert forall|k: K| #[trigger] keys.contains(k) <==> entry_keys(b).contains(k) by {
            assert(entry_map(b).dom().contains(k) <==> entry_keys(b).contains(k));
        }
        lemma_listing_unique(entry_keys(a), entry_keys(b), keys);
    }
}

impl<K: Key, V: Data> Data for SortedMap<K, V> {
    type M = Map<K, V::M>;

    closed spec fn model(&self) -> Map<K, V::M> {
        entry_map(self.entries@)
    }

    fn copied(&self) -> (r: Self) {
        proof {
            use_type_invariant(self);
        }
        let mut entries: Vec<(K, V)> = Vec::new();
        let mut i: usize = 0;
        while i < self.entries.len()
            invariant
                i <= self.entries.len(),
                entries@.len() == i,
                forall|j: int| 0 <= j < i ==> (#[trigger] entries@[j]).0 == self.entries@[j].0,
                forall|j: int|
                    0 <= j < i ==> (#[trigger] entries@[j]).1.model()
                        == self.entries@[j].1.model(),
            decreases self.entries.len() - i,
        {
            let v: V = self.entries[i].1.copied();
            entries.push((self.entries[i].0, v));
            i = i + 1;
        }
        proof {
            assert(entry_keys(entries@) =~= entry_keys(self.entries@));
            lemma_same_entries(entries@, self.entries@);
        }
        SortedMap { entries }
    }

    fn same(&self, other: &Self) -> (r: bool) {
        proof {
            use_type_invariant(self);
            use_type_invariant(other);
        }
        let ghost a = self.entries@;
        let ghost b = other.entries@;
        if self.entries.len() != other.entries.len() {
            proof {
                assert(entry_keys(a).len() != entry_keys(b).len());
                lemma_other_keys(a, b);
            }
            return false;
        }
        let mut i: usize = 0;
        while i < self.entries.len()
            invariant
                i <= self.entries.len(),
                self.entries.len() == other.entries.len(),
                a == self.entries@,
                b == other.entries@,
                strictly_sorted(entry_keys(a)),
                strictly_sorted(entry_keys(b)),
                forall|j: int| 0 <= j < i ==> (#[trigger] a[j]).0 == b[j].0,
                forall|j: int| 0 <= j < i ==> (#[trigger] a[j]).1.model() == b[j].1.model(),
            decreases self.entries.len() - i,
        {
            let x: K = self.entries[i].0;
            let y: K = other.entries[i].0;
            proof {
                K::before_total(x, y);
                K::before_irreflexive(x);
                K::before_irreflexive(y);
                assert(entry_keys(a)[i as int] == x);
                assert(entry_keys(b)[i as int] == y);
            }
            if x.is_before(&y) || y.is_before(&x) {
                proof {
                    lemma_other_keys(a, b);
                }
                return false;
            }
            if !self.entries[i].1.same(&other.entries[i].1) {
                proof {
                    lemma_entry_at(a, i as int);
                    lemma_entry_at(b, i as int);
                }
                return false;
            }
            i = i + 1;
        }
        proof {
            assert(entry_keys(a) =~= entry_keys(b));
            lemma_same_entries(a, b);
        }
        true
    }
}

impl<K: Key, V: Data> Clone for SortedMap<K, V> {
    fn clone(&self) -> (r: Self)
        ensures
            r.model() == self.model(),
    {
        self.copied()
    }
}

/// Numbers are in their usual order, and byte strings in the order of their first difference.
pub proof fn law_key_order<const N: usize>(a: u8, b: u8, c: u64, d: u64, x: [u8; N], y: [u8; N], i: int)
    requires
        0 <= i < N,
        forall|j: int| 0 <= j < i ==> #[trigger] x@[j] == y@[j],
        x@[i] < y@[i],
    ensures
        a.before(b) <==> a < b,
        c.before(d) <==> c < d,
        x.before(y),
        !y.before(x),
{
    assert(splits_at(x@, y@, i));
    <[u8; N] as Key>::before_irreflexive(x);
    if y.before(x) {
        <[u8; N] as Key>::before_transitive(x, y, x);
    }
}

/// A listing holds the elements of a set, and no others, in rising order.
pub proof fn law_listing<K: Key>(list: Seq<K>, keys: Set<K>, k: K, i: int, j: int)
    requires
        is_listing(list, keys),
    ensures
        keys.contains(k) <==> list.contains(k),
        0 <= i < j < list.len() ==> list[i].before(list[j]),
{
}

} // verus!
