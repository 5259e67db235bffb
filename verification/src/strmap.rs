//! A map from texts, kept in ascending order of its keys.

use vstd::prelude::*;

use crate::duplicate::Duplicate;
use crate::order::{place_text, text_le, Placement};
use crate::order::{text_le_antisymmetric, text_le_transitive};

verus! {

/// Keys ascend, and no key occurs twice.
pub open spec fn keys_ascend(keys: Seq<Seq<char>>) -> bool {
    forall|i: int, j: int|
        #![trigger keys[i], keys[j]]
        0 <= i < j < keys.len() ==> text_le(keys[i], keys[j]) && keys[i] != keys[j]
}

/// The keys of a sequence of pairs.
pub open spec fn keys_of<A>(pairs: Seq<(Seq<char>, A)>) -> Seq<Seq<char>> {
    Seq::new(pairs.len(), |i: int| pairs[i].0)
}

/// The map that a sequence of pairs with distinct keys stands for.
pub open spec fn map_of<A>(pairs: Seq<(Seq<char>, A)>) -> Map<Seq<char>, A> {
    Map::new(
        |k: Seq<char>| keys_of(pairs).contains(k),
        |k: Seq<char>| pairs[keys_of(pairs).index_of(k)].1,
    )
}

/// A map from texts to values.
#[derive(Debug)]
pub struct StrMap<V> {
    entries: Vec<(String, V)>,
}

impl<V> StrMap<V> {
    spec fn key_texts(self) -> Seq<Seq<char>> {
        Seq::new(self.entries@.len(), |i: int| self.entries@[i].0@)
    }

    #[verifier::type_invariant]
    spec fn in_order(self) -> bool {
        keys_ascend(self.key_texts())
    }
}

impl<V: DeepView> StrMap<V> {
    /// The keys and values, in ascending order of the keys.
    pub closed spec fn pairs(self) -> Seq<(Seq<char>, V::V)> {
        self.entries.deep_view()
    }
}

impl<V: DeepView> DeepView for StrMap<V> {
    type V = Map<Seq<char>, V::V>;

    open spec fn deep_view(&self) -> Map<Seq<char>, V::V> {
        map_of(self.pairs())
    }
}

/// In a sequence of pairs whose keys ascend, each pair is found by its key.
pub proof fn pair_is_found<A>(pairs: Seq<(Seq<char>, A)>, i: int)
    requires
        keys_ascend(keys_of(pairs)),
        0 <= i < pairs.len(),
    ensures
        map_of(pairs).contains_key(pairs[i].0),
        map_of(pairs)[pairs[i].0] == pairs[i].1,
{
    let keys = keys_of(pairs);
    assert(keys[i] == pairs[i].0);
    assert(keys.contains(pairs[i].0));
    let j = keys.index_of(pairs[i].0);
    assert(keys[j] == keys[i]);
    assert(i == j);
}

/// The pairs of a map, in ascending order of the keys.
pub open spec fn in_key_order<A>(m: Map<Seq<char>, A>, pairs: Seq<(Seq<char>, A)>) -> bool {
    &&& keys_ascend(keys_of(pairs))
    &&& map_of(pairs) == m
}

/// A map has one sequence of pairs in ascending order of the keys.
pub proof fn key_order_is_unique<A>(
    m: Map<Seq<char>, A>,
    x: Seq<(Seq<char>, A)>,
    y: Seq<(Seq<char>, A)>,
)
    requires
        in_key_order(m, x),
        in_key_order(m, y),
    ensures
        x == y,
{
    lemma_no_more_keys(m, x, y);
    lemma_no_more_keys(m, y, x);
    let n = x.len();
    lemma_same_prefix(m, x, y, n);
    assert forall|i: int| 0 <= i < n implies x[i] == y[i] by {
        assert(keys_of(x).take(n as int)[i] == keys_of(y).take(n as int)[i]);
        pair_is_found(x, i);
        pair_is_found(y, i);
    }
    assert(x =~= y);
}

/// No sequence of pairs goes on where another one of the same map has ended.
proof fn lemma_no_more_keys<A>(
    m: Map<Seq<char>, A>,
    x: Seq<(Seq<char>, A)>,
    y: Seq<(Seq<char>, A)>,
)
    requires
        in_key_order(m, x),
        in_key_order(m, y),
    ensures
        x.len() <= y.len(),
{
    if x.len() > y.len() {
        let n = y.len() as int;
        lemma_same_prefix(m, x, y, y.len());
        pair_is_found(x, n);
        assert(m.contains_key(x[n].0));
        let i = choose|i: int| 0 <= i < n && keys_of(y)[i] == x[n].0;
        assert(keys_of(x).take(n)[i] == keys_of(y).take(n)[i]);
        assert(keys_of(x)[i] == keys_of(x)[n]);
    }
}

proof fn lemma_same_prefix<A>(
    m: Map<Seq<char>, A>,
    x: Seq<(Seq<char>, A)>,
    y: Seq<(Seq<char>, A)>,
    n: nat,
)
    requires
        in_key_order(m, x),
        in_key_order(m, y),
        n <= x.len(),
        n <= y.len(),
    ensures
        keys_of(x).take(n as int) == keys_of(y).take(n as int),
    decreases n,
{
    let a = keys_of(x);
    let b = keys_of(y);
    if n > 0 {
        let k = n - 1;
        lemma_same_prefix(m, x, y, k as nat);
        if a[k] != b[k] {
            // Each sequence has, further on, the key that the other one has here.
            pair_is_found(x, k);
            pair_is_found(y, k);
            assert(m.contains_key(a[k]) && m.contains_key(b[k]));
            let i = choose|i: int| 0 <= i < b.len() && b[i] == a[k];
            let j = choose|j: int| 0 <= j < a.len() && a[j] == b[k];
            if i < k {
                assert(a.take(k)[i] == b.take(k)[i]);
                assert(a[i] == a[k]);
            }
            if j < k {
                assert(a.take(k)[j] == b.take(k)[j]);
                assert(b[j] == b[k]);
            }
            assert(text_le(b[k], b[i]));
            assert(text_le(a[k], a[j]));
            text_le_antisymmetric(a[k], b[k]);
            assert(false);
        }
        assert(a.take(n as int) =~= a.take(k).push(a[k]));
        assert(b.take(n as int) =~= b.take(k).push(b[k]));
    } else {
        assert(a.take(0) =~= b.take(0));
    }
}

proof fn lemma_insert<A>(pairs: Seq<(Seq<char>, A)>, at: int, key: Seq<char>, value: A)
    requires
        keys_ascend(keys_of(pairs)),
        0 <= at <= pairs.len(),
        forall|i: int|
            0 <= i < at ==> text_le(#[trigger] keys_of(pairs)[i], key) && keys_of(pairs)[i] != key,
        forall|i: int|
            at <= i < pairs.len() ==> text_le(key, #[trigger] keys_of(pairs)[i]) && keys_of(
                pairs,
            )[i] != key,
    ensures
        keys_ascend(keys_of(pairs.insert(at, (key, value)))),
        map_of(pairs.insert(at, (key, value))) == map_of(pairs).insert(key, value),
        !map_of(pairs).contains_key(key),
{
    let more = pairs.insert(at, (key, value));
    let keys = keys_of(pairs);
    let after = keys_of(more);
    assert(after =~= keys.insert(at, key));
    assert forall|i: int, j: int|
        #![trigger after[i], after[j]]
        0 <= i < j < after.len() implies text_le(after[i], after[j]) && after[i] != after[j] by {
        let a = if i < at { i } else { i - 1 };
        let b = if j < at { j } else { j - 1 };
        if i != at {
            assert(after[i] == keys[a]);
        }
        if j != at {
            assert(after[j] == keys[b]);
        }
    }
    let m = map_of(pairs).insert(key, value);
    assert forall|k: Seq<char>| #[trigger] map_of(more).contains_key(k) <==> m.contains_key(k) by {
        if after.contains(k) {
            let i = choose|i: int| 0 <= i < after.len() && after[i] == k;
            if i < at {
                assert(keys[i] == k);
            } else if i > at {
                assert(keys[i - 1] == k);
            }
        }
        if keys.contains(k) {
            let i = choose|i: int| 0 <= i < keys.len() && keys[i] == k;
            if i < at {
                assert(after[i] == k);
            } else {
                assert(after[i + 1] == k);
            }
        }
        assert(after[at] == key);
    }
    assert forall|k: Seq<char>| #[trigger] map_of(more).contains_key(k) implies map_of(more)[k]
        == m[k] by {
        let i = choose|i: int| 0 <= i < after.len() && after[i] == k;
        pair_is_found(more, i);
        if i < at {
            pair_is_found(pairs, i);
            assert(keys[i] == k);
        } else if i > at {
            pair_is_found(pairs, i - 1);
            assert(keys[i - 1] == k);
        }
    }
    assert(map_of(more) =~= m);
}

proof fn lemma_update<A>(pairs: Seq<(Seq<char>, A)>, at: int, value: A)
    requires
        keys_ascend(keys_of(pairs)),
        0 <= at < pairs.len(),
    ensures
        keys_of(pairs.update(at, (pairs[at].0, value))) == keys_of(pairs),
        map_of(pairs.update(at, (pairs[at].0, value))) == map_of(pairs).insert(pairs[at].0, value),
{
    let more = pairs.update(at, (pairs[at].0, value));
    let keys = keys_of(pairs);
    assert(keys_of(more) =~= keys);
    let m = map_of(pairs).insert(pairs[at].0, value);
    assert(keys[at] == pairs[at].0);
    assert forall|k: Seq<char>| #[trigger] map_of(more).contains_key(k) implies map_of(more)[k]
        == m[k] by {
        let i = choose|i: int| 0 <= i < keys.len() && keys[i] == k;
        pair_is_found(more, i);
        pair_is_found(pairs, i);
    }
    assert(map_of(more) =~= m);
}

proof fn lemma_remove<A>(pairs: Seq<(Seq<char>, A)>, at: int)
    requires
        keys_ascend(keys_of(pairs)),
        0 <= at < pairs.len(),
    ensures
        keys_ascend(keys_of(pairs.remove(at))),
        map_of(pairs.remove(at)) == map_of(pairs).remove(pairs[at].0),
{
    let fewer = pairs.remove(at);
    let keys = keys_of(pairs);
    let after = keys_of(fewer);
    assert(after =~= keys.remove(at));
    assert forall|i: int, j: int|
        #![trigger after[i], after[j]]
        0 <= i < j < after.len() implies text_le(after[i], after[j]) && after[i] != after[j] by {
        let a = if i < at { i } else { i + 1 };
        let b = if j < at { j } else { j + 1 };
        assert(after[i] == keys[a] && after[j] == keys[b]);
    }
    let m = map_of(pairs).remove(pairs[at].0);
    assert forall|k: Seq<char>| #[trigger] map_of(fewer).contains_key(k) <==> m.contains_key(k) by {
        if after.contains(k) {
            let i = choose|i: int| 0 <= i < after.len() && after[i] == k;
            let a = if i < at { i } else { i + 1 };
            assert(keys[a] == k);
            assert(keys[at] == pairs[at].0);
        }
        if keys.contains(k) && k != pairs[at].0 {
            let i = choose|i: int| 0 <= i < keys.len() && keys[i] == k;
            if i < at {
                assert(after[i] == k);
            } else {
                assert(after[i - 1] == k);
            }
        }
    }
    assert forall|k: Seq<char>| #[trigger] map_of(fewer).contains_key(k) implies map_of(fewer)[k]
        == m[k] by {
        let i = choose|i: int| 0 <= i < after.len() && after[i] == k;
        let a = if i < at { i } else { i + 1 };
        pair_is_found(fewer, i);
        pair_is_found(pairs, a);
    }
    assert(map_of(fewer) =~= m);
}

impl<V: DeepView> StrMap<V> {
    /// The empty map.
    pub fn new() -> (r: Self)
        ensures
            r.deep_view() == Map::<Seq<char>, V::V>::empty(),
    {
        let r = StrMap { entries: Vec::new() };
        assert(r.deep_view() =~= Map::<Seq<char>, V::V>::empty());
        r
    }

    /// The number of keys.
    pub fn len(&self) -> (r: usize)
        ensures
            r == self.pairs().len(),
            keys_ascend(keys_of(self.pairs())),
    {
        proof {
            use_type_invariant(self);
            assert(keys_of(self.pairs()) =~= self.key_texts());
        }
        self.entries.len()
    }

    /// The key and the value at a position, in ascending order of the keys.
    pub fn entry(&self, i: usize) -> (r: (&String, &V))
        requires
            i < self.pairs().len(),
        ensures
            r.0@ == self.pairs()[i as int].0,
            r.1.deep_view() == self.pairs()[i as int].1,
    {
        (&self.entries[i].0, &self.entries[i].1)
    }

    /// The position of `key`, or the position where it would go.
    fn locate(&self, key: &str) -> (r: (bool, usize))
        ensures
            keys_ascend(keys_of(self.pairs())),
            r.1 <= self.pairs().len(),
            r.0 ==> r.1 < self.pairs().len() && self.pairs()[r.1 as int].0 == key@,
            !r.0 ==> {
                &&& forall|i: int|
                    0 <= i < r.1 ==> text_le(#[trigger] keys_of(self.pairs())[i], key@) && keys_of(
                        self.pairs(),
                    )[i] != key@
                &&& forall|i: int|
                    r.1 <= i < self.pairs().len() ==> text_le(
                        key@,
                        #[trigger] keys_of(self.pairs())[i],
                    ) && keys_of(self.pairs())[i] != key@
            },
    {
        proof {
            use_type_invariant(self);
            assert(keys_of(self.pairs()) =~= self.key_texts());
        }
        let ghost keys = keys_of(self.pairs());
        let mut lo: usize = 0;
        let mut hi: usize = self.entries.len();
        while lo < hi
            invariant
                keys == keys_of(self.pairs()),
                keys_ascend(keys),
                self.entries@.len() == self.pairs().len(),
                lo <= hi <= self.pairs().len(),
                forall|i: int| 0 <= i < lo ==> text_le(#[trigger] keys[i], key@) && keys[i] != key@,
                forall|i: int|
                    hi <= i < keys.len() ==> text_le(key@, #[trigger] keys[i]) && keys[i] != key@,
            decreases hi - lo,
        {
            let mid = lo + (hi - lo) / 2;
            assert(keys[mid as int] == self.entries@[mid as int].0@);
            match place_text(self.entries[mid].0.as_str(), key) {
                Placement::Same => {
                    return (true, mid);
                },
                Placement::Before => {
                    assert forall|i: int| 0 <= i <= mid implies text_le(#[trigger] keys[i], key@)
                        && keys[i] != key@ by {
                        if i < mid {
                            text_le_transitive(keys[i], keys[mid as int], key@);
                            if keys[i] == key@ {
                                text_le_antisymmetric(keys[mid as int], key@);
                            }
                        }
                    }
                    lo = mid + 1;
                },
                Placement::After => {
                    proof {
                        crate::order::text_le_total(keys[mid as int], key@);
                    }
                    assert forall|i: int| mid <= i < keys.len() implies text_le(
                        key@,
                        #[trigger] keys[i],
                    ) && keys[i] != key@ by {
                        if i > mid {
                            text_le_transitive(key@, keys[mid as int], keys[i]);
                        }
                    }
                    hi = mid;
                },
            }
        }
        (false, lo)
    }

    /// The value of a key.
    pub fn get(&self, key: &str) -> (r: Option<&V>)
        ensures
            match r {
                Some(v) => self.deep_view().contains_key(key@) && self.deep_view()[key@]
                    == v.deep_view(),
                None => !self.deep_view().contains_key(key@),
            },
    {
        let (found, i) = self.locate(key);
        if found {
            proof {
                pair_is_found(self.pairs(), i as int);
            }
            Some(&self.entries[i].1)
        } else {
            None
        }
    }

    /// Whether the map has a key.
    pub fn contains(&self, key: &str) -> (r: bool)
        ensures
            r == self.deep_view().contains_key(key@),
    {
        self.get(key).is_some()
    }

    /// Gives a key a value, in place of the one it had.
    pub fn insert(&mut self, key: String, value: V)
        ensures
            final(self).deep_view() == old(self).deep_view().insert(key@, value.deep_view()),
    {
        let (found, i) = self.locate(key.as_str());
        let ghost before = self.pairs();
        let ghost v = value.deep_view();
        let mut entries: Vec<(String, V)> = Vec::new();
        std::mem::swap(&mut entries, &mut self.entries);
        if found {
            entries[i] = (key, value);
            proof {
                lemma_update(before, i as int, v);
                assert(entries.deep_view() =~= before.update(i as int, (key@, v)));
            }
        } else {
            entries.insert(i, (key, value));
            proof {
                lemma_insert(before, i as int, key@, v);
                assert(entries.deep_view() =~= before.insert(i as int, (key@, v)));
            }
        }
        proof {
            assert(keys_of(entries.deep_view()) =~= Seq::new(
                entries@.len(),
                |i: int| entries@[i].0@,
            ));
        }
        self.entries = entries;
    }

    /// Removes a key; the result is its value, if it had one.
    pub fn remove(&mut self, key: &str) -> (r: Option<V>)
        ensures
            final(self).deep_view() == old(self).deep_view().remove(key@),
            match r {
                Some(v) => old(self).deep_view().contains_key(key@) && old(self).deep_view()[key@]
                    == v.deep_view(),
                None => !old(self).deep_view().contains_key(key@),
            },
    {
        let (found, i) = self.locate(key);
        if found {
            let ghost before = self.pairs();
            let mut entries: Vec<(String, V)> = Vec::new();
            std::mem::swap(&mut entries, &mut self.entries);
            let (_, value) = entries.remove(i);
            proof {
                pair_is_found(before, i as int);
                lemma_remove(before, i as int);
                assert(entries.deep_view() =~= before.remove(i as int));
                assert(keys_of(entries.deep_view()) =~= Seq::new(
                    entries@.len(),
                    |i: int| entries@[i].0@,
                ));
            }
            self.entries = entries;
            Some(value)
        } else {
            assert(self.deep_view().remove(key@) =~= self.deep_view());
            None
        }
    }
}

impl<V: DeepView> StrMap<V> {
    /// The keys and values, in ascending order of the keys.
    pub fn into_entries(self) -> (r: Vec<(String, V)>)
        ensures
            r.deep_view() == self.pairs(),
            keys_ascend(keys_of(self.pairs())),
    {
        proof {
            use_type_invariant(&self);
            assert(keys_of(self.pairs()) =~= self.key_texts());
        }
        self.entries
    }
}

impl<V: Duplicate> Duplicate for StrMap<V> {
    fn duplicate(&self) -> (r: Self) {
        let n = self.len();
        let mut entries: Vec<(String, V)> = Vec::new();
        let mut i: usize = 0;
        while i < n
            invariant
                n == self.pairs().len(),
                i <= n,
                entries.deep_view() == self.pairs().take(i as int),
            decreases n - i,
        {
            let ghost done = entries.deep_view();
            let (k, v) = self.entry(i);
            let pair = (k.duplicate(), v.duplicate());
            entries.push(pair);
            assert(entries.deep_view() =~= done.push(pair.deep_view()));
            assert(entries.deep_view() =~= self.pairs().take(i + 1));
            i += 1;
        }
        proof {
            assert(entries.deep_view() =~= self.pairs());
            assert(keys_of(entries.deep_view()) =~= Seq::new(
                entries@.len(),
                |i: int| entries@[i].0@,
            ));
        }
        StrMap { entries }
    }
}

/// A map has the keys of its pairs and no others.
pub proof fn map_has_the_keys_of_its_pairs<A>(pairs: Seq<(Seq<char>, A)>, key: Seq<char>)
    ensures
        map_of(pairs).contains_key(key) <==> exists|i: int|
            0 <= i < pairs.len() && (#[trigger] pairs[i]).0 == key,
{
    let keys = keys_of(pairs);
    if keys.contains(key) {
        let i = choose|i: int| 0 <= i < keys.len() && keys[i] == key;
        assert(pairs[i].0 == key);
    }
    if exists|i: int| 0 <= i < pairs.len() && (#[trigger] pairs[i]).0 == key {
        let i = choose|i: int| 0 <= i < pairs.len() && (#[trigger] pairs[i]).0 == key;
        assert(keys[i] == key);
    }
}

/// Keys ascend when each comes before the ones behind it, in the order of their UTF-8 bytes.
pub proof fn keys_ascend_by_their_bytes(keys: Seq<Seq<char>>)
    ensures
        keys_ascend(keys) <==> forall|i: int, j: int|
            #![trigger keys[i], keys[j]]
            0 <= i < j < keys.len() ==> keys[i] != keys[j] && crate::order::bytes_le(
                vstd::utf8::encode_utf8(keys[i]),
                vstd::utf8::encode_utf8(keys[j]),
            ),
{
}

} // verus!
