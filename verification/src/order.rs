//! Order: the order of texts, and stable sorting by a key.

use vstd::prelude::*;
use vstd::string::*;
use vstd::utf8::*;

verus! {

// ---------------------------------------------------------------------------------------------
// The order of texts
// ---------------------------------------------------------------------------------------------

/// Lexicographic order of byte sequences.
pub open spec fn bytes_le(a: Seq<u8>, b: Seq<u8>) -> bool
    decreases a.len(),
{
    if a.len() == 0 {
        true
    } else if b.len() == 0 {
        false
    } else if a[0] != b[0] {
        a[0] < b[0]
    } else {
        bytes_le(a.drop_first(), b.drop_first())
    }
}

/// The order of texts: that of their UTF-8 bytes.
pub open spec fn text_le(a: Seq<char>, b: Seq<char>) -> bool {
    bytes_le(encode_utf8(a), encode_utf8(b))
}

/// How two values compare.
#[derive(Clone, Copy, PartialEq, Eq, Structural, Debug)]
pub enum Placement {
    Before,
    Same,
    After,
}

/// Where `a` stands with respect to `b`.
pub open spec fn text_placement(a: Seq<char>, b: Seq<char>) -> Placement {
    if a == b {
        Placement::Same
    } else if text_le(a, b) {
        Placement::Before
    } else {
        Placement::After
    }
}

proof fn lemma_bytes_le_reflexive(a: Seq<u8>)
    ensures
        bytes_le(a, a),
    decreases a.len(),
{
    if a.len() > 0 {
        lemma_bytes_le_reflexive(a.drop_first());
    }
}

proof fn lemma_bytes_le_antisymmetric(a: Seq<u8>, b: Seq<u8>)
    requires
        bytes_le(a, b),
        bytes_le(b, a),
    ensures
        a == b,
    decreases a.len(),
{
    if a.len() > 0 && b.len() > 0 {
        lemma_bytes_le_antisymmetric(a.drop_first(), b.drop_first());
        assert(a =~= seq![a[0]] + a.drop_first());
        assert(b =~= seq![b[0]] + b.drop_first());
    } else {
        assert(a =~= b);
    }
}

proof fn lemma_bytes_le_transitive(a: Seq<u8>, b: Seq<u8>, c: Seq<u8>)
    requires
        bytes_le(a, b),
        bytes_le(b, c),
    ensures
        bytes_le(a, c),
    decreases a.len(),
{
    if a.len() > 0 && b.len() > 0 && c.len() > 0 && a[0] == b[0] && b[0] == c[0] {
        lemma_bytes_le_transitive(a.drop_first(), b.drop_first(), c.drop_first());
    }
}

proof fn lemma_bytes_le_total(a: Seq<u8>, b: Seq<u8>)
    ensures
        bytes_le(a, b) || bytes_le(b, a),
    decreases a.len(),
{
    if a.len() > 0 && b.len() > 0 {
        lemma_bytes_le_total(a.drop_first(), b.drop_first());
    }
}

/// A text is determined by its UTF-8 bytes.
pub proof fn encoding_is_injective(a: Seq<char>, b: Seq<char>)
    requires
        encode_utf8(a) == encode_utf8(b),
    ensures
        a == b,
{
    encode_utf8_decode_utf8(a);
    encode_utf8_decode_utf8(b);
}

/// The order of texts is reflexive.
pub proof fn text_le_reflexive(a: Seq<char>)
    ensures
        text_le(a, a),
{
    lemma_bytes_le_reflexive(encode_utf8(a));
}

/// Two texts that stand before each other are the same text.
pub proof fn text_le_antisymmetric(a: Seq<char>, b: Seq<char>)
    requires
        text_le(a, b),
        text_le(b, a),
    ensures
        a == b,
{
    lemma_bytes_le_antisymmetric(encode_utf8(a), encode_utf8(b));
    encoding_is_injective(a, b);
}

/// The order of texts is transitive.
pub proof fn text_le_transitive(a: Seq<char>, b: Seq<char>, c: Seq<char>)
    requires
        text_le(a, b),
        text_le(b, c),
    ensures
        text_le(a, c),
{
    lemma_bytes_le_transitive(encode_utf8(a), encode_utf8(b), encode_utf8(c));
}

/// Any two texts are ordered one way or the other.
pub proof fn text_le_total(a: Seq<char>, b: Seq<char>)
    ensures
        text_le(a, b) || text_le(b, a),
{
    lemma_bytes_le_total(encode_utf8(a), encode_utf8(b));
}

/// Compares two texts in the order of their UTF-8 bytes.
pub fn place_text(a: &str, b: &str) -> (r: Placement)
    ensures
        r == text_placement(a@, b@),
{
    let x = a.as_bytes();
    let y = b.as_bytes();
    let n = x.len();
    let m = y.len();
    let mut i: usize = 0;
    proof {
        assert(x@.skip(0) =~= x@);
        assert(y@.skip(0) =~= y@);
    }
    while i < n && i < m
        invariant
            x@ == encode_utf8(a@),
            y@ == encode_utf8(b@),
            n == x@.len(),
            m == y@.len(),
            i <= n,
            i <= m,
            x@.take(i as int) == y@.take(i as int),
            bytes_le(x@, y@) == bytes_le(x@.skip(i as int), y@.skip(i as int)),
        decreases n - i,
    {
        if x[i] != y[i] {
            assert(x@ != y@);
            if x[i] < y[i] {
                return Placement::Before;
            } else {
                return Placement::After;
            }
        }
        proof {
            assert(x@.skip(i as int).drop_first() =~= x@.skip(i + 1));
            assert(y@.skip(i as int).drop_first() =~= y@.skip(i + 1));
            assert(x@.take(i + 1) =~= x@.take(i as int).push(x@[i as int]));
            assert(y@.take(i + 1) =~= y@.take(i as int).push(y@[i as int]));
        }
        i += 1;
    }
    if n == m {
        proof {
            assert(x@ =~= x@.take(i as int));
            assert(y@ =~= y@.take(i as int));
            encoding_is_injective(a@, b@);
        }
        Placement::Same
    } else if n < m {
        Placement::Before
    } else {
        Placement::After
    }
}

/// Whether two texts are the same.
pub fn same_text(a: &str, b: &str) -> (r: bool)
    ensures
        r == (a@ == b@),
{
    place_text(a, b) == Placement::Same
}

/// Whether `list` holds the text `s`.
pub fn has_text(list: &[String], s: &str) -> (r: bool)
    ensures
        r == list.deep_view().contains(s@),
{
    let n = list.len();
    let mut i: usize = 0;
    while i < n
        invariant
            n == list@.len(),
            i <= n,
            forall|k: int| 0 <= k < i ==> #[trigger] list@[k]@ != s@,
        decreases n - i,
    {
        if same_text(list[i].as_str(), s) {
            assert(list.deep_view()[i as int] == s@);
            return true;
        }
        i += 1;
    }
    proof {
        if list.deep_view().contains(s@) {
            let k = choose|k: int| 0 <= k < list.deep_view().len() && list.deep_view()[k] == s@;
            assert(list@[k]@ == s@);
        }
    }
    false
}

// ---------------------------------------------------------------------------------------------
// Stable sorting
// ---------------------------------------------------------------------------------------------

/// A key to sort by: a total preorder.
pub trait SortKey: Sized {
    spec fn key_le(&self, other: &Self) -> bool;

    proof fn key_le_transitive(a: &Self, b: &Self, c: &Self)
        requires
            a.key_le(b),
            b.key_le(c),
        ensures
            a.key_le(c),
    ;

    proof fn key_le_total(a: &Self, b: &Self)
        ensures
            a.key_le(b) || b.key_le(a),
    ;

    fn at_most(&self, other: &Self) -> (r: bool)
        ensures
            r == self.key_le(other),
    ;
}

impl SortKey for u64 {
    open spec fn key_le(&self, other: &Self) -> bool {
        *self <= *other
    }

    proof fn key_le_transitive(a: &Self, b: &Self, c: &Self) {
    }

    proof fn key_le_total(a: &Self, b: &Self) {
    }

    fn at_most(&self, other: &Self) -> (r: bool) {
        *self <= *other
    }
}

impl SortKey for String {
    open spec fn key_le(&self, other: &Self) -> bool {
        text_le(self@, other@)
    }

    proof fn key_le_transitive(a: &Self, b: &Self, c: &Self) {
        text_le_transitive(a@, b@, c@);
    }

    proof fn key_le_total(a: &Self, b: &Self) {
        text_le_total(a@, b@);
    }

    fn at_most(&self, other: &Self) -> (r: bool) {
        proof {
            text_le_reflexive(self@);
        }
        match place_text(self.as_str(), other.as_str()) {
            Placement::After => false,
            _ => true,
        }
    }
}

/// `p` names each of the positions `0 .. n` exactly once.
pub open spec fn is_arrangement(p: Seq<usize>, n: nat) -> bool {
    &&& p.len() == n <= usize::MAX
    &&& forall|i: int| 0 <= i < p.len() ==> (#[trigger] p[i]) < n
    &&& p.no_duplicates()
    &&& forall|k: usize| k < n ==> #[trigger] p.contains(k)
}

/// The positions in `p` stand in the order of their keys, and among equal keys in the order
/// of the positions themselves.
pub open spec fn is_stable<K: SortKey>(keys: Seq<K>, p: Seq<usize>) -> bool {
    forall|i: int, j: int|
        #![trigger p[i], p[j]]
        0 <= i < j < p.len() ==> {
            &&& keys[p[i] as int].key_le(&keys[p[j] as int])
            &&& keys[p[j] as int].key_le(&keys[p[i] as int]) ==> p[i] < p[j]
        }
}

/// The elements of `s`, taken in the order of the positions in `p`.
pub open spec fn arranged<A>(s: Seq<A>, p: Seq<usize>) -> Seq<A> {
    Seq::new(p.len(), |i: int| s[p[i] as int])
}

/// Sorts by key: the positions of the keys, in ascending order of the keys; positions of equal
/// keys keep their order.
pub fn stable_order<K: SortKey>(keys: &Vec<K>) -> (p: Vec<usize>)
    ensures
        is_arrangement(p@, keys@.len()),
        is_stable(keys@, p@),
{
    let n = keys.len();
    let mut p: Vec<usize> = Vec::new();
    let mut k: usize = 0;
    while k < n
        invariant
            n == keys@.len(),
            k <= n,
            is_arrangement(p@, k as nat),
            is_stable(keys@, p@),
        decreases n - k,
    {
        let mut lo: usize = 0;
        let mut hi: usize = k;
        while lo < hi
            invariant
                n == keys@.len(),
                k < n,
                lo <= hi <= k,
                is_arrangement(p@, k as nat),
                is_stable(keys@, p@),
                forall|i: int|
                    0 <= i < lo ==> keys@[#[trigger] p@[i] as int].key_le(&keys@[k as int]),
                forall|i: int|
                    hi <= i < k ==> !keys@[#[trigger] p@[i] as int].key_le(&keys@[k as int]),
            decreases hi - lo,
        {
            let mid = lo + (hi - lo) / 2;
            let ghost at_mid = keys@[p@[mid as int] as int];
            let below = keys[p[mid]].at_most(&keys[k]);
            if below {
                assert forall|i: int| 0 <= i <= mid implies keys@[
                    #[trigger] p@[i] as int
                ].key_le(&keys@[k as int]) by {
                    if i < mid {
                        K::key_le_transitive(&keys@[p@[i] as int], &at_mid, &keys@[k as int]);
                    }
                }
                lo = mid + 1;
            } else {
                assert forall|i: int| mid <= i < k implies !keys@[
                    #[trigger] p@[i] as int
                ].key_le(&keys@[k as int]) by {
                    if i > mid && keys@[p@[i] as int].key_le(&keys@[k as int]) {
                        K::key_le_transitive(&at_mid, &keys@[p@[i] as int], &keys@[k as int]);
                    }
                }
                hi = mid;
            }
        }
        let ghost q = p@;
        p.insert(lo, k);
        proof {
            lemma_arrangement_grows(q, k as nat, lo as int);
            assert(p@ == q.insert(lo as int, k));
            assert forall|i: int, j: int|
                #![trigger p@[i], p@[j]]
                0 <= i < j < p@.len() implies {
                &&& keys@[p@[i] as int].key_le(&keys@[p@[j] as int])
                &&& keys@[p@[j] as int].key_le(&keys@[p@[i] as int]) ==> p@[i] < p@[j]
            } by {
                let a = if i < lo { i } else { i - 1 };
                let b = if j < lo { j } else { j - 1 };
                if i == lo {
                    assert(p@[j] == q[b]);
                    K::key_le_total(&keys@[k as int], &keys@[q[b] as int]);
                } else if j == lo {
                    assert(p@[i] == q[a]);
                } else {
                    assert(p@[i] == q[a]);
                    assert(p@[j] == q[b]);
                }
            }
        }
        k += 1;
    }
    p
}

proof fn lemma_arrangement_grows(p: Seq<usize>, n: nat, at: int)
    requires
        is_arrangement(p, n),
        0 <= at <= n,
        n < usize::MAX,
    ensures
        is_arrangement(p.insert(at, n as usize), n + 1),
{
    let q = p.insert(at, n as usize);
    assert forall|i: int| 0 <= i < q.len() implies (#[trigger] q[i]) < n + 1 by {
        if i < at {
            assert(q[i] == p[i]);
        } else if i > at {
            assert(q[i] == p[i - 1]);
        }
    }
    assert forall|i: int, j: int| 0 <= i < q.len() && 0 <= j < q.len() && i != j implies q[i]
        != q[j] by {
        let a = if i < at { i } else { i - 1 };
        let b = if j < at { j } else { j - 1 };
        if i != at {
            assert(q[i] == p[a]);
        }
        if j != at {
            assert(q[j] == p[b]);
        }
    }
    assert forall|k: usize| k < n + 1 implies #[trigger] q.contains(k) by {
        if k == n {
            assert(q[at] == k);
        } else {
            assert(p.contains(k));
            let i = choose|i: int| 0 <= i < p.len() && p[i] == k;
            if i < at {
                assert(q[i] == k);
            } else {
                assert(q[i + 1] == k);
            }
        }
    }
}

/// Rearranging a sequence keeps its elements, each as often as it occurred.
pub proof fn arranged_keeps_elements<A>(s: Seq<A>, p: Seq<usize>)
    requires
        is_arrangement(p, s.len()),
    ensures
        arranged(s, p).to_multiset() == s.to_multiset(),
    decreases s.len(),
{
    broadcast use vstd::seq_lib::group_to_multiset_ensures;

    let t = arranged(s, p);
    if s.len() == 0 {
        assert(t =~= s);
    } else {
        let n = (s.len() - 1) as nat;
        let last = n as usize;
        assert(p.contains(last));
        let j = choose|j: int| 0 <= j < p.len() && p[j] == last;
        let q = p.remove(j);
        assert(is_arrangement(q, n)) by {
            assert forall|i: int| 0 <= i < q.len() implies (#[trigger] q[i]) < n by {
                let a = if i < j { i } else { i + 1 };
                assert(q[i] == p[a]);
                assert(p[a] < s.len());
                assert(p[a] != p[j]);
            }
            assert forall|x: int, y: int|
                0 <= x < q.len() && 0 <= y < q.len() && x != y implies q[x] != q[y] by {
                let a = if x < j { x } else { x + 1 };
                let b = if y < j { y } else { y + 1 };
                assert(q[x] == p[a] && q[y] == p[b]);
            }
            assert forall|k: usize| k < n implies #[trigger] q.contains(k) by {
                assert(p.contains(k));
                let i = choose|i: int| 0 <= i < p.len() && p[i] == k;
                if i < j {
                    assert(q[i] == k);
                } else {
                    assert(q[i - 1] == k);
                }
            }
        }
        let s1 = s.drop_last();
        arranged_keeps_elements(s1, q);
        assert forall|i: int| 0 <= i < q.len() implies #[trigger] t.remove(j)[i] == arranged(
            s1,
            q,
        )[i] by {
            let a = if i < j { i } else { i + 1 };
            assert(q[i] == p[a]);
            assert(q[i] < n);
        }
        assert(t.remove(j) =~= arranged(s1, q));
        assert(t.remove(j).insert(j, t[j]) =~= t);
        assert(t[j] == s.last());
        assert(s1.push(s.last()) =~= s);
        vstd::seq_lib::to_multiset_insert(t.remove(j), j, t[j]);
        vstd::seq_lib::to_multiset_build(s1, s.last());
    }
}

/// Ascending order of texts.
pub open spec fn ascending(s: Seq<Seq<char>>) -> bool {
    forall|i: int, j: int| #![trigger s[i], s[j]] 0 <= i <= j < s.len() ==> text_le(s[i], s[j])
}

/// Sorts texts in ascending order.
pub fn sort_texts(list: &Vec<String>) -> (r: Vec<String>)
    ensures
        ascending(r.deep_view()),
        r.deep_view().to_multiset() == list.deep_view().to_multiset(),
{
    let p = stable_order(list);
    let n = p.len();
    let mut r: Vec<String> = Vec::new();
    let mut i: usize = 0;
    while i < n
        invariant
            n == p@.len(),
            is_arrangement(p@, list@.len()),
            i <= n,
            r.deep_view() == arranged(list.deep_view(), p@).take(i as int),
        decreases n - i,
    {
        let ghost done = r.deep_view();
        assert(p@[i as int] < list@.len());
        let s = list[p[i]].clone();
        r.push(s);
        assert(r.deep_view() =~= done.push(list.deep_view()[p@[i as int] as int]));
        assert(r.deep_view() =~= arranged(list.deep_view(), p@).take(i + 1));
        i += 1;
    }
    proof {
        assert(r.deep_view() =~= arranged(list.deep_view(), p@));
        arranged_keeps_elements(list.deep_view(), p@);
        assert forall|a: int, b: int|
            #![trigger r.deep_view()[a], r.deep_view()[b]]
            0 <= a <= b < r.deep_view().len() implies text_le(
            r.deep_view()[a],
            r.deep_view()[b],
        ) by {
            assert(p@[a] < list@.len() && p@[b] < list@.len());
            text_le_reflexive(r.deep_view()[a]);
        }
    }
    r
}

/// Two ascending sequences of the same texts are the same sequence: sorting has one outcome.
pub proof fn ascending_is_unique(x: Seq<Seq<char>>, y: Seq<Seq<char>>)
    requires
        ascending(x),
        ascending(y),
        x.to_multiset() == y.to_multiset(),
    ensures
        x == y,
{
    let le = |a: Seq<char>, b: Seq<char>| text_le(a, b);
    assert forall|a: Seq<char>| #[trigger] le(a, a) by {
        text_le_reflexive(a);
    }
    assert forall|a: Seq<char>, b: Seq<char>| #[trigger] le(a, b) && #[trigger] le(
        b,
        a,
    ) implies a == b by {
        text_le_antisymmetric(a, b);
    }
    assert forall|a: Seq<char>, b: Seq<char>, c: Seq<char>| #[trigger] le(a, b) && #[trigger] le(
        b,
        c,
    ) implies le(a, c) by {
        text_le_transitive(a, b, c);
    }
    assert forall|a: Seq<char>, b: Seq<char>| #[trigger] le(a, b) || le(b, a) by {
        text_le_total(a, b);
    }
    assert(vstd::relations::total_ordering(le));
    assert(vstd::relations::sorted_by(x, le));
    assert(vstd::relations::sorted_by(y, le));
    vstd::seq_lib::lemma_sorted_unique(x, y, le);
}

/// The order of bytes is lexicographic: what begins another sequence comes before it, and
/// otherwise the first difference decides.
pub proof fn first_difference_decides(a: Seq<u8>, b: Seq<u8>, i: int)
    requires
        0 <= i <= a.len(),
        i <= b.len(),
        forall|k: int| 0 <= k < i ==> a[k] == b[k],
    ensures
        i == a.len() ==> bytes_le(a, b),
        i == b.len() && i < a.len() ==> !bytes_le(a, b),
        i < a.len() && i < b.len() && a[i] < b[i] ==> bytes_le(a, b) && !bytes_le(b, a),
    decreases i,
{
    if i > 0 {
        assert(a[0] == b[0]);
        assert forall|k: int| 0 <= k < i - 1 implies a.drop_first()[k] == b.drop_first()[k] by {
            assert(a[k + 1] == b[k + 1]);
        }
        first_difference_decides(a.drop_first(), b.drop_first(), i - 1);
    }
}

/// The order of texts is that of their UTF-8 bytes, and tells where a text stands.
pub proof fn texts_stand_by_their_bytes(a: Seq<char>, b: Seq<char>)
    ensures
        text_le(a, b) == bytes_le(encode_utf8(a), encode_utf8(b)),
        text_placement(a, b) == Placement::Same <==> a == b,
        text_placement(a, b) == Placement::Before <==> a != b && bytes_le(
            encode_utf8(a),
            encode_utf8(b),
        ),
{
}

/// Texts ascend exactly when none is followed by one that comes before it.
pub proof fn ascending_is_never_falling(s: Seq<Seq<char>>)
    ensures
        ascending(s) <==> forall|i: int, j: int|
            #![trigger s[i], s[j]]
            0 <= i < j < s.len() ==> bytes_le(encode_utf8(s[i]), encode_utf8(s[j])),
{
    assert forall|i: int| 0 <= i < s.len() implies text_le(#[trigger] s[i], s[i]) by {
        text_le_reflexive(s[i]);
    }
}

/// Positions in a stable order name each position once, with keys that never fall, and equal
/// keys in the order in which they stood.
pub proof fn stable_order_never_falls(keys: Seq<u64>, p: Seq<usize>, i: int, j: int)
    requires
        is_arrangement(p, keys.len()),
        is_stable(keys, p),
        0 <= i < j < p.len(),
    ensures
        p.len() == keys.len(),
        p[i] != p[j],
        p[i] < keys.len(),
        keys[p[i] as int] < keys[p[j] as int] || keys[p[i] as int] == keys[p[j] as int] && p[i]
            < p[j],
{
}

} // verus!
