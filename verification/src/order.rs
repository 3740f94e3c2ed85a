//! The ordering of strings (lexicographic by UTF-8 bytes, as `String`'s
//! `Ord`) and stable sorting by a string key.
use vstd::prelude::*;
use vstd::utf8::{encode_utf8, encode_utf8_decode_utf8};
use crate::text::views;

verus! {

/// Lexicographic order on byte sequences.
pub open spec fn bytes_lt(a: Seq<u8>, b: Seq<u8>) -> bool
    decreases a.len(),
{
    if a.len() == 0 {
        b.len() > 0
    } else if b.len() == 0 {
        false
    } else if a[0] < b[0] {
        true
    } else if a[0] > b[0] {
        false
    } else {
        bytes_lt(a.drop_first(), b.drop_first())
    }
}

/// `a` sorts before `b`: strings are ordered lexicographically by their
/// UTF-8 bytes.
pub open spec fn str_lt(a: Seq<char>, b: Seq<char>) -> bool {
    bytes_lt(encode_utf8(a), encode_utf8(b))
}

/// In a stable sort by `keys`, the element at index `i` comes before the one
/// at index `j`.
pub open spec fn index_before(keys: Seq<Seq<char>>, i: int, j: int) -> bool {
    str_lt(keys[i], keys[j]) || (keys[i] == keys[j] && i < j)
}

/// `o` lists every index of `keys` in stable sorted order by key.
pub open spec fn is_stable_order(keys: Seq<Seq<char>>, o: Seq<usize>) -> bool {
    &&& o.len() == keys.len()
    &&& forall|a: int| 0 <= a < o.len() ==> #[trigger] o[a] < keys.len()
    &&& forall|x: usize| x < keys.len() ==> #[trigger] o.contains(x)
    &&& forall|a: int, b: int|
        0 <= a < b < o.len() ==> index_before(keys, #[trigger] o[a] as int, #[trigger] o[b] as int)
}

/// The indices of `keys` in stable sorted order by key (the order exists and
/// is unique: see `lemma_stable_order_unique`).
pub open spec fn stable_order(keys: Seq<Seq<char>>) -> Seq<usize> {
    choose|o: Seq<usize>| is_stable_order(keys, o)
}

/// `keys` sorted, keeping equal keys in their order.
pub open spec fn sorted_keys(keys: Seq<Seq<char>>) -> Seq<Seq<char>> {
    stable_order(keys).map_values(|i: usize| keys[i as int])
}

proof fn lemma_bytes_lt_irreflexive(a: Seq<u8>)
    ensures
        !bytes_lt(a, a),
    decreases a.len(),
{
    if a.len() > 0 {
        lemma_bytes_lt_irreflexive(a.drop_first());
    }
}

proof fn lemma_bytes_lt_asymmetric(a: Seq<u8>, b: Seq<u8>)
    ensures
        !(bytes_lt(a, b) && bytes_lt(b, a)),
    decreases a.len(),
{
    if a.len() > 0 && b.len() > 0 {
        lemma_bytes_lt_asymmetric(a.drop_first(), b.drop_first());
    }
}

proof fn lemma_bytes_lt_transitive(a: Seq<u8>, b: Seq<u8>, c: Seq<u8>)
    requires
        bytes_lt(a, b),
        bytes_lt(b, c),
    ensures
        bytes_lt(a, c),
    decreases a.len(),
{
    if a.len() > 0 && b.len() > 0 && c.len() > 0 && a[0] == b[0] && b[0] == c[0] {
        lemma_bytes_lt_transitive(a.drop_first(), b.drop_first(), c.drop_first());
    }
}

proof fn lemma_bytes_lt_total(a: Seq<u8>, b: Seq<u8>)
    requires
        a != b,
    ensures
        bytes_lt(a, b) || bytes_lt(b, a),
    decreases a.len(),
{
    if a.len() > 0 && b.len() > 0 && a[0] == b[0] {
        if a.drop_first() == b.drop_first() {
            assert(a =~= seq![a[0]] + a.drop_first());
            assert(b =~= seq![b[0]] + b.drop_first());
        }
        lemma_bytes_lt_total(a.drop_first(), b.drop_first());
    } else if a.len() == 0 && b.len() == 0 {
        assert(a =~= b);
    }
}

/// The string order is a strict total order.
pub proof fn lemma_str_lt_strict_total(a: Seq<char>, b: Seq<char>, c: Seq<char>)
    ensures
        !str_lt(a, a),
        !(str_lt(a, b) && str_lt(b, a)),
        str_lt(a, b) && str_lt(b, c) ==> str_lt(a, c),
        a != b ==> str_lt(a, b) || str_lt(b, a),
{
    lemma_bytes_lt_irreflexive(encode_utf8(a));
    lemma_bytes_lt_asymmetric(encode_utf8(a), encode_utf8(b));
    if str_lt(a, b) && str_lt(b, c) {
        lemma_bytes_lt_transitive(encode_utf8(a), encode_utf8(b), encode_utf8(c));
    }
    if a != b {
        encode_utf8_decode_utf8(a);
        encode_utf8_decode_utf8(b);
        lemma_bytes_lt_total(encode_utf8(a), encode_utf8(b));
    }
}

/// Two sequences, each strictly increasing in the stable order and holding
/// the same elements, are equal.
proof fn lemma_same_members_equal(keys: Seq<Seq<char>>, o1: Seq<usize>, o2: Seq<usize>)
    requires
        forall|a: int| 0 <= a < o1.len() ==> #[trigger] o1[a] < keys.len(),
        forall|a: int| 0 <= a < o2.len() ==> #[trigger] o2[a] < keys.len(),
        forall|a: int, b: int|
            0 <= a < b < o1.len() ==> index_before(keys, #[trigger] o1[a] as int, #[trigger] o1[b] as int),
        forall|a: int, b: int|
            0 <= a < b < o2.len() ==> index_before(keys, #[trigger] o2[a] as int, #[trigger] o2[b] as int),
        forall|x: usize| o1.contains(x) <==> o2.contains(x),
    ensures
        o1 == o2,
    decreases o1.len(),
{
    if o1.len() == 0 {
        if o2.len() > 0 {
            assert(o2.contains(o2[0]));
        }
        assert(o1 =~= o2);
    } else {
        assert(o1.contains(o1[0]));
        assert(o2.len() > 0);
        let x = o1[0];
        let y = o2[0];
        if x != y {
            assert(o2.contains(x));
            let q = choose|q: int| 0 <= q < o2.len() && o2[q] == x;
            assert(o1.contains(y)) by {
                assert(o2.contains(y));
            }
            let m = choose|m: int| 0 <= m < o1.len() && o1[m] == y;
            assert(q > 0);
            assert(m > 0);
            assert(index_before(keys, y as int, x as int));
            assert(index_before(keys, x as int, y as int));
            lemma_str_lt_strict_total(keys[x as int], keys[y as int], keys[x as int]);
            assert(false);
        }
        let t1 = o1.drop_first();
        let t2 = o2.drop_first();
        assert forall|z: usize| t1.contains(z) <==> t2.contains(z) by {
            if t1.contains(z) {
                let k = choose|k: int| 0 <= k < t1.len() && t1[k] == z;
                assert(o1[k + 1] == z);
                assert(index_before(keys, o1[0] as int, o1[k + 1] as int));
                lemma_str_lt_strict_total(keys[x as int], keys[x as int], keys[x as int]);
                assert(z != x);
                assert(o1.contains(z));
                assert(o2.contains(z));
                let k2 = choose|k2: int| 0 <= k2 < o2.len() && o2[k2] == z;
                assert(k2 != 0);
                assert(t2[k2 - 1] == z);
            }
            if t2.contains(z) {
                let k = choose|k: int| 0 <= k < t2.len() && t2[k] == z;
                assert(o2[k + 1] == z);
                assert(index_before(keys, o2[0] as int, o2[k + 1] as int));
                lemma_str_lt_strict_total(keys[x as int], keys[x as int], keys[x as int]);
                assert(z != x);
                assert(o2.contains(z));
                assert(o1.contains(z));
                let k1 = choose|k1: int| 0 <= k1 < o1.len() && o1[k1] == z;
                assert(k1 != 0);
                assert(t1[k1 - 1] == z);
            }
        }
        assert forall|a: int, b: int| 0 <= a < b < t1.len() implies index_before(
            keys,
            #[trigger] t1[a] as int,
            #[trigger] t1[b] as int,
        ) by {
            assert(t1[a] == o1[a + 1] && t1[b] == o1[b + 1]);
        }
        assert forall|a: int, b: int| 0 <= a < b < t2.len() implies index_before(
            keys,
            #[trigger] t2[a] as int,
            #[trigger] t2[b] as int,
        ) by {
            assert(t2[a] == o2[a + 1] && t2[b] == o2[b + 1]);
        }
        assert forall|a: int| 0 <= a < t1.len() implies #[trigger] t1[a] < keys.len() by {
            assert(t1[a] == o1[a + 1]);
        }
        assert forall|a: int| 0 <= a < t2.len() implies #[trigger] t2[a] < keys.len() by {
            assert(t2[a] == o2[a + 1]);
        }
        lemma_same_members_equal(keys, t1, t2);
        assert(o1 =~= seq![x] + t1);
        assert(o2 =~= seq![y] + t2);
    }
}

/// There is only one stable sorted order of a sequence of keys.
pub proof fn lemma_stable_order_unique(keys: Seq<Seq<char>>, o1: Seq<usize>, o2: Seq<usize>)
    requires
        is_stable_order(keys, o1),
        is_stable_order(keys, o2),
    ensures
        o1 == o2,
{
    assert forall|x: usize| o1.contains(x) <==> o2.contains(x) by {
        if o1.contains(x) {
            let k = choose|k: int| 0 <= k < o1.len() && o1[k] == x;
            assert(x < keys.len());
        }
        if o2.contains(x) {
            let k = choose|k: int| 0 <= k < o2.len() && o2[k] == x;
            assert(x < keys.len());
        }
    }
    lemma_same_members_equal(keys, o1, o2);
}

/// Sorting by key: the keys in the stable order never decrease, and every
/// index appears exactly once.
pub proof fn lemma_stable_order_sorts(keys: Seq<Seq<char>>, o: Seq<usize>)
    requires
        is_stable_order(keys, o),
    ensures
        forall|a: int, b: int|
            0 <= a < b < o.len() ==> !str_lt(keys[#[trigger] o[b] as int], keys[#[trigger] o[a] as int]),
        forall|a: int, b: int| 0 <= a < b < o.len() ==> #[trigger] o[a] != #[trigger] o[b],
{
    assert forall|a: int, b: int| 0 <= a < b < o.len() implies !str_lt(
        keys[#[trigger] o[b] as int],
        keys[#[trigger] o[a] as int],
    ) && o[a] != o[b] by {
        let x = keys[o[a] as int];
        let y = keys[o[b] as int];
        lemma_str_lt_strict_total(x, y, x);
    }
}

/// `o` lists the indices below `m`, each once, in stable sorted order.
spec fn is_stable_order_upto(keys: Seq<Seq<char>>, o: Seq<usize>, m: int) -> bool {
    &&& o.len() == m
    &&& forall|a: int| 0 <= a < o.len() ==> #[trigger] o[a] < m
    &&& forall|x: usize| x < m ==> #[trigger] o.contains(x)
    &&& forall|a: int, b: int|
        0 <= a < b < o.len() ==> index_before(keys, #[trigger] o[a] as int, #[trigger] o[b] as int)
}

/// Where index `m` goes among the sorted indices `o` (all below `m`),
/// searching down from position `k`.
proof fn insert_position(keys: Seq<Seq<char>>, o: Seq<usize>, m: usize, k: int) -> (j: int)
    requires
        m < keys.len(),
        forall|a: int| 0 <= a < o.len() ==> #[trigger] o[a] < m,
        forall|a: int, b: int|
            0 <= a < b < o.len() ==> index_before(keys, #[trigger] o[a] as int, #[trigger] o[b] as int),
        0 <= k <= o.len(),
        forall|a: int| k <= a < o.len() ==> str_lt(keys[m as int], keys[#[trigger] o[a] as int]),
    ensures
        0 <= j <= k,
        forall|a: int| 0 <= a < j ==> index_before(keys, #[trigger] o[a] as int, m as int),
        forall|a: int| j <= a < o.len() ==> index_before(keys, m as int, #[trigger] o[a] as int),
    decreases k,
{
    if k == 0 {
        0
    } else if str_lt(keys[m as int], keys[o[k - 1] as int]) {
        insert_position(keys, o, m, k - 1)
    } else {
        let p = o[k - 1] as int;
        lemma_str_lt_strict_total(keys[p], keys[m as int], keys[p]);
        assert forall|a: int| 0 <= a < k implies index_before(keys, #[trigger] o[a] as int, m as int) by {
            if a < k - 1 {
                let ia = o[a] as int;
                assert(index_before(keys, ia, p));
                lemma_str_lt_strict_total(keys[ia], keys[p], keys[m as int]);
            }
        }
        k
    }
}

/// Inserting an element adds it to the multiset.
proof fn lemma_insert_multiset<A>(s: Seq<A>, j: int, x: A)
    requires
        0 <= j <= s.len(),
    ensures
        s.insert(j, x).to_multiset() =~= s.to_multiset().insert(x),
{
    broadcast use vstd::multiset::group_multiset_axioms;
    broadcast use vstd::seq_lib::group_to_multiset_ensures;

    let a = s.subrange(0, j);
    let b = s.subrange(j, s.len() as int);
    assert(s.insert(j, x) =~= a.push(x) + b);
    assert(s =~= a + b);
    vstd::seq_lib::lemma_multiset_commutative(a.push(x), b);
    vstd::seq_lib::lemma_multiset_commutative(a, b);
}

/// The keys listed in the order `o`.
pub open spec fn keys_in_order(keys: Seq<Seq<char>>, o: Seq<usize>) -> Seq<Seq<char>> {
    o.map_values(|i: usize| keys[i as int])
}

proof fn lemma_stable_order_upto(keys: Seq<Seq<char>>, m: int) -> (o: Seq<usize>)
    requires
        0 <= m <= keys.len(),
        keys.len() <= usize::MAX,
    ensures
        is_stable_order_upto(keys, o, m),
        keys_in_order(keys, o).to_multiset() == keys.take(m).to_multiset(),
    decreases m,
{
    if m == 0 {
        assert(keys_in_order(keys, seq![]) =~= keys.take(0));
        seq![]
    } else {
        let p = lemma_stable_order_upto(keys, m - 1);
        let i = (m - 1) as usize;
        let j = insert_position(keys, p, i, p.len() as int);
        let o = p.insert(j, i);
        assert(keys_in_order(keys, o) =~= keys_in_order(keys, p).insert(j, keys[m - 1]));
        lemma_insert_multiset(keys_in_order(keys, p), j, keys[m - 1]);
        assert(keys.take(m) =~= keys.take(m - 1).push(keys[m - 1]));
        assert(keys.take(m).to_multiset() =~= keys.take(m - 1).to_multiset().insert(keys[m - 1])) by {
            broadcast use vstd::seq_lib::group_to_multiset_ensures;
        }
        assert forall|a: int, b: int| 0 <= a < b < o.len() implies index_before(
            keys,
            #[trigger] o[a] as int,
            #[trigger] o[b] as int,
        ) by {
            if b < j {
                assert(o[a] == p[a] && o[b] == p[b]);
            } else if b == j {
                assert(o[a] == p[a]);
            } else if a == j {
                assert(o[b] == p[b - 1]);
            } else if a > j {
                assert(o[a] == p[a - 1] && o[b] == p[b - 1]);
            } else {
                assert(o[a] == p[a] && o[b] == p[b - 1]);
            }
        }
        assert forall|x: usize| x < m implies #[trigger] o.contains(x) by {
            if x == i {
                assert(o[j] == i);
            } else {
                assert(p.contains(x));
                let k = choose|k: int| 0 <= k < p.len() && p[k] == x;
                if k < j {
                    assert(o[k] == x);
                } else {
                    assert(o[k + 1] == x);
                }
            }
        }
        assert forall|a: int| 0 <= a < o.len() implies #[trigger] o[a] < m by {
            if a < j {
                assert(o[a] == p[a]);
            } else if a > j {
                assert(o[a] == p[a - 1]);
            }
        }
        o
    }
}

/// Every sequence of keys that a `Vec` can hold has its stable sorted
/// order, and sorting keeps the keys (as a multiset).
pub proof fn lemma_stable_order_exists(keys: Seq<Seq<char>>)
    requires
        keys.len() <= usize::MAX,
    ensures
        is_stable_order(keys, stable_order(keys)),
        sorted_keys(keys).to_multiset() == keys.to_multiset(),
{
    let o = lemma_stable_order_upto(keys, keys.len() as int);
    assert(is_stable_order(keys, o));
    lemma_stable_order_unique(keys, o, stable_order(keys));
    assert(keys.take(keys.len() as int) =~= keys);
    assert(sorted_keys(keys) =~= keys_in_order(keys, o));
}

/// "Sorts no later than", as a relation.
pub open spec fn str_le(a: Seq<char>, b: Seq<char>) -> bool {
    !str_lt(b, a)
}

/// "Sorts no later than" is a total order.
pub proof fn lemma_str_le_total_ordering()
    ensures
        vstd::relations::total_ordering(|a: Seq<char>, b: Seq<char>| str_le(a, b)),
{
    let leq = |a: Seq<char>, b: Seq<char>| str_le(a, b);
    assert forall|x: Seq<char>| #[trigger] leq(x, x) by {
        lemma_str_lt_strict_total(x, x, x);
    }
    assert forall|x: Seq<char>, y: Seq<char>| #[trigger] leq(x, y) && #[trigger] leq(y, x) implies x == y by {
        lemma_str_lt_strict_total(x, y, x);
    }
    assert forall|x: Seq<char>, y: Seq<char>, z: Seq<char>| #[trigger] leq(x, y) && #[trigger] leq(y, z) implies leq(x, z) by {
        lemma_not_lt_transitive(x, y, z);
    }
    assert forall|x: Seq<char>, y: Seq<char>| #[trigger] leq(x, y) || #[trigger] leq(y, x) by {
        lemma_str_lt_strict_total(x, y, x);
    }
}

/// Sorting depends only on which keys there are: keys that are a
/// rearrangement of one another sort to the same sequence.
pub proof fn lemma_sorted_keys_rearranged(k1: Seq<Seq<char>>, k2: Seq<Seq<char>>)
    requires
        k1.len() <= usize::MAX,
        k2.len() <= usize::MAX,
        k1.to_multiset() == k2.to_multiset(),
    ensures
        sorted_keys(k1) == sorted_keys(k2),
{
    let leq = |a: Seq<char>, b: Seq<char>| str_le(a, b);
    lemma_stable_order_exists(k1);
    lemma_stable_order_exists(k2);
    lemma_sorted_keys_sorted(k1);
    lemma_sorted_keys_sorted(k2);
    lemma_str_le_total_ordering();
    assert(vstd::relations::sorted_by(sorted_keys(k1), leq));
    assert(vstd::relations::sorted_by(sorted_keys(k2), leq));
    vstd::seq_lib::lemma_sorted_unique(sorted_keys(k1), sorted_keys(k2), leq);
}

/// Sorting keys: the result is as long as the input, each element is the
/// key at the index the stable order puts there, and no key sorts before an
/// earlier one.
pub proof fn lemma_sorted_keys(keys: Seq<Seq<char>>)
    requires
        keys.len() <= usize::MAX,
    ensures
        sorted_keys(keys).len() == keys.len(),
        forall|a: int|
            0 <= a < keys.len() ==> #[trigger] sorted_keys(keys)[a] == keys[stable_order(keys)[a] as int],
        forall|a: int, b: int|
            0 <= a < b < keys.len() ==> !str_lt(#[trigger] sorted_keys(keys)[b], #[trigger] sorted_keys(keys)[a]),
        forall|a: int, b: int|
            0 <= a < b < keys.len() ==> #[trigger] stable_order(keys)[a] != #[trigger] stable_order(keys)[b],
        forall|x: usize| x < keys.len() ==> #[trigger] stable_order(keys).contains(x),
{
    lemma_stable_order_exists(keys);
    let o = stable_order(keys);
    lemma_stable_order_sorts(keys, o);
    assert forall|a: int, b: int| 0 <= a < b < keys.len() implies !str_lt(
        #[trigger] sorted_keys(keys)[b],
        #[trigger] sorted_keys(keys)[a],
    ) by {
        assert(sorted_keys(keys)[a] == keys[o[a] as int]);
        assert(sorted_keys(keys)[b] == keys[o[b] as int]);
    }
}

/// No name sorts before an earlier one.
pub open spec fn names_sorted(ns: Seq<Seq<char>>) -> bool {
    forall|a: int, b: int| 0 <= a < b < ns.len() ==> !str_lt(#[trigger] ns[b], #[trigger] ns[a])
}

/// "Sorts no later than" is transitive.
pub proof fn lemma_not_lt_transitive(a: Seq<char>, b: Seq<char>, c: Seq<char>)
    requires
        !str_lt(b, a),
        !str_lt(c, b),
    ensures
        !str_lt(c, a),
{
    lemma_str_lt_strict_total(a, b, c);
    lemma_str_lt_strict_total(c, a, b);
    lemma_str_lt_strict_total(b, c, a);
    lemma_str_lt_strict_total(c, b, a);
}

/// Sorted keys are sorted.
pub proof fn lemma_sorted_keys_sorted(keys: Seq<Seq<char>>)
    requires
        keys.len() <= usize::MAX,
    ensures
        names_sorted(sorted_keys(keys)),
        sorted_keys(keys).len() == keys.len(),
{
    lemma_sorted_keys(keys);
}

/// Whether `a` sorts before `b`.
pub fn str_less(a: &str, b: &str) -> (r: bool)
    ensures
        r == str_lt(a@, b@),
{
    let ba = a.as_bytes();
    let bb = b.as_bytes();
    let mut i: usize = 0;
    assert(ba@.skip(0) =~= ba@);
    assert(bb@.skip(0) =~= bb@);
    while i < ba.len() && i < bb.len()
        invariant
            ba@ == encode_utf8(a@),
            bb@ == encode_utf8(b@),
            i <= ba.len(),
            i <= bb.len(),
            str_lt(a@, b@) == bytes_lt(ba@.skip(i as int), bb@.skip(i as int)),
        decreases ba.len() - i,
    {
        proof {
            assert(ba@.skip(i as int).drop_first() =~= ba@.skip(i + 1));
            assert(bb@.skip(i as int).drop_first() =~= bb@.skip(i + 1));
        }
        if ba[i] < bb[i] {
            return true;
        }
        if ba[i] > bb[i] {
            return false;
        }
        i = i + 1;
    }
    i == ba.len() && i < bb.len()
}

/// The indices of `keys` in stable sorted order.
pub fn stable_order_of(keys: &Vec<String>) -> (o: Vec<usize>)
    ensures
        is_stable_order(views(keys@), o@),
        o@ == stable_order(views(keys@)),
{
    let ghost ks = views(keys@);
    let mut o: Vec<usize> = Vec::new();
    let mut i: usize = 0;
    while i < keys.len()
        invariant
            ks == views(keys@),
            i <= keys.len(),
            o.len() == i,
            forall|a: int| 0 <= a < o.len() ==> #[trigger] o@[a] < i,
            forall|x: usize| x < i ==> #[trigger] o@.contains(x),
            forall|a: int, b: int|
                0 <= a < b < o.len() ==> index_before(ks, #[trigger] o@[a] as int, #[trigger] o@[b] as int),
        decreases keys.len() - i,
    {
        let mut j: usize = o.len();
        while j > 0 && str_less(keys[i].as_str(), keys[o[j - 1]].as_str())
            invariant
                ks == views(keys@),
                i < keys.len(),
                j <= o.len(),
                forall|a: int| 0 <= a < o.len() ==> #[trigger] o@[a] < i,
                forall|a: int| j <= a < o.len() ==> str_lt(ks[i as int], ks[#[trigger] o@[a] as int]),
            decreases j,
        {
            j = j - 1;
        }
        let ghost old_o = o@;
        proof {
            if j > 0 {
                let p = old_o[j - 1] as int;
                assert(!str_lt(ks[i as int], ks[p]));
                lemma_str_lt_strict_total(ks[p], ks[i as int], ks[p]);
                assert(index_before(ks, p, i as int));
            }
        }
        o.insert(j, i);
        proof {
            assert forall|a: int, b: int| 0 <= a < b < o.len() implies index_before(
                ks,
                #[trigger] o@[a] as int,
                #[trigger] o@[b] as int,
            ) by {
                let ia = o@[a] as int;
                let ib = o@[b] as int;
                if b < j {
                    assert(o@[a] == old_o[a] && o@[b] == old_o[b]);
                } else if b == j {
                    assert(o@[a] == old_o[a]);
                    if a < j - 1 {
                        let p = old_o[j - 1] as int;
                        assert(index_before(ks, ia, p));
                        assert(index_before(ks, p, i as int));
                        lemma_str_lt_strict_total(ks[ia], ks[p], ks[i as int]);
                    }
                } else if a == j {
                    assert(o@[b] == old_o[b - 1]);
                } else if a > j {
                    assert(o@[a] == old_o[a - 1] && o@[b] == old_o[b - 1]);
                } else {
                    assert(o@[a] == old_o[a] && o@[b] == old_o[b - 1]);
                }
            }
            assert forall|x: usize| x < i + 1 implies #[trigger] o@.contains(x) by {
                if x == i {
                    assert(o@[j as int] == i);
                } else {
                    assert(old_o.contains(x));
                    let k = choose|k: int| 0 <= k < old_o.len() && old_o[k] == x;
                    if k < j {
                        assert(o@[k] == x);
                    } else {
                        assert(o@[k + 1] == x);
                    }
                }
            }
            assert forall|a: int| 0 <= a < o.len() implies #[trigger] o@[a] < i + 1 by {
                if a < j {
                    assert(o@[a] == old_o[a]);
                } else if a > j {
                    assert(o@[a] == old_o[a - 1]);
                }
            }
        }
        i = i + 1;
    }
    proof {
        assert(is_stable_order(ks, o@));
        lemma_stable_order_unique(ks, o@, stable_order(ks));
    }
    o
}

/// The strings sorted (lexicographically by their bytes).
pub fn sorted_strings(v: &Vec<String>) -> (r: Vec<String>)
    ensures
        views(r@) == sorted_keys(views(v@)),
        r@.len() == v@.len(),
{
    let order = stable_order_of(v);
    let ghost keys = views(v@);
    let mut r: Vec<String> = Vec::new();
    let mut p: usize = 0;
    while p < order.len()
        invariant
            keys == views(v@),
            order@ == stable_order(keys),
            order.len() == v.len(),
            forall|a: int| 0 <= a < order.len() ==> #[trigger] order@[a] < v.len(),
            p <= order.len(),
            r.len() == p,
            views(r@) == sorted_keys(keys).take(p as int),
        decreases order.len() - p,
    {
        let s = v[order[p]].clone();
        let ghost before = r@;
        r.push(s);
        assert(views(r@) =~= sorted_keys(keys).take(p + 1)) by {
            assert forall|a: int| 0 <= a < p + 1 implies views(r@)[a] == sorted_keys(keys)[a] by {
                if a < p {
                    assert(r@[a] == before[a]);
                    assert(views(before)[a] == sorted_keys(keys).take(p as int)[a]);
                }
            }
        }
        p = p + 1;
    }
    assert(sorted_keys(keys).take(order.len() as int) =~= sorted_keys(keys));
    r
}

} // verus!
