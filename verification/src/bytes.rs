//! Byte strings: their lexicographic order (the order of `Vec<u8>` and of
//! `String`), sorting by it, and laying byte strings end to end.

use vstd::prelude::*;
use vstd::multiset::Multiset;
use vstd::relations::{sorted_by, total_ordering};

verus! {

broadcast use vstd::seq_lib::group_to_multiset_ensures;

/// `a` comes before `b`, or equals it, in lexicographic order of bytes.
pub open spec fn bytes_le(a: Seq<u8>, b: Seq<u8>) -> bool
    decreases a.len(),
{
    if a.len() == 0 {
        true
    } else if b.len() == 0 {
        false
    } else if a[0] != b[0] {
        a[0] < b[0]
    } else {
        bytes_le(a.drop_first(), b.drop_first())
    }
}

/// The lexicographic order of bytes as a relation.
pub open spec fn bytes_order() -> spec_fn(Seq<u8>, Seq<u8>) -> bool {
    |a: Seq<u8>, b: Seq<u8>| bytes_le(a, b)
}

/// The byte strings laid end to end.
pub open spec fn concat_all(parts: Seq<Seq<u8>>) -> Seq<u8>
    decreases parts.len(),
{
    if parts.len() == 0 {
        seq![]
    } else {
        concat_all(parts.drop_last()) + parts.last()
    }
}

/// Adds the length of a byte string to a running total.
pub open spec fn add_len() -> spec_fn(int, Seq<u8>) -> int {
    |acc: int, x: Seq<u8>| acc + x.len()
}

/// The number of bytes the byte strings hold together.
pub open spec fn total_len(parts: Seq<Seq<u8>>) -> int {
    parts.fold_left(0int, add_len())
}

/// Laid end to end, byte strings give as many bytes as they hold together,
/// and that number does not depend on the order they come in.
pub proof fn lemma_concat_all_len(parts: Seq<Seq<u8>>, other: Seq<Seq<u8>>)
    requires
        parts.to_multiset() == other.to_multiset(),
    ensures
        concat_all(parts).len() == total_len(parts),
        total_len(parts) == total_len(other),
    decreases parts.len(),
{
    if parts.len() > 0 {
        lemma_concat_all_len(parts.drop_last(), parts.drop_last());
    }
    let f = add_len();
    assert forall|x: Seq<u8>, y: Seq<u8>, v: int| #[trigger] f(f(v, x), y) == f(f(v, y), x) by {}
    vstd::seq_lib::lemma_fold_left_permutation(parts, other, f, 0int);
}

/// The views of a vector of byte vectors.
pub open spec fn byte_views(v: Seq<Vec<u8>>) -> Seq<Seq<u8>> {
    v.map_values(|x: Vec<u8>| x@)
}

pub(crate) proof fn lemma_le_reflexive(a: Seq<u8>)
    ensures
        bytes_le(a, a),
    decreases a.len(),
{
    if a.len() > 0 {
        lemma_le_reflexive(a.drop_first());
    }
}

pub(crate) proof fn lemma_le_antisymmetric(a: Seq<u8>, b: Seq<u8>)
    requires
        bytes_le(a, b),
        bytes_le(b, a),
    ensures
        a == b,
    decreases a.len(),
{
    if a.len() > 0 && b.len() > 0 {
        lemma_le_antisymmetric(a.drop_first(), b.drop_first());
        assert(a =~= seq![a[0]] + a.drop_first());
        assert(b =~= seq![b[0]] + b.drop_first());
    } else {
        assert(a =~= b);
    }
}

pub(crate) proof fn lemma_le_transitive(a: Seq<u8>, b: Seq<u8>, c: Seq<u8>)
    requires
        bytes_le(a, b),
        bytes_le(b, c),
    ensures
        bytes_le(a, c),
    decreases a.len(),
{
    if a.len() > 0 && b.len() > 0 && c.len() > 0 {
        if a[0] == b[0] && b[0] == c[0] {
            lemma_le_transitive(a.drop_first(), b.drop_first(), c.drop_first());
        }
    }
}

pub(crate) proof fn lemma_le_total(a: Seq<u8>, b: Seq<u8>)
    ensures
        bytes_le(a, b) || bytes_le(b, a),
    decreases a.len(),
{
    if a.len() > 0 && b.len() > 0 && a[0] == b[0] {
        lemma_le_total(a.drop_first(), b.drop_first());
    }
}

/// The lexicographic order of bytes is a total order.
pub proof fn lemma_bytes_order_total()
    ensures
        total_ordering(bytes_order()),
{
    let r = bytes_order();
    assert forall|x: Seq<u8>| #[trigger] r(x, x) by {
        lemma_le_reflexive(x);
    }
    assert forall|x: Seq<u8>, y: Seq<u8>| #[trigger] r(x, y) && #[trigger] r(y, x) implies x
        == y by {
        lemma_le_antisymmetric(x, y);
    }
    assert forall|x: Seq<u8>, y: Seq<u8>, z: Seq<u8>| #[trigger] r(x, y) && #[trigger] r(y, z)
        implies r(x, z) by {
        lemma_le_transitive(x, y, z);
    }
    assert forall|x: Seq<u8>, y: Seq<u8>| #[trigger] r(x, y) || #[trigger] r(y, x) by {
        lemma_le_total(x, y);
    }
}

/// Compares two byte strings in lexicographic order.
pub fn bytes_le_exec(a: &[u8], b: &[u8]) -> (r: bool)
    ensures
        r == bytes_le(a@, b@),
{
    let mut i: usize = 0;
    assert(a@.skip(0) =~= a@);
    assert(b@.skip(0) =~= b@);
    while i < a.len() && i < b.len()
        invariant
            i <= a@.len(),
            i <= b@.len(),
            bytes_le(a@, b@) == bytes_le(a@.skip(i as int), b@.skip(i as int)),
        decreases a@.len() - i,
    {
        if a[i] != b[i] {
            assert(a@.skip(i as int)[0] == a@[i as int]);
            assert(b@.skip(i as int)[0] == b@[i as int]);
            return a[i] < b[i];
        }
        assert(a@.skip(i as int).drop_first() =~= a@.skip(i + 1));
        assert(b@.skip(i as int).drop_first() =~= b@.skip(i + 1));
        i = i + 1;
    }
    i == a.len()
}

/// Sorts byte strings in lexicographic order.
pub fn sort_byte_strings(v: Vec<Vec<u8>>) -> (r: Vec<Vec<u8>>)
    ensures
        byte_views(r@) == byte_views(v@).sort_by(bytes_order()),
{
    proof {
        lemma_bytes_order_total();
    }
    let ghost input = byte_views(v@);
    let mut res: Vec<Vec<u8>> = Vec::new();
    let n = v.len();
    let mut rest = v;
    let mut i: usize = 0;
    // Elements are taken from the back of `rest`, so the input is handled
    // from its last element to its first.
    while i < n
        invariant
            n == input.len(),
            i <= n,
            rest@.len() == n - i,
            byte_views(rest@) == input.take((n - i) as int),
            sorted_by(byte_views(res@), bytes_order()),
            byte_views(res@).to_multiset() == input.skip((n - i) as int).to_multiset(),
            total_ordering(bytes_order()),
        decreases n - i,
    {
        let ghost old_rest = rest@;
        let x = rest.pop().unwrap();
        let ghost before = byte_views(res@);
        let mut j: usize = 0;
        while j < res.len() && bytes_le_exec(res[j].as_slice(), x.as_slice())
            invariant
                j <= res@.len(),
                before == byte_views(res@),
                forall|k: int| 0 <= k < j ==> bytes_le(#[trigger] before[k], x@),
            decreases res@.len() - j,
        {
            j = j + 1;
        }
        proof {
            if j < res@.len() {
                assert(!bytes_le(before[j as int], x@));
                lemma_le_total(before[j as int], x@);
            }
        }
        res.insert(j, x);
        proof {
            let after = byte_views(res@);
            assert(after =~= before.insert(j as int, x@));
            assert forall|a: int, b: int| 0 <= a < b < after.len() implies #[trigger] bytes_order()(
                after[a],
                after[b],
            ) by {
                if b < j {
                } else if a < j && b == j {
                } else if a < j && b > j {
                    assert(bytes_le(before[a], x@));
                    if b - 1 > j {
                        assert(bytes_order()(before[j as int], before[b - 1]));
                    } else {
                        lemma_le_reflexive(before[j as int]);
                    }
                    assert(bytes_le(x@, before[j as int]));
                    lemma_le_transitive(x@, before[j as int], before[b - 1]);
                    lemma_le_transitive(before[a], x@, before[b - 1]);
                } else if a == j {
                    if b - 1 > j {
                        assert(bytes_order()(before[j as int], before[b - 1]));
                        lemma_le_transitive(x@, before[j as int], before[b - 1]);
                    }
                } else {
                    assert(bytes_order()(before[a - 1], before[b - 1]));
                }
            }
            vstd::seq_lib::to_multiset_insert(before, j as int, x@);
            let k = (n - i - 1) as int;
            assert(input.skip(k) =~= seq![input[k]] + input.skip(k + 1));
            vstd::seq_lib::lemma_multiset_commutative(seq![input[k]], input.skip(k + 1));
            assert(seq![input[k]].to_multiset() =~= Multiset::empty().insert(input[k])) by {
                broadcast use vstd::multiset::group_multiset_axioms;

                assert(seq![input[k]] =~= Seq::<Seq<u8>>::empty().push(input[k]));
            }
            assert(byte_views(rest@) =~= input.take(k));
            assert(byte_views(old_rest)[k] == old_rest[k]@);
            assert(input.take((n - i) as int)[k] == input[k]);
            assert(x@ == input[k]);
        }
        i = i + 1;
    }
    proof {
        assert(input.skip(0) =~= input);
        input.lemma_sort_by_ensures(bytes_order());
        vstd::seq_lib::lemma_sorted_unique(
            byte_views(res@),
            input.sort_by(bytes_order()),
            bytes_order(),
        );
    }
    res
}

/// The byte strings laid end to end.
pub fn concat_bytes(parts: &Vec<Vec<u8>>) -> (r: Vec<u8>)
    ensures
        r@ == concat_all(byte_views(parts@)),
{
    let mut r: Vec<u8> = Vec::new();
    let ghost views = byte_views(parts@);
    let n = parts.len();
    for i in 0..n
        invariant
            n == parts@.len(),
            views == byte_views(parts@),
            r@ == concat_all(views.take(i as int)),
    {
        let ghost old_r = r@;
        r.extend_from_slice(parts[i].as_slice());
        proof {
            assert(views.take((i + 1) as int).drop_last() =~= views.take(i as int));
            assert(r@ =~= old_r + parts@[i as int]@);
        }
    }
    proof {
        assert(views.take(n as int) =~= views);
    }
    r
}

/// Mapping two sequences with the same elements gives sequences with the
/// same elements.
pub proof fn lemma_map_keeps_same_elements<A, B>(s1: Seq<A>, s2: Seq<A>, f: spec_fn(A) -> B)
    requires
        s1.to_multiset() == s2.to_multiset(),
    ensures
        s1.map_values(f).to_multiset() == s2.map_values(f).to_multiset(),
    decreases s1.len(),
{
    broadcast use vstd::multiset::group_multiset_axioms;

    if s1.len() == 0 {
        assert(s2.to_multiset().len() == 0);
        assert(s2.len() == 0);
        assert(s1.map_values(f) =~= s2.map_values(f));
    } else {
        let x = s1.last();
        let s1r = s1.drop_last();
        assert(s1 =~= s1r.push(x));
        assert(s2.to_multiset().count(x) > 0);
        assert(s2.contains(x));
        let i = choose|i: int| 0 <= i < s2.len() && s2[i] == x;
        let s2r = s2.remove(i);
        vstd::seq_lib::to_multiset_remove(s2, i);
        assert(s1r.to_multiset() =~= s1.to_multiset().remove(x));
        lemma_map_keeps_same_elements(s1r, s2r, f);
        assert(s1.map_values(f) =~= s1r.map_values(f).push(f(x)));
        assert(s2 =~= s2r.insert(i, x));
        assert(s2.map_values(f) =~= s2r.map_values(f).insert(i, f(x)));
        vstd::seq_lib::to_multiset_insert(s2r.map_values(f), i, f(x));
    }
}

} // verus!
