//! Lemmas about filtered sequences and their multisets, used to reason
//! about the order-irrelevant contents of the quadtree and of neighbor
//! query results.

use vstd::prelude::*;
use vstd::multiset::Multiset;
use vstd::seq_lib::lemma_multiset_commutative;

verus! {

/// Filtering a sequence and collecting it commute: the multiset of the
/// filtered sequence is the filtered multiset.
pub proof fn lemma_filter_to_multiset<A>(s: Seq<A>, pred: spec_fn(A) -> bool)
    ensures
        s.filter(pred).to_multiset() == s.to_multiset().filter(pred),
    decreases s.len(),
{
    broadcast use vstd::seq_lib::group_to_multiset_ensures;
    broadcast use vstd::multiset::group_multiset_axioms;

    reveal(Seq::filter);
    if s.len() == 0 {
        assert(s.to_multiset() =~= Multiset::<A>::empty());
        assert(s.filter(pred).to_multiset() =~= s.to_multiset().filter(pred));
    } else {
        let d = s.drop_last();
        let x = s.last();
        lemma_filter_to_multiset(d, pred);
        assert(s =~= d.push(x));
        assert(s.to_multiset() == d.push(x).to_multiset());
        assert(d.push(x).to_multiset() == d.to_multiset().insert(x));
        if pred(x) {
            assert(s.filter(pred) == d.filter(pred).push(x));
            assert(s.filter(pred).to_multiset() == d.filter(pred).to_multiset().insert(x));
            assert(s.filter(pred).to_multiset() =~= s.to_multiset().filter(pred));
        } else {
            assert(s.filter(pred) == d.filter(pred));
            assert(s.filter(pred).to_multiset() =~= s.to_multiset().filter(pred));
        }
    }
}

/// Sequences with the same contents have filters with the same contents.
pub proof fn lemma_filter_permutation<A>(s: Seq<A>, t: Seq<A>, pred: spec_fn(A) -> bool)
    requires
        s.to_multiset() == t.to_multiset(),
    ensures
        s.filter(pred).to_multiset() == t.filter(pred).to_multiset(),
{
    lemma_filter_to_multiset(s, pred);
    lemma_filter_to_multiset(t, pred);
}

/// A filter whose predicate rejects every element yields the empty
/// sequence.
pub proof fn lemma_filter_all_false<A>(s: Seq<A>, pred: spec_fn(A) -> bool)
    requires
        forall|i: int| 0 <= i < s.len() ==> !pred(#[trigger] s[i]),
    ensures
        s.filter(pred) =~= Seq::<A>::empty(),
    decreases s.len(),
{
    reveal(Seq::filter);
    if s.len() > 0 {
        assert(!pred(s.last()));
        lemma_filter_all_false(s.drop_last(), pred);
    }
}

/// Filtering one more element of a prefix appends it exactly when the
/// predicate accepts it.
pub proof fn lemma_filter_take_step<A>(s: Seq<A>, pred: spec_fn(A) -> bool, i: int)
    requires
        0 <= i < s.len(),
    ensures
        s.take(i + 1).filter(pred) == if pred(s[i]) {
            s.take(i).filter(pred).push(s[i])
        } else {
            s.take(i).filter(pred)
        },
{
    reveal(Seq::filter);
    assert(s.take(i + 1).drop_last() =~= s.take(i));
    assert(s.take(i + 1).last() == s[i]);
}

/// When exactly one of four concatenated sequences gains one element, the
/// concatenation's contents gain exactly that element.
pub proof fn lemma_concat4_multiset_insert<A>(
    f1: Seq<A>,
    f2: Seq<A>,
    f3: Seq<A>,
    f4: Seq<A>,
    g1: Seq<A>,
    g2: Seq<A>,
    g3: Seq<A>,
    g4: Seq<A>,
    p: A,
)
    requires
        ({
            ||| (g1.to_multiset() == f1.to_multiset().insert(p) && g2 == f2 && g3 == f3 && g4
                == f4)
            ||| (g2.to_multiset() == f2.to_multiset().insert(p) && g1 == f1 && g3 == f3 && g4
                == f4)
            ||| (g3.to_multiset() == f3.to_multiset().insert(p) && g1 == f1 && g2 == f2 && g4
                == f4)
            ||| (g4.to_multiset() == f4.to_multiset().insert(p) && g1 == f1 && g2 == f2 && g3
                == f3)
        }),
    ensures
        (g1 + g2 + g3 + g4).to_multiset() == (f1 + f2 + f3 + f4).to_multiset().insert(p),
        (g1 + g2 + g3 + g4).len() == (f1 + f2 + f3 + f4).len() + 1,
{
    broadcast use vstd::seq_lib::group_to_multiset_ensures;
    broadcast use vstd::multiset::group_multiset_axioms;

    lemma_multiset_commutative(f1, f2);
    lemma_multiset_commutative(f1 + f2, f3);
    lemma_multiset_commutative(f1 + f2 + f3, f4);
    lemma_multiset_commutative(g1, g2);
    lemma_multiset_commutative(g1 + g2, g3);
    lemma_multiset_commutative(g1 + g2 + g3, g4);
    assert((g1 + g2 + g3 + g4).to_multiset() =~= (f1 + f2 + f3 + f4).to_multiset().insert(p));
    assert((g1 + g2 + g3 + g4).to_multiset().len() == (g1 + g2 + g3 + g4).len());
    assert((f1 + f2 + f3 + f4).to_multiset().len() == (f1 + f2 + f3 + f4).len());
    assert((f1 + f2 + f3 + f4).to_multiset().insert(p).len() == (f1 + f2 + f3 + f4)
        .to_multiset().len() + 1);
}

/// Every element of a filtered sequence comes from the original sequence
/// and satisfies the predicate.
pub proof fn lemma_filter_elems_from<A>(s: Seq<A>, pred: spec_fn(A) -> bool)
    ensures
        forall|j: int| 0 <= j < s.filter(pred).len() ==> s.contains(#[trigger] s.filter(pred)[j])
            && pred(s.filter(pred)[j]),
    decreases s.len(),
{
    reveal(Seq::filter);
    if s.len() > 0 {
        let d = s.drop_last();
        lemma_filter_elems_from(d, pred);
        assert(forall|i: int| 0 <= i < d.len() ==> d[i] == s[i]);
        assert(forall|y: A| d.contains(y) ==> s.contains(y));
        assert(s.contains(s.last()));
        let f = s.filter(pred);
        if pred(s.last()) {
            assert(f == d.filter(pred).push(s.last()));
            assert(forall|j: int| 0 <= j < f.len() - 1 ==> f[j] == d.filter(pred)[j]);
            assert(f[f.len() - 1] == s.last());
        } else {
            assert(f == d.filter(pred));
        }
    }
}

/// Exactly one of four alternatives holds.
pub open spec fn exactly_one(a: bool, b: bool, c: bool, d: bool) -> bool {
    (if a { 1int } else { 0 }) + (if b { 1int } else { 0 }) + (if c { 1int } else { 0 }) + (if d {
        1int
    } else {
        0
    }) == 1
}

/// Four selectors that sort every element into exactly one bin lose and
/// duplicate nothing: the four filters together carry the original
/// contents.
pub proof fn lemma_partition4_multiset<A>(
    s: Seq<A>,
    p1: spec_fn(A) -> bool,
    p2: spec_fn(A) -> bool,
    p3: spec_fn(A) -> bool,
    p4: spec_fn(A) -> bool,
)
    requires
        forall|i: int| 0 <= i < s.len() ==> exactly_one(
            p1(#[trigger] s[i]),
            p2(s[i]),
            p3(s[i]),
            p4(s[i]),
        ),
    ensures
        (s.filter(p1) + s.filter(p2) + s.filter(p3) + s.filter(p4)).to_multiset() == s.to_multiset(),
    decreases s.len(),
{
    broadcast use vstd::seq_lib::group_to_multiset_ensures;
    broadcast use vstd::multiset::group_multiset_axioms;

    reveal(Seq::filter);
    if s.len() == 0 {
        assert(s.filter(p1) =~= Seq::<A>::empty());
        assert(s.filter(p2) =~= Seq::<A>::empty());
        assert(s.filter(p3) =~= Seq::<A>::empty());
        assert(s.filter(p4) =~= Seq::<A>::empty());
        assert((s.filter(p1) + s.filter(p2) + s.filter(p3) + s.filter(p4)) =~= Seq::<A>::empty());
        assert(s.to_multiset() =~= Multiset::<A>::empty());
        assert((s.filter(p1) + s.filter(p2) + s.filter(p3) + s.filter(p4)).to_multiset()
            =~= s.to_multiset());
    } else {
        let d = s.drop_last();
        let x = s.last();
        assert(forall|i: int| 0 <= i < d.len() ==> exactly_one(
            p1(#[trigger] d[i]),
            p2(d[i]),
            p3(d[i]),
            p4(d[i]),
        )) by {
            assert(forall|i: int| 0 <= i < d.len() ==> d[i] == s[i]);
        }
        lemma_partition4_multiset(d, p1, p2, p3, p4);
        assert(exactly_one(p1(x), p2(x), p3(x), p4(x)));
        assert(s =~= d.push(x));
        let f1 = s.filter(p1);
        let f2 = s.filter(p2);
        let f3 = s.filter(p3);
        let f4 = s.filter(p4);
        lemma_multiset_commutative(f1, f2);
        lemma_multiset_commutative(f1 + f2, f3);
        lemma_multiset_commutative(f1 + f2 + f3, f4);
        let g1 = d.filter(p1);
        let g2 = d.filter(p2);
        let g3 = d.filter(p3);
        let g4 = d.filter(p4);
        lemma_multiset_commutative(g1, g2);
        lemma_multiset_commutative(g1 + g2, g3);
        lemma_multiset_commutative(g1 + g2 + g3, g4);
        assert((f1 + f2 + f3 + f4).to_multiset() =~= s.to_multiset());
    }
}

} // verus!
