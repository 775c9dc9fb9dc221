//! Sequences that hold the same items in another order.
//!
//! The workers of an analysis hand in their results in no fixed order.
//! These lemmas show what does not depend on that order.

use vstd::prelude::*;
use vstd::multiset::Multiset;
use vstd::seq_lib::{to_multiset_build, to_multiset_remove};

verus! {

/// The order in which two items are folded in makes no difference.
pub open spec fn order_free<A, B>(f: spec_fn(B, A) -> B) -> bool {
    forall|x: B, p: A, q: A| #[trigger] f(f(x, p), q) == f(f(x, q), p)
}

/// Items in another order have the same images, in another order.
pub proof fn lemma_map_permutation<A, B>(a: Seq<A>, b: Seq<A>, f: spec_fn(A) -> B)
    requires
        a.to_multiset() == b.to_multiset(),
    ensures
        a.map_values(f).to_multiset() == b.map_values(f).to_multiset(),
    decreases a.len(),
{
    broadcast use vstd::multiset::group_multiset_axioms;

    a.to_multiset_ensures();
    b.to_multiset_ensures();
    if a.len() == 0 {
        assert(b.len() == 0);
        assert(a.map_values(f) =~= b.map_values(f));
    } else {
        let x = a.last();
        assert(a.contains(x));
        assert(a.to_multiset().count(x) > 0);
        assert(b.contains(x));
        let j = choose|j: int| 0 <= j < b.len() && b[j] == x;
        let a1 = a.drop_last();
        let b1 = b.remove(j);
        assert(a1 =~= a.remove(a.len() - 1));
        to_multiset_remove(a, a.len() - 1);
        to_multiset_remove(b, j);
        lemma_map_permutation(a1, b1, f);
        assert(a.map_values(f) =~= a1.map_values(f).push(f(x)));
        assert(b1.map_values(f) =~= b.map_values(f).remove(j));
        to_multiset_build(a1.map_values(f), f(x));
        to_multiset_remove(b.map_values(f), j);
        b.map_values(f).to_multiset_ensures();
        assert(b.map_values(f).contains(b.map_values(f)[j]));
        assert(b.map_values(f).to_multiset() =~= b1.map_values(f).to_multiset().insert(f(x)));
    }
}

/// Items of which no two are equal stay so in any other order.
pub proof fn lemma_no_duplicates_permutation<A>(a: Seq<A>, b: Seq<A>)
    requires
        a.to_multiset() == b.to_multiset(),
        a.no_duplicates(),
    ensures
        b.no_duplicates(),
{
    a.lemma_multiset_has_no_duplicates();
    b.lemma_multiset_has_no_duplicates_conv();
}

/// Items of which no two share a name stay so in any other order.
pub proof fn lemma_distinct_permutation<V>(a: Seq<V>, b: Seq<V>, name: spec_fn(V) -> Seq<char>)
    requires
        a.to_multiset() == b.to_multiset(),
        forall|i: int, j: int| 0 <= i < j < a.len() ==> name(#[trigger] a[i]) != name(#[trigger] a[j]),
    ensures
        forall|i: int, j: int| 0 <= i < j < b.len() ==> name(#[trigger] b[i]) != name(#[trigger] b[j]),
{
    let names_a = a.map_values(name);
    let names_b = b.map_values(name);
    lemma_map_permutation(a, b, name);
    assert forall|i: int, j: int|
        0 <= i < names_a.len() && 0 <= j < names_a.len() && i != j implies names_a[i]
        != names_a[j] by {
        if i < j {
            assert(name(a[i]) != name(a[j]));
        } else {
            assert(name(a[j]) != name(a[i]));
        }
    }
    lemma_no_duplicates_permutation(names_a, names_b);
    assert forall|i: int, j: int| 0 <= i < j < b.len() implies name(#[trigger] b[i]) != name(
        #[trigger] b[j],
    ) by {
        assert(names_b[i] != names_b[j]);
    }
}

/// The images under `f` of the items that have one, in order.
pub open spec fn collect<A, X>(s: Seq<A>, f: spec_fn(A) -> Option<X>) -> Seq<X>
    decreases s.len(),
{
    if s.len() == 0 {
        Seq::empty()
    } else {
        let before = collect(s.drop_last(), f);
        match f(s.last()) {
            Some(x) => before.push(x),
            None => before,
        }
    }
}

/// One step of collecting images without regard to their order.
pub open spec fn gather<A, X>(f: spec_fn(A) -> Option<X>) -> spec_fn(Multiset<X>, A) -> Multiset<
    X,
> {
    |found: Multiset<X>, item: A|
        match f(item) {
            Some(x) => found.insert(x),
            None => found,
        }
}

/// Without regard to order, collecting is a fold.
pub proof fn lemma_collect_is_fold<A, X>(s: Seq<A>, f: spec_fn(A) -> Option<X>)
    ensures
        collect(s, f).to_multiset() == s.fold_left(Multiset::empty(), gather(f)),
    decreases s.len(),
{
    broadcast use vstd::multiset::group_multiset_axioms;

    if s.len() == 0 {
        collect(s, f).to_multiset_ensures();
        assert(collect(s, f).to_multiset() =~= Multiset::<X>::empty());
    } else {
        lemma_collect_is_fold(s.drop_last(), f);
        if let Some(x) = f(s.last()) {
            to_multiset_build(collect(s.drop_last(), f), x);
        }
    }
}

/// Items in another order have the same images, in another order.
pub proof fn lemma_collect_permutation<A, X>(a: Seq<A>, b: Seq<A>, f: spec_fn(A) -> Option<X>)
    requires
        a.to_multiset() == b.to_multiset(),
    ensures
        collect(a, f).to_multiset() == collect(b, f).to_multiset(),
{
    broadcast use vstd::multiset::group_multiset_axioms;

    lemma_collect_is_fold(a, f);
    lemma_collect_is_fold(b, f);
    let g = gather(f);
    assert forall|x: Multiset<X>, p: A, q: A| #[trigger] g(g(x, p), q) == g(g(x, q), p) by {
        assert(g(g(x, p), q) =~= g(g(x, q), p));
    }
    lemma_fold_permutation(a, b, Multiset::empty(), g);
}

/// Every image that is collected is the image of an item.
pub proof fn lemma_collect_source<A, X>(s: Seq<A>, f: spec_fn(A) -> Option<X>, p: int)
    requires
        0 <= p < collect(s, f).len(),
    ensures
        exists|i: int| 0 <= i < s.len() && f(#[trigger] s[i]) == Some(collect(s, f)[p]),
    decreases s.len(),
{
    if s.len() > 0 {
        let front = s.drop_last();
        if p < collect(front, f).len() {
            lemma_collect_source(front, f, p);
            let i = choose|i: int| 0 <= i < front.len() && f(#[trigger] front[i]) == Some(
                collect(front, f)[p],
            );
            assert(s[i] == front[i]);
        } else {
            assert(f(s[s.len() - 1]) == Some(collect(s, f)[p]));
        }
    }
}

/// Where no two items have images of one name, no two collected images
/// share a name.
pub proof fn lemma_collect_distinct<A, X>(
    s: Seq<A>,
    f: spec_fn(A) -> Option<X>,
    name: spec_fn(X) -> Seq<char>,
)
    requires
        forall|i: int, j: int|
            0 <= i < j < s.len() && f(#[trigger] s[i]).is_some() && f(#[trigger] s[j]).is_some()
                ==> name(f(s[i]).unwrap()) != name(f(s[j]).unwrap()),
    ensures
        forall|p: int, q: int|
            0 <= p < q < collect(s, f).len() ==> name(#[trigger] collect(s, f)[p]) != name(
                #[trigger] collect(s, f)[q],
            ),
    decreases s.len(),
{
    if s.len() > 0 {
        let front = s.drop_last();
        let found = collect(s, f);
        let before = collect(front, f);
        assert forall|i: int, j: int|
            0 <= i < j < front.len() && f(#[trigger] front[i]).is_some() && f(
                #[trigger] front[j],
            ).is_some() implies name(f(front[i]).unwrap()) != name(f(front[j]).unwrap()) by {
            assert(front[i] == s[i] && front[j] == s[j]);
        }
        lemma_collect_distinct(front, f, name);
        assert forall|p: int, q: int| 0 <= p < q < found.len() implies name(#[trigger] found[p])
            != name(#[trigger] found[q]) by {
            if q < before.len() {
                assert(found[p] == before[p] && found[q] == before[q]);
            } else {
                lemma_collect_source(front, f, p);
                let i = choose|i: int| 0 <= i < front.len() && f(#[trigger] front[i]) == Some(
                    before[p],
                );
                assert(front[i] == s[i]);
                assert(f(s[s.len() - 1]) == Some(found[q]));
            }
        }
    }
}

/// Any item of a fold can be folded in last.
pub proof fn lemma_fold_remove<A, B>(s: Seq<A>, i: int, init: B, f: spec_fn(B, A) -> B)
    requires
        0 <= i < s.len(),
        order_free(f),
    ensures
        s.fold_left(init, f) == f(s.remove(i).fold_left(init, f), s[i]),
    decreases s.len(),
{
    let front = s.drop_last();
    if i == s.len() - 1 {
        assert(s.remove(i) =~= front);
    } else {
        lemma_fold_remove(front, i, init, f);
        assert(s.remove(i).drop_last() =~= front.remove(i));
        assert(s.remove(i).last() == s.last());
        let rest = front.remove(i).fold_left(init, f);
        assert(f(f(rest, s[i]), s.last()) == f(f(rest, s.last()), s[i]));
    }
}

/// A fold in which the order of two items makes no difference gives the
/// same for the same items in any order.
pub proof fn lemma_fold_permutation<A, B>(a: Seq<A>, b: Seq<A>, init: B, f: spec_fn(B, A) -> B)
    requires
        a.to_multiset() == b.to_multiset(),
        order_free(f),
    ensures
        a.fold_left(init, f) == b.fold_left(init, f),
    decreases a.len(),
{
    broadcast use vstd::multiset::group_multiset_axioms;

    a.to_multiset_ensures();
    b.to_multiset_ensures();
    if a.len() == 0 {
        assert(b.len() == 0);
    } else {
        let x = a.last();
        assert(a.contains(x));
        assert(a.to_multiset().count(x) > 0);
        assert(b.contains(x));
        let j = choose|j: int| 0 <= j < b.len() && b[j] == x;
        assert(a.drop_last() =~= a.remove(a.len() - 1));
        to_multiset_remove(a, a.len() - 1);
        to_multiset_remove(b, j);
        lemma_fold_permutation(a.drop_last(), b.remove(j), init, f);
        lemma_fold_remove(b, j, init, f);
    }
}

} // verus!
