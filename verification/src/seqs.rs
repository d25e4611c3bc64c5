//! Small sequence lemmas that the store proofs use when a loop grows a
//! filtered or mapped sequence one element at a time.

use vstd::prelude::*;

verus! {

/// Filtering after a push keeps or drops exactly the pushed element.
pub proof fn lemma_filter_push<A>(s: Seq<A>, x: A, pred: spec_fn(A) -> bool)
    ensures
        s.push(x).filter(pred) == (if pred(x) {
            s.filter(pred).push(x)
        } else {
            s.filter(pred)
        }),
{
    reveal(Seq::filter);
    assert(s.push(x).drop_last() =~= s);
    assert(s.push(x).last() == x);
}

/// Mapping after a push appends the image of the pushed element.
pub proof fn lemma_map_push<A, B>(s: Seq<A>, x: A, f: spec_fn(A) -> B)
    ensures
        s.push(x).map_values(f) =~= s.map_values(f).push(f(x)),
{
}

/// A prefix one longer is the prefix plus the next element.
pub proof fn lemma_take_push<A>(s: Seq<A>, i: int)
    requires
        0 <= i < s.len(),
    ensures
        s.take(i + 1) =~= s.take(i).push(s[i]),
{
}

/// Filtering keeps a sequence whose members all pass.
pub proof fn lemma_filter_all<A>(s: Seq<A>, pred: spec_fn(A) -> bool)
    requires
        forall|i: int| 0 <= i < s.len() ==> pred(#[trigger] s[i]),
    ensures
        s.filter(pred) == s,
    decreases s.len(),
{
    reveal(Seq::filter);
    if s.len() != 0 {
        lemma_filter_all(s.drop_last(), pred);
        assert(s.drop_last().push(s.last()) =~= s);
    }
}

/// Filtering drops a sequence whose members all fail.
pub proof fn lemma_filter_none<A>(s: Seq<A>, pred: spec_fn(A) -> bool)
    requires
        forall|i: int| 0 <= i < s.len() ==> !pred(#[trigger] s[i]),
    ensures
        s.filter(pred) =~= Seq::<A>::empty(),
    decreases s.len(),
{
    reveal(Seq::filter);
    if s.len() != 0 {
        lemma_filter_none(s.drop_last(), pred);
    }
}

/// Filtering commutes with a map that does not change who passes.
pub proof fn lemma_filter_map_commute<A>(s: Seq<A>, f: spec_fn(A) -> A, pred: spec_fn(A) -> bool)
    requires
        forall|x: A| pred(#[trigger] f(x)) == pred(x),
    ensures
        s.map_values(f).filter(pred) =~= s.filter(pred).map_values(f),
    decreases s.len(),
{
    reveal(Seq::filter);
    if s.len() != 0 {
        lemma_filter_map_commute(s.drop_last(), f, pred);
        assert(s.map_values(f).drop_last() =~= s.drop_last().map_values(f));
        assert(s.map_values(f).last() == f(s.last()));
        if pred(s.last()) {
            lemma_map_push(s.drop_last().filter(pred), s.last(), f);
            assert(s.filter(pred) == s.drop_last().filter(pred).push(s.last()));
        } else {
            assert(s.filter(pred) == s.drop_last().filter(pred));
        }
    }
}

/// Two predicates that agree on a sequence's members filter it alike.
pub proof fn lemma_filter_equiv<A>(s: Seq<A>, p1: spec_fn(A) -> bool, p2: spec_fn(A) -> bool)
    requires
        forall|i: int| 0 <= i < s.len() ==> p1(#[trigger] s[i]) == p2(s[i]),
    ensures
        s.filter(p1) == s.filter(p2),
    decreases s.len(),
{
    reveal(Seq::filter);
    if s.len() != 0 {
        assert(forall|i: int| 0 <= i < s.drop_last().len() ==> s.drop_last()[i] == s[i]);
        lemma_filter_equiv(s.drop_last(), p1, p2);
    }
}

/// Filtering preserves pairwise-distinct keys.
pub proof fn lemma_filter_distinct_keys<A>(
    s: Seq<A>,
    pred: spec_fn(A) -> bool,
    key: spec_fn(A) -> i64,
)
    requires
        forall|i: int, j: int| 0 <= i < j < s.len() ==> key(#[trigger] s[i]) != key(
            #[trigger] s[j],
        ),
    ensures
        forall|i: int, j: int|
            0 <= i < j < s.filter(pred).len() ==> key(#[trigger] s.filter(pred)[i]) != key(
                #[trigger] s.filter(pred)[j],
            ),
    decreases s.len(),
{
    reveal(Seq::filter);
    broadcast use vstd::seq_lib::group_filter_ensures;

    if s.len() != 0 {
        let pre = s.drop_last();
        lemma_filter_distinct_keys(pre, pred, key);
        if pred(s.last()) {
            let out = s.filter(pred);
            assert(out == pre.filter(pred).push(s.last()));
            assert forall|i: int, j: int| 0 <= i < j < out.len() implies key(#[trigger] out[i])
                != key(#[trigger] out[j]) by {
                if j < out.len() - 1 {
                    assert(out[i] == pre.filter(pred)[i]);
                    assert(out[j] == pre.filter(pred)[j]);
                } else {
                    assert(out[j] == s.last());
                    assert(out[i] == pre.filter(pred)[i]);
                    assert(pre.filter(pred).contains(pre.filter(pred)[i]));
                    pre.lemma_filter_contains_rev(pred, pre.filter(pred)[i]);
                    assert(pre.contains(pre.filter(pred)[i]));
                    let w = choose|w: int| 0 <= w < pre.len() && pre[w] == pre.filter(pred)[i];
                    assert(s[w] == pre[w]);
                    assert(key(s[w]) != key(s[s.len() - 1]));
                }
            }
        }
    }
}


/// A sequence multiset-equal to one with pairwise-distinct keys has
/// pairwise-distinct keys itself.
pub proof fn lemma_multiset_distinct_keys<A>(x: Seq<A>, y: Seq<A>, key: spec_fn(A) -> i64)
    requires
        x.to_multiset() == y.to_multiset(),
        forall|i: int, j: int| 0 <= i < j < x.len() ==> key(#[trigger] x[i]) != key(#[trigger] x[j]),
    ensures
        forall|i: int, j: int| 0 <= i < j < y.len() ==> key(#[trigger] y[i]) != key(#[trigger] y[j]),
{
    broadcast use vstd::seq_lib::group_to_multiset_ensures;
    broadcast use vstd::multiset::group_multiset_axioms;

    assert forall|i: int, j: int| 0 <= i < j < y.len() implies key(#[trigger] y[i]) != key(
        #[trigger] y[j],
    ) by {
        if key(y[i]) == key(y[j]) {
            if y[i] == y[j] {
                vstd::seq_lib::to_multiset_remove(y, i);
                assert(y.remove(i).to_multiset() == y.to_multiset().remove(y[i]));
                assert(y.remove(i)[j - 1] == y[j]);
                assert(y.remove(i).contains(y[j]));
                assert(y.remove(i).to_multiset().count(y[j]) > 0);
                assert(y.to_multiset().count(y[i]) >= 2);
                assert(x.to_multiset().count(y[i]) >= 2);
                assert(x.contains(y[i]));
                let a = choose|a: int| 0 <= a < x.len() && x[a] == y[i];
                vstd::seq_lib::to_multiset_remove(x, a);
                assert(x.remove(a).to_multiset().count(y[i]) > 0);
                assert(x.remove(a).contains(y[i]));
                let b0 = choose|b: int| 0 <= b < x.remove(a).len() && x.remove(a)[b] == y[i];
                let b = if b0 < a {
                    b0
                } else {
                    b0 + 1
                };
                assert(x[b] == y[i]);
                assert(a != b);
                assert(key(x[a]) != key(x[b]));
            } else {
                assert(y.contains(y[i]) && y.contains(y[j]));
                assert(x.to_multiset().count(y[i]) > 0);
                assert(x.to_multiset().count(y[j]) > 0);
                assert(x.contains(y[i]) && x.contains(y[j]));
                let a = choose|a: int| 0 <= a < x.len() && x[a] == y[i];
                let b = choose|b: int| 0 <= b < x.len() && x[b] == y[j];
                assert(a != b);
                assert(key(x[a]) != key(x[b]));
            }
        }
    }
}

/// Two sequences sorted by one order, holding the same rows, with
/// pairwise-distinct keys, and an order that separates distinct keys,
/// are one sequence.
pub proof fn lemma_sorted_unique_keys<A>(
    x: Seq<A>,
    y: Seq<A>,
    leq: spec_fn(A, A) -> bool,
    key: spec_fn(A) -> i64,
)
    requires
        vstd::relations::sorted_by(x, leq),
        vstd::relations::sorted_by(y, leq),
        x.to_multiset() == y.to_multiset(),
        forall|i: int, j: int| 0 <= i < j < x.len() ==> key(#[trigger] x[i]) != key(#[trigger] x[j]),
        forall|a: A, b: A| #[trigger] leq(a, b) && #[trigger] leq(b, a) ==> key(a) == key(b),
    ensures
        x == y,
    decreases x.len(),
{
    broadcast use vstd::seq_lib::group_to_multiset_ensures;
    broadcast use vstd::multiset::group_multiset_axioms;

    vstd::seq_lib::to_multiset_len(x);
    vstd::seq_lib::to_multiset_len(y);
    if x.len() == 0 {
        assert(x =~= y);
    } else {
        assert(y.len() == x.len());
        assert(y.to_multiset().count(y[0]) > 0);
        assert(x.to_multiset().count(y[0]) > 0);
        assert(x.contains(y[0]));
        let i = choose|i: int| 0 <= i < x.len() && x[i] == y[0];
        assert(x.to_multiset().count(x[0]) > 0);
        assert(y.contains(x[0]));
        let j = choose|j: int| 0 <= j < y.len() && y[j] == x[0];
        if i != 0 {
            assert(leq(x[0], x[i]));
            if j != 0 {
                assert(leq(y[0], y[j]));
                assert(leq(x[i], x[0]));
                assert(key(x[0]) == key(x[i]));
            } else {
                assert(x[i] == x[0]);
            }
            assert(i == 0);
        }
        assert(x[0] == y[0]);
        let xr = x.drop_first();
        let yr = y.drop_first();
        vstd::seq_lib::to_multiset_remove(x, 0);
        vstd::seq_lib::to_multiset_remove(y, 0);
        assert(x.remove(0) =~= xr);
        assert(y.remove(0) =~= yr);
        assert(xr.to_multiset() == yr.to_multiset());
        assert(forall|a: int, b: int|
            0 <= a < b < xr.len() ==> key(#[trigger] xr[a]) != key(#[trigger] xr[b]));
        assert(vstd::relations::sorted_by(xr, leq)) by {
            assert forall|a: int, b: int| 0 <= a < b < xr.len() implies #[trigger] leq(
                xr[a],
                xr[b],
            ) by {
                assert(xr[a] == x[a + 1] && xr[b] == x[b + 1]);
                assert(leq(x[a + 1], x[b + 1]));
            }
        }
        assert(vstd::relations::sorted_by(yr, leq)) by {
            assert forall|a: int, b: int| 0 <= a < b < yr.len() implies #[trigger] leq(
                yr[a],
                yr[b],
            ) by {
                assert(yr[a] == y[a + 1] && yr[b] == y[b + 1]);
                assert(leq(y[a + 1], y[b + 1]));
            }
        }
        lemma_sorted_unique_keys(xr, yr, leq, key);
        assert forall|k: int| 0 <= k < x.len() implies x[k] == y[k] by {
            if k > 0 {
                assert(xr[k - 1] == yr[k - 1]);
            }
        }
        assert(x =~= y);
    }
}

} // verus!
