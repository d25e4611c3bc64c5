//! The group-contiguity validator.
//!
//! Within one scope (a person and date for workout entries, a routine for
//! routine-exercise entries) the distinct group numbers present after a
//! successful mutation must form the contiguous integer range `[1, max]`.
//! The validator is a pure function of the union of the groups already
//! persisted in the scope and the groups a mutation proposes; it runs
//! before the mutation is applied.

use vstd::prelude::*;
use crate::errors::ValidationError;

verus! {

/// The largest group number a caller may select.
pub const MAX_GROUP: i64 = 5;

/// A set of group numbers is acceptable when every member is at least 1
/// and no smaller positive number is missing below any member; for a
/// finite nonempty set this says exactly that the set is `{1, ..., max}`.
pub open spec fn contiguous_from_one(s: Set<int>) -> bool {
    forall|g: int|
        #[trigger] s.contains(g) ==> 1 <= g && (forall|j: int| 1 <= j < g ==> s.contains(j))
}

/// The set of group numbers named by a list.
pub open spec fn group_set(gs: Seq<i64>) -> Set<int>
    decreases gs.len(),
{
    if gs.len() == 0 {
        Set::<int>::empty()
    } else {
        group_set(gs.drop_last()).insert(gs.last() as int)
    }
}

/// The set named by a list is finite and holds exactly the list's values.
pub proof fn lemma_group_set(gs: Seq<i64>)
    ensures
        group_set(gs).finite(),
        forall|y: int| #[trigger] group_set(gs).contains(y) <==> exists|i: int|
            0 <= i < gs.len() && gs[i] as int == y,
    decreases gs.len(),
{
    if gs.len() == 0 {
    } else {
        let pre = gs.drop_last();
        lemma_group_set(pre);
        assert forall|y: int| #[trigger] group_set(gs).contains(y) implies exists|i: int|
            0 <= i < gs.len() && gs[i] as int == y by {
            if y == gs.last() as int {
                assert(gs[gs.len() - 1] as int == y);
            } else {
                let i = choose|i: int| 0 <= i < pre.len() && pre[i] as int == y;
                assert(gs[i] as int == y);
            }
        }
        assert forall|y: int|
            (exists|i: int| 0 <= i < gs.len() && gs[i] as int == y) implies #[trigger] group_set(
            gs,
        ).contains(y) by {
            let i = choose|i: int| 0 <= i < gs.len() && gs[i] as int == y;
            if i == gs.len() - 1 {
                assert(gs.last() as int == y);
            } else {
                assert(pre[i] as int == y);
            }
        }
    }
}

/// A value of the list is a member of its group set.
pub proof fn lemma_group_set_has(gs: Seq<i64>, x: i64)
    requires
        gs.contains(x),
    ensures
        group_set(gs).contains(x as int),
{
    lemma_group_set(gs);
    let i = choose|i: int| 0 <= i < gs.len() && gs[i] == x;
    assert(gs[i] as int == x as int);
}

/// Every member of the group set is one of the list's values.
pub proof fn lemma_group_set_member(gs: Seq<i64>, y: int) -> (x: i64)
    requires
        group_set(gs).contains(y),
    ensures
        gs.contains(x) && x as int == y,
{
    lemma_group_set(gs);
    let i = choose|i: int| 0 <= i < gs.len() && gs[i] as int == y;
    assert(gs.contains(gs[i]));
    gs[i]
}

/// `m` is the smallest member of `s`.
pub open spec fn is_min_of(m: int, s: Set<int>) -> bool {
    s.contains(m) && forall|x: int| #[trigger] s.contains(x) ==> m <= x
}

/// `k` is the first gap: every positive number below it is present, `k`
/// itself is absent, and some member lies above it.
pub open spec fn is_first_gap(k: int, s: Set<int>) -> bool {
    &&& !s.contains(k)
    &&& 1 <= k
    &&& forall|j: int| 1 <= j < k ==> s.contains(j)
    &&& exists|x: int| #[trigger] s.contains(x) && x > k
}

/// Whether a list contains a value.
pub fn vec_contains(v: &Vec<i64>, x: i64) -> (r: bool)
    ensures
        r == v@.contains(x),
{
    let mut i: usize = 0;
    while i < v.len()
        invariant
            0 <= i <= v@.len(),
            forall|j: int| 0 <= j < i ==> v@[j] != x,
        decreases v@.len() - i,
    {
        if v[i] == x {
            return true;
        }
        i = i + 1;
    }
    false
}

/// The validator of a scope's group numbers, applied to the union of what
/// is persisted and what a mutation proposes. An empty union is accepted;
/// otherwise the smallest member must be 1 and no number between the
/// smallest and largest member may be missing.
pub fn validate_group_set(groups: &Vec<i64>) -> (r: Result<(), ValidationError>)
    ensures
        r is Ok <==> contiguous_from_one(group_set(groups@)),
        match r {
            Ok(()) => contiguous_from_one(group_set(groups@)),
            Err(e) => match e {
                ValidationError::MustStartAtOne(m) => is_min_of(m as int, group_set(groups@))
                    && m != 1,
                ValidationError::SkippedGroup(k) => group_set(groups@).contains(1)
                    && is_first_gap(k as int, group_set(groups@)),
                _ => false,
            },
        },
{
    let ghost gset = group_set(groups@);
    proof {
        lemma_group_set(groups@);
    }
    if groups.len() == 0 {
        return Ok(());
    }

    let mut mn: i64 = groups[0];
    let mut mx: i64 = groups[0];
    let mut i: usize = 1;
    while i < groups.len()
        invariant
            1 <= i <= groups@.len(),
            groups@.contains(mn),
            groups@.contains(mx),
            forall|j: int| 0 <= j < i ==> mn <= #[trigger] groups@[j] <= mx,
        decreases groups@.len() - i,
    {
        if groups[i] < mn {
            mn = groups[i];
        }
        if groups[i] > mx {
            mx = groups[i];
        }
        i = i + 1;
    }
    proof {
        assert forall|x: int| gset.contains(x) implies mn as int <= x <= mx as int by {
            let i = choose|i: int| 0 <= i < groups@.len() && groups@[i] as int == x;
            assert(mn <= groups@[i] <= mx);
        }
        lemma_group_set_has(groups@, mn);
        lemma_group_set_has(groups@, mx);
    }

    if mn != 1 {
        proof {
            assert(is_min_of(mn as int, gset));
            if contiguous_from_one(gset) {
                assert(gset.contains(mn as int));
                if mn as int > 1 {
                    assert(gset.contains(1));
                }
            }
        }
        return Err(ValidationError::MustStartAtOne(mn));
    }

    let mut k: i64 = mn;
    while k < mx
        invariant
            mn == 1,
            mn <= k <= mx,
            gset == group_set(groups@),
            gset.contains(mn as int),
            gset.contains(mx as int),
            forall|x: int| #[trigger] gset.contains(x) ==> mn as int <= x <= mx as int,
            forall|j: int| mn as int <= j < k as int ==> gset.contains(j),
        decreases mx - k,
    {
        if !vec_contains(groups, k) {
            proof {
                assert(!gset.contains(k as int)) by {
                    if gset.contains(k as int) {
                        let x = lemma_group_set_member(groups@, k as int);
                        assert(x == k);
                    }
                };
                assert(is_first_gap(k as int, gset));
                assert(!contiguous_from_one(gset)) by {
                    if contiguous_from_one(gset) {
                        assert(gset.contains(mx as int));
                        assert(1 <= k as int && (k as int) < mx as int);
                        assert(gset.contains(k as int));
                    }
                };
            }
            return Err(ValidationError::SkippedGroup(k));
        } else {
            proof {
                lemma_group_set_has(groups@, k);
            }
        }
        k = k + 1;
    }
    proof {
        assert forall|g: int| gset.contains(g) implies 1 <= g && (forall|j: int|
            1 <= j < g ==> gset.contains(j)) by {
            assert(mn as int <= g <= mx as int);
            assert forall|j: int| 1 <= j < g implies gset.contains(j) by {
                assert(mn as int <= j && j < mx as int);
            }
        }
    }
    Ok(())
}

/// Whether a single proposed group number is acceptable: the number
/// must lie in `1..=MAX_GROUP` and the union of the scope's persisted
/// groups with the proposal must be contiguous from 1.
pub open spec fn group_gate_accepts(existing: Set<int>, proposed: int) -> bool {
    &&& 1 <= proposed <= MAX_GROUP as int
    &&& contiguous_from_one(existing.insert(proposed))
}

/// The test run before a single routine-exercise row is inserted or
/// rewritten with group `proposed`, given the groups already persisted in
/// the routine.
pub fn validate_added_group(existing: &Vec<i64>, proposed: i64) -> (r: Result<
    (),
    ValidationError,
>)
    ensures
        r is Ok <==> group_gate_accepts(group_set(existing@), proposed as int),
        match r {
            Ok(()) => group_gate_accepts(group_set(existing@), proposed as int),
            Err(e) => match e {
                ValidationError::GroupOutOfRange(g) => g == proposed && !(1 <= proposed
                    <= MAX_GROUP),
                ValidationError::MustStartAtOne(m) => is_min_of(
                    m as int,
                    group_set(existing@).insert(proposed as int),
                ) && m != 1,
                ValidationError::SkippedGroup(k) => group_set(existing@).insert(
                    proposed as int,
                ).contains(1) && is_first_gap(
                    k as int,
                    group_set(existing@).insert(proposed as int),
                ),
                _ => false,
            },
        },
{
    if proposed < 1 || proposed > MAX_GROUP {
        return Err(ValidationError::GroupOutOfRange(proposed));
    }
    let mut union: Vec<i64> = Vec::new();
    let mut i: usize = 0;
    while i < existing.len()
        invariant
            0 <= i <= existing@.len(),
            union@ == existing@.subrange(0, i as int),
        decreases existing@.len() - i,
    {
        union.push(existing[i]);
        i = i + 1;
    }
    proof {
        assert(union@ == existing@);
    }
    union.push(proposed);
    let r = validate_group_set(&union);
    proof {
        assert(union@.drop_last() == existing@);
        assert(union@.last() == proposed);
        assert(group_set(union@) == group_set(existing@).insert(proposed as int));
    }
    r
}

/// Membership below a bound, for rank counting.
pub open spec fn below(g: int) -> spec_fn(int) -> bool {
    |x: int| x < g
}

/// Membership below a bound, over group values.
pub open spec fn lt_pred(g: i64) -> spec_fn(i64) -> bool {
    |x: i64| x < g
}

/// The canonical number a group receives when its scope is compacted:
/// one more than the count of distinct smaller groups.
pub open spec fn rank_in(s: Set<int>, g: int) -> int {
    s.filter(below(g)).len() as int + 1
}

/// The largest member of a finite nonempty set of integers.
pub proof fn max_of(s: Set<int>) -> (m: int)
    requires
        s.finite(),
        s.len() > 0,
    ensures
        s.contains(m),
        forall|x: int| #[trigger] s.contains(x) ==> x <= m,
    decreases s.len(),
{
    let e = s.choose();
    assert(s.contains(e));
    let rest = s.remove(e);
    if rest.len() == 0 {
        assert forall|x: int| #[trigger] s.contains(x) implies x <= e by {
            if x != e {
                assert(rest.contains(x));
                assert(rest.len() > 0) by {
                    vstd::set_lib::lemma_len_subset(Set::<int>::empty().insert(x), rest);
                    assert(Set::<int>::empty().insert(x).len() == 1);
                }
            }
        }
        e
    } else {
        let m0 = max_of(rest);
        let m = if e <= m0 {
            m0
        } else {
            e
        };
        assert forall|x: int| #[trigger] s.contains(x) implies x <= m by {
            if x != e {
                assert(rest.contains(x));
            }
        }
        m
    }
}

/// A rank lies between 1 and the size of the set.
pub proof fn lemma_rank_bounds(s: Set<int>, g: int)
    requires
        s.finite(),
        s.contains(g),
    ensures
        1 <= rank_in(s, g) <= s.len(),
{
    s.lemma_len_filter(below(g));
    vstd::set_lib::lemma_len_subset(s.filter(below(g)), s.remove(g));
}

/// Below a rank above 1 stands the rank of the largest smaller member.
pub proof fn lemma_rank_pred(s: Set<int>, g: int) -> (g2: int)
    requires
        s.finite(),
        s.contains(g),
        rank_in(s, g) >= 2,
    ensures
        s.contains(g2),
        g2 < g,
        rank_in(s, g2) == rank_in(s, g) - 1,
{
    s.lemma_len_filter(below(g));
    let lows = s.filter(below(g));
    let m = max_of(lows);
    assert(s.filter(below(m)) =~= lows.remove(m)) by {
        assert forall|x: int| #[trigger] s.filter(below(m)).contains(x) implies lows.remove(
            m,
        ).contains(x) by {
            assert(x < m < g);
        }
        assert forall|x: int| #[trigger] lows.remove(m).contains(x) implies s.filter(
            below(m),
        ).contains(x) by {
            assert(lows.contains(x));
            assert(x <= m && x != m);
        }
    }
    m
}

/// Every number from 1 to a member's rank is some member's rank.
pub proof fn lemma_ranks_cover(s: Set<int>, g: int, j: int)
    requires
        s.finite(),
        s.contains(g),
        1 <= j <= rank_in(s, g),
    ensures
        exists|g2: int| #[trigger] s.contains(g2) && rank_in(s, g2) == j,
    decreases rank_in(s, g),
{
    lemma_rank_bounds(s, g);
    if j == rank_in(s, g) {
        assert(s.contains(g) && rank_in(s, g) == j);
    } else {
        let g2 = lemma_rank_pred(s, g);
        lemma_ranks_cover(s, g2, j);
    }
}

/// On a contiguous-from-one set, every member is its own rank.
pub proof fn lemma_rank_identity(s: Set<int>, g: int)
    requires
        s.finite(),
        s.contains(g),
        contiguous_from_one(s),
    ensures
        rank_in(s, g) == g,
{
    assert(s.filter(below(g)) =~= vstd::set_lib::set_int_range(1, g)) by {
        assert forall|x: int| #[trigger] s.filter(below(g)).contains(x) implies
            vstd::set_lib::set_int_range(1, g).contains(x) by {
            assert(s.contains(x));
        }
        assert forall|x: int| vstd::set_lib::set_int_range(1, g).contains(x) implies s.filter(
            below(g),
        ).contains(x) by {
            assert(s.contains(g));
            assert(1 <= x < g);
        }
    }
    vstd::set_lib::lemma_int_range(1, g);
}

/// The set named by a list has at most as many members as the list.
pub proof fn lemma_group_set_card(gs: Seq<i64>)
    ensures
        group_set(gs).len() <= gs.len(),
    decreases gs.len(),
{
    lemma_group_set(gs);
    if gs.len() != 0 {
        lemma_group_set_card(gs.drop_last());
        lemma_group_set(gs.drop_last());
    }
}

/// In a duplicate-free list, counting the values below a bound counts
/// the members of the named set below that bound.
pub proof fn lemma_distinct_count_is_card(q: Seq<i64>, g: i64)
    requires
        forall|a: int, b: int| 0 <= a < b < q.len() ==> q[a] != q[b],
    ensures
        q.filter(lt_pred(g)).len() == group_set(q).filter(below(g as int)).len(),
        group_set(q).filter(below(g as int)).finite(),
    decreases q.len(),
{
    reveal(Seq::filter);
    lemma_group_set(q);
    group_set(q).lemma_len_filter(below(g as int));
    if q.len() == 0 {
        assert(group_set(q).filter(below(g as int)) =~= Set::<int>::empty());
    } else {
        let pre = q.drop_last();
        let last = q.last();
        assert(forall|a: int, b: int| 0 <= a < b < pre.len() ==> pre[a] != pre[b]) by {
            assert(forall|a: int| 0 <= a < pre.len() ==> pre[a] == q[a]);
        }
        lemma_distinct_count_is_card(pre, g);
        lemma_group_set(pre);
        assert(!group_set(pre).contains(last as int)) by {
            if group_set(pre).contains(last as int) {
                let x = lemma_group_set_member(pre, last as int);
                let a = choose|a: int| 0 <= a < pre.len() && pre[a] == x;
                assert(q[a] == x && q[q.len() - 1] == last);
            }
        }
        let sp = group_set(pre).filter(below(g as int));
        let sq = group_set(q).filter(below(g as int));
        group_set(pre).lemma_len_filter(below(g as int));
        if last < g {
            assert(sq =~= sp.insert(last as int));
            assert(!sp.contains(last as int));
            assert(q.filter(lt_pred(g)) == pre.filter(lt_pred(g)).push(last));
        } else {
            assert(sq =~= sp);
            assert(q.filter(lt_pred(g)) == pre.filter(lt_pred(g)));
        }
    }
}

/// How many values of a list lie below a bound.
pub fn count_below(v: &Vec<i64>, g: i64) -> (c: usize)
    ensures
        c == v@.filter(lt_pred(g)).len(),
{
    let mut c: usize = 0;
    let mut i: usize = 0;
    while i < v.len()
        invariant
            0 <= i <= v@.len(),
            c == v@.take(i as int).filter(lt_pred(g)).len(),
            c <= i,
        decreases v@.len() - i,
    {
        proof {
            crate::seqs::lemma_take_push(v@, i as int);
            crate::seqs::lemma_filter_push(v@.take(i as int), v@[i as int], lt_pred(g));
        }
        if v[i] < g {
            c = c + 1;
        }
        i = i + 1;
    }
    proof {
        assert(v@.take(v@.len() as int) =~= v@);
    }
    c
}

/// Compacting as a per-value function: each group becomes its rank in
/// the scope's set of groups.
pub open spec fn rank_fn(s: Set<int>) -> spec_fn(i64) -> i64 {
    |g: i64| rank_in(s, g as int) as i64
}

/// The compacted form of a scope's group list: the distinct groups,
/// taken in ascending order, are renamed to `1..`, order preserved.
pub open spec fn renumber_seq(gs: Seq<i64>) -> Seq<i64> {
    gs.map_values(rank_fn(group_set(gs)))
}

/// After compaction the scope's groups are contiguous from 1, and each
/// compacted value is the rank of the original value, faithfully held
/// in its machine integer.
pub proof fn lemma_renumber_contiguous(gs: Seq<i64>)
    requires
        gs.len() <= 0x7fff_ffff,
    ensures
        contiguous_from_one(group_set(renumber_seq(gs))),
        forall|i: int|
            0 <= i < gs.len() ==> #[trigger] renumber_seq(gs)[i] as int == rank_in(
                group_set(gs),
                gs[i] as int,
            ),
    decreases 0int,
{
    let s = group_set(gs);
    let out = renumber_seq(gs);
    lemma_group_set(gs);
    lemma_group_set_card(gs);
    assert forall|i: int| 0 <= i < gs.len() implies #[trigger] out[i] as int == rank_in(
        s,
        gs[i] as int,
    ) by {
        assert(gs[i] as int == gs[i] as int && gs.contains(gs[i]));
        lemma_group_set_has(gs, gs[i]);
        lemma_rank_bounds(s, gs[i] as int);
        assert(out[i] == rank_fn(s)(gs[i]));
    }
    lemma_group_set(out);
    assert forall|y: int| #[trigger] group_set(out).contains(y) implies 1 <= y && (forall|j: int|
        1 <= j < y ==> group_set(out).contains(j)) by {
        let i = choose|i: int| 0 <= i < out.len() && out[i] as int == y;
        lemma_group_set_has(gs, gs[i]);
        lemma_rank_bounds(s, gs[i] as int);
        assert(y == rank_in(s, gs[i] as int));
        assert forall|j: int| 1 <= j < y implies group_set(out).contains(j) by {
            lemma_ranks_cover(s, gs[i] as int, j);
            let g2 = choose|g2: int| #[trigger] s.contains(g2) && rank_in(s, g2) == j;
            let x = lemma_group_set_member(gs, g2);
            let k = choose|k: int| 0 <= k < gs.len() && gs[k] == x;
            lemma_rank_bounds(s, g2);
            assert(out[k] as int == rank_in(s, gs[k] as int));
            assert(out[k] as int == j);
            lemma_group_set_has(out, out[k]);
        }
    }
}

/// Law: compacting a scope's groups twice changes nothing more than
/// compacting them once.
pub proof fn lemma_renumber_idempotent(gs: Seq<i64>)
    requires
        gs.len() <= 0x7fff_ffff,
    ensures
        renumber_seq(renumber_seq(gs)) == renumber_seq(gs),
{
    let out = renumber_seq(gs);
    let s2 = group_set(out);
    lemma_renumber_contiguous(gs);
    lemma_group_set(out);
    assert forall|i: int| 0 <= i < out.len() implies renumber_seq(out)[i] == out[i] by {
        assert(out.contains(out[i]));
        lemma_group_set_has(out, out[i]);
        lemma_rank_identity(s2, out[i] as int);
        assert(renumber_seq(out)[i] == rank_fn(s2)(out[i]));
        lemma_group_set_card(gs);
        lemma_group_set(gs);
        assert(gs.contains(gs[i]));
        lemma_group_set_has(gs, gs[i]);
        lemma_rank_bounds(group_set(gs), gs[i] as int);
        assert(out[i] as int == rank_in(group_set(gs), gs[i] as int));
        assert(1 <= out[i]);
    }
    assert(renumber_seq(out) =~= out);
}

/// Law: a proposed group of 0 or 6 is never accepted, whatever is already
/// persisted; for an empty scope, group 1 is accepted and group 2 is not.
pub proof fn lemma_group_gate_bounds(existing: Set<int>)
    ensures
        !group_gate_accepts(existing, 0),
        !group_gate_accepts(existing, 6),
        group_gate_accepts(Set::<int>::empty(), 1),
        !group_gate_accepts(Set::<int>::empty(), 2),
{
    assert(contiguous_from_one(Set::<int>::empty().insert(1))) by {
        assert forall|g: int| Set::<int>::empty().insert(1).contains(g) implies 1 <= g && (
        forall|j: int| 1 <= j < g ==> Set::<int>::empty().insert(1).contains(j)) by {
            assert(g == 1);
        }
    }
    assert(!contiguous_from_one(Set::<int>::empty().insert(2))) by {
        assert(Set::<int>::empty().insert(2).contains(2));
        assert(!Set::<int>::empty().insert(2).contains(1));
    }
}

} // verus!
