//! The routine store: reusable templates and their exercise rows. A
//! template is hard-deletable and deleting it destroys its rows; the
//! whole-replace of a template's rows is atomic; the group-contiguity
//! invariant is scoped by routine.

use vstd::prelude::*;
use vstd::multiset::Multiset;
use crate::errors::StoreError;
use crate::groups::{
    contiguous_from_one, group_set, lemma_distinct_count_is_card, lemma_group_set_has,
    lemma_renumber_contiguous, rank_fn, rank_in, renumber_seq,
};
use crate::models::{MAX_ROWS, Routine, RoutineExercise};
use crate::seqs::{
    lemma_filter_all, lemma_filter_distinct_keys, lemma_filter_map_commute, lemma_filter_none,
    lemma_filter_push, lemma_map_push, lemma_multiset_distinct_keys, lemma_sorted_unique_keys,
    lemma_take_push,
};
use crate::text::{
    contains_ci, lemma_lex_antisym, lemma_lex_total, lemma_lex_trans, lex_le, str_contains_ci,
    str_le,
};
use vstd::relations::sorted_by;

verus! {

/// The identifier a stored routine carries.
pub open spec fn routine_id_of(r: Routine) -> i64 {
    match r.id {
        Some(i) => i,
        None => 0,
    }
}

/// Routine identifier extraction as a value.
pub open spec fn routine_id_fn() -> spec_fn(Routine) -> i64 {
    |r: Routine| routine_id_of(r)
}

/// The identifier a stored routine-exercise row carries.
pub open spec fn rid_of(e: RoutineExercise) -> i64 {
    match e.id {
        Some(i) => i,
        None => 0,
    }
}

/// Row identifier extraction as a value.
pub open spec fn rid_fn() -> spec_fn(RoutineExercise) -> i64 {
    |e: RoutineExercise| rid_of(e)
}

/// The group a row belongs to; an absent group means group 1.
pub open spec fn reff_group(e: RoutineExercise) -> i64 {
    match e.group_number {
        Some(g) => g,
        None => 1,
    }
}

/// Effective group extraction as a value.
pub open spec fn reff_group_fn() -> spec_fn(RoutineExercise) -> i64 {
    |e: RoutineExercise| reff_group(e)
}

/// The group numbers a batch of rows names.
pub open spec fn rex_groups(es: Seq<RoutineExercise>) -> Seq<i64> {
    es.map_values(reff_group_fn())
}

/// The row belongs to the routine.
pub open spec fn rex_scope_pred(rid: i64) -> spec_fn(RoutineExercise) -> bool {
    |e: RoutineExercise| e.routine_id == rid
}

/// The row does not belong to the routine.
pub open spec fn rex_not_scope_pred(rid: i64) -> spec_fn(RoutineExercise) -> bool {
    |e: RoutineExercise| e.routine_id != rid
}

/// The row does not carry this routine-and-exercise pair.
pub open spec fn other_pair_pred(rid: i64, xid: i64) -> spec_fn(RoutineExercise) -> bool {
    |e: RoutineExercise| !(e.routine_id == rid && e.exercise_id == xid)
}

/// The routine does not carry this identifier.
pub open spec fn other_routine_pred(id: i64) -> spec_fn(Routine) -> bool {
    |r: Routine| routine_id_of(r) != id
}

/// What the store makes of a row when it inserts it: a fresh identifier;
/// the other fields are kept as given.
pub open spec fn rex_stamped(e: RoutineExercise, id: i64) -> RoutineExercise {
    RoutineExercise { id: Some(id), ..e }
}

/// A batch stamped with consecutive identifiers from `start`.
pub open spec fn rex_stamp_all(es: Seq<RoutineExercise>, start: int) -> Seq<RoutineExercise> {
    Seq::new(es.len(), |i: int| rex_stamped(es[i], (start + i) as i64))
}

/// The effect of an update request on one row: the row the request names
/// keeps its identity fields and takes the request's mutable fields.
pub open spec fn apply_rex_update(u: RoutineExercise) -> spec_fn(RoutineExercise) -> RoutineExercise {
    |r: RoutineExercise|
        if u.id == Some(rid_of(r)) {
            RoutineExercise {
                id: r.id,
                routine_id: r.routine_id,
                exercise_id: r.exercise_id,
                order_index: u.order_index,
                sets: u.sets,
                reps: u.reps,
                weight: u.weight,
                notes: u.notes,
                group_number: u.group_number,
                created_at: r.created_at,
                updated_at: r.updated_at,
            }
        } else {
            r
        }
}

/// The effect of renaming a routine on one stored routine; the creation
/// and update stamps stay as stored.
pub open spec fn apply_routine_update(id: i64, name: String, code: String) -> spec_fn(
    Routine,
) -> Routine {
    |r: Routine|
        if routine_id_of(r) == id {
            Routine { id: r.id, name, code, created_at: r.created_at, updated_at: r.updated_at }
        } else {
            r
        }
}

/// The effect of one display-order rewrite on one row.
pub open spec fn rex_apply_order(pair: (i64, i64)) -> spec_fn(RoutineExercise) -> RoutineExercise {
    |r: RoutineExercise|
        if rid_of(r) == pair.0 {
            RoutineExercise { order_index: pair.1, ..r }
        } else {
            r
        }
}

/// The effect of a batch of display-order rewrites, applied in order.
pub open spec fn rex_apply_orders(rows: Seq<RoutineExercise>, pairs: Seq<(i64, i64)>) -> Seq<
    RoutineExercise,
>
    decreases pairs.len(),
{
    if pairs.len() == 0 {
        rows
    } else {
        rex_apply_orders(rows.map_values(rex_apply_order(pairs[0])), pairs.drop_first())
    }
}

/// Applying one more rewrite maps the accumulated result once more.
pub proof fn lemma_rex_apply_orders_snoc(rows: Seq<RoutineExercise>, pairs: Seq<(i64, i64)>, i: int)
    requires
        0 <= i < pairs.len(),
    ensures
        rex_apply_orders(rows, pairs.take(i + 1)) == rex_apply_orders(
            rows,
            pairs.take(i),
        ).map_values(rex_apply_order(pairs[i])),
    decreases i + 1,
{
    if i == 0 {
        let one = pairs.take(1);
        assert(one.drop_first() =~= Seq::<(i64, i64)>::empty());
        assert(one[0] == pairs[0]);
        assert(pairs.take(0) =~= Seq::<(i64, i64)>::empty());
        assert(rex_apply_orders(rows, one) == rex_apply_orders(
            rows.map_values(rex_apply_order(one[0])),
            one.drop_first(),
        ));
        assert(rex_apply_orders(
            rows.map_values(rex_apply_order(pairs[0])),
            Seq::<(i64, i64)>::empty(),
        ) == rows.map_values(rex_apply_order(pairs[0])));
        assert(rex_apply_orders(rows, pairs.take(0)) == rows);
    } else {
        let rows2 = rows.map_values(rex_apply_order(pairs[0]));
        let front = pairs.take(i + 1);
        let short = pairs.take(i);
        assert(front[0] == pairs[0]);
        assert(front.drop_first() =~= pairs.drop_first().take(i));
        assert(short[0] == pairs[0]);
        assert(short.drop_first() =~= pairs.drop_first().take(i - 1));
        assert(rex_apply_orders(rows, front) == rex_apply_orders(
            rows.map_values(rex_apply_order(front[0])),
            front.drop_first(),
        ));
        assert(rex_apply_orders(rows, short) == rex_apply_orders(
            rows.map_values(rex_apply_order(short[0])),
            short.drop_first(),
        ));
        lemma_rex_apply_orders_snoc(rows2, pairs.drop_first(), i - 1);
        assert(pairs.drop_first()[i - 1] == pairs[i]);
    }
}

/// Group compaction per row: a row of the routine takes the rank of its
/// group in the routine's group set; other rows are untouched.
pub open spec fn rex_renumber_row(rid: i64, s: Set<int>) -> spec_fn(RoutineExercise) -> RoutineExercise {
    |e: RoutineExercise|
        if e.routine_id == rid {
            RoutineExercise { group_number: Some(rank_in(s, reff_group(e) as int) as i64), ..e }
        } else {
            e
        }
}

/// The template read-path order: group ascending, then display order
/// ascending, then creation (identifier) ascending.
pub open spec fn rex_le(a: RoutineExercise, b: RoutineExercise) -> bool {
    if reff_group(a) != reff_group(b) {
        reff_group(a) < reff_group(b)
    } else if a.order_index != b.order_index {
        a.order_index < b.order_index
    } else {
        rid_of(a) <= rid_of(b)
    }
}

/// The rows stand in the template read-path order.
pub open spec fn rex_sorted(s: Seq<RoutineExercise>) -> bool {
    forall|i: int, j: int| 0 <= i < j < s.len() ==> rex_le(#[trigger] s[i], #[trigger] s[j])
}

/// The template order relates every pair, composes, and separates
/// rows with different identifiers.
pub proof fn lemma_rex_le_props()
    ensures
        forall|a: RoutineExercise, b: RoutineExercise| #[trigger] rex_le(a, b) || #[trigger] rex_le(b, a),
        forall|a: RoutineExercise, b: RoutineExercise, c: RoutineExercise|
            #[trigger] rex_le(a, b) && #[trigger] rex_le(b, c) ==> rex_le(a, c),
        forall|a: RoutineExercise, b: RoutineExercise|
            #[trigger] rex_le(a, b) && #[trigger] rex_le(b, a) ==> rid_of(a) == rid_of(b),
{
}

/// The one arrangement of a row set in the template order.
pub open spec fn arranged_rex(rows: Seq<RoutineExercise>) -> Seq<RoutineExercise> {
    choose|q: Seq<RoutineExercise>|
        sorted_by(q, rex_le_fn()) && #[trigger] q.to_multiset() == rows.to_multiset()
}

/// The template order as a value.
pub open spec fn rex_le_fn() -> spec_fn(RoutineExercise, RoutineExercise) -> bool {
    |a: RoutineExercise, b: RoutineExercise| rex_le(a, b)
}

/// The one sorted arrangement of a distinct-identifier row set is
/// whatever sorted, row-preserving sequence one exhibits.
pub proof fn lemma_rex_arranged(base: Seq<RoutineExercise>, sorted: Seq<RoutineExercise>)
    requires
        sorted_by(sorted, rex_le_fn()),
        sorted.to_multiset() == base.to_multiset(),
        forall|i: int, j: int|
            0 <= i < j < base.len() ==> rid_fn()(#[trigger] base[i]) != rid_fn()(
                #[trigger] base[j],
            ),
    ensures
        arranged_rex(base) == sorted,
{
    lemma_rex_le_props();
    let q0 = arranged_rex(base);
    assert(sorted_by(q0, rex_le_fn()) && q0.to_multiset() == base.to_multiset()) by {
        assert(exists|q: Seq<RoutineExercise>|
            sorted_by(q, rex_le_fn()) && #[trigger] q.to_multiset() == base.to_multiset());
    }
    lemma_multiset_distinct_keys(base, sorted, rid_fn());
    assert forall|a: RoutineExercise, b: RoutineExercise|
        #[trigger] rex_le_fn()(a, b) && #[trigger] rex_le_fn()(b, a) implies rid_fn()(a)
        == rid_fn()(b) by {
        assert(rex_le(a, b) && rex_le(b, a));
    }
    lemma_sorted_unique_keys(sorted, q0, rex_le_fn(), rid_fn());
}

/// The executable comparator.
fn rex_le_exec(a: &RoutineExercise, b: &RoutineExercise) -> (r: bool)
    ensures
        r == rex_le(*a, *b),
{
    let ga = match a.group_number {
        Some(g) => g,
        None => 1,
    };
    let gb = match b.group_number {
        Some(g) => g,
        None => 1,
    };
    if ga != gb {
        return ga < gb;
    }
    if a.order_index != b.order_index {
        return a.order_index < b.order_index;
    }
    let ia = match a.id {
        Some(i) => i,
        None => 0,
    };
    let ib = match b.id {
        Some(i) => i,
        None => 0,
    };
    ia <= ib
}

/// Sort rows by the template read-path order; the result holds exactly
/// the given rows.
fn sort_rex(v: Vec<RoutineExercise>) -> (r: Vec<RoutineExercise>)
    ensures
        rex_sorted(r@),
        r@.to_multiset() == v@.to_multiset(),
{
    broadcast use vstd::seq_lib::group_to_multiset_ensures;
    broadcast use vstd::multiset::group_multiset_axioms;

    let mut src = v;
    let mut out: Vec<RoutineExercise> = Vec::new();
    while src.len() > 0
        invariant
            rex_sorted(out@),
            out@.to_multiset().add(src@.to_multiset()) =~= v@.to_multiset(),
            forall|i: int, j: int|
                0 <= i < out@.len() && 0 <= j < src@.len() ==> rex_le(
                    #[trigger] out@[i],
                    #[trigger] src@[j],
                ),
        decreases src@.len(),
    {
        let mut min_i: usize = 0;
        let mut k: usize = 1;
        while k < src.len()
            invariant
                0 <= min_i < src@.len(),
                min_i < k <= src@.len(),
                forall|j: int| 0 <= j < k ==> rex_le(src@[min_i as int], #[trigger] src@[j]),
            decreases src@.len() - k,
        {
            if !rex_le_exec(&src[min_i], &src[k]) {
                proof {
                    assert forall|j: int| 0 <= j < k + 1 implies rex_le(
                        src@[k as int],
                        #[trigger] src@[j],
                    ) by {
                        assert(rex_le(src@[k as int], src@[min_i as int]));
                        if j < k {
                            assert(rex_le(src@[min_i as int], src@[j]));
                        }
                    }
                }
                min_i = k;
            }
            k = k + 1;
        }
        let ghost old_src = src@;
        let ghost old_out = out@;
        let picked = src.remove(min_i);
        out.push(picked);
        proof {
            assert(old_src[min_i as int] == picked);
            vstd::seq_lib::to_multiset_remove(old_src, min_i as int);
            assert(src@.to_multiset() =~= old_src.to_multiset().remove(picked));
            assert(out@ == old_out.push(picked));
            vstd::seq_lib::to_multiset_build(old_out, picked);
            assert(out@.to_multiset() =~= old_out.to_multiset().insert(picked));
            vstd::seq_lib::to_multiset_contains(old_src, picked);
            assert(old_src.contains(picked));
            assert(old_src.to_multiset().count(picked) > 0);
            assert(out@.to_multiset().add(src@.to_multiset()) =~= v@.to_multiset()) by {
                assert forall|x: RoutineExercise|
                    #[trigger] out@.to_multiset().count(x) + src@.to_multiset().count(x) == v@
                        .to_multiset().count(x) by {
                    assert(old_out.to_multiset().count(x) + old_src.to_multiset().count(x) == v@
                        .to_multiset().count(x));
                }
            }
            assert forall|i: int, j: int|
                0 <= i < out@.len() && 0 <= j < src@.len() implies rex_le(
                #[trigger] out@[i],
                #[trigger] src@[j],
            ) by {
                let srcj = src@[j];
                if j < min_i {
                    assert(srcj == old_src[j]);
                } else {
                    assert(srcj == old_src[j + 1]);
                }
                if i < old_out.len() {
                    assert(out@[i] == old_out[i]);
                } else {
                    assert(out@[i] == picked);
                }
            }
            assert forall|i: int, j: int| 0 <= i < j < out@.len() implies rex_le(
                #[trigger] out@[i],
                #[trigger] out@[j],
            ) by {
                if j < out@.len() - 1 {
                    assert(rex_le(old_out[i], old_out[j]));
                } else {
                    assert(out@[j] == picked);
                    assert(rex_le(old_out[i], old_src[min_i as int]));
                }
            }
        }
    }
    proof {
        assert(src@.to_multiset() =~= Multiset::<RoutineExercise>::empty());
        assert(out@.to_multiset() =~= v@.to_multiset());
    }
    out
}

/// The listing order of routines: name, then identifier.
pub open spec fn routine_ord() -> spec_fn(Routine, Routine) -> bool {
    |a: Routine, b: Routine|
        if a.name@ != b.name@ {
            lex_le(a.name@, b.name@)
        } else {
            routine_id_of(a) <= routine_id_of(b)
        }
}

/// The listing order relates every pair, composes, and separates
/// routines with different identifiers.
pub proof fn lemma_routine_ord_props()
    ensures
        forall|a: Routine, b: Routine|
            #[trigger] routine_ord()(a, b) || #[trigger] routine_ord()(b, a),
        forall|a: Routine, b: Routine, c: Routine|
            #[trigger] routine_ord()(a, b) && #[trigger] routine_ord()(b, c) ==> routine_ord()(
                a,
                c,
            ),
        forall|a: Routine, b: Routine|
            #[trigger] routine_ord()(a, b) && #[trigger] routine_ord()(b, a) ==> routine_id_of(a)
                == routine_id_of(b),
{
    assert forall|a: Routine, b: Routine|
        #[trigger] routine_ord()(a, b) || #[trigger] routine_ord()(b, a) by {
        lemma_lex_total(a.name@, b.name@);
    }
    assert forall|a: Routine, b: Routine, c: Routine|
        #[trigger] routine_ord()(a, b) && #[trigger] routine_ord()(b, c) implies routine_ord()(
        a,
        c,
    ) by {
        if lex_le(a.name@, b.name@) && lex_le(b.name@, a.name@) {
            lemma_lex_antisym(a.name@, b.name@);
        }
        if lex_le(b.name@, c.name@) && lex_le(c.name@, b.name@) {
            lemma_lex_antisym(b.name@, c.name@);
        }
        if lex_le(a.name@, b.name@) && lex_le(b.name@, c.name@) {
            lemma_lex_trans(a.name@, b.name@, c.name@);
        }
        if lex_le(a.name@, c.name@) && lex_le(c.name@, a.name@) {
            lemma_lex_antisym(a.name@, c.name@);
        }
    }
    assert forall|a: Routine, b: Routine|
        #[trigger] routine_ord()(a, b) && #[trigger] routine_ord()(b, a) implies routine_id_of(a)
        == routine_id_of(b) by {
        if lex_le(a.name@, b.name@) && lex_le(b.name@, a.name@) {
            lemma_lex_antisym(a.name@, b.name@);
        }
    }
}

/// The executable listing comparison.
fn routine_le_exec(a: &Routine, b: &Routine) -> (r: bool)
    ensures
        r == routine_ord()(*a, *b),
{
    if !crate::text::str_eq(a.name.as_str(), b.name.as_str()) {
        str_le(a.name.as_str(), b.name.as_str())
    } else {
        let ia = match a.id {
            Some(v) => v,
            None => 0,
        };
        let ib = match b.id {
            Some(v) => v,
            None => 0,
        };
        ia <= ib
    }
}

/// Sort routines by the listing order; the result holds exactly the
/// given routines.
fn sort_routines(v: Vec<Routine>) -> (r: Vec<Routine>)
    ensures
        sorted_by(r@, routine_ord()),
        r@.to_multiset() == v@.to_multiset(),
{
    broadcast use vstd::seq_lib::group_to_multiset_ensures;
    broadcast use vstd::multiset::group_multiset_axioms;

    proof {
        lemma_routine_ord_props();
    }
    let ghost leq = routine_ord();
    let mut src = v;
    let mut out: Vec<Routine> = Vec::new();
    while src.len() > 0
        invariant
            leq == routine_ord(),
            forall|a: Routine, b: Routine| #[trigger] leq(a, b) || #[trigger] leq(b, a),
            forall|a: Routine, b: Routine, c: Routine|
                #[trigger] leq(a, b) && #[trigger] leq(b, c) ==> leq(a, c),
            forall|i: int, j: int|
                0 <= i < j < out@.len() ==> leq(#[trigger] out@[i], #[trigger] out@[j]),
            out@.to_multiset().add(src@.to_multiset()) =~= v@.to_multiset(),
            forall|i: int, j: int|
                0 <= i < out@.len() && 0 <= j < src@.len() ==> leq(
                    #[trigger] out@[i],
                    #[trigger] src@[j],
                ),
        decreases src@.len(),
    {
        let mut min_i: usize = 0;
        let mut k: usize = 1;
        while k < src.len()
            invariant
                leq == routine_ord(),
                forall|a: Routine, b: Routine| #[trigger] leq(a, b) || #[trigger] leq(b, a),
                forall|a: Routine, b: Routine, c: Routine|
                    #[trigger] leq(a, b) && #[trigger] leq(b, c) ==> leq(a, c),
                0 <= min_i < src@.len(),
                min_i < k <= src@.len(),
                forall|j: int| 0 <= j < k ==> leq(src@[min_i as int], #[trigger] src@[j]),
            decreases src@.len() - k,
        {
            if !routine_le_exec(&src[min_i], &src[k]) {
                proof {
                    assert(leq(src@[k as int], src@[min_i as int]));
                    assert forall|j: int| 0 <= j < k + 1 implies leq(
                        src@[k as int],
                        #[trigger] src@[j],
                    ) by {
                        if j < k {
                            assert(leq(src@[min_i as int], src@[j]));
                        }
                    }
                }
                min_i = k;
            }
            k = k + 1;
        }
        proof {
            assert(leq(src@[min_i as int], src@[min_i as int]));
        }
        let ghost old_src = src@;
        let ghost old_out = out@;
        let picked = src.remove(min_i);
        out.push(picked);
        proof {
            assert(old_src[min_i as int] == picked);
            vstd::seq_lib::to_multiset_remove(old_src, min_i as int);
            assert(src@.to_multiset() =~= old_src.to_multiset().remove(picked));
            assert(out@ == old_out.push(picked));
            vstd::seq_lib::to_multiset_build(old_out, picked);
            assert(out@.to_multiset() =~= old_out.to_multiset().insert(picked));
            vstd::seq_lib::to_multiset_contains(old_src, picked);
            assert(old_src.to_multiset().count(picked) > 0);
            assert(out@.to_multiset().add(src@.to_multiset()) =~= v@.to_multiset()) by {
                assert forall|x: Routine|
                    #[trigger] out@.to_multiset().count(x) + src@.to_multiset().count(x) == v@
                        .to_multiset().count(x) by {
                    assert(old_out.to_multiset().count(x) + old_src.to_multiset().count(x) == v@
                        .to_multiset().count(x));
                }
            }
            assert forall|i: int, j: int|
                0 <= i < out@.len() && 0 <= j < src@.len() implies leq(
                #[trigger] out@[i],
                #[trigger] src@[j],
            ) by {
                let srcj = src@[j];
                if j < min_i {
                    assert(srcj == old_src[j]);
                } else {
                    assert(srcj == old_src[j + 1]);
                }
                if i < old_out.len() {
                    assert(out@[i] == old_out[i]);
                } else {
                    assert(out@[i] == picked);
                }
            }
            assert forall|i: int, j: int| 0 <= i < j < out@.len() implies leq(
                #[trigger] out@[i],
                #[trigger] out@[j],
            ) by {
                if j < out@.len() - 1 {
                    assert(leq(old_out[i], old_out[j]));
                } else {
                    assert(out@[j] == picked);
                    assert(leq(old_out[i], old_src[min_i as int]));
                }
            }
        }
    }
    proof {
        assert(src@.to_multiset() =~= Multiset::<Routine>::empty());
        assert(out@.to_multiset() =~= v@.to_multiset());
    }
    out
}

/// The one arrangement of a routine set in the listing order.
pub open spec fn arranged_routines(rows: Seq<Routine>) -> Seq<Routine> {
    choose|q: Seq<Routine>|
        sorted_by(q, routine_ord()) && #[trigger] q.to_multiset() == rows.to_multiset()
}

/// The one sorted arrangement of a distinct-identifier routine set is
/// whatever sorted, row-preserving sequence one exhibits.
proof fn lemma_routines_arranged(base: Seq<Routine>, sorted: Seq<Routine>)
    requires
        sorted_by(sorted, routine_ord()),
        sorted.to_multiset() == base.to_multiset(),
        forall|i: int, j: int|
            0 <= i < j < base.len() ==> routine_id_fn()(#[trigger] base[i]) != routine_id_fn()(
                #[trigger] base[j],
            ),
    ensures
        arranged_routines(base) == sorted,
{
    lemma_routine_ord_props();
    let q0 = arranged_routines(base);
    assert(sorted_by(q0, routine_ord()) && q0.to_multiset() == base.to_multiset()) by {
        assert(exists|q: Seq<Routine>|
            sorted_by(q, routine_ord()) && #[trigger] q.to_multiset() == base.to_multiset());
    }
    lemma_multiset_distinct_keys(base, sorted, routine_id_fn());
    assert forall|a: Routine, b: Routine|
        #[trigger] routine_ord()(a, b) && #[trigger] routine_ord()(b, a) implies routine_id_fn()(
        a,
    ) == routine_id_fn()(b) by {}
    lemma_sorted_unique_keys(sorted, q0, routine_ord(), routine_id_fn());
}

/// Some routine already carries this code.
pub open spec fn routine_code_taken(rows: Seq<Routine>, code: Seq<char>) -> bool {
    exists|i: int| 0 <= i < rows.len() && #[trigger] rows[i].code@ == code
}

/// Renaming the routine the request names would duplicate another
/// routine's code.
pub open spec fn routine_update_conflict(rows: Seq<Routine>, id: i64, code: Seq<char>) -> bool {
    exists|i: int, j: int|
        0 <= i < rows.len() && 0 <= j < rows.len() && routine_id_of(#[trigger] rows[i]) == id
            && routine_id_of(#[trigger] rows[j]) != id && rows[j].code@ == code
}

/// Some row of the routine already names this exercise.
pub open spec fn pair_taken(rows: Seq<RoutineExercise>, rid: i64, xid: i64) -> bool {
    exists|i: int|
        0 <= i < rows.len() && (#[trigger] rows[i]).routine_id == rid && rows[i].exercise_id == xid
}

/// The batch names some exercise twice.
pub open spec fn batch_pair_clash(es: Seq<RoutineExercise>) -> bool {
    exists|i: int, j: int|
        0 <= i < j < es.len() && (#[trigger] es[i]).exercise_id == (#[trigger] es[j]).exercise_id
}

/// The routine and search predicates used by the listings.
pub open spec fn routine_match_pred(q: Seq<char>) -> spec_fn(Routine) -> bool {
    |r: Routine| contains_ci(r.name@, q) || contains_ci(r.code@, q)
}

/// The routine table and its exercise rows.
#[derive(Debug)]
pub struct RoutineStore {
    pub routines: Vec<Routine>,
    pub next_routine_id: i64,
    pub rex: Vec<RoutineExercise>,
    pub next_rex_id: i64,
}

impl RoutineStore {
    /// Identifiers are positive, below their next free one, and
    /// distinct; each routine-and-exercise pair appears at most once;
    /// the row counts stay within capacity.
    pub open spec fn wf(self) -> bool {
        &&& 1 <= self.next_routine_id
        &&& 1 <= self.next_rex_id
        &&& self.routines@.len() <= MAX_ROWS as int
        &&& self.rex@.len() <= MAX_ROWS as int
        &&& forall|i: int|
            0 <= i < self.routines@.len() ==> (#[trigger] self.routines@[i]).id == Some(
                routine_id_of(self.routines@[i]),
            ) && 1 <= routine_id_of(self.routines@[i]) < self.next_routine_id
        &&& forall|i: int, j: int|
            0 <= i < j < self.routines@.len() ==> routine_id_of(#[trigger] self.routines@[i])
                != routine_id_of(#[trigger] self.routines@[j])
        &&& forall|i: int|
            0 <= i < self.rex@.len() ==> (#[trigger] self.rex@[i]).id == Some(
                rid_of(self.rex@[i]),
            ) && 1 <= rid_of(self.rex@[i]) < self.next_rex_id
        &&& forall|i: int, j: int|
            0 <= i < j < self.rex@.len() ==> rid_of(#[trigger] self.rex@[i]) != rid_of(
                #[trigger] self.rex@[j],
            )
        &&& forall|i: int, j: int|
            0 <= i < j < self.rex@.len() ==> !((#[trigger] self.rex@[i]).routine_id == (
            #[trigger] self.rex@[j]).routine_id && self.rex@[i].exercise_id
                == self.rex@[j].exercise_id)
    }

    /// The exercise rows of one routine, in store order.
    pub open spec fn template(self, rid: i64) -> Seq<RoutineExercise> {
        self.rex@.filter(rex_scope_pred(rid))
    }

    /// The group numbers present in one routine.
    pub open spec fn template_groups(self, rid: i64) -> Seq<i64> {
        rex_groups(self.template(rid))
    }

    /// The set of group numbers present in one routine.
    pub open spec fn template_groups_set(self, rid: i64) -> Set<int> {
        group_set(self.template_groups(rid))
    }

    /// An empty store.
    pub fn new() -> (s: RoutineStore)
        ensures
            s.wf(),
            s.routines@ =~= Seq::<Routine>::empty(),
            s.rex@ =~= Seq::<RoutineExercise>::empty(),
            s.next_routine_id == 1,
            s.next_rex_id == 1,
    {
        RoutineStore { routines: Vec::new(), next_routine_id: 1, rex: Vec::new(), next_rex_id: 1 }
    }

    /// There is room for one more routine.
    pub open spec fn has_routine_capacity(self) -> bool {
        self.routines@.len() < MAX_ROWS as int && self.next_routine_id < i64::MAX as int
    }

    /// Whether any routine carries this code.
    fn routine_code_in_use(&self, code: &String) -> (r: bool)
        ensures
            r == routine_code_taken(self.routines@, code@),
    {
        let mut i: usize = 0;
        while i < self.routines.len()
            invariant
                0 <= i <= self.routines@.len(),
                forall|j: int| 0 <= j < i ==> #[trigger] self.routines@[j].code@ != code@,
            decreases self.routines@.len() - i,
        {
            if self.routines[i].code == *code {
                return true;
            }
            i = i + 1;
        }
        false
    }

    /// Insert a routine; the request's identifier is ignored, a new one
    /// is assigned and returned, and a taken code is refused.
    pub fn create(&mut self, routine: Routine) -> (r: Result<i64, StoreError>)
        requires
            old(self).wf(),
        ensures
            final(self).wf(),
            r is Ok <==> old(self).has_routine_capacity() && !routine_code_taken(
                old(self).routines@,
                routine.code@,
            ),
            match r {
                Ok(id) => {
                    &&& id == old(self).next_routine_id
                    &&& final(self).routines@ == old(self).routines@.push(
                        Routine {
                            id: Some(old(self).next_routine_id),
                            name: routine.name,
                            code: routine.code,
                            created_at: routine.created_at,
                            updated_at: routine.updated_at,
                        },
                    )
                    &&& final(self).next_routine_id == old(self).next_routine_id + 1
                    &&& final(self).rex@ == old(self).rex@
                    &&& final(self).next_rex_id == old(self).next_rex_id
                },
                Err(e) => e == StoreError::Storage && *final(self) == *old(self),
            },
    {
        if self.routine_code_in_use(&routine.code) {
            return Err(StoreError::Storage);
        }
        if self.routines.len() >= MAX_ROWS || self.next_routine_id == i64::MAX {
            return Err(StoreError::Storage);
        }
        let id = self.next_routine_id;
        let row = Routine {
            id: Some(id),
            name: routine.name,
            code: routine.code,
            created_at: routine.created_at,
            updated_at: routine.updated_at,
        };
        self.routines.push(row);
        self.next_routine_id = self.next_routine_id + 1;
        Ok(id)
    }

    /// Look a routine up by identifier.
    pub fn get_by_id(&self, id: i64) -> (r: Option<Routine>)
        requires
            self.wf(),
        ensures
            match r {
                Some(rt) => exists|i: int|
                    0 <= i < self.routines@.len() && routine_id_of(#[trigger] self.routines@[i])
                        == id && rt == self.routines@[i],
                None => forall|i: int|
                    0 <= i < self.routines@.len() ==> routine_id_of(#[trigger] self.routines@[i])
                        != id,
            },
            r is Some <==> exists|i: int|
                0 <= i < self.routines@.len() && routine_id_of(#[trigger] self.routines@[i]) == id,
    {
        let mut i: usize = 0;
        while i < self.routines.len()
            invariant
                0 <= i <= self.routines@.len(),
                forall|j: int| 0 <= j < i ==> routine_id_of(#[trigger] self.routines@[j]) != id,
            decreases self.routines@.len() - i,
        {
            let row = &self.routines[i];
            let rid = match row.id {
                Some(v) => v,
                None => 0,
            };
            if rid == id {
                return Some(row.clone());
            }
            i = i + 1;
        }
        None
    }

    /// Rename the routine the request names, if it exists and the new
    /// code is not another routine's. Naming no routine changes nothing.
    pub fn update(&mut self, id: i64, name: String, code: String) -> (r: Result<(), StoreError>)
        requires
            old(self).wf(),
        ensures
            final(self).wf(),
            r is Ok <==> !routine_update_conflict(old(self).routines@, id, code@),
            final(self).next_routine_id == old(self).next_routine_id,
            final(self).rex@ == old(self).rex@,
            final(self).next_rex_id == old(self).next_rex_id,
            match r {
                Ok(()) => final(self).routines@ == old(self).routines@.map_values(
                    apply_routine_update(id, name, code),
                ),
                Err(e) => e == StoreError::Storage && *final(self) == *old(self),
            },
    {
        let ghost f = apply_routine_update(id, name, code);
        let mut found = false;
        let mut i: usize = 0;
        while i < self.routines.len()
            invariant
                0 <= i <= self.routines@.len(),
                *self == *old(self),
                old(self).wf(),
                found ==> exists|j: int|
                    0 <= j < self.routines@.len() && routine_id_of(#[trigger] self.routines@[j])
                        == id,
                !found ==> forall|j: int|
                    0 <= j < i ==> routine_id_of(#[trigger] self.routines@[j]) != id,
            decreases self.routines@.len() - i,
        {
            let row = &self.routines[i];
            let rid = match row.id {
                Some(v) => v,
                None => 0,
            };
            if rid == id {
                found = true;
            }
            i = i + 1;
        }
        if !found {
            proof {
                assert forall|k: int| 0 <= k < self.routines@.len() implies f(self.routines@[k])
                    == self.routines@[k] by {}
                assert(self.routines@.map_values(f) =~= self.routines@);
                if routine_update_conflict(self.routines@, id, code@) {
                    let (a, b): (int, int) = choose|a: int, b: int|
                        0 <= a < self.routines@.len() && 0 <= b < self.routines@.len()
                            && routine_id_of(#[trigger] self.routines@[a]) == id && routine_id_of(
                            #[trigger] self.routines@[b],
                        ) != id && self.routines@[b].code@ == code@;
                }
            }
            return Ok(());
        }
        let mut j: usize = 0;
        while j < self.routines.len()
            invariant
                0 <= j <= self.routines@.len(),
                *self == *old(self),
                old(self).wf(),
                exists|a: int|
                    0 <= a < self.routines@.len() && routine_id_of(#[trigger] self.routines@[a])
                        == id,
                forall|k: int|
                    0 <= k < j ==> !(routine_id_of(#[trigger] self.routines@[k]) != id
                        && self.routines@[k].code@ == code@),
            decreases self.routines@.len() - j,
        {
            let row = &self.routines[j];
            let rid = match row.id {
                Some(v) => v,
                None => 0,
            };
            if rid != id && row.code == code {
                proof {
                    assert(routine_update_conflict(self.routines@, id, code@));
                }
                return Err(StoreError::Storage);
            }
            j = j + 1;
        }
        proof {
            if routine_update_conflict(self.routines@, id, code@) {
                let (a, b): (int, int) = choose|a: int, b: int|
                    0 <= a < self.routines@.len() && 0 <= b < self.routines@.len()
                        && routine_id_of(#[trigger] self.routines@[a]) == id && routine_id_of(
                        #[trigger] self.routines@[b],
                    ) != id && self.routines@[b].code@ == code@;
            }
        }
        let mut out: Vec<Routine> = Vec::new();
        let mut i2: usize = 0;
        while i2 < self.routines.len()
            invariant
                0 <= i2 <= self.routines@.len(),
                *self == *old(self),
                old(self).wf(),
                f == apply_routine_update(id, name, code),
                out@ =~= self.routines@.take(i2 as int).map_values(f),
            decreases self.routines@.len() - i2,
        {
            let row = &self.routines[i2];
            let rid = match row.id {
                Some(v) => v,
                None => 0,
            };
            if rid == id {
                out.push(
                    Routine {
                        id: row.id,
                        name: name.clone(),
                        code: code.clone(),
                        created_at: crate::models::clone_opt_string(&row.created_at),
                        updated_at: crate::models::clone_opt_string(&row.updated_at),
                    },
                );
            } else {
                out.push(row.clone());
            }
            proof {
                lemma_take_push(self.routines@, i2 as int);
                lemma_map_push(self.routines@.take(i2 as int), self.routines@[i2 as int], f);
            }
            i2 = i2 + 1;
        }
        proof {
            assert(self.routines@.take(self.routines@.len() as int) =~= self.routines@);
        }
        self.routines = out;
        proof {
            assert forall|k: int| 0 <= k < self.routines@.len() implies (
            #[trigger] self.routines@[k]).id == Some(routine_id_of(self.routines@[k])) && 1
                <= routine_id_of(self.routines@[k]) < self.next_routine_id by {
                assert(self.routines@[k] == f(old(self).routines@[k]));
            }
            assert forall|k: int, l: int| 0 <= k < l < self.routines@.len() implies routine_id_of(
                #[trigger] self.routines@[k],
            ) != routine_id_of(#[trigger] self.routines@[l]) by {
                assert(self.routines@[k] == f(old(self).routines@[k]));
                assert(self.routines@[l] == f(old(self).routines@[l]));
            }
        }
        Ok(())
    }

    /// Hard-delete a routine and, with it, every one of its exercise
    /// rows: template data has no restore path.
    pub fn delete(&mut self, id: i64) -> (r: Result<(), StoreError>)
        requires
            old(self).wf(),
        ensures
            final(self).wf(),
            r is Ok,
            final(self).routines@ == old(self).routines@.filter(other_routine_pred(id)),
            final(self).rex@ == old(self).rex@.filter(rex_not_scope_pred(id)),
            final(self).next_routine_id == old(self).next_routine_id,
            final(self).next_rex_id == old(self).next_rex_id,
    {
        let ghost pred = other_routine_pred(id);
        let mut kept: Vec<Routine> = Vec::new();
        let mut i: usize = 0;
        while i < self.routines.len()
            invariant
                0 <= i <= self.routines@.len(),
                pred == other_routine_pred(id),
                kept@ =~= self.routines@.take(i as int).filter(pred),
            decreases self.routines@.len() - i,
        {
            let row = &self.routines[i];
            let rid = match row.id {
                Some(v) => v,
                None => 0,
            };
            if rid != id {
                kept.push(row.clone());
            }
            proof {
                lemma_take_push(self.routines@, i as int);
                lemma_filter_push(self.routines@.take(i as int), self.routines@[i as int], pred);
            }
            i = i + 1;
        }
        proof {
            assert(self.routines@.take(self.routines@.len() as int) =~= self.routines@);
            broadcast use vstd::seq_lib::group_filter_ensures;

            self.routines@.lemma_filter_len(pred);
            lemma_filter_distinct_keys(self.routines@, pred, routine_id_fn());
            assert forall|k: int| 0 <= k < kept@.len() implies (#[trigger] kept@[k]).id == Some(
                routine_id_of(kept@[k]),
            ) && 1 <= routine_id_of(kept@[k]) < self.next_routine_id by {
                assert(kept@.contains(kept@[k]));
                self.routines@.lemma_filter_contains_rev(pred, kept@[k]);
                let w = choose|w: int|
                    0 <= w < self.routines@.len() && self.routines@[w] == kept@[k];
            }
        }
        self.routines = kept;
        let kept_rex = self.surviving_rex(id);
        proof {
            self.lemma_rex_kept_wf(rex_not_scope_pred(id));
        }
        self.rex = kept_rex;
        Ok(())
    }

    /// The rows surviving a cascade delete, cloned; the store itself is
    /// untouched.
    fn surviving_rex(&self, rid: i64) -> (kept: Vec<RoutineExercise>)
        ensures
            kept@ == self.rex@.filter(rex_not_scope_pred(rid)),
    {
        let ghost pred = rex_not_scope_pred(rid);
        let mut kept: Vec<RoutineExercise> = Vec::new();
        let mut i: usize = 0;
        while i < self.rex.len()
            invariant
                0 <= i <= self.rex@.len(),
                pred == rex_not_scope_pred(rid),
                kept@ =~= self.rex@.take(i as int).filter(pred),
            decreases self.rex@.len() - i,
        {
            let row = &self.rex[i];
            if row.routine_id != rid {
                kept.push(row.clone());
            }
            proof {
                lemma_take_push(self.rex@, i as int);
                lemma_filter_push(self.rex@.take(i as int), self.rex@[i as int], pred);
            }
            i = i + 1;
        }
        proof {
            assert(self.rex@.take(self.rex@.len() as int) =~= self.rex@);
        }
        kept
    }

    /// The well-formedness facts of a filtered exercise-row set.
    proof fn lemma_rex_kept_wf(self, pred: spec_fn(RoutineExercise) -> bool)
        requires
            self.wf(),
        ensures
            self.rex@.filter(pred).len() <= self.rex@.len(),
            forall|k: int|
                0 <= k < self.rex@.filter(pred).len() ==> (#[trigger] self.rex@.filter(
                    pred,
                )[k]).id == Some(rid_of(self.rex@.filter(pred)[k])) && 1 <= rid_of(
                    self.rex@.filter(pred)[k],
                ) < self.next_rex_id && pred(self.rex@.filter(pred)[k]),
            forall|k: int, l: int|
                0 <= k < l < self.rex@.filter(pred).len() ==> rid_of(
                    #[trigger] self.rex@.filter(pred)[k],
                ) != rid_of(#[trigger] self.rex@.filter(pred)[l]),
            forall|k: int, l: int|
                0 <= k < l < self.rex@.filter(pred).len() ==> !((#[trigger] self.rex@.filter(
                    pred,
                )[k]).routine_id == (#[trigger] self.rex@.filter(pred)[l]).routine_id
                    && self.rex@.filter(pred)[k].exercise_id == self.rex@.filter(
                    pred,
                )[l].exercise_id),
    {
        let kept = self.rex@.filter(pred);
        self.rex@.lemma_filter_len(pred);
        broadcast use vstd::seq_lib::group_filter_ensures;

        lemma_filter_distinct_keys(self.rex@, pred, rid_fn());
        assert forall|k: int| 0 <= k < kept.len() implies (#[trigger] kept[k]).id == Some(
            rid_of(kept[k]),
        ) && 1 <= rid_of(kept[k]) < self.next_rex_id && pred(kept[k]) by {
            assert(kept.contains(kept[k]));
            self.rex@.lemma_filter_contains_rev(pred, kept[k]);
            let w = choose|w: int| 0 <= w < self.rex@.len() && self.rex@[w] == kept[k];
        }
        assert forall|k: int, l: int| 0 <= k < l < kept.len() implies !((#[trigger] kept[k])
            .routine_id == (#[trigger] kept[l]).routine_id && kept[k].exercise_id
            == kept[l].exercise_id) by {
            assert(kept.contains(kept[k]));
            assert(kept.contains(kept[l]));
            self.rex@.lemma_filter_contains_rev(pred, kept[k]);
            self.rex@.lemma_filter_contains_rev(pred, kept[l]);
            let w1 = choose|w: int| 0 <= w < self.rex@.len() && self.rex@[w] == kept[k];
            let w2 = choose|w: int| 0 <= w < self.rex@.len() && self.rex@[w] == kept[l];
            assert(rid_of(kept[k]) != rid_of(kept[l]));
            if w1 < w2 {
            } else if w2 < w1 {
            } else {
            }
        }
    }

    /// Every routine, cloned, in store order.
    fn all_rows(&self) -> (r: Vec<Routine>)
        requires
            self.wf(),
        ensures
            r@ == self.routines@,
    {
        let mut out: Vec<Routine> = Vec::new();
        let mut i: usize = 0;
        while i < self.routines.len()
            invariant
                0 <= i <= self.routines@.len(),
                out@ =~= self.routines@.take(i as int),
            decreases self.routines@.len() - i,
        {
            out.push(self.routines[i].clone());
            proof {
                lemma_take_push(self.routines@, i as int);
            }
            i = i + 1;
        }
        proof {
            assert(self.routines@.take(self.routines@.len() as int) =~= self.routines@);
        }
        out
    }

    /// Any set of this store's routines carries distinct identifiers.
    proof fn lemma_routines_distinct(self, pred: spec_fn(Routine) -> bool)
        requires
            self.wf(),
        ensures
            forall|i: int, j: int|
                0 <= i < j < self.routines@.filter(pred).len() ==> routine_id_fn()(
                    #[trigger] self.routines@.filter(pred)[i],
                ) != routine_id_fn()(#[trigger] self.routines@.filter(pred)[j]),
    {
        assert(forall|i: int, j: int|
            0 <= i < j < self.routines@.len() ==> routine_id_fn()(#[trigger] self.routines@[i])
                != routine_id_fn()(#[trigger] self.routines@[j]));
        lemma_filter_distinct_keys(self.routines@, pred, routine_id_fn());
    }

    /// The listing: every routine, ordered by name, then identifier.
    pub fn list_all(&self) -> (r: Vec<Routine>)
        requires
            self.wf(),
        ensures
            r@ == arranged_routines(self.routines@),
            r@.len() == self.routines@.len(),
    {
        let rows = self.all_rows();
        let sorted = sort_routines(rows);
        proof {
            assert(forall|i: int, j: int|
                0 <= i < j < self.routines@.len() ==> routine_id_fn()(
                    #[trigger] self.routines@[i],
                ) != routine_id_fn()(#[trigger] self.routines@[j]));
            lemma_routines_arranged(self.routines@, sorted@);
            vstd::seq_lib::to_multiset_len(sorted@);
            vstd::seq_lib::to_multiset_len(self.routines@);
        }
        sorted
    }

    /// One page of the listing.
    pub fn list_routines_paginated(&self, page: i64, page_size: i64) -> (r: Vec<Routine>)
        requires
            self.wf(),
        ensures
            r@ == crate::paging::page_slice(
                arranged_routines(self.routines@),
                page as int,
                page_size as int,
            ),
    {
        let all = self.list_all();
        page_of_routines(all, page, page_size)
    }

    /// The routines whose name or code contains the query, case folded,
    /// in the listing order.
    pub fn search_routines(&self, query: &str) -> (r: Vec<Routine>)
        requires
            self.wf(),
        ensures
            r@ == arranged_routines(self.routines@.filter(routine_match_pred(query@))),
            r@.len() == self.routines@.filter(routine_match_pred(query@)).len(),
    {
        let ghost pred = routine_match_pred(query@);
        let mut out: Vec<Routine> = Vec::new();
        let mut i: usize = 0;
        while i < self.routines.len()
            invariant
                0 <= i <= self.routines@.len(),
                pred == routine_match_pred(query@),
                out@ =~= self.routines@.take(i as int).filter(pred),
            decreases self.routines@.len() - i,
        {
            let row = &self.routines[i];
            let hit = str_contains_ci(row.name.as_str(), query) || str_contains_ci(
                row.code.as_str(),
                query,
            );
            if hit {
                out.push(row.clone());
            }
            proof {
                lemma_take_push(self.routines@, i as int);
                lemma_filter_push(self.routines@.take(i as int), self.routines@[i as int], pred);
            }
            i = i + 1;
        }
        proof {
            assert(self.routines@.take(self.routines@.len() as int) =~= self.routines@);
        }
        let sorted = sort_routines(out);
        proof {
            self.lemma_routines_distinct(pred);
            lemma_routines_arranged(self.routines@.filter(pred), sorted@);
            vstd::seq_lib::to_multiset_len(sorted@);
            vstd::seq_lib::to_multiset_len(self.routines@.filter(pred));
        }
        sorted
    }

    /// One page of the search result.
    pub fn search_routines_paginated(&self, query: &str, page: i64, page_size: i64) -> (r: Vec<
        Routine,
    >)
        requires
            self.wf(),
        ensures
            r@ == crate::paging::page_slice(
                arranged_routines(self.routines@.filter(routine_match_pred(query@))),
                page as int,
                page_size as int,
            ),
    {
        let all = self.search_routines(query);
        proof {
            self.routines@.lemma_filter_len(routine_match_pred(query@));
        }
        page_of_routines(all, page, page_size)
    }

    /// There is room for `n` more exercise rows.
    pub open spec fn rex_capacity_for(self, n: int) -> bool {
        self.rex@.len() + n <= MAX_ROWS as int && self.next_rex_id + n <= i64::MAX as int
    }

    /// Whether a routine already pairs with an exercise.
    fn pair_in_use(&self, rid: i64, xid: i64) -> (r: bool)
        ensures
            r == pair_taken(self.rex@, rid, xid),
    {
        let mut i: usize = 0;
        while i < self.rex.len()
            invariant
                0 <= i <= self.rex@.len(),
                forall|j: int|
                    0 <= j < i ==> !((#[trigger] self.rex@[j]).routine_id == rid
                        && self.rex@[j].exercise_id == xid),
            decreases self.rex@.len() - i,
        {
            let row = &self.rex[i];
            if row.routine_id == rid && row.exercise_id == xid {
                return true;
            }
            i = i + 1;
        }
        false
    }

    /// Insert one exercise row; the request's identifier is ignored, a
    /// fresh one is assigned, and a duplicated pair is refused the way
    /// the persisted unique key refuses it.
    pub fn add_exercise_to_routine(&mut self, routine_exercise: RoutineExercise) -> (r: Result<
        (),
        StoreError,
    >)
        requires
            old(self).wf(),
        ensures
            final(self).wf(),
            r is Ok <==> old(self).rex_capacity_for(1) && !pair_taken(
                old(self).rex@,
                routine_exercise.routine_id,
                routine_exercise.exercise_id,
            ),
            match r {
                Ok(()) => {
                    &&& final(self).rex@ == old(self).rex@.push(
                        rex_stamped(routine_exercise, old(self).next_rex_id),
                    )
                    &&& final(self).next_rex_id == old(self).next_rex_id + 1
                    &&& final(self).routines@ == old(self).routines@
                    &&& final(self).next_routine_id == old(self).next_routine_id
                },
                Err(e) => e == StoreError::Storage && *final(self) == *old(self),
            },
    {
        if self.pair_in_use(routine_exercise.routine_id, routine_exercise.exercise_id) {
            return Err(StoreError::Storage);
        }
        if self.rex.len() >= MAX_ROWS || self.next_rex_id == i64::MAX {
            return Err(StoreError::Storage);
        }
        let mut row = routine_exercise;
        row.id = Some(self.next_rex_id);
        proof {
            assert(row == rex_stamped(routine_exercise, old(self).next_rex_id));
        }
        self.rex.push(row);
        self.next_rex_id = self.next_rex_id + 1;
        Ok(())
    }

    /// Rewrite the mutable fields of the row the request names; its
    /// identity fields and stamps stay. Naming no row changes nothing.
    pub fn update_routine_exercise(&mut self, routine_exercise: RoutineExercise) -> (r: Result<
        (),
        StoreError,
    >)
        requires
            old(self).wf(),
        ensures
            final(self).wf(),
            r is Ok,
            final(self).rex@ == old(self).rex@.map_values(apply_rex_update(routine_exercise)),
            final(self).next_rex_id == old(self).next_rex_id,
            final(self).routines@ == old(self).routines@,
            final(self).next_routine_id == old(self).next_routine_id,
    {
        let ghost f = apply_rex_update(routine_exercise);
        let mut out: Vec<RoutineExercise> = Vec::new();
        let mut i: usize = 0;
        while i < self.rex.len()
            invariant
                0 <= i <= self.rex@.len(),
                f == apply_rex_update(routine_exercise),
                out@ =~= self.rex@.take(i as int).map_values(f),
            decreases self.rex@.len() - i,
        {
            let row = &self.rex[i];
            let rid = match row.id {
                Some(v) => v,
                None => 0,
            };
            let named = match routine_exercise.id {
                Some(uid) => uid == rid,
                None => false,
            };
            if named {
                out.push(
                    RoutineExercise {
                        id: row.id,
                        routine_id: row.routine_id,
                        exercise_id: row.exercise_id,
                        order_index: routine_exercise.order_index,
                        sets: routine_exercise.sets,
                        reps: routine_exercise.reps,
                        weight: routine_exercise.weight,
                        notes: crate::models::clone_opt_string(&routine_exercise.notes),
                        group_number: routine_exercise.group_number,
                        created_at: crate::models::clone_opt_string(&row.created_at),
                        updated_at: crate::models::clone_opt_string(&row.updated_at),
                    },
                );
            } else {
                out.push(row.clone());
            }
            proof {
                lemma_take_push(self.rex@, i as int);
                lemma_map_push(self.rex@.take(i as int), self.rex@[i as int], f);
            }
            i = i + 1;
        }
        proof {
            assert(self.rex@.take(self.rex@.len() as int) =~= self.rex@);
        }
        self.rex = out;
        proof {
            assert forall|k: int| 0 <= k < self.rex@.len() implies (#[trigger] self.rex@[k]).id
                == Some(rid_of(self.rex@[k])) && 1 <= rid_of(self.rex@[k]) < self.next_rex_id by {
                assert(self.rex@[k] == f(old(self).rex@[k]));
            }
            assert forall|k: int, l: int| 0 <= k < l < self.rex@.len() implies rid_of(
                #[trigger] self.rex@[k],
            ) != rid_of(#[trigger] self.rex@[l]) by {
                assert(self.rex@[k] == f(old(self).rex@[k]));
                assert(self.rex@[l] == f(old(self).rex@[l]));
            }
            assert forall|k: int, l: int| 0 <= k < l < self.rex@.len() implies !((
            #[trigger] self.rex@[k]).routine_id == (#[trigger] self.rex@[l]).routine_id
                && self.rex@[k].exercise_id == self.rex@[l].exercise_id) by {
                assert(self.rex@[k] == f(old(self).rex@[k]));
                assert(self.rex@[l] == f(old(self).rex@[l]));
            }
        }
        Ok(())
    }

    /// Hard-delete the row pairing a routine with an exercise, if any.
    pub fn remove_exercise_from_routine(&mut self, routine_id: i64, exercise_id: i64) -> (r:
        Result<(), StoreError>)
        requires
            old(self).wf(),
        ensures
            final(self).wf(),
            r is Ok,
            final(self).rex@ == old(self).rex@.filter(other_pair_pred(routine_id, exercise_id)),
            final(self).next_rex_id == old(self).next_rex_id,
            final(self).routines@ == old(self).routines@,
            final(self).next_routine_id == old(self).next_routine_id,
    {
        let ghost pred = other_pair_pred(routine_id, exercise_id);
        let mut kept: Vec<RoutineExercise> = Vec::new();
        let mut i: usize = 0;
        while i < self.rex.len()
            invariant
                0 <= i <= self.rex@.len(),
                pred == other_pair_pred(routine_id, exercise_id),
                kept@ =~= self.rex@.take(i as int).filter(pred),
            decreases self.rex@.len() - i,
        {
            let row = &self.rex[i];
            if !(row.routine_id == routine_id && row.exercise_id == exercise_id) {
                kept.push(row.clone());
            }
            proof {
                lemma_take_push(self.rex@, i as int);
                lemma_filter_push(self.rex@.take(i as int), self.rex@[i as int], pred);
            }
            i = i + 1;
        }
        proof {
            assert(self.rex@.take(self.rex@.len() as int) =~= self.rex@);
            self.lemma_rex_kept_wf(pred);
        }
        self.rex = kept;
        Ok(())
    }

    /// The exercise rows of one routine, cloned, in store order.
    pub fn template_rows(&self, routine_id: i64) -> (r: Vec<RoutineExercise>)
        requires
            self.wf(),
        ensures
            r@ == self.template(routine_id),
    {
        let ghost pred = rex_scope_pred(routine_id);
        let mut out: Vec<RoutineExercise> = Vec::new();
        let mut i: usize = 0;
        while i < self.rex.len()
            invariant
                0 <= i <= self.rex@.len(),
                pred == rex_scope_pred(routine_id),
                out@ =~= self.rex@.take(i as int).filter(pred),
            decreases self.rex@.len() - i,
        {
            let row = &self.rex[i];
            if row.routine_id == routine_id {
                out.push(row.clone());
            }
            proof {
                lemma_take_push(self.rex@, i as int);
                lemma_filter_push(self.rex@.take(i as int), self.rex@[i as int], pred);
            }
            i = i + 1;
        }
        proof {
            assert(self.rex@.take(self.rex@.len() as int) =~= self.rex@);
        }
        out
    }

    /// The exercise rows of one routine, ordered by group, then display
    /// order, then creation.
    pub fn get_routine_exercises(&self, routine_id: i64) -> (r: Vec<RoutineExercise>)
        requires
            self.wf(),
        ensures
            rex_sorted(r@),
            r@ == arranged_rex(self.template(routine_id)),
            r@.to_multiset() == self.template(routine_id).to_multiset(),
    {
        let rows = self.template_rows(routine_id);
        let sorted = sort_rex(rows);
        proof {
            assert(forall|i: int, j: int|
                0 <= i < j < self.rex@.len() ==> rid_fn()(#[trigger] self.rex@[i]) != rid_fn()(
                    #[trigger] self.rex@[j],
                ));
            lemma_filter_distinct_keys(self.rex@, rex_scope_pred(routine_id), rid_fn());
            assert(vstd::relations::sorted_by(sorted@, rex_le_fn())) by {
                assert forall|a: int, b: int| 0 <= a < b < sorted@.len() implies
                    #[trigger] rex_le_fn()(sorted@[a], sorted@[b]) by {
                    assert(rex_le(sorted@[a], sorted@[b]));
                }
            }
            lemma_rex_arranged(self.template(routine_id), sorted@);
        }
        sorted
    }

    /// Apply each `(identifier, order)` pair as an unconditional rewrite,
    /// in order; later pairs win.
    pub fn reorder_routine_exercises(
        &mut self,
        routine_id: i64,
        exercise_orders: Vec<(i64, i64)>,
    ) -> (r: Result<(), StoreError>)
        requires
            old(self).wf(),
        ensures
            final(self).wf(),
            r is Ok,
            final(self).rex@ == rex_apply_orders(old(self).rex@, exercise_orders@),
            final(self).next_rex_id == old(self).next_rex_id,
            final(self).routines@ == old(self).routines@,
            final(self).next_routine_id == old(self).next_routine_id,
    {
        let _ = routine_id;
        let mut p: usize = 0;
        while p < exercise_orders.len()
            invariant
                0 <= p <= exercise_orders@.len(),
                self.wf(),
                self.next_rex_id == old(self).next_rex_id,
                self.routines@ == old(self).routines@,
                self.next_routine_id == old(self).next_routine_id,
                self.rex@ == rex_apply_orders(old(self).rex@, exercise_orders@.take(p as int)),
            decreases exercise_orders@.len() - p,
        {
            let (target, order) = exercise_orders[p];
            let ghost f = rex_apply_order(exercise_orders@[p as int]);
            let ghost before = self.rex@;
            let mut out: Vec<RoutineExercise> = Vec::new();
            let mut i: usize = 0;
            while i < self.rex.len()
                invariant
                    0 <= i <= self.rex@.len(),
                    f == rex_apply_order((target, order)),
                    out@ =~= self.rex@.take(i as int).map_values(f),
                decreases self.rex@.len() - i,
            {
                let row = &self.rex[i];
                let rid = match row.id {
                    Some(v) => v,
                    None => 0,
                };
                if rid == target {
                    let mut updated = row.clone();
                    updated.order_index = order;
                    out.push(updated);
                } else {
                    out.push(row.clone());
                }
                proof {
                    lemma_take_push(self.rex@, i as int);
                    lemma_map_push(self.rex@.take(i as int), self.rex@[i as int], f);
                }
                i = i + 1;
            }
            proof {
                assert(self.rex@.take(self.rex@.len() as int) =~= self.rex@);
            }
            self.rex = out;
            proof {
                assert forall|k: int| 0 <= k < self.rex@.len() implies (#[trigger] self.rex@[k]).id
                    == Some(rid_of(self.rex@[k])) && 1 <= rid_of(self.rex@[k])
                    < self.next_rex_id by {
                    assert(self.rex@[k] == f(before[k]));
                }
                assert forall|k: int, l: int| 0 <= k < l < self.rex@.len() implies rid_of(
                    #[trigger] self.rex@[k],
                ) != rid_of(#[trigger] self.rex@[l]) by {
                    assert(self.rex@[k] == f(before[k]));
                    assert(self.rex@[l] == f(before[l]));
                }
                assert forall|k: int, l: int| 0 <= k < l < self.rex@.len() implies !((
                #[trigger] self.rex@[k]).routine_id == (#[trigger] self.rex@[l]).routine_id
                    && self.rex@[k].exercise_id == self.rex@[l].exercise_id) by {
                    assert(self.rex@[k] == f(before[k]));
                    assert(self.rex@[l] == f(before[l]));
                }
                lemma_rex_apply_orders_snoc(old(self).rex@, exercise_orders@, p as int);
                assert(exercise_orders@[p as int] == (target, order));
            }
            p = p + 1;
        }
        proof {
            assert(exercise_orders@.take(exercise_orders@.len() as int) =~= exercise_orders@);
        }
        Ok(())
    }

    /// Append a batch of stamped rows; the caller has checked capacity
    /// and that the batch clashes with nothing in the table.
    fn append_rex(&mut self, entries: Vec<RoutineExercise>)
        requires
            old(self).wf(),
            old(self).rex_capacity_for(entries@.len() as int),
            !batch_pair_clash(entries@),
            forall|i: int|
                0 <= i < entries@.len() && 0 <= i < entries@.len() ==> !pair_taken(
                    old(self).rex@,
                    (#[trigger] entries@[i]).routine_id,
                    entries@[i].exercise_id,
                ),
        ensures
            final(self).wf(),
            final(self).rex@ == old(self).rex@ + rex_stamp_all(
                entries@,
                old(self).next_rex_id as int,
            ),
            final(self).next_rex_id == old(self).next_rex_id + entries@.len(),
            final(self).routines@ == old(self).routines@,
            final(self).next_routine_id == old(self).next_routine_id,
    {
        let n = entries.len();
        let ghost start = self.next_rex_id as int;
        let ghost orig = self.rex@;
        let mut i: usize = 0;
        while i < n
            invariant
                0 <= i <= n,
                n == entries@.len(),
                orig.len() + n <= MAX_ROWS as int,
                start + n <= i64::MAX as int,
                1 <= start,
                self.next_rex_id == start + i,
                self.rex@ =~= orig + rex_stamp_all(entries@.take(i as int), start),
                self.routines@ == old(self).routines@,
                self.next_routine_id == old(self).next_routine_id,
                old(self).wf(),
                !batch_pair_clash(entries@),
                forall|k: int|
                    0 <= k < entries@.len() ==> !pair_taken(
                        orig,
                        (#[trigger] entries@[k]).routine_id,
                        entries@[k].exercise_id,
                    ),
                forall|k: int|
                    0 <= k < orig.len() ==> (#[trigger] orig[k]).id == Some(rid_of(orig[k])) && 1
                        <= rid_of(orig[k]) < start,
                forall|k: int, l: int|
                    0 <= k < l < orig.len() ==> rid_of(#[trigger] orig[k]) != rid_of(
                        #[trigger] orig[l],
                    ),
                forall|k: int, l: int|
                    0 <= k < l < orig.len() ==> !((#[trigger] orig[k]).routine_id == (
                    #[trigger] orig[l]).routine_id && orig[k].exercise_id == orig[l].exercise_id),
            decreases n - i,
        {
            let e = entries[i].clone();
            let mut row = e;
            row.id = Some(self.next_rex_id);
            proof {
                assert(row == rex_stamped(entries@[i as int], (start + i) as i64));
            }
            self.rex.push(row);
            self.next_rex_id = self.next_rex_id + 1;
            proof {
                assert(rex_stamp_all(entries@.take(i + 1), start) =~= rex_stamp_all(
                    entries@.take(i as int),
                    start,
                ).push(rex_stamped(entries@[i as int], (start + i) as i64)));
            }
            i = i + 1;
        }
        proof {
            assert(entries@.take(n as int) =~= entries@);
            let fin = orig + rex_stamp_all(entries@, start);
            assert forall|k: int| 0 <= k < fin.len() implies (#[trigger] fin[k]).id == Some(
                rid_of(fin[k]),
            ) && 1 <= rid_of(fin[k]) < self.next_rex_id by {
                if k >= orig.len() {
                    assert(fin[k] == rex_stamped(entries@[k - orig.len()], (start + k
                        - orig.len()) as i64));
                }
            }
            assert forall|k: int, l: int| 0 <= k < l < fin.len() implies rid_of(#[trigger] fin[k])
                != rid_of(#[trigger] fin[l]) by {
                if k >= orig.len() {
                    assert(fin[k] == rex_stamped(entries@[k - orig.len()], (start + k
                        - orig.len()) as i64));
                }
                if l >= orig.len() {
                    assert(fin[l] == rex_stamped(entries@[l - orig.len()], (start + l
                        - orig.len()) as i64));
                }
            }
            assert forall|k: int, l: int| 0 <= k < l < fin.len() implies !((#[trigger] fin[k])
                .routine_id == (#[trigger] fin[l]).routine_id && fin[k].exercise_id
                == fin[l].exercise_id) by {
                if k >= orig.len() {
                    assert(fin[k] == rex_stamped(entries@[k - orig.len()], (start + k
                        - orig.len()) as i64));
                }
                if l >= orig.len() {
                    assert(fin[l] == rex_stamped(entries@[l - orig.len()], (start + l
                        - orig.len()) as i64));
                    if k < orig.len() {
                        assert(!pair_taken(
                            orig,
                            entries@[l - orig.len()].routine_id,
                            entries@[l - orig.len()].exercise_id,
                        ));
                    }
                }
            }
        }
    }

    /// There is room to replace the routine's rows with `n` new ones.
    pub open spec fn rex_replace_fits(self, rid: i64, n: int) -> bool {
        self.rex@.filter(rex_not_scope_pred(rid)).len() + n <= MAX_ROWS as int && self.next_rex_id
            + n <= i64::MAX as int
    }

    /// Atomically replace one routine's rows: delete them all, then
    /// insert the batch, which the caller has validated; an empty batch
    /// just clears the template. A refusal leaves every row in place; a
    /// batch naming one exercise twice is refused the way the persisted
    /// unique key refuses it.
    pub fn replace_routine_exercises(
        &mut self,
        routine_id: i64,
        exercises: Vec<RoutineExercise>,
    ) -> (r: Result<(), StoreError>)
        requires
            old(self).wf(),
            forall|i: int| 0 <= i < exercises@.len() ==> (#[trigger] exercises@[i]).routine_id == routine_id,
            exercises@.len() > 0 ==> contiguous_from_one(group_set(rex_groups(exercises@))),
        ensures
            final(self).wf(),
            r is Ok <==> old(self).rex_replace_fits(routine_id, exercises@.len() as int)
                && !batch_pair_clash(exercises@),
            final(self).routines@ == old(self).routines@,
            final(self).next_routine_id == old(self).next_routine_id,
            match r {
                Ok(()) => {
                    &&& final(self).rex@ == old(self).rex@.filter(rex_not_scope_pred(routine_id))
                        + rex_stamp_all(exercises@, old(self).next_rex_id as int)
                    &&& final(self).next_rex_id == old(self).next_rex_id + exercises@.len()
                    &&& final(self).template(routine_id) == rex_stamp_all(
                        exercises@,
                        old(self).next_rex_id as int,
                    )
                    &&& contiguous_from_one(final(self).template_groups_set(routine_id))
                },
                Err(e) => e == StoreError::Storage && *final(self) == *old(self),
            },
    {
        let ghost pred = rex_not_scope_pred(routine_id);
        let n = exercises.len();
        let mut clash = false;
        let mut a: usize = 0;
        while a < exercises.len()
            invariant
                0 <= a <= exercises@.len(),
                !clash,
                *self == *old(self),
                old(self).wf(),
                forall|i: int, j: int|
                    0 <= i < j < exercises@.len() && j < a ==> (#[trigger] exercises@[i])
                        .exercise_id != (#[trigger] exercises@[j]).exercise_id,
            decreases exercises@.len() - a,
        {
            let mut b: usize = 0;
            while b < a
                invariant
                    0 <= b <= a < exercises@.len(),
                    !clash,
                    *self == *old(self),
                    old(self).wf(),
                    forall|j: int|
                        0 <= j < b ==> (#[trigger] exercises@[j]).exercise_id != exercises@[a as int].exercise_id,
                decreases a - b,
            {
                if exercises[b].exercise_id == exercises[a].exercise_id {
                    proof {
                        assert(batch_pair_clash(exercises@));
                    }
                    return Err(StoreError::Storage);
                }
                b = b + 1;
            }
            a = a + 1;
        }
        proof {
            if batch_pair_clash(exercises@) {
                let (i, j): (int, int) = choose|i: int, j: int|
                    0 <= i < j < exercises@.len() && (#[trigger] exercises@[i]).exercise_id == (
                    #[trigger] exercises@[j]).exercise_id;
            }
        }
        let kept = self.surviving_rex(routine_id);
        proof {
            self.lemma_rex_kept_wf(pred);
        }
        if n > MAX_ROWS || kept.len() > MAX_ROWS - n || self.next_rex_id > i64::MAX - (n as i64) {
            return Err(StoreError::Storage);
        }
        self.rex = kept;
        proof {
            assert forall|i: int| 0 <= i < exercises@.len() implies !pair_taken(
                self.rex@,
                (#[trigger] exercises@[i]).routine_id,
                exercises@[i].exercise_id,
            ) by {
                if pair_taken(self.rex@, exercises@[i].routine_id, exercises@[i].exercise_id) {
                    let w = choose|w: int|
                        0 <= w < self.rex@.len() && (#[trigger] self.rex@[w]).routine_id
                            == exercises@[i].routine_id && self.rex@[w].exercise_id
                            == exercises@[i].exercise_id;
                }
            }
        }
        self.append_rex(exercises);
        proof {
            let fin = self.rex@;
            let kept_part = old(self).rex@.filter(pred);
            let new_part = rex_stamp_all(exercises@, old(self).next_rex_id as int);
            assert(fin == kept_part + new_part);
            Seq::filter_distributes_over_add(kept_part, new_part, rex_scope_pred(routine_id));
            lemma_filter_none(kept_part, rex_scope_pred(routine_id));
            assert forall|k: int| 0 <= k < new_part.len() implies rex_scope_pred(routine_id)(
                #[trigger] new_part[k],
            ) by {
                assert(new_part[k] == rex_stamped(
                    exercises@[k],
                    (old(self).next_rex_id + k) as i64,
                ));
            }
            lemma_filter_all(new_part, rex_scope_pred(routine_id));
            assert(fin.filter(rex_scope_pred(routine_id)) =~= new_part);
            assert(rex_groups(new_part) =~= rex_groups(exercises@)) by {
                assert forall|k: int| 0 <= k < new_part.len() implies rex_groups(new_part)[k]
                    == rex_groups(exercises@)[k] by {
                    assert(new_part[k] == rex_stamped(
                        exercises@[k],
                        (old(self).next_rex_id + k) as i64,
                    ));
                    assert(rex_groups(new_part)[k] == reff_group(new_part[k]));
                    assert(rex_groups(exercises@)[k] == reff_group(exercises@[k]));
                    assert(reff_group(rex_stamped(exercises@[k], (old(self).next_rex_id
                        + k) as i64)) == reff_group(exercises@[k]));
                }
            }
            if exercises@.len() == 0 {
                assert(group_set(rex_groups(new_part)) =~= Set::<int>::empty());
            }
        }
        Ok(())
    }

    /// The distinct group numbers of one routine, in first-appearance
    /// order; the store is untouched.
    fn distinct_template_groups(&self, routine_id: i64) -> (dv: Vec<i64>)
        requires
            self.wf(),
        ensures
            forall|a: int, b: int| 0 <= a < b < dv@.len() ==> dv@[a] != dv@[b],
            group_set(dv@) == self.template_groups_set(routine_id),
            dv@.len() <= self.rex@.len(),
    {
        let ghost pred = rex_scope_pred(routine_id);
        let mut dv: Vec<i64> = Vec::new();
        let mut i: usize = 0;
        while i < self.rex.len()
            invariant
                0 <= i <= self.rex@.len(),
                self.wf(),
                pred == rex_scope_pred(routine_id),
                forall|a: int, b: int| 0 <= a < b < dv@.len() ==> dv@[a] != dv@[b],
                group_set(dv@) == group_set(rex_groups(self.rex@.take(i as int).filter(pred))),
                dv@.len() <= i,
            decreases self.rex@.len() - i,
        {
            let row = &self.rex[i];
            let ghost old_dv = dv@;
            let ghost prefix_groups = rex_groups(self.rex@.take(i as int).filter(pred));
            if row.routine_id == routine_id {
                let g = match row.group_number {
                    Some(v) => v,
                    None => 1,
                };
                if !crate::groups::vec_contains(&dv, g) {
                    dv.push(g);
                }
                proof {
                    if old_dv.contains(g) {
                        lemma_group_set_has(old_dv, g);
                        assert(group_set(old_dv).insert(g as int) =~= group_set(old_dv));
                    } else {
                        assert(dv@.drop_last() == old_dv);
                        assert(group_set(dv@) == group_set(old_dv).insert(g as int));
                        assert forall|a: int, b: int| 0 <= a < b < dv@.len() implies dv@[a]
                            != dv@[b] by {
                            if b == dv@.len() - 1 {
                                assert(dv@[a] == old_dv[a]);
                                assert(!old_dv.contains(g));
                            }
                        }
                    }
                }
            }
            proof {
                lemma_take_push(self.rex@, i as int);
                lemma_filter_push(self.rex@.take(i as int), self.rex@[i as int], pred);
                if pred(self.rex@[i as int]) {
                    lemma_map_push(
                        self.rex@.take(i as int).filter(pred),
                        self.rex@[i as int],
                        reff_group_fn(),
                    );
                    let next_groups = rex_groups(self.rex@.take(i + 1).filter(pred));
                    assert(next_groups == prefix_groups.push(reff_group(self.rex@[i as int])));
                    assert(next_groups.drop_last() == prefix_groups);
                    assert(group_set(next_groups) == group_set(prefix_groups).insert(
                        reff_group(self.rex@[i as int]) as int,
                    ));
                } else {
                    assert(rex_groups(self.rex@.take(i + 1).filter(pred)) == rex_groups(
                        self.rex@.take(i as int).filter(pred),
                    ));
                }
            }
            i = i + 1;
        }
        proof {
            assert(self.rex@.take(self.rex@.len() as int) =~= self.rex@);
        }
        dv
    }

    /// Compact the routine's group numbers to `1..N`, keeping the
    /// relative order of the groups; rows of other routines are
    /// untouched. Run twice in a row, the second call changes nothing.
    pub fn renumber_routine_groups(&mut self, routine_id: i64) -> (r: Result<(), StoreError>)
        requires
            old(self).wf(),
        ensures
            final(self).wf(),
            r is Ok,
            final(self).rex@ == old(self).rex@.map_values(
                rex_renumber_row(routine_id, old(self).template_groups_set(routine_id)),
            ),
            final(self).template_groups(routine_id) == renumber_seq(
                old(self).template_groups(routine_id),
            ),
            contiguous_from_one(final(self).template_groups_set(routine_id)),
            final(self).next_rex_id == old(self).next_rex_id,
            final(self).routines@ == old(self).routines@,
            final(self).next_routine_id == old(self).next_routine_id,
    {
        let ghost s = old(self).template_groups_set(routine_id);
        let ghost f = rex_renumber_row(routine_id, s);
        let dv = self.distinct_template_groups(routine_id);
        let mut out: Vec<RoutineExercise> = Vec::new();
        let mut i: usize = 0;
        while i < self.rex.len()
            invariant
                0 <= i <= self.rex@.len(),
                *self == *old(self),
                self.wf(),
                s == self.template_groups_set(routine_id),
                f == rex_renumber_row(routine_id, s),
                forall|a: int, b: int| 0 <= a < b < dv@.len() ==> dv@[a] != dv@[b],
                group_set(dv@) == s,
                dv@.len() <= self.rex@.len(),
                out@ =~= self.rex@.take(i as int).map_values(f),
            decreases self.rex@.len() - i,
        {
            let row = &self.rex[i];
            if row.routine_id == routine_id {
                let g = match row.group_number {
                    Some(v) => v,
                    None => 1,
                };
                let c = crate::groups::count_below(&dv, g);
                proof {
                    dv@.lemma_filter_len(crate::groups::lt_pred(g));
                    lemma_distinct_count_is_card(dv@, g);
                    assert(c + 1 == rank_in(s, g as int));
                }
                let mut updated = row.clone();
                updated.group_number = Some((c as i64) + 1);
                out.push(updated);
                proof {
                    assert(reff_group(self.rex@[i as int]) == g);
                    assert(out@.last() == f(self.rex@[i as int]));
                }
            } else {
                out.push(row.clone());
            }
            proof {
                lemma_take_push(self.rex@, i as int);
                lemma_map_push(self.rex@.take(i as int), self.rex@[i as int], f);
            }
            i = i + 1;
        }
        proof {
            assert(self.rex@.take(self.rex@.len() as int) =~= self.rex@);
        }
        self.rex = out;
        proof {
            assert forall|k: int| 0 <= k < self.rex@.len() implies (#[trigger] self.rex@[k]).id
                == Some(rid_of(self.rex@[k])) && 1 <= rid_of(self.rex@[k]) < self.next_rex_id by {
                assert(self.rex@[k] == f(old(self).rex@[k]));
            }
            assert forall|k: int, l: int| 0 <= k < l < self.rex@.len() implies rid_of(
                #[trigger] self.rex@[k],
            ) != rid_of(#[trigger] self.rex@[l]) by {
                assert(self.rex@[k] == f(old(self).rex@[k]));
                assert(self.rex@[l] == f(old(self).rex@[l]));
            }
            assert forall|k: int, l: int| 0 <= k < l < self.rex@.len() implies !((
            #[trigger] self.rex@[k]).routine_id == (#[trigger] self.rex@[l]).routine_id
                && self.rex@[k].exercise_id == self.rex@[l].exercise_id) by {
                assert(self.rex@[k] == f(old(self).rex@[k]));
                assert(self.rex@[l] == f(old(self).rex@[l]));
            }
            assert forall|x: RoutineExercise|
                rex_scope_pred(routine_id)(#[trigger] f(x)) == rex_scope_pred(routine_id)(x) by {}
            lemma_filter_map_commute(old(self).rex@, f, rex_scope_pred(routine_id));
            assert(self.template(routine_id) =~= old(self).template(routine_id).map_values(f));
            let old_groups = old(self).template_groups(routine_id);
            old(self).rex@.lemma_filter_len(rex_scope_pred(routine_id));
            assert(old_groups.len() <= MAX_ROWS as int);
            assert(self.template_groups(routine_id) =~= renumber_seq(old_groups)) by {
                lemma_renumber_contiguous(old_groups);
                assert forall|k: int| 0 <= k < old_groups.len() implies self.template_groups(
                    routine_id,
                )[k] == renumber_seq(old_groups)[k] by {
                    let e = old(self).template(routine_id)[k];
                    assert(self.template(routine_id)[k] == f(e));
                    assert(e.routine_id == routine_id) by {
                        old(self).rex@.lemma_filter_pred(rex_scope_pred(routine_id), k);
                    }
                    assert(old_groups[k] == reff_group(e));
                    assert(reff_group(f(e)) == rank_in(s, reff_group(e) as int) as i64);
                    assert(renumber_seq(old_groups)[k] == rank_fn(group_set(old_groups))(
                        old_groups[k],
                    ));
                }
            }
            lemma_renumber_contiguous(old_groups);
        }
        Ok(())
    }
}

/// One page of an already-assembled listing.
fn page_of_routines(all: Vec<Routine>, page: i64, page_size: i64) -> (r: Vec<Routine>)
    requires
        all@.len() <= MAX_ROWS as int,
    ensures
        r@ == crate::paging::page_slice(all@, page as int, page_size as int),
{
    let ghost target = crate::paging::page_slice(all@, page as int, page_size as int);
    if page < 1 || page_size < 1 {
        let empty: Vec<Routine> = Vec::new();
        return empty;
    }
    let n = all.len() as i64;
    let lo64: i64;
    if page == 1 {
        proof {
            assert((page as int - 1) * (page_size as int) == 0) by (nonlinear_arith)
                requires
                    page == 1,
            ;
        }
        lo64 = 0;
    } else if page - 1 > n || page_size > n {
        proof {
            let lo = (page - 1) * (page_size as int);
            assert(lo >= page - 1 && lo >= page_size) by (nonlinear_arith)
                requires
                    page >= 2,
                    page_size >= 1,
                    lo == (page - 1) * (page_size as int),
            ;
            assert(target =~= Seq::<Routine>::empty());
        }
        let empty: Vec<Routine> = Vec::new();
        return empty;
    } else {
        proof {
            assert(0 <= (page - 1) * (page_size as int) <= MAX_ROWS as int * MAX_ROWS as int)
                by (nonlinear_arith)
                requires
                    1 <= page - 1 <= MAX_ROWS as int,
                    1 <= page_size <= MAX_ROWS as int,
            ;
        }
        lo64 = (page - 1) * page_size;
    }
    if lo64 >= n {
        proof {
            assert(target =~= Seq::<Routine>::empty());
        }
        let empty: Vec<Routine> = Vec::new();
        return empty;
    }
    let lo = lo64 as usize;
    let hi: usize = if n - lo64 < page_size {
        all.len()
    } else {
        lo + page_size as usize
    };
    let mut out: Vec<Routine> = Vec::new();
    let mut i: usize = lo;
    while i < hi
        invariant
            0 <= lo <= i <= hi <= all@.len(),
            out@ =~= all@.subrange(lo as int, i as int),
        decreases hi - i,
    {
        out.push(all[i].clone());
        proof {
            assert(all@.subrange(lo as int, i + 1) =~= all@.subrange(lo as int, i as int).push(
                all@[i as int],
            ));
        }
        i = i + 1;
    }
    proof {
        assert(lo64 as int == (page as int - 1) * (page_size as int));
        assert(out@ =~= target);
    }
    out
}

} // verus!
