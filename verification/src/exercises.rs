//! The exercise store and its service: soft-deletable reference data with
//! a unique code. The store refuses an insert or rewrite that would give
//! two rows the same code, the way the persisted unique key does.

use vstd::prelude::*;
use crate::errors::{StoreError, ValidationError};
use crate::models::{Exercise, MAX_ROWS, PaginatedExerciseResponse};
use crate::paging::{page_slice, spec_total_pages, total_pages_for};
use crate::seqs::{
    lemma_filter_distinct_keys, lemma_filter_push, lemma_map_push, lemma_multiset_distinct_keys,
    lemma_sorted_unique_keys, lemma_take_push,
};
use crate::text::{
    blank, contains_ci, is_blank, lemma_lex_antisym, lemma_lex_total, lemma_lex_trans, lex_le,
    str_contains_ci, str_le,
};
use vstd::relations::sorted_by;

verus! {

/// A stored exercise row: a concrete identifier plus the ledger mark —
/// a deletion stamp that orders the deleted listing by recency, absent
/// on a live row.
#[derive(Debug, PartialEq)]
pub struct ExerciseRow {
    pub id: i64,
    pub name: String,
    pub code: String,
    pub deleted_at: Option<i64>,
}

impl Clone for ExerciseRow {
    fn clone(&self) -> (res: Self)
        ensures
            res == *self,
    {
        ExerciseRow {
            id: self.id,
            name: self.name.clone(),
            code: self.code.clone(),
            deleted_at: self.deleted_at,
        }
    }
}

/// The deletion stamp a row carries; a live row counts as the oldest.
pub open spec fn exercise_stamp_of(r: ExerciseRow) -> i64 {
    match r.deleted_at {
        Some(s) => s,
        None => -1i64,
    }
}

/// The exercise a row stands for.
pub open spec fn exercise_of(r: ExerciseRow) -> Exercise {
    Exercise { id: Some(r.id), name: r.name, code: r.code }
}

/// Conversion used by the read paths.
fn to_exercise(r: &ExerciseRow) -> (e: Exercise)
    ensures
        e == exercise_of(*r),
{
    Exercise { id: Some(r.id), name: r.name.clone(), code: r.code.clone() }
}

/// The row survives the default filter.
pub open spec fn live_pred() -> spec_fn(ExerciseRow) -> bool {
    |r: ExerciseRow| r.deleted_at is None
}

/// The row is marked deleted.
pub open spec fn dead_pred() -> spec_fn(ExerciseRow) -> bool {
    |r: ExerciseRow| r.deleted_at is Some
}

/// The row's identifier, for the shared key lemmas.
pub open spec fn exercise_id_fn() -> spec_fn(ExerciseRow) -> i64 {
    |r: ExerciseRow| r.id
}

/// The listing orders: the default listing by name, then identifier;
/// the deleted listing by deletion recency, newest first, then
/// identifier.
pub open spec fn exercise_ord(by_name: bool) -> spec_fn(ExerciseRow, ExerciseRow) -> bool {
    |a: ExerciseRow, b: ExerciseRow|
        if by_name {
            if a.name@ != b.name@ {
                lex_le(a.name@, b.name@)
            } else {
                a.id <= b.id
            }
        } else {
            if exercise_stamp_of(a) != exercise_stamp_of(b) {
                exercise_stamp_of(a) > exercise_stamp_of(b)
            } else {
                a.id <= b.id
            }
        }
}

/// The listing orders relate every pair, compose, and separate rows
/// with different identifiers.
pub proof fn lemma_exercise_ord_props(by_name: bool)
    ensures
        forall|a: ExerciseRow, b: ExerciseRow|
            #[trigger] exercise_ord(by_name)(a, b) || #[trigger] exercise_ord(by_name)(b, a),
        forall|a: ExerciseRow, b: ExerciseRow, c: ExerciseRow|
            #[trigger] exercise_ord(by_name)(a, b) && #[trigger] exercise_ord(by_name)(b, c)
                ==> exercise_ord(by_name)(a, c),
        forall|a: ExerciseRow, b: ExerciseRow|
            #[trigger] exercise_ord(by_name)(a, b) && #[trigger] exercise_ord(by_name)(b, a)
                ==> a.id == b.id,
{
    assert forall|a: ExerciseRow, b: ExerciseRow|
        #[trigger] exercise_ord(by_name)(a, b) || #[trigger] exercise_ord(by_name)(b, a) by {
        lemma_lex_total(a.name@, b.name@);
    }
    assert forall|a: ExerciseRow, b: ExerciseRow, c: ExerciseRow|
        #[trigger] exercise_ord(by_name)(a, b) && #[trigger] exercise_ord(by_name)(b, c) implies
        exercise_ord(by_name)(a, c) by {
        if by_name {
            if lex_le(a.name@, b.name@) && lex_le(b.name@, a.name@) {
                lemma_lex_antisym(a.name@, b.name@);
            }
            if lex_le(b.name@, c.name@) && lex_le(c.name@, b.name@) {
                lemma_lex_antisym(b.name@, c.name@);
            }
            if lex_le(a.name@, b.name@) && lex_le(b.name@, c.name@) {
                lemma_lex_trans(a.name@, b.name@, c.name@);
            }
            if lex_le(a.name@, c.name@) && lex_le(c.name@, a.name@) {
                lemma_lex_antisym(a.name@, c.name@);
            }
        }
    }
    assert forall|a: ExerciseRow, b: ExerciseRow|
        #[trigger] exercise_ord(by_name)(a, b) && #[trigger] exercise_ord(by_name)(b, a) implies
        a.id == b.id by {
        if by_name {
            if lex_le(a.name@, b.name@) && lex_le(b.name@, a.name@) {
                lemma_lex_antisym(a.name@, b.name@);
            }
        }
    }
}

/// The executable listing comparison.
fn exercise_le_exec(a: &ExerciseRow, b: &ExerciseRow, by_name: bool) -> (r: bool)
    ensures
        r == exercise_ord(by_name)(*a, *b),
{
    if by_name {
        if !crate::text::str_eq(a.name.as_str(), b.name.as_str()) {
            str_le(a.name.as_str(), b.name.as_str())
        } else {
            a.id <= b.id
        }
    } else {
        let sa = match a.deleted_at {
            Some(s) => s,
            None => -1,
        };
        let sb = match b.deleted_at {
            Some(s) => s,
            None => -1,
        };
        if sa != sb {
            sa > sb
        } else {
            a.id <= b.id
        }
    }
}

/// Sort rows by a listing order; the result holds exactly the given
/// rows.
fn sort_exercise_rows(v: Vec<ExerciseRow>, by_name: bool) -> (r: Vec<ExerciseRow>)
    ensures
        sorted_by(r@, exercise_ord(by_name)),
        r@.to_multiset() == v@.to_multiset(),
{
    broadcast use vstd::seq_lib::group_to_multiset_ensures;
    broadcast use vstd::multiset::group_multiset_axioms;

    proof {
        lemma_exercise_ord_props(by_name);
    }
    let ghost leq = exercise_ord(by_name);
    let mut src = v;
    let mut out: Vec<ExerciseRow> = Vec::new();
    while src.len() > 0
        invariant
            leq == exercise_ord(by_name),
            forall|a: ExerciseRow, b: ExerciseRow| #[trigger] leq(a, b) || #[trigger] leq(b, a),
            forall|a: ExerciseRow, b: ExerciseRow, c: ExerciseRow|
                #[trigger] leq(a, b) && #[trigger] leq(b, c) ==> leq(a, c),
            forall|i: int, j: int|
                0 <= i < j < out@.len() ==> leq(#[trigger] out@[i], #[trigger] out@[j]),
            out@.to_multiset().add(src@.to_multiset()) =~= v@.to_multiset(),
            forall|i: int, j: int|
                0 <= i < out@.len() && 0 <= j < src@.len() ==> leq(
                    #[trigger] out@[i],
                    #[trigger] src@[j],
                ),
        decreases src@.len(),
    {
        let mut min_i: usize = 0;
        let mut k: usize = 1;
        while k < src.len()
            invariant
                leq == exercise_ord(by_name),
                forall|a: ExerciseRow, b: ExerciseRow| #[trigger] leq(a, b) || #[trigger] leq(
                    b,
                    a,
                ),
                forall|a: ExerciseRow, b: ExerciseRow, c: ExerciseRow|
                    #[trigger] leq(a, b) && #[trigger] leq(b, c) ==> leq(a, c),
                0 <= min_i < src@.len(),
                min_i < k <= src@.len(),
                forall|j: int| 0 <= j < k ==> leq(src@[min_i as int], #[trigger] src@[j]),
            decreases src@.len() - k,
        {
            if !exercise_le_exec(&src[min_i], &src[k], by_name) {
                proof {
                    assert(leq(src@[k as int], src@[min_i as int]));
                    assert forall|j: int| 0 <= j < k + 1 implies leq(
                        src@[k as int],
                        #[trigger] src@[j],
                    ) by {
                        if j < k {
                            assert(leq(src@[min_i as int], src@[j]));
                        }
                    }
                }
                min_i = k;
            }
            k = k + 1;
        }
        proof {
            assert(leq(src@[min_i as int], src@[min_i as int]));
        }
        let ghost old_src = src@;
        let ghost old_out = out@;
        let picked = src.remove(min_i);
        out.push(picked);
        proof {
            assert(old_src[min_i as int] == picked);
            vstd::seq_lib::to_multiset_remove(old_src, min_i as int);
            assert(src@.to_multiset() =~= old_src.to_multiset().remove(picked));
            assert(out@ == old_out.push(picked));
            vstd::seq_lib::to_multiset_build(old_out, picked);
            assert(out@.to_multiset() =~= old_out.to_multiset().insert(picked));
            vstd::seq_lib::to_multiset_contains(old_src, picked);
            assert(old_src.to_multiset().count(picked) > 0);
            assert(out@.to_multiset().add(src@.to_multiset()) =~= v@.to_multiset()) by {
                assert forall|x: ExerciseRow|
                    #[trigger] out@.to_multiset().count(x) + src@.to_multiset().count(x) == v@
                        .to_multiset().count(x) by {
                    assert(old_out.to_multiset().count(x) + old_src.to_multiset().count(x) == v@
                        .to_multiset().count(x));
                }
            }
            assert forall|i: int, j: int|
                0 <= i < out@.len() && 0 <= j < src@.len() implies leq(
                #[trigger] out@[i],
                #[trigger] src@[j],
            ) by {
                let srcj = src@[j];
                if j < min_i {
                    assert(srcj == old_src[j]);
                } else {
                    assert(srcj == old_src[j + 1]);
                }
                if i < old_out.len() {
                    assert(out@[i] == old_out[i]);
                } else {
                    assert(out@[i] == picked);
                }
            }
            assert forall|i: int, j: int| 0 <= i < j < out@.len() implies leq(
                #[trigger] out@[i],
                #[trigger] out@[j],
            ) by {
                if j < out@.len() - 1 {
                    assert(leq(old_out[i], old_out[j]));
                } else {
                    assert(out@[j] == picked);
                    assert(leq(old_out[i], old_src[min_i as int]));
                }
            }
        }
    }
    proof {
        assert(src@.to_multiset() =~= vstd::multiset::Multiset::<ExerciseRow>::empty());
        assert(out@.to_multiset() =~= v@.to_multiset());
    }
    out
}

/// The one arrangement of a row set in a listing order.
pub open spec fn arranged_exercises(rows: Seq<ExerciseRow>, by_name: bool) -> Seq<ExerciseRow> {
    choose|q: Seq<ExerciseRow>|
        sorted_by(q, exercise_ord(by_name)) && #[trigger] q.to_multiset() == rows.to_multiset()
}

/// The one sorted arrangement of a distinct-identifier row set is
/// whatever sorted, row-preserving sequence one exhibits.
proof fn lemma_exercises_arranged(base: Seq<ExerciseRow>, sorted: Seq<ExerciseRow>, by_name: bool)
    requires
        sorted_by(sorted, exercise_ord(by_name)),
        sorted.to_multiset() == base.to_multiset(),
        forall|i: int, j: int|
            0 <= i < j < base.len() ==> exercise_id_fn()(#[trigger] base[i]) != exercise_id_fn()(
                #[trigger] base[j],
            ),
    ensures
        arranged_exercises(base, by_name) == sorted,
{
    lemma_exercise_ord_props(by_name);
    let q0 = arranged_exercises(base, by_name);
    assert(sorted_by(q0, exercise_ord(by_name)) && q0.to_multiset() == base.to_multiset()) by {
        assert(exists|q: Seq<ExerciseRow>|
            sorted_by(q, exercise_ord(by_name)) && #[trigger] q.to_multiset()
                == base.to_multiset());
    }
    lemma_multiset_distinct_keys(base, sorted, exercise_id_fn());
    assert forall|a: ExerciseRow, b: ExerciseRow|
        #[trigger] exercise_ord(by_name)(a, b) && #[trigger] exercise_ord(by_name)(b, a) implies
        exercise_id_fn()(a) == exercise_id_fn()(b) by {}
    lemma_sorted_unique_keys(sorted, q0, exercise_ord(by_name), exercise_id_fn());
}

/// The exercises a row list stands for, in order.
fn rows_to_exercises(v: &Vec<ExerciseRow>) -> (r: Vec<Exercise>)
    ensures
        r@ == v@.map_values(exercise_fn()),
{
    let mut out: Vec<Exercise> = Vec::new();
    let mut i: usize = 0;
    while i < v.len()
        invariant
            0 <= i <= v@.len(),
            out@ =~= v@.take(i as int).map_values(exercise_fn()),
        decreases v@.len() - i,
    {
        out.push(to_exercise(&v[i]));
        proof {
            lemma_take_push(v@, i as int);
            lemma_map_push(v@.take(i as int), v@[i as int], exercise_fn());
        }
        i = i + 1;
    }
    proof {
        assert(v@.take(v@.len() as int) =~= v@);
    }
    out
}

/// Row-to-exercise conversion as a value.
pub open spec fn exercise_fn() -> spec_fn(ExerciseRow) -> Exercise {
    |r: ExerciseRow| exercise_of(r)
}

/// The row is live and its name or code contains the query, case folded.
pub open spec fn match_pred(q: Seq<char>) -> spec_fn(ExerciseRow) -> bool {
    |r: ExerciseRow| r.deleted_at is None && (contains_ci(r.name@, q) || contains_ci(r.code@, q))
}

/// Some row already carries this code, soft-deleted rows included.
pub open spec fn code_taken(rows: Seq<ExerciseRow>, code: Seq<char>) -> bool {
    exists|i: int| 0 <= i < rows.len() && #[trigger] rows[i].code@ == code
}

/// The effect of an update request on one row.
pub open spec fn apply_exercise_update(e: Exercise) -> spec_fn(ExerciseRow) -> ExerciseRow {
    |r: ExerciseRow|
        if e.id == Some(r.id) {
            ExerciseRow { id: r.id, name: e.name, code: e.code, deleted_at: r.deleted_at }
        } else {
            r
        }
}

/// The effect of a soft delete on one row: the named row takes the
/// given deletion stamp.
pub open spec fn apply_delete(id: i64, stamp: i64) -> spec_fn(ExerciseRow) -> ExerciseRow {
    |r: ExerciseRow|
        if r.id == id {
            ExerciseRow { id: r.id, name: r.name, code: r.code, deleted_at: Some(stamp) }
        } else {
            r
        }
}

/// The effect of a restore on one row: the named row's mark is cleared.
pub open spec fn apply_restore(id: i64) -> spec_fn(ExerciseRow) -> ExerciseRow {
    |r: ExerciseRow|
        if r.id == id {
            ExerciseRow { id: r.id, name: r.name, code: r.code, deleted_at: None }
        } else {
            r
        }
}

/// Rewriting the row the request names would duplicate another row's code.
pub open spec fn update_conflict(rows: Seq<ExerciseRow>, e: Exercise) -> bool {
    exists|i: int, j: int|
        0 <= i < rows.len() && 0 <= j < rows.len() && e.id == Some(#[trigger] rows[i].id)
            && (#[trigger] rows[j].id) != rows[i].id && rows[j].code@ == e.code@
}

/// The exercise table; the clock numbers deletions so the deleted
/// listing can order them by recency.
#[derive(Debug)]
pub struct ExerciseStore {
    pub rows: Vec<ExerciseRow>,
    pub next_id: i64,
    pub clock: i64,
}

impl ExerciseStore {
    /// Identifiers are positive, below the next free one, and distinct;
    /// deletion stamps lie below the clock and are distinct; the row
    /// count stays within capacity.
    pub open spec fn wf(self) -> bool {
        &&& 1 <= self.next_id
        &&& 0 <= self.clock < i64::MAX as int
        &&& self.rows@.len() <= MAX_ROWS as int
        &&& forall|i: int|
            0 <= i < self.rows@.len() ==> 1 <= #[trigger] self.rows@[i].id < self.next_id
        &&& forall|i: int, j: int|
            0 <= i < j < self.rows@.len() ==> #[trigger] self.rows@[i].id
                != #[trigger] self.rows@[j].id
        &&& forall|i: int|
            0 <= i < self.rows@.len() && (#[trigger] self.rows@[i]).deleted_at is Some ==> 0
                <= self.rows@[i].deleted_at->0 < self.clock
        &&& forall|i: int, j: int|
            0 <= i < j < self.rows@.len() && (#[trigger] self.rows@[i]).deleted_at is Some && (
            #[trigger] self.rows@[j]).deleted_at is Some ==> self.rows@[i].deleted_at->0
                != self.rows@[j].deleted_at->0
    }

    /// The rows the default listings show.
    pub open spec fn active(self) -> Seq<ExerciseRow> {
        self.rows@.filter(live_pred())
    }

    /// The soft-deleted rows.
    pub open spec fn deleted_rows(self) -> Seq<ExerciseRow> {
        self.rows@.filter(dead_pred())
    }

    /// The store has room for one more row.
    pub open spec fn has_capacity(self) -> bool {
        self.rows@.len() < MAX_ROWS as int && self.next_id < i64::MAX as int
    }

    /// An empty table.
    pub fn new() -> (s: ExerciseStore)
        ensures
            s.wf(),
            s.rows@ =~= Seq::<ExerciseRow>::empty(),
            s.next_id == 1,
    {
        ExerciseStore { rows: Vec::new(), next_id: 1, clock: 0 }
    }

    /// Whether any row, soft-deleted ones included, carries this code.
    fn code_in_use(&self, code: &String) -> (r: bool)
        ensures
            r == code_taken(self.rows@, code@),
    {
        let mut i: usize = 0;
        while i < self.rows.len()
            invariant
                0 <= i <= self.rows@.len(),
                forall|j: int| 0 <= j < i ==> #[trigger] self.rows@[j].code@ != code@,
            decreases self.rows@.len() - i,
        {
            if self.rows[i].code == *code {
                return true;
            }
            i = i + 1;
        }
        false
    }

    /// The row carrying an identifier, if any; soft-deleted rows are
    /// found too, so historical references stay resolvable.
    pub open spec fn lookup(self, id: i64) -> Option<ExerciseRow> {
        if exists|i: int| 0 <= i < self.rows@.len() && (#[trigger] self.rows@[i]).id == id {
            Some(
                self.rows@[choose|i: int|
                    0 <= i < self.rows@.len() && (#[trigger] self.rows@[i]).id == id],
            )
        } else {
            None
        }
    }

    /// Look an exercise up by identifier, soft-deleted rows included.
    pub fn get_by_id(&self, id: i64) -> (r: Option<Exercise>)
        requires
            self.wf(),
        ensures
            r == match self.lookup(id) {
                Some(row) => Some(exercise_of(row)),
                None => None::<Exercise>,
            },
    {
        let mut i: usize = 0;
        while i < self.rows.len()
            invariant
                self.wf(),
                0 <= i <= self.rows@.len(),
                forall|j: int| 0 <= j < i ==> #[trigger] self.rows@[j].id != id,
            decreases self.rows@.len() - i,
        {
            if self.rows[i].id == id {
                proof {
                    let c = choose|k: int|
                        0 <= k < self.rows@.len() && (#[trigger] self.rows@[k]).id == id;
                    if c != i {
                        assert(self.rows@[c].id != self.rows@[i as int].id);
                    }
                }
                return Some(to_exercise(&self.rows[i]));
            }
            i = i + 1;
        }
        None
    }

    /// Insert an exercise as a fresh live row; the request's identifier
    /// is ignored, a new one is assigned, and a taken code is refused.
    pub fn create(&mut self, exercise: Exercise) -> (r: Result<(), StoreError>)
        requires
            old(self).wf(),
        ensures
            final(self).wf(),
            r is Ok <==> old(self).has_capacity() && !code_taken(
                old(self).rows@,
                exercise.code@,
            ),
            match r {
                Ok(()) => {
                    &&& final(self).rows@ == old(self).rows@.push(
                        ExerciseRow {
                            id: old(self).next_id,
                            name: exercise.name,
                            code: exercise.code,
                            deleted_at: None,
                        },
                    )
                    &&& final(self).next_id == old(self).next_id + 1
                },
                Err(e) => e == StoreError::Storage && *final(self) == *old(self),
            },
    {
        if self.code_in_use(&exercise.code) {
            return Err(StoreError::Storage);
        }
        if self.rows.len() >= MAX_ROWS || self.next_id == i64::MAX {
            return Err(StoreError::Storage);
        }
        let row = ExerciseRow {
            id: self.next_id,
            name: exercise.name,
            code: exercise.code,
            deleted_at: None,
        };
        self.rows.push(row);
        self.next_id = self.next_id + 1;
        Ok(())
    }

    /// Rewrite the fields of the row the request names, if it exists and
    /// the new code is not another row's; the ledger mark is untouched.
    pub fn update(&mut self, exercise: Exercise) -> (r: Result<(), StoreError>)
        requires
            old(self).wf(),
        ensures
            final(self).wf(),
            r is Ok <==> !update_conflict(old(self).rows@, exercise),
            final(self).next_id == old(self).next_id,
            match r {
                Ok(()) => final(self).rows@ == old(self).rows@.map_values(
                    apply_exercise_update(exercise),
                ),
                Err(e) => e == StoreError::Storage && *final(self) == *old(self),
            },
    {
        let ghost f = apply_exercise_update(exercise);
        let target: Option<i64> = match exercise.id {
            Some(tid) => {
                if find_index(&self.rows, tid).is_some() {
                    Some(tid)
                } else {
                    None
                }
            },
            None => None,
        };
        match target {
            None => {
                proof {
                    assert forall|i: int| 0 <= i < self.rows@.len() implies f(self.rows@[i])
                        == self.rows@[i] by {}
                    assert(self.rows@.map_values(f) =~= self.rows@);
                    if update_conflict(self.rows@, exercise) {
                        let (i, j): (int, int) = choose|i: int, j: int|
                            0 <= i < self.rows@.len() && 0 <= j < self.rows@.len() && exercise.id
                                == Some(#[trigger] self.rows@[i].id) && (
                            #[trigger] self.rows@[j].id) != self.rows@[i].id && self.rows@[j].code@
                                == exercise.code@;
                    }
                }
                Ok(())
            },
            Some(tid) => {
                let ghost tgt = choose|i: int|
                    0 <= i < self.rows@.len() && #[trigger] self.rows@[i].id == tid;
                let mut j: usize = 0;
                while j < self.rows.len()
                    invariant
                        *self == *old(self),
                        old(self).wf(),
                        0 <= j <= self.rows@.len(),
                        0 <= tgt < self.rows@.len(),
                        self.rows@[tgt].id == tid,
                        exercise.id == Some(tid),
                        forall|k: int|
                            0 <= k < j ==> !((#[trigger] self.rows@[k].id) != tid
                                && self.rows@[k].code@ == exercise.code@),
                    decreases self.rows@.len() - j,
                {
                    if self.rows[j].id != tid && self.rows[j].code == exercise.code {
                        proof {
                            assert(update_conflict(self.rows@, exercise));
                        }
                        return Err(StoreError::Storage);
                    }
                    j = j + 1;
                }
                proof {
                    if update_conflict(self.rows@, exercise) {
                        let (a, b): (int, int) = choose|a: int, b: int|
                            0 <= a < self.rows@.len() && 0 <= b < self.rows@.len() && exercise.id
                                == Some(#[trigger] self.rows@[a].id) && (
                            #[trigger] self.rows@[b].id) != self.rows@[a].id && self.rows@[b].code@
                                == exercise.code@;
                        assert(self.rows@[a].id == tid);
                    }
                }
                let mut out: Vec<ExerciseRow> = Vec::new();
                let mut i: usize = 0;
                while i < self.rows.len()
                    invariant
                        *self == *old(self),
                        old(self).wf(),
                        exercise.id == Some(tid),
                        f == apply_exercise_update(exercise),
                        0 <= i <= self.rows@.len(),
                        out@ =~= self.rows@.take(i as int).map_values(f),
                    decreases self.rows@.len() - i,
                {
                    let row = &self.rows[i];
                    if row.id == tid {
                        out.push(
                            ExerciseRow {
                                id: row.id,
                                name: exercise.name.clone(),
                                code: exercise.code.clone(),
                                deleted_at: row.deleted_at,
                            },
                        );
                    } else {
                        out.push(row.clone());
                    }
                    proof {
                        lemma_take_push(self.rows@, i as int);
                        lemma_map_push(self.rows@.take(i as int), self.rows@[i as int], f);
                    }
                    i = i + 1;
                }
                proof {
                    assert(self.rows@.take(self.rows@.len() as int) =~= self.rows@);
                }
                self.rows = out;
                proof {
                    assert forall|i: int| 0 <= i < self.rows@.len() implies 1
                        <= #[trigger] self.rows@[i].id < self.next_id by {
                        assert(self.rows@[i] == f(old(self).rows@[i]));
                    }
                    assert forall|i: int, j: int| 0 <= i < j < self.rows@.len() implies (
                    #[trigger] self.rows@[i].id) != (#[trigger] self.rows@[j].id) by {
                        assert(self.rows@[i] == f(old(self).rows@[i]));
                        assert(self.rows@[j] == f(old(self).rows@[j]));
                    }
                }
                Ok(())
            },
        }
    }


    /// Soft delete: stamp the row with the deletion clock; the data
    /// stays. Every delete advances the clock, so stamps order the
    /// deletions.
    pub fn delete(&mut self, id: i64) -> (r: Result<(), StoreError>)
        requires
            old(self).wf(),
        ensures
            final(self).wf(),
            r is Ok <==> old(self).clock + 1 < i64::MAX as int,
            match r {
                Ok(()) => {
                    &&& final(self).next_id == old(self).next_id
                    &&& final(self).clock == old(self).clock + 1
                    &&& final(self).rows@ == old(self).rows@.map_values(
                        apply_delete(id, old(self).clock),
                    )
                },
                Err(e) => e == StoreError::Storage && *final(self) == *old(self),
            },
    {
        if self.clock >= i64::MAX - 1 {
            return Err(StoreError::Storage);
        }
        let stamp = self.clock;
        let ghost f = apply_delete(id, stamp);
        let mut out: Vec<ExerciseRow> = Vec::new();
        let mut i: usize = 0;
        while i < self.rows.len()
            invariant
                0 <= i <= self.rows@.len(),
                f == apply_delete(id, stamp),
                stamp == self.clock,
                out@ =~= self.rows@.take(i as int).map_values(f),
            decreases self.rows@.len() - i,
        {
            let row = &self.rows[i];
            if row.id == id {
                let mut updated = row.clone();
                updated.deleted_at = Some(stamp);
                out.push(updated);
            } else {
                out.push(row.clone());
            }
            proof {
                lemma_take_push(self.rows@, i as int);
                lemma_map_push(self.rows@.take(i as int), self.rows@[i as int], f);
            }
            i = i + 1;
        }
        proof {
            assert(self.rows@.take(self.rows@.len() as int) =~= self.rows@);
        }
        self.rows = out;
        self.clock = self.clock + 1;
        proof {
            assert forall|i: int| 0 <= i < self.rows@.len() implies 1 <= #[trigger] self.rows@[i].id
                < self.next_id by {
                assert(self.rows@[i] == f(old(self).rows@[i]));
            }
            assert forall|i: int, j: int| 0 <= i < j < self.rows@.len() implies (
            #[trigger] self.rows@[i].id) != (#[trigger] self.rows@[j].id) by {
                assert(self.rows@[i] == f(old(self).rows@[i]));
                assert(self.rows@[j] == f(old(self).rows@[j]));
            }
            assert forall|i: int|
                0 <= i < self.rows@.len() && (#[trigger] self.rows@[i]).deleted_at is Some
                implies 0 <= self.rows@[i].deleted_at->0 < self.clock by {
                assert(self.rows@[i] == f(old(self).rows@[i]));
            }
            assert forall|i: int, j: int|
                0 <= i < j < self.rows@.len() && (#[trigger] self.rows@[i]).deleted_at is Some
                && (#[trigger] self.rows@[j]).deleted_at is Some implies
                self.rows@[i].deleted_at->0 != self.rows@[j].deleted_at->0 by {
                assert(self.rows@[i] == f(old(self).rows@[i]));
                assert(self.rows@[j] == f(old(self).rows@[j]));
            }
        }
        Ok(())
    }

    /// Clear the mark set by a soft delete.
    pub fn restore(&mut self, id: i64) -> (r: Result<(), StoreError>)
        requires
            old(self).wf(),
        ensures
            final(self).wf(),
            r is Ok,
            final(self).next_id == old(self).next_id,
            final(self).clock == old(self).clock,
            final(self).rows@ == old(self).rows@.map_values(apply_restore(id)),
    {
        let ghost f = apply_restore(id);
        let mut out: Vec<ExerciseRow> = Vec::new();
        let mut i: usize = 0;
        while i < self.rows.len()
            invariant
                0 <= i <= self.rows@.len(),
                f == apply_restore(id),
                out@ =~= self.rows@.take(i as int).map_values(f),
            decreases self.rows@.len() - i,
        {
            let row = &self.rows[i];
            if row.id == id {
                let mut updated = row.clone();
                updated.deleted_at = None;
                out.push(updated);
            } else {
                out.push(row.clone());
            }
            proof {
                lemma_take_push(self.rows@, i as int);
                lemma_map_push(self.rows@.take(i as int), self.rows@[i as int], f);
            }
            i = i + 1;
        }
        proof {
            assert(self.rows@.take(self.rows@.len() as int) =~= self.rows@);
        }
        self.rows = out;
        proof {
            assert forall|i: int| 0 <= i < self.rows@.len() implies 1 <= #[trigger] self.rows@[i].id
                < self.next_id by {
                assert(self.rows@[i] == f(old(self).rows@[i]));
            }
            assert forall|i: int, j: int| 0 <= i < j < self.rows@.len() implies (
            #[trigger] self.rows@[i].id) != (#[trigger] self.rows@[j].id) by {
                assert(self.rows@[i] == f(old(self).rows@[i]));
                assert(self.rows@[j] == f(old(self).rows@[j]));
            }
            assert forall|i: int|
                0 <= i < self.rows@.len() && (#[trigger] self.rows@[i]).deleted_at is Some
                implies 0 <= self.rows@[i].deleted_at->0 < self.clock by {
                assert(self.rows@[i] == f(old(self).rows@[i]));
            }
            assert forall|i: int, j: int|
                0 <= i < j < self.rows@.len() && (#[trigger] self.rows@[i]).deleted_at is Some
                && (#[trigger] self.rows@[j]).deleted_at is Some implies
                self.rows@[i].deleted_at->0 != self.rows@[j].deleted_at->0 by {
                assert(self.rows@[i] == f(old(self).rows@[i]));
                assert(self.rows@[j] == f(old(self).rows@[j]));
            }
        }
        Ok(())
    }

    /// The rows the default listing shows, cloned, in store order.
    fn live_rows(&self) -> (r: Vec<ExerciseRow>)
        requires
            self.wf(),
        ensures
            r@ == self.active(),
    {
        let mut out: Vec<ExerciseRow> = Vec::new();
        let mut i: usize = 0;
        while i < self.rows.len()
            invariant
                0 <= i <= self.rows@.len(),
                out@ =~= self.rows@.take(i as int).filter(live_pred()),
            decreases self.rows@.len() - i,
        {
            let row = &self.rows[i];
            if row.deleted_at.is_none() {
                out.push(row.clone());
            }
            proof {
                lemma_take_push(self.rows@, i as int);
                lemma_filter_push(self.rows@.take(i as int), self.rows@[i as int], live_pred());
            }
            i = i + 1;
        }
        proof {
            assert(self.rows@.take(self.rows@.len() as int) =~= self.rows@);
        }
        out
    }

    /// The soft-deleted rows, cloned, in store order.
    fn dead_rows(&self) -> (r: Vec<ExerciseRow>)
        requires
            self.wf(),
        ensures
            r@ == self.deleted_rows(),
    {
        let mut out: Vec<ExerciseRow> = Vec::new();
        let mut i: usize = 0;
        while i < self.rows.len()
            invariant
                0 <= i <= self.rows@.len(),
                out@ =~= self.rows@.take(i as int).filter(dead_pred()),
            decreases self.rows@.len() - i,
        {
            let row = &self.rows[i];
            if row.deleted_at.is_some() {
                out.push(row.clone());
            }
            proof {
                lemma_take_push(self.rows@, i as int);
                lemma_filter_push(self.rows@.take(i as int), self.rows@[i as int], dead_pred());
            }
            i = i + 1;
        }
        proof {
            assert(self.rows@.take(self.rows@.len() as int) =~= self.rows@);
        }
        out
    }

    /// The live rows the search would show, cloned, in store order.
    fn matching_rows(&self, query: &str) -> (r: Vec<ExerciseRow>)
        requires
            self.wf(),
        ensures
            r@ == self.rows@.filter(match_pred(query@)),
    {
        let ghost pred = match_pred(query@);
        let mut out: Vec<ExerciseRow> = Vec::new();
        let mut i: usize = 0;
        while i < self.rows.len()
            invariant
                0 <= i <= self.rows@.len(),
                pred == match_pred(query@),
                out@ =~= self.rows@.take(i as int).filter(pred),
            decreases self.rows@.len() - i,
        {
            let row = &self.rows[i];
            let hit = row.deleted_at.is_none() && (str_contains_ci(row.name.as_str(), query)
                || str_contains_ci(row.code.as_str(), query));
            if hit {
                out.push(row.clone());
            }
            proof {
                lemma_take_push(self.rows@, i as int);
                lemma_filter_push(self.rows@.take(i as int), self.rows@[i as int], pred);
            }
            i = i + 1;
        }
        proof {
            assert(self.rows@.take(self.rows@.len() as int) =~= self.rows@);
        }
        out
    }

    /// Any set of this store's rows carries distinct identifiers.
    proof fn lemma_rows_distinct(self, pred: spec_fn(ExerciseRow) -> bool)
        requires
            self.wf(),
        ensures
            forall|i: int, j: int|
                0 <= i < j < self.rows@.filter(pred).len() ==> exercise_id_fn()(
                    #[trigger] self.rows@.filter(pred)[i],
                ) != exercise_id_fn()(#[trigger] self.rows@.filter(pred)[j]),
    {
        assert(forall|i: int, j: int|
            0 <= i < j < self.rows@.len() ==> exercise_id_fn()(#[trigger] self.rows@[i])
                != exercise_id_fn()(#[trigger] self.rows@[j]));
        lemma_filter_distinct_keys(self.rows@, pred, exercise_id_fn());
    }

    /// The default listing: the live rows, ordered by name, then
    /// identifier.
    pub fn list(&self) -> (r: Vec<Exercise>)
        requires
            self.wf(),
        ensures
            r@ == arranged_exercises(self.active(), true).map_values(exercise_fn()),
            r@.len() == self.active().len(),
    {
        let rows = self.live_rows();
        let sorted = sort_exercise_rows(rows, true);
        proof {
            self.lemma_rows_distinct(live_pred());
            lemma_exercises_arranged(self.active(), sorted@, true);
            vstd::seq_lib::to_multiset_len(sorted@);
            vstd::seq_lib::to_multiset_len(self.active());
        }
        rows_to_exercises(&sorted)
    }

    /// How many rows the default listing shows.
    pub fn count(&self) -> (r: i64)
        requires
            self.wf(),
        ensures
            r == self.active().len(),
            0 <= r <= MAX_ROWS as int,
    {
        let all = self.live_rows();
        proof {
            self.rows@.lemma_filter_len(live_pred());
        }
        all.len() as i64
    }

    /// One page of the default listing.
    pub fn list_paginated(&self, page: i64, page_size: i64) -> (r: Vec<Exercise>)
        requires
            self.wf(),
        ensures
            r@ == page_slice(
                arranged_exercises(self.active(), true).map_values(exercise_fn()),
                page as int,
                page_size as int,
            ),
    {
        let all = self.list();
        proof {
            self.rows@.lemma_filter_len(live_pred());
        }
        page_of_exercises(all, page, page_size)
    }

    /// The live rows whose name or code contains the query, case
    /// folded, in the default listing order.
    pub fn search(&self, query: &str) -> (r: Vec<Exercise>)
        requires
            self.wf(),
        ensures
            r@ == arranged_exercises(self.rows@.filter(match_pred(query@)), true).map_values(
                exercise_fn(),
            ),
            r@.len() == self.rows@.filter(match_pred(query@)).len(),
    {
        let rows = self.matching_rows(query);
        let sorted = sort_exercise_rows(rows, true);
        proof {
            self.lemma_rows_distinct(match_pred(query@));
            lemma_exercises_arranged(self.rows@.filter(match_pred(query@)), sorted@, true);
            vstd::seq_lib::to_multiset_len(sorted@);
            vstd::seq_lib::to_multiset_len(self.rows@.filter(match_pred(query@)));
        }
        rows_to_exercises(&sorted)
    }

    /// One page of the search result.
    pub fn search_paginated(&self, query: &str, page: i64, page_size: i64) -> (r: Vec<Exercise>)
        requires
            self.wf(),
        ensures
            r@ == page_slice(
                arranged_exercises(self.rows@.filter(match_pred(query@)), true).map_values(
                    exercise_fn(),
                ),
                page as int,
                page_size as int,
            ),
    {
        let all = self.search(query);
        proof {
            self.rows@.lemma_filter_len(match_pred(query@));
        }
        page_of_exercises(all, page, page_size)
    }

    /// How many rows the search would show.
    pub fn search_count(&self, query: &str) -> (r: i64)
        requires
            self.wf(),
        ensures
            r == self.rows@.filter(match_pred(query@)).len(),
            0 <= r <= MAX_ROWS as int,
    {
        let all = self.matching_rows(query);
        proof {
            self.rows@.lemma_filter_len(match_pred(query@));
        }
        all.len() as i64
    }

    /// The inverse listing: the soft-deleted rows, the most recently
    /// deleted first.
    pub fn list_deleted(&self) -> (r: Vec<Exercise>)
        requires
            self.wf(),
        ensures
            r@ == arranged_exercises(self.deleted_rows(), false).map_values(exercise_fn()),
            r@.len() == self.deleted_rows().len(),
    {
        let rows = self.dead_rows();
        let sorted = sort_exercise_rows(rows, false);
        proof {
            self.lemma_rows_distinct(dead_pred());
            lemma_exercises_arranged(self.deleted_rows(), sorted@, false);
            vstd::seq_lib::to_multiset_len(sorted@);
            vstd::seq_lib::to_multiset_len(self.deleted_rows());
        }
        rows_to_exercises(&sorted)
    }

    /// How many rows are soft-deleted.
    pub fn count_deleted(&self) -> (r: i64)
        requires
            self.wf(),
        ensures
            r == self.deleted_rows().len(),
            0 <= r <= MAX_ROWS as int,
    {
        let all = self.dead_rows();
        proof {
            self.rows@.lemma_filter_len(dead_pred());
        }
        all.len() as i64
    }
}

/// The position of the row carrying an identifier, if any.
fn find_index(rows: &Vec<ExerciseRow>, tid: i64) -> (r: Option<usize>)
    ensures
        match r {
            Some(i) => i < rows@.len() && rows@[i as int].id == tid,
            None => forall|j: int| 0 <= j < rows@.len() ==> #[trigger] rows@[j].id != tid,
        },
{
    let mut i: usize = 0;
    while i < rows.len()
        invariant
            0 <= i <= rows@.len(),
            forall|j: int| 0 <= j < i ==> #[trigger] rows@[j].id != tid,
        decreases rows@.len() - i,
    {
        if rows[i].id == tid {
            return Some(i);
        }
        i = i + 1;
    }
    None
}

/// One page of an already-assembled listing.
fn page_of_exercises(all: Vec<Exercise>, page: i64, page_size: i64) -> (r: Vec<Exercise>)
    requires
        all@.len() <= MAX_ROWS as int,
    ensures
        r@ == page_slice(all@, page as int, page_size as int),
{
    let ghost target = page_slice(all@, page as int, page_size as int);
    if page < 1 || page_size < 1 {
        let empty: Vec<Exercise> = Vec::new();
        return empty;
    }
    let n = all.len() as i64;
    let lo64: i64;
    if page == 1 {
        proof {
            assert((page as int - 1) * (page_size as int) == 0) by (nonlinear_arith)
                requires
                    page == 1,
            ;
        }
        lo64 = 0;
    } else if page - 1 > n || page_size > n {
        proof {
            let lo = (page - 1) * (page_size as int);
            assert(lo >= page - 1 && lo >= page_size) by (nonlinear_arith)
                requires
                    page >= 2,
                    page_size >= 1,
                    lo == (page - 1) * (page_size as int),
            ;
            assert(target =~= Seq::<Exercise>::empty());
        }
        let empty: Vec<Exercise> = Vec::new();
        return empty;
    } else {
        proof {
            assert(0 <= (page - 1) * (page_size as int) <= MAX_ROWS as int * MAX_ROWS as int)
                by (nonlinear_arith)
                requires
                    1 <= page - 1 <= MAX_ROWS as int,
                    1 <= page_size <= MAX_ROWS as int,
            ;
        }
        lo64 = (page - 1) * page_size;
    }
    if lo64 >= n {
        proof {
            assert(target =~= Seq::<Exercise>::empty());
        }
        let empty: Vec<Exercise> = Vec::new();
        return empty;
    }
    let lo = lo64 as usize;
    let hi: usize = if n - lo64 < page_size {
        all.len()
    } else {
        lo + page_size as usize
    };
    let mut out: Vec<Exercise> = Vec::new();
    let mut i: usize = lo;
    while i < hi
        invariant
            0 <= lo <= i <= hi <= all@.len(),
            out@ =~= all@.subrange(lo as int, i as int),
        decreases hi - i,
    {
        out.push(all[i].clone());
        proof {
            assert(all@.subrange(lo as int, i + 1) =~= all@.subrange(lo as int, i as int).push(
                all@[i as int],
            ));
        }
        i = i + 1;
    }
    proof {
        assert(lo64 as int == (page as int - 1) * (page_size as int));
        assert(out@ =~= target);
    }
    out
}

/// The exercise service in front of the store.
#[derive(Debug)]
pub struct ExerciseService {
    pub repository: ExerciseStore,
}

impl ExerciseService {
    /// Wrap a store.
    pub fn new(repository: ExerciseStore) -> (s: ExerciseService)
        ensures
            s.repository == repository,
    {
        ExerciseService { repository }
    }

    /// Insert an exercise; a taken code is refused by the store.
    pub fn create_exercise(&mut self, exercise: Exercise) -> (r: Result<(), StoreError>)
        requires
            old(self).repository.wf(),
        ensures
            final(self).repository.wf(),
            r is Ok <==> old(self).repository.has_capacity() && !code_taken(
                old(self).repository.rows@,
                exercise.code@,
            ),
            r is Ok ==> final(self).repository.rows@ == old(self).repository.rows@.push(
                ExerciseRow {
                    id: old(self).repository.next_id,
                    name: exercise.name,
                    code: exercise.code,
                    deleted_at: None,
                },
            ) && final(self).repository.next_id == old(self).repository.next_id + 1,
            r is Err ==> *final(self) == *old(self) && r == Err::<(), StoreError>(
                StoreError::Storage,
            ),
    {
        self.repository.create(exercise)
    }

    /// The default listing.
    pub fn list_exercises(&self) -> (r: Vec<Exercise>)
        requires
            self.repository.wf(),
        ensures
            r@ == arranged_exercises(self.repository.active(), true).map_values(exercise_fn()),
    {
        self.repository.list()
    }

    /// One page of the default listing, with totals.
    pub fn list_exercises_paginated(&self, page: i64, page_size: i64) -> (r:
        PaginatedExerciseResponse)
        requires
            self.repository.wf(),
        ensures
            r.exercises@ == page_slice(
                arranged_exercises(self.repository.active(), true).map_values(exercise_fn()),
                page as int,
                page_size as int,
            ),
            r.total == self.repository.active().len(),
            r.page == page,
            r.page_size == page_size,
            r.total_pages == spec_total_pages(
                self.repository.active().len() as int,
                page_size as int,
            ),
    {
        let exercises = self.repository.list_paginated(page, page_size);
        let total = self.repository.count();
        let total_pages = total_pages_for(total, page_size);
        PaginatedExerciseResponse { exercises, total, page, page_size, total_pages }
    }

    /// Soft delete by identifier.
    pub fn delete_exercise(&mut self, id: i64) -> (r: Result<(), StoreError>)
        requires
            old(self).repository.wf(),
        ensures
            final(self).repository.wf(),
            r is Ok <==> old(self).repository.clock + 1 < i64::MAX as int,
            r is Ok ==> final(self).repository.next_id == old(self).repository.next_id && final(self).repository.clock == old(self).repository.clock + 1 && final(self).repository.rows@
                == old(self).repository.rows@.map_values(
                apply_delete(id, old(self).repository.clock),
            ),
            r is Err ==> *final(self) == *old(self) && r == Err::<(), StoreError>(
                StoreError::Storage,
            ),
    {
        self.repository.delete(id)
    }

    /// Restore a soft-deleted exercise.
    pub fn restore_exercise(&mut self, id: i64) -> (r: Result<(), StoreError>)
        requires
            old(self).repository.wf(),
        ensures
            final(self).repository.wf(),
            r is Ok,
            final(self).repository.next_id == old(self).repository.next_id,
            final(self).repository.rows@ == old(self).repository.rows@.map_values(
                apply_restore(id),
            ),
    {
        self.repository.restore(id)
    }

    /// The soft-deleted exercises.
    pub fn list_deleted_exercises(&self) -> (r: Vec<Exercise>)
        requires
            self.repository.wf(),
        ensures
            r@ == arranged_exercises(self.repository.deleted_rows(), false).map_values(
                exercise_fn(),
            ),
    {
        self.repository.list_deleted()
    }

    /// How many exercises are soft-deleted.
    pub fn count_deleted_exercises(&self) -> (r: i64)
        requires
            self.repository.wf(),
        ensures
            r == self.repository.deleted_rows().len(),
    {
        self.repository.count_deleted()
    }

    /// Rewrite the fields of the row the request names.
    pub fn update_exercise(&mut self, exercise: Exercise) -> (r: Result<(), StoreError>)
        requires
            old(self).repository.wf(),
        ensures
            final(self).repository.wf(),
            r is Ok <==> !update_conflict(old(self).repository.rows@, exercise),
            final(self).repository.next_id == old(self).repository.next_id,
            r is Ok ==> final(self).repository.rows@ == old(self).repository.rows@.map_values(
                apply_exercise_update(exercise),
            ),
            r is Err ==> *final(self) == *old(self) && r == Err::<(), StoreError>(
                StoreError::Storage,
            ),
    {
        self.repository.update(exercise)
    }

    /// One page of a search, with totals; a blank query returns an empty
    /// page with zero totals.
    pub fn search_exercises_paginated(&self, query: &str, page: i64, page_size: i64) -> (r:
        PaginatedExerciseResponse)
        requires
            self.repository.wf(),
        ensures
            r.page == page && r.page_size == page_size,
            blank(query@) ==> r.exercises@ =~= Seq::<Exercise>::empty() && r.total == 0
                && r.total_pages == 0,
            !blank(query@) ==> {
                &&& r.exercises@ == page_slice(
                    arranged_exercises(
                        self.repository.rows@.filter(match_pred(query@)),
                        true,
                    ).map_values(exercise_fn()),
                    page as int,
                    page_size as int,
                )
                &&& r.total == self.repository.rows@.filter(match_pred(query@)).len()
                &&& r.total_pages == spec_total_pages(
                    self.repository.rows@.filter(match_pred(query@)).len() as int,
                    page_size as int,
                )
            },
    {
        if is_blank(query) {
            return PaginatedExerciseResponse {
                exercises: Vec::new(),
                total: 0,
                page,
                page_size,
                total_pages: 0,
            };
        }
        let exercises = self.repository.search_paginated(query, page, page_size);
        let total = self.repository.search_count(query);
        let total_pages = total_pages_for(total, page_size);
        PaginatedExerciseResponse { exercises, total, page, page_size, total_pages }
    }
}

} // verus!
