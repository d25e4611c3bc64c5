//! The routine service: name and code validation, the per-row group
//! rule, and same-routine checks in front of the routine store. Every
//! single-row mutation that introduces or changes a group number runs
//! the group validator before it is applied.

use vstd::prelude::*;
use crate::errors::{StoreError, ValidationError};
use crate::groups::{
    contiguous_from_one, group_gate_accepts, group_set, is_first_gap, is_min_of,
    validate_added_group, validate_group_set, MAX_GROUP,
};
use crate::models::{Routine, RoutineExercise, RoutineWithExercises};
use crate::paging::page_slice;
use crate::routines::{
    arranged_rex, arranged_routines, batch_pair_clash, lemma_rex_arranged, other_pair_pred,
    pair_taken, rex_apply_orders, rex_groups, rex_le_fn, rex_not_scope_pred, rex_renumber_row,
    rex_sorted, rex_stamp_all, rex_stamped, rid_fn, routine_code_taken, routine_id_of,
    routine_match_pred, routine_update_conflict, RoutineStore,
};
use crate::groups::renumber_seq;
use crate::text::{ascii_upper, blank, is_blank, trim, trim_spec, upper_spec};

verus! {

/// Whether some stored routine carries this identifier.
pub open spec fn routine_exists(s: RoutineStore, id: i64) -> bool {
    exists|i: int| 0 <= i < s.routines@.len() && routine_id_of(#[trigger] s.routines@[i]) == id
}

/// Whether some row of the batch names another routine.
pub open spec fn rex_mismatch(es: Seq<RoutineExercise>, rid: i64) -> bool {
    exists|i: int| 0 <= i < es.len() && (#[trigger] es[i]).routine_id != rid
}

/// Whether the single-row group rule passes for a proposal against a
/// routine's persisted groups: a named group must lie in range and keep
/// the union contiguous; an absent group only requires the persisted
/// set to be contiguous already.
pub open spec fn row_gate_accepts(existing: Set<int>, group_number: Option<i64>) -> bool {
    match group_number {
        Some(g) => group_gate_accepts(existing, g as int),
        None => contiguous_from_one(existing),
    }
}

/// One template row joined with its exercise's display fields.
pub open spec fn joined_rex(
    e: RoutineExercise,
    x: crate::exercises::ExerciseRow,
) -> crate::models::RoutineExerciseWithDetails {
    crate::models::RoutineExerciseWithDetails {
        id: e.id,
        routine_id: e.routine_id,
        exercise_id: e.exercise_id,
        order_index: e.order_index,
        sets: e.sets,
        reps: e.reps,
        weight: e.weight,
        notes: e.notes,
        group_number: e.group_number,
        created_at: e.created_at,
        updated_at: e.updated_at,
        exercise_name: x.name,
        exercise_code: x.code,
    }
}

/// The inner join of template rows against the exercise table: a row
/// whose exercise cannot be resolved — even among the soft-deleted
/// rows — is dropped; every other row is decorated.
pub open spec fn decorate_rex_spec(
    es: Seq<RoutineExercise>,
    xs: crate::exercises::ExerciseStore,
) -> Seq<crate::models::RoutineExerciseWithDetails>
    decreases es.len(),
{
    if es.len() == 0 {
        Seq::empty()
    } else {
        let rest = decorate_rex_spec(es.drop_last(), xs);
        match xs.lookup(es.last().exercise_id) {
            Some(xr) => rest.push(joined_rex(es.last(), xr)),
            None => rest,
        }
    }
}

/// Join template rows against the exercise table for display.
pub fn decorate_routine_exercises(
    rows: &Vec<RoutineExercise>,
    exercises: &crate::exercises::ExerciseStore,
) -> (r: Vec<crate::models::RoutineExerciseWithDetails>)
    requires
        exercises.wf(),
    ensures
        r@ == decorate_rex_spec(rows@, *exercises),
{
    let mut out: Vec<crate::models::RoutineExerciseWithDetails> = Vec::new();
    let mut i: usize = 0;
    while i < rows.len()
        invariant
            0 <= i <= rows@.len(),
            exercises.wf(),
            out@ =~= decorate_rex_spec(rows@.take(i as int), *exercises),
        decreases rows@.len() - i,
    {
        let e = &rows[i];
        proof {
            crate::seqs::lemma_take_push(rows@, i as int);
            assert(rows@.take(i + 1).drop_last() =~= rows@.take(i as int));
            assert(rows@.take(i + 1).last() == rows@[i as int]);
        }
        match exercises.get_by_id(e.exercise_id) {
            Some(x) => {
                out.push(
                    crate::models::RoutineExerciseWithDetails {
                        id: e.id,
                        routine_id: e.routine_id,
                        exercise_id: e.exercise_id,
                        order_index: e.order_index,
                        sets: e.sets,
                        reps: e.reps,
                        weight: e.weight,
                        notes: crate::models::clone_opt_string(&e.notes),
                        group_number: e.group_number,
                        created_at: crate::models::clone_opt_string(&e.created_at),
                        updated_at: crate::models::clone_opt_string(&e.updated_at),
                        exercise_name: x.name,
                        exercise_code: x.code,
                    },
                );
            },
            None => {},
        }
        i = i + 1;
    }
    proof {
        assert(rows@.take(rows@.len() as int) =~= rows@);
    }
    out
}

/// The stored form of a requested routine code: trimmed and
/// uppercased, as the persisted unique key compares it.
pub open spec fn norm_code(c: Seq<char>) -> Seq<char> {
    upper_spec(trim_spec(c))
}

/// The stored form of a requested note: trimmed, and gone entirely when
/// nothing but whitespace was given.
pub open spec fn notes_normalized(req: Option<String>, stored: Option<String>) -> bool {
    match req {
        None => stored is None,
        Some(s) => if trim_spec(s@).len() == 0 {
            stored is None
        } else {
            stored is Some && stored->0@ == trim_spec(s@)
        },
    }
}

/// Trim and uppercase a requested code.
fn normalize_code(code: &str) -> (r: String)
    ensures
        r@ == norm_code(code@),
{
    let trimmed = trim(code);
    ascii_upper(trimmed.as_str())
}

/// Trim a requested note; a blank note becomes no note.
fn normalize_notes(notes: Option<String>) -> (r: Option<String>)
    ensures
        notes_normalized(notes, r),
{
    match notes {
        None => None,
        Some(s) => {
            let t = trim(s.as_str());
            if t.as_str().unicode_len() == 0 {
                None
            } else {
                Some(t)
            }
        },
    }
}

/// The routine service in front of the store.
#[derive(Debug)]
pub struct RoutineService {
    pub repository: RoutineStore,
}

impl RoutineService {
    /// Wrap a store.
    pub fn new(repository: RoutineStore) -> (s: RoutineService)
        ensures
            s.repository == repository,
    {
        RoutineService { repository }
    }

    /// The selectable group numbers, for an existing routine.
    pub fn get_available_groups(&self, routine_id: i64) -> (r: Result<Vec<i64>, StoreError>)
        requires
            self.repository.wf(),
        ensures
            r is Ok <==> routine_exists(self.repository, routine_id),
            match r {
                Ok(v) => v@ =~= seq![1i64, 2i64, 3i64, 4i64, 5i64],
                Err(e) => e == StoreError::NotFound,
            },
    {
        match self.repository.get_by_id(routine_id) {
            None => Err(StoreError::NotFound),
            Some(_) => {
                let mut v: Vec<i64> = Vec::new();
                v.push(1);
                v.push(2);
                v.push(3);
                v.push(4);
                v.push(5);
                Ok(v)
            },
        }
    }

    /// Validate and insert a routine: the name is stored trimmed, the
    /// code trimmed and uppercased, as the persisted unique key compares
    /// codes; the store assigns and returns the identifier.
    pub fn create_routine(&mut self, name: String, code: String) -> (r: Result<i64, StoreError>)
        requires
            old(self).repository.wf(),
        ensures
            final(self).repository.wf(),
            blank(name@) ==> r == Err::<i64, StoreError>(
                StoreError::Validation(ValidationError::EmptyName),
            ) && *final(self) == *old(self),
            !blank(name@) && blank(code@) ==> r == Err::<i64, StoreError>(
                StoreError::Validation(ValidationError::EmptyCode),
            ) && *final(self) == *old(self),
            !blank(name@) && !blank(code@) ==> {
                &&& (r is Ok <==> old(self).repository.has_routine_capacity()
                    && !routine_code_taken(old(self).repository.routines@, norm_code(code@)))
                &&& (r is Ok ==> {
                    let stored = final(self).repository.routines@.last();
                    &&& r->Ok_0 == old(self).repository.next_routine_id
                    &&& final(self).repository.routines@ == old(
                        self,
                    ).repository.routines@.push(stored)
                    &&& stored.id == Some(old(self).repository.next_routine_id)
                    &&& stored.name@ == trim_spec(name@)
                    &&& stored.code@ == norm_code(code@)
                    &&& stored.created_at is None && stored.updated_at is None
                    &&& final(self).repository.next_routine_id == old(
                        self,
                    ).repository.next_routine_id + 1
                    &&& final(self).repository.rex@ == old(self).repository.rex@
                    &&& final(self).repository.next_rex_id == old(self).repository.next_rex_id
                })
                &&& (r is Err ==> r == Err::<i64, StoreError>(StoreError::Storage) && *final(self) == *old(self))
            },
    {
        if is_blank(name.as_str()) {
            return Err(StoreError::Validation(ValidationError::EmptyName));
        }
        if is_blank(code.as_str()) {
            return Err(StoreError::Validation(ValidationError::EmptyCode));
        }
        let stored_name = trim(name.as_str());
        let stored_code = normalize_code(code.as_str());
        self.repository.create(Routine::new(stored_name, stored_code))
    }

    /// Look a routine up by identifier.
    pub fn get_routine_by_id(&self, id: i64) -> (r: Option<Routine>)
        requires
            self.repository.wf(),
        ensures
            r is Some <==> routine_exists(self.repository, id),
            match r {
                Some(rt) => exists|i: int|
                    0 <= i < self.repository.routines@.len() && routine_id_of(
                        #[trigger] self.repository.routines@[i],
                    ) == id && rt == self.repository.routines@[i],
                None => true,
            },
    {
        self.repository.get_by_id(id)
    }

    /// A routine together with its exercise rows, in template order.
    pub fn get_routine_with_exercises(&self, id: i64) -> (r: Option<RoutineWithExercises>)
        requires
            self.repository.wf(),
        ensures
            r is Some <==> routine_exists(self.repository, id),
            match r {
                Some(rw) => {
                    &&& exists|i: int|
                        0 <= i < self.repository.routines@.len() && routine_id_of(
                            #[trigger] self.repository.routines@[i],
                        ) == id && rw.id == self.repository.routines@[i].id && rw.name
                            == self.repository.routines@[i].name && rw.code
                            == self.repository.routines@[i].code
                    &&& rex_sorted(rw.exercises@)
                    &&& rw.exercises@ == arranged_rex(self.repository.template(id))
                    &&& rw.exercises@.to_multiset() == self.repository.template(id).to_multiset()
                },
                None => true,
            },
    {
        match self.repository.get_by_id(id) {
            None => None,
            Some(routine) => {
                let exercises = self.repository.get_routine_exercises(id);
                Some(
                    RoutineWithExercises {
                        id: routine.id,
                        name: routine.name,
                        code: routine.code,
                        created_at: routine.created_at,
                        updated_at: routine.updated_at,
                        exercises,
                    },
                )
            },
        }
    }

    /// Validate and rename a routine: the name is stored trimmed, the
    /// code trimmed and uppercased.
    pub fn update_routine(&mut self, id: i64, name: String, code: String) -> (r: Result<
        (),
        StoreError,
    >)
        requires
            old(self).repository.wf(),
        ensures
            final(self).repository.wf(),
            blank(name@) ==> r == Err::<(), StoreError>(
                StoreError::Validation(ValidationError::EmptyName),
            ) && *final(self) == *old(self),
            !blank(name@) && blank(code@) ==> r == Err::<(), StoreError>(
                StoreError::Validation(ValidationError::EmptyCode),
            ) && *final(self) == *old(self),
            !blank(name@) && !blank(code@) ==> {
                &&& (r is Ok <==> !routine_update_conflict(
                    old(self).repository.routines@,
                    id,
                    norm_code(code@),
                ))
                &&& (r is Ok ==> {
                    &&& final(self).repository.routines@.len() == old(
                        self,
                    ).repository.routines@.len()
                    &&& forall|k: int|
                        0 <= k < old(self).repository.routines@.len() ==> {
                            let before = #[trigger] old(self).repository.routines@[k];
                            let after = final(self).repository.routines@[k];
                            if routine_id_of(before) == id {
                                after.id == before.id && after.name@ == trim_spec(name@)
                                    && after.code@ == norm_code(code@) && after.created_at
                                    == before.created_at && after.updated_at == before.updated_at
                            } else {
                                after == before
                            }
                        }
                    &&& final(self).repository.rex@ == old(self).repository.rex@
                    &&& final(self).repository.next_routine_id == old(
                        self,
                    ).repository.next_routine_id
                    &&& final(self).repository.next_rex_id == old(self).repository.next_rex_id
                })
                &&& (r is Err ==> r == Err::<(), StoreError>(StoreError::Storage) && *final(self)
                    == *old(self))
            },
    {
        if is_blank(name.as_str()) {
            return Err(StoreError::Validation(ValidationError::EmptyName));
        }
        if is_blank(code.as_str()) {
            return Err(StoreError::Validation(ValidationError::EmptyCode));
        }
        let stored_name = trim(name.as_str());
        let stored_code = normalize_code(code.as_str());
        let ghost n2 = stored_name;
        let ghost c2 = stored_code;
        let r = self.repository.update(id, stored_name, stored_code);
        proof {
            if r is Ok {
                assert forall|k: int| 0 <= k < old(self).repository.routines@.len() implies {
                    let before = #[trigger] old(self).repository.routines@[k];
                    let after = self.repository.routines@[k];
                    if routine_id_of(before) == id {
                        after.id == before.id && after.name@ == trim_spec(name@) && after.code@
                            == norm_code(code@) && after.created_at == before.created_at
                            && after.updated_at == before.updated_at
                    } else {
                        after == before
                    }
                } by {
                    assert(self.repository.routines@[k]
                        == crate::routines::apply_routine_update(id, n2, c2)(
                        old(self).repository.routines@[k],
                    ));
                }
            }
        }
        r
    }

    /// Hard-delete a routine and its exercise rows.
    pub fn delete_routine(&mut self, id: i64) -> (r: Result<(), StoreError>)
        requires
            old(self).repository.wf(),
        ensures
            final(self).repository.wf(),
            r is Ok,
            final(self).repository.routines@ == old(self).repository.routines@.filter(
                crate::routines::other_routine_pred(id),
            ),
            final(self).repository.rex@ == old(self).repository.rex@.filter(
                rex_not_scope_pred(id),
            ),
    {
        self.repository.delete(id)
    }

    /// Every routine, ordered by name, then identifier.
    pub fn list_routines(&self) -> (r: Vec<Routine>)
        requires
            self.repository.wf(),
        ensures
            r@ == arranged_routines(self.repository.routines@),
    {
        self.repository.list_all()
    }

    /// One page of the listing; a bad page or size yields nothing.
    pub fn list_routines_paginated(&self, page: i64, page_size: i64) -> (r: Vec<Routine>)
        requires
            self.repository.wf(),
        ensures
            page < 1 || page_size < 1 ==> r@ =~= Seq::<Routine>::empty(),
            r@ == page_slice(
                arranged_routines(self.repository.routines@),
                page as int,
                page_size as int,
            ),
    {
        if page < 1 || page_size < 1 {
            return Vec::new();
        }
        self.repository.list_routines_paginated(page, page_size)
    }

    /// Search the routines with the query trimmed; a blank query lists
    /// everything.
    pub fn search_routines(&self, query: &str) -> (r: Vec<Routine>)
        requires
            self.repository.wf(),
        ensures
            blank(query@) ==> r@ == arranged_routines(self.repository.routines@),
            !blank(query@) ==> r@ == arranged_routines(
                self.repository.routines@.filter(routine_match_pred(trim_spec(query@))),
            ),
    {
        if is_blank(query) {
            return self.repository.list_all();
        }
        let trimmed = trim(query);
        self.repository.search_routines(trimmed.as_str())
    }

    /// One page of a search; a blank query pages the whole listing.
    pub fn search_routines_paginated(&self, query: &str, page: i64, page_size: i64) -> (r: Vec<
        Routine,
    >)
        requires
            self.repository.wf(),
        ensures
            page < 1 || page_size < 1 ==> r@ =~= Seq::<Routine>::empty(),
            page >= 1 && page_size >= 1 && blank(query@) ==> r@ == page_slice(
                arranged_routines(self.repository.routines@),
                page as int,
                page_size as int,
            ),
            page >= 1 && page_size >= 1 && !blank(query@) ==> r@ == page_slice(
                arranged_routines(
                    self.repository.routines@.filter(routine_match_pred(trim_spec(query@))),
                ),
                page as int,
                page_size as int,
            ),
    {
        if page < 1 || page_size < 1 {
            return Vec::new();
        }
        if is_blank(query) {
            return self.repository.list_routines_paginated(page, page_size);
        }
        let trimmed = trim(query);
        self.repository.search_routines_paginated(trimmed.as_str(), page, page_size)
    }

    /// The persisted group numbers of one routine.
    fn persisted_groups(&self, routine_id: i64) -> (v: Vec<i64>)
        requires
            self.repository.wf(),
        ensures
            v@ == self.repository.template_groups(routine_id),
    {
        let rows = self.repository.template_rows(routine_id);
        let mut v: Vec<i64> = Vec::new();
        let mut i: usize = 0;
        while i < rows.len()
            invariant
                0 <= i <= rows@.len(),
                v@ =~= rex_groups(rows@.take(i as int)),
            decreases rows@.len() - i,
        {
            let g = match rows[i].group_number {
                Some(g) => g,
                None => 1,
            };
            v.push(g);
            proof {
                crate::seqs::lemma_take_push(rows@, i as int);
                crate::seqs::lemma_map_push(
                    rows@.take(i as int),
                    rows@[i as int],
                    crate::routines::reff_group_fn(),
                );
            }
            i = i + 1;
        }
        proof {
            assert(rows@.take(rows@.len() as int) =~= rows@);
        }
        v
    }

    /// Validate a proposed group number against a routine's persisted
    /// groups, before the mutation is applied.
    fn gate_group(&self, routine_id: i64, group_number: &Option<i64>) -> (r: Result<
        (),
        StoreError,
    >)
        requires
            self.repository.wf(),
        ensures
            ({
                let existing = self.repository.template_groups_set(routine_id);
                &&& (r is Ok <==> row_gate_accepts(existing, *group_number))
                &&& match r {
                    Ok(()) => true,
                    Err(StoreError::Validation(e)) => match e {
                        ValidationError::GroupOutOfRange(g) => Some(g) == *group_number && !(1
                            <= g <= MAX_GROUP),
                        ValidationError::MustStartAtOne(m) => is_min_of(
                            m as int,
                            match *group_number {
                                Some(g) => existing.insert(g as int),
                                None => existing,
                            },
                        ) && m != 1,
                        ValidationError::SkippedGroup(k) => is_first_gap(
                            k as int,
                            match *group_number {
                                Some(g) => existing.insert(g as int),
                                None => existing,
                            },
                        ),
                        _ => false,
                    },
                    Err(_) => false,
                }
            }),
    {
        let existing = self.persisted_groups(routine_id);
        match group_number {
            Some(g) => {
                match validate_added_group(&existing, *g) {
                    Ok(()) => Ok(()),
                    Err(e) => Err(StoreError::Validation(e)),
                }
            },
            None => {
                match validate_group_set(&existing) {
                    Ok(()) => Ok(()),
                    Err(e) => Err(StoreError::Validation(e)),
                }
            },
        }
    }

    /// Validate and insert one exercise row into a routine; the note is
    /// stored trimmed, a blank note not at all. On success the
    /// routine's group numbers are again contiguous from 1.
    pub fn add_exercise_to_routine(
        &mut self,
        routine_id: i64,
        exercise_id: i64,
        order_index: i64,
        sets: Option<i64>,
        reps: Option<i64>,
        weight: Option<i64>,
        notes: Option<String>,
        group_number: Option<i64>,
    ) -> (r: Result<(), StoreError>)
        requires
            old(self).repository.wf(),
        ensures
            final(self).repository.wf(),
            !routine_exists(old(self).repository, routine_id) ==> r == Err::<(), StoreError>(
                StoreError::NotFound,
            ) && *final(self) == *old(self),
            routine_exists(old(self).repository, routine_id) && !row_gate_accepts(
                old(self).repository.template_groups_set(routine_id),
                group_number,
            ) ==> (r is Err && r->Err_0 is Validation) && *final(self) == *old(self),
            routine_exists(old(self).repository, routine_id) && row_gate_accepts(
                old(self).repository.template_groups_set(routine_id),
                group_number,
            ) ==> match r {
                Ok(()) => {
                    let stored = final(self).repository.rex@.last();
                    &&& final(self).repository.rex@ == old(self).repository.rex@.push(stored)
                    &&& stored.id == Some(old(self).repository.next_rex_id)
                    &&& stored.routine_id == routine_id && stored.exercise_id == exercise_id
                    &&& stored.order_index == order_index && stored.sets == sets
                        && stored.reps == reps && stored.weight == weight
                    &&& stored.group_number == group_number
                    &&& notes_normalized(notes, stored.notes)
                    &&& stored.created_at is None && stored.updated_at is None
                    &&& final(self).repository.next_rex_id == old(self).repository.next_rex_id
                        + 1
                    &&& final(self).repository.routines@ == old(self).repository.routines@
                    &&& contiguous_from_one(
                        final(self).repository.template_groups_set(routine_id),
                    )
                },
                Err(e) => e == StoreError::Storage && *final(self) == *old(self) && (pair_taken(
                    old(self).repository.rex@,
                    routine_id,
                    exercise_id,
                ) || !old(self).repository.rex_capacity_for(1)),
            },
    {
        if self.repository.get_by_id(routine_id).is_none() {
            return Err(StoreError::NotFound);
        }
        match self.gate_group(routine_id, &group_number) {
            Ok(()) => {},
            Err(e) => {
                return Err(e);
            },
        }
        let stored_notes = normalize_notes(notes);
        let row = RoutineExercise::new(
            routine_id,
            exercise_id,
            order_index,
            sets,
            reps,
            weight,
            stored_notes,
            group_number,
        );
        let ghost proposed = row;
        let r = self.repository.add_exercise_to_routine(row);
        proof {
            if r is Ok {
                let rid = routine_id;
                let new_row = rex_stamped(proposed, old(self).repository.next_rex_id);
                let old_t = old(self).repository.template(rid);
                crate::seqs::lemma_filter_push(
                    old(self).repository.rex@,
                    new_row,
                    crate::routines::rex_scope_pred(rid),
                );
                assert(self.repository.template(rid) == old_t.push(new_row));
                crate::seqs::lemma_map_push(old_t, new_row, crate::routines::reff_group_fn());
                let old_groups = old(self).repository.template_groups(rid);
                let new_groups = self.repository.template_groups(rid);
                assert(new_groups == old_groups.push(crate::routines::reff_group(new_row)));
                assert(new_groups.drop_last() == old_groups);
                let g_eff = crate::routines::reff_group(new_row);
                assert(group_set(new_groups) == group_set(old_groups).insert(g_eff as int));
                let existing = old(self).repository.template_groups_set(rid);
                match group_number {
                    Some(g) => {
                        assert(g_eff == g);
                        assert(contiguous_from_one(existing.insert(g as int)));
                    },
                    None => {
                        assert(g_eff == 1);
                        assert(contiguous_from_one(existing));
                        assert forall|x: int| existing.insert(1).contains(x) implies 1 <= x && (
                        forall|j: int| 1 <= j < x ==> existing.insert(1).contains(j)) by {
                            if existing.contains(x) {
                                assert forall|j: int| 1 <= j < x implies existing.insert(
                                    1,
                                ).contains(j) by {
                                    assert(existing.contains(j));
                                }
                            }
                        }
                        assert(contiguous_from_one(existing.insert(1)));
                    },
                }
            }
        }
        r
    }

    /// Validate and rewrite one exercise row of a routine; the validator
    /// checks the routine's persisted groups together with the proposal,
    /// not the state the rewrite leaves behind. The note is stored
    /// trimmed, a blank note not at all.
    pub fn update_routine_exercise(
        &mut self,
        id: i64,
        routine_id: i64,
        exercise_id: i64,
        order_index: i64,
        sets: Option<i64>,
        reps: Option<i64>,
        weight: Option<i64>,
        notes: Option<String>,
        group_number: Option<i64>,
    ) -> (r: Result<(), StoreError>)
        requires
            old(self).repository.wf(),
        ensures
            final(self).repository.wf(),
            !row_gate_accepts(
                old(self).repository.template_groups_set(routine_id),
                group_number,
            ) ==> (r is Err && r->Err_0 is Validation) && *final(self) == *old(self),
            row_gate_accepts(
                old(self).repository.template_groups_set(routine_id),
                group_number,
            ) ==> {
                &&& r is Ok
                &&& final(self).repository.rex@.len() == old(self).repository.rex@.len()
                &&& forall|k: int|
                    0 <= k < old(self).repository.rex@.len() ==> {
                        let before = #[trigger] old(self).repository.rex@[k];
                        let after = final(self).repository.rex@[k];
                        if before.id == Some(id) {
                            after.id == before.id && after.routine_id == before.routine_id
                                && after.exercise_id == before.exercise_id && after.order_index
                                == order_index && after.sets == sets && after.reps == reps
                                && after.weight == weight && after.group_number == group_number
                                && notes_normalized(notes, after.notes) && after.created_at
                                == before.created_at && after.updated_at == before.updated_at
                        } else {
                            after == before
                        }
                    }
                &&& final(self).repository.routines@ == old(self).repository.routines@
                &&& final(self).repository.next_rex_id == old(self).repository.next_rex_id
            },
    {
        match self.gate_group(routine_id, &group_number) {
            Ok(()) => {},
            Err(e) => {
                return Err(e);
            },
        }
        let stored_notes = normalize_notes(notes);
        let row = RoutineExercise {
            id: Some(id),
            routine_id,
            exercise_id,
            order_index,
            sets,
            reps,
            weight,
            notes: stored_notes,
            group_number,
            created_at: None,
            updated_at: None,
        };
        let ghost u2 = row;
        let r = self.repository.update_routine_exercise(row);
        proof {
            assert forall|k: int| 0 <= k < old(self).repository.rex@.len() implies {
                let before = #[trigger] old(self).repository.rex@[k];
                let after = self.repository.rex@[k];
                if before.id == Some(id) {
                    after.id == before.id && after.routine_id == before.routine_id
                        && after.exercise_id == before.exercise_id && after.order_index
                        == order_index && after.sets == sets && after.reps == reps
                        && after.weight == weight && after.group_number == group_number
                        && notes_normalized(notes, after.notes) && after.created_at
                        == before.created_at && after.updated_at == before.updated_at
                } else {
                    after == before
                }
            } by {
                assert(self.repository.rex@[k] == crate::routines::apply_rex_update(u2)(
                    old(self).repository.rex@[k],
                ));
                let before = old(self).repository.rex@[k];
                if before.id == Some(id) {
                    assert(crate::routines::rid_of(before) == id) by {
                        assert(before.id == Some(crate::routines::rid_of(before)));
                    }
                }
            }
        }
        r
    }

    /// Remove the row pairing a routine with an exercise. No automatic
    /// renumbering follows: a gap left behind stays until the caller
    /// compacts the routine explicitly.
    pub fn remove_exercise_from_routine(&mut self, routine_id: i64, exercise_id: i64) -> (r:
        Result<(), StoreError>)
        requires
            old(self).repository.wf(),
        ensures
            final(self).repository.wf(),
            r is Ok,
            final(self).repository.rex@ == old(self).repository.rex@.filter(
                other_pair_pred(routine_id, exercise_id),
            ),
            final(self).repository.routines@ == old(self).repository.routines@,
    {
        self.repository.remove_exercise_from_routine(routine_id, exercise_id)
    }

    /// The exercise rows of one routine, in template order.
    pub fn get_routine_exercises(&self, routine_id: i64) -> (r: Vec<RoutineExercise>)
        requires
            self.repository.wf(),
        ensures
            rex_sorted(r@),
            r@ == arranged_rex(self.repository.template(routine_id)),
            r@.to_multiset() == self.repository.template(routine_id).to_multiset(),
    {
        self.repository.get_routine_exercises(routine_id)
    }

    /// The exercise rows of one routine, in template order, each joined
    /// with its exercise's display fields; a row whose exercise cannot
    /// be resolved — even among the soft-deleted rows — is dropped.
    pub fn get_routine_exercises_with_details(
        &self,
        routine_id: i64,
        exercises: &crate::exercises::ExerciseStore,
    ) -> (r: Vec<crate::models::RoutineExerciseWithDetails>)
        requires
            self.repository.wf(),
            exercises.wf(),
        ensures
            r@ == decorate_rex_spec(
                arranged_rex(self.repository.template(routine_id)),
                *exercises,
            ),
    {
        let rows = self.repository.get_routine_exercises(routine_id);
        proof {
            assert(forall|i: int, j: int|
                0 <= i < j < self.repository.rex@.len() ==> rid_fn()(
                    #[trigger] self.repository.rex@[i],
                ) != rid_fn()(#[trigger] self.repository.rex@[j]));
            crate::seqs::lemma_filter_distinct_keys(
                self.repository.rex@,
                crate::routines::rex_scope_pred(routine_id),
                rid_fn(),
            );
            assert(vstd::relations::sorted_by(rows@, rex_le_fn())) by {
                assert forall|a: int, b: int| 0 <= a < b < rows@.len() implies
                    #[trigger] rex_le_fn()(rows@[a], rows@[b]) by {
                    assert(crate::routines::rex_le(rows@[a], rows@[b]));
                }
            }
            lemma_rex_arranged(self.repository.template(routine_id), rows@);
        }
        decorate_routine_exercises(&rows, exercises)
    }

    /// Apply a batch of display-order rewrites; an empty batch is a
    /// no-op, not an error.
    pub fn reorder_routine_exercises(
        &mut self,
        routine_id: i64,
        exercise_orders: Vec<(i64, i64)>,
    ) -> (r: Result<(), StoreError>)
        requires
            old(self).repository.wf(),
        ensures
            final(self).repository.wf(),
            r is Ok,
            final(self).repository.rex@ == rex_apply_orders(
                old(self).repository.rex@,
                exercise_orders@,
            ),
            final(self).repository.routines@ == old(self).repository.routines@,
    {
        if exercise_orders.len() == 0 {
            proof {
                assert(rex_apply_orders(self.repository.rex@, exercise_orders@)
                    == self.repository.rex@);
            }
            return Ok(());
        }
        self.repository.reorder_routine_exercises(routine_id, exercise_orders)
    }

    /// Validate and atomically replace a routine's exercise rows: the
    /// routine must exist, every row must name it, and a non-empty batch
    /// must carry a contiguous group set.
    pub fn replace_routine_exercises(
        &mut self,
        routine_id: i64,
        exercises: Vec<RoutineExercise>,
    ) -> (r: Result<(), StoreError>)
        requires
            old(self).repository.wf(),
        ensures
            final(self).repository.wf(),
            final(self).repository.routines@ == old(self).repository.routines@,
            final(self).repository.next_routine_id == old(self).repository.next_routine_id,
            !routine_exists(old(self).repository, routine_id) ==> r == Err::<(), StoreError>(
                StoreError::NotFound,
            ) && *final(self) == *old(self),
            routine_exists(old(self).repository, routine_id) && rex_mismatch(
                exercises@,
                routine_id,
            ) ==> r == Err::<(), StoreError>(
                StoreError::Validation(ValidationError::RoutineMismatch),
            ) && *final(self) == *old(self),
            ({
                let gset = group_set(rex_groups(exercises@));
                routine_exists(old(self).repository, routine_id) && !rex_mismatch(
                    exercises@,
                    routine_id,
                ) ==> match r {
                    Ok(()) => {
                        &&& contiguous_from_one(gset)
                        &&& final(self).repository.rex@ == old(self).repository.rex@.filter(
                            rex_not_scope_pred(routine_id),
                        ) + rex_stamp_all(exercises@, old(self).repository.next_rex_id as int)
                        &&& final(self).repository.template(routine_id) == rex_stamp_all(
                            exercises@,
                            old(self).repository.next_rex_id as int,
                        )
                        &&& contiguous_from_one(
                            final(self).repository.template_groups_set(routine_id),
                        )
                    },
                    Err(StoreError::Validation(e)) => *final(self) == *old(self) && match e {
                        ValidationError::MustStartAtOne(m) => is_min_of(m as int, gset) && m != 1,
                        ValidationError::SkippedGroup(k) => gset.contains(1) && is_first_gap(
                            k as int,
                            gset,
                        ),
                        _ => false,
                    },
                    Err(StoreError::Storage) => *final(self) == *old(self) && (batch_pair_clash(
                        exercises@,
                    ) || !old(self).repository.rex_replace_fits(
                        routine_id,
                        exercises@.len() as int,
                    )),
                    Err(StoreError::NotFound) => false,
                }
            }),
    {
        if self.repository.get_by_id(routine_id).is_none() {
            return Err(StoreError::NotFound);
        }
        let mut i: usize = 0;
        while i < exercises.len()
            invariant
                0 <= i <= exercises@.len(),
                *self == *old(self),
                old(self).repository.wf(),
                routine_exists(old(self).repository, routine_id),
                forall|j: int| 0 <= j < i ==> (#[trigger] exercises@[j]).routine_id == routine_id,
            decreases exercises@.len() - i,
        {
            if exercises[i].routine_id != routine_id {
                return Err(StoreError::Validation(ValidationError::RoutineMismatch));
            }
            i = i + 1;
        }
        let mut groups: Vec<i64> = Vec::new();
        let mut k: usize = 0;
        while k < exercises.len()
            invariant
                0 <= k <= exercises@.len(),
                *self == *old(self),
                old(self).repository.wf(),
                routine_exists(old(self).repository, routine_id),
                !rex_mismatch(exercises@, routine_id),
                groups@ =~= rex_groups(exercises@.take(k as int)),
            decreases exercises@.len() - k,
        {
            let g = match exercises[k].group_number {
                Some(g) => g,
                None => 1,
            };
            groups.push(g);
            proof {
                crate::seqs::lemma_take_push(exercises@, k as int);
                crate::seqs::lemma_map_push(
                    exercises@.take(k as int),
                    exercises@[k as int],
                    crate::routines::reff_group_fn(),
                );
            }
            k = k + 1;
        }
        proof {
            assert(exercises@.take(exercises@.len() as int) =~= exercises@);
        }
        match validate_group_set(&groups) {
            Ok(()) => {},
            Err(e) => {
                return Err(StoreError::Validation(e));
            },
        }
        self.repository.replace_routine_exercises(routine_id, exercises)
    }

    /// Compact one routine's group numbers to `1..N`.
    pub fn renumber_routine_groups(&mut self, routine_id: i64) -> (r: Result<(), StoreError>)
        requires
            old(self).repository.wf(),
        ensures
            final(self).repository.wf(),
            routine_id <= 0 ==> r == Err::<(), StoreError>(
                StoreError::Validation(ValidationError::InvalidRoutineId),
            ) && *final(self) == *old(self),
            routine_id > 0 && !routine_exists(old(self).repository, routine_id) ==> r == Err::<
                (),
                StoreError,
            >(StoreError::NotFound) && *final(self) == *old(self),
            routine_id > 0 && routine_exists(old(self).repository, routine_id) ==> {
                &&& r is Ok
                &&& final(self).repository.rex@ == old(self).repository.rex@.map_values(
                    rex_renumber_row(
                        routine_id,
                        old(self).repository.template_groups_set(routine_id),
                    ),
                )
                &&& final(self).repository.template_groups(routine_id) == renumber_seq(
                    old(self).repository.template_groups(routine_id),
                )
                &&& contiguous_from_one(
                    final(self).repository.template_groups_set(routine_id),
                )
                &&& final(self).repository.routines@ == old(self).repository.routines@
            },
    {
        if routine_id <= 0 {
            return Err(StoreError::Validation(ValidationError::InvalidRoutineId));
        }
        if self.repository.get_by_id(routine_id).is_none() {
            return Err(StoreError::NotFound);
        }
        self.repository.renumber_routine_groups(routine_id)
    }

    /// Turn a captured workout into a routine: create the template, then
    /// replace its (empty) row set with the captured exercises, their
    /// display order taken from their position. The template survives
    /// even when the second step is refused, as a caller of the two
    /// steps in sequence would leave it.
    #[verifier::rlimit(60)]
    pub fn create_routine_from_workout(
        &mut self,
        name: String,
        code: String,
        workout_exercises: Vec<(i64, Option<i64>, Option<i64>, Option<i64>, Option<String>, Option<i64>)>,
    ) -> (r: Result<i64, StoreError>)
        requires
            old(self).repository.wf(),
        ensures
            final(self).repository.wf(),
            blank(name@) || (!blank(name@) && blank(code@)) ==> r is Err && r->Err_0 is Validation
                && *final(self) == *old(self),
            !blank(name@) && !blank(code@) && !(old(self).repository.has_routine_capacity()
                && !routine_code_taken(old(self).repository.routines@, norm_code(code@))) ==> r
                == Err::<i64, StoreError>(StoreError::Storage) && *final(self) == *old(self),
            !blank(name@) && !blank(code@) && old(self).repository.has_routine_capacity()
                && !routine_code_taken(old(self).repository.routines@, norm_code(code@)) ==> {
                &&& final(self).repository.routines@.len() == old(
                    self,
                ).repository.routines@.len() + 1
                &&& final(self).repository.routines@.take(
                    old(self).repository.routines@.len() as int,
                ) == old(self).repository.routines@
                &&& {
                    let stored = final(self).repository.routines@.last();
                    stored.id == Some(old(self).repository.next_routine_id) && stored.name@
                        == trim_spec(name@) && stored.code@ == norm_code(code@)
                }
                &&& final(self).repository.next_routine_id == old(self).repository.next_routine_id + 1
                &&& (workout_exercises@.len() == 0 ==> r == Ok::<i64, StoreError>(
                    old(self).repository.next_routine_id,
                ) && final(self).repository.rex@ == old(self).repository.rex@)
                &&& (workout_exercises@.len() > 0 ==> match r {
                    Ok(rid) => rid == old(self).repository.next_routine_id && contiguous_from_one(
                        final(self).repository.template_groups_set(rid),
                    ),
                    Err(e) => final(self).repository.rex@ == old(self).repository.rex@ && (
                    e is Validation || e == StoreError::Storage),
                })
            },
    {
        let routine_id = match self.create_routine(name, code) {
            Ok(id) => id,
            Err(e) => {
                return Err(e);
            },
        };
        proof {
            let n = self.repository.routines@.len();
            assert(routine_id_of(self.repository.routines@[n - 1]) == routine_id);
            assert(routine_exists(self.repository, routine_id));
            assert(self.repository.routines@.take(old(self).repository.routines@.len() as int)
                =~= old(self).repository.routines@);
        }
        if workout_exercises.len() == 0 {
            return Ok(routine_id);
        }
        match self.fill_routine_from_workout(routine_id, workout_exercises) {
            Ok(()) => Ok(routine_id),
            Err(e) => Err(e),
        }
    }

    /// The second phase of capturing a workout: build the rows and
    /// replace the routine's template with them.
    #[verifier::spinoff_prover]
    #[verifier::rlimit(100)]
    fn fill_routine_from_workout(
        &mut self,
        routine_id: i64,
        workout_exercises: Vec<(i64, Option<i64>, Option<i64>, Option<i64>, Option<String>, Option<i64>)>,
    ) -> (r: Result<(), StoreError>)
        requires
            old(self).repository.wf(),
            routine_exists(old(self).repository, routine_id),
        ensures
            final(self).repository.wf(),
            final(self).repository.routines@ == old(self).repository.routines@,
            final(self).repository.next_routine_id == old(self).repository.next_routine_id,
            match r {
                Ok(()) => contiguous_from_one(
                    final(self).repository.template_groups_set(routine_id),
                ),
                Err(e) => final(self).repository.rex@ == old(self).repository.rex@ && final(self).repository.next_rex_id == old(self).repository.next_rex_id && (
                e is Validation || e == StoreError::Storage),
            },
    {
        if workout_exercises.len() > crate::models::MAX_ROWS {
            proof {
                assert(!self.repository.rex_replace_fits(
                    routine_id,
                    workout_exercises@.len() as int,
                )) by {
                    self.repository.rex@.lemma_filter_len(rex_not_scope_pred(routine_id));
                }
            }
            return Err(StoreError::Storage);
        }
        let mut entries: Vec<RoutineExercise> = Vec::new();
        let mut i: usize = 0;
        while i < workout_exercises.len()
            invariant
                0 <= i <= workout_exercises@.len(),
                workout_exercises@.len() <= crate::models::MAX_ROWS as int,
                *self == *old(self),
                old(self).repository.wf(),
                routine_exists(old(self).repository, routine_id),
                entries@.len() == i,
                forall|j: int|
                    0 <= j < i ==> (#[trigger] entries@[j]).routine_id == routine_id,
            decreases workout_exercises@.len() - i,
        {
            let t = &workout_exercises[i];
            entries.push(
                RoutineExercise::new(
                    routine_id,
                    t.0,
                    i as i64,
                    t.1,
                    t.2,
                    t.3,
                    crate::models::clone_opt_string(&t.4),
                    t.5,
                ),
            );
            i = i + 1;
        }
        match self.replace_routine_exercises(routine_id, entries) {
            Ok(()) => Ok(()),
            Err(e) => Err(e),
        }
    }
}

} // verus!
