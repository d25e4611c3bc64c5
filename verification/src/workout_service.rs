//! The workout-entry service: field validation, the scope-wide group
//! rule, and same-scope checks in front of the session store. Validation
//! runs before any mutation; a rejected request leaves the store as it
//! was.

use vstd::prelude::*;
use crate::dates::{date_value, is_valid_date, valid_date};
use crate::errors::{StoreError, ValidationError};
use crate::groups::{
    contiguous_from_one, group_set, is_first_gap, is_min_of, renumber_seq, validate_group_set,
};
use crate::models::{WorkoutEntry, WorkoutEntryWithDetails};
use crate::seqs::{lemma_map_push, lemma_take_push};
use crate::text::str_eq;
use crate::workouts::{
    apply_entry_update, apply_orders, arranged_entries, eff_group_fn, entries_sorted,
    entry_groups, entry_le_fn, id_fn, id_of, in_scope, kept_pred, lemma_entries_arranged,
    lemma_store_rows_distinct, not_scope_pred, other_id_pred, person_pred, range_pred,
    renumber_row, stamp_all, stamped, WorkoutStore,
};

verus! {

/// The first field-validation failure one entry contains, if any.
pub open spec fn entry_input_error(e: WorkoutEntry) -> Option<ValidationError> {
    if e.person_id <= 0 {
        Some(ValidationError::InvalidPersonId)
    } else if e.exercise_id <= 0 {
        Some(ValidationError::InvalidExerciseId)
    } else if !valid_date(e.date@) {
        Some(ValidationError::BadDate)
    } else if e.sets is Some && e.sets->0 <= 0 {
        Some(ValidationError::NonPositiveSets)
    } else if e.reps is Some && e.reps->0 <= 0 {
        Some(ValidationError::NonPositiveReps)
    } else if e.weight is Some && e.weight->0 < 0 {
        Some(ValidationError::NegativeWeight)
    } else {
        None
    }
}

/// The first field-validation failure a batch contains, if any.
pub open spec fn entries_error(es: Seq<WorkoutEntry>) -> Option<ValidationError>
    decreases es.len(),
{
    if es.len() == 0 {
        None
    } else {
        match entry_input_error(es[0]) {
            Some(e) => Some(e),
            None => entries_error(es.drop_first()),
        }
    }
}

/// The first scope mismatch a batch contains against `(p, d)`, if any.
pub open spec fn mismatch_error(es: Seq<WorkoutEntry>, p: i64, d: Seq<char>) -> Option<
    ValidationError,
>
    decreases es.len(),
{
    if es.len() == 0 {
        None
    } else if es[0].person_id != p {
        Some(ValidationError::PersonMismatch)
    } else if es[0].date@ != d {
        Some(ValidationError::DateMismatch)
    } else {
        mismatch_error(es.drop_first(), p, d)
    }
}

/// The first bad pair in a display-order rewrite, if any.
pub open spec fn orders_error(ps: Seq<(i64, i64)>) -> Option<ValidationError>
    decreases ps.len(),
{
    if ps.len() == 0 {
        None
    } else if ps[0].0 <= 0 {
        Some(ValidationError::InvalidEntryId)
    } else if ps[0].1 < 0 {
        Some(ValidationError::NegativeOrder)
    } else {
        orders_error(ps.drop_first())
    }
}

/// Whether an identifier list names a non-positive identifier.
pub open spec fn has_bad_id(ids: Seq<i64>) -> bool {
    exists|i: int| 0 <= i < ids.len() && #[trigger] ids[i] <= 0
}

/// A batch without a scope mismatch lies wholly in the scope.
pub proof fn lemma_no_mismatch_in_scope(es: Seq<WorkoutEntry>, p: i64, d: Seq<char>)
    requires
        mismatch_error(es, p, d) is None,
    ensures
        forall|i: int| 0 <= i < es.len() ==> in_scope(#[trigger] es[i], p, d),
    decreases es.len(),
{
    if es.len() > 0 {
        lemma_no_mismatch_in_scope(es.drop_first(), p, d);
        assert forall|i: int| 0 <= i < es.len() implies in_scope(#[trigger] es[i], p, d) by {
            if i > 0 {
                assert(es.drop_first()[i - 1] == es[i]);
            }
        }
    }
}

/// Field validation of one entry.
fn validate_entry(e: &WorkoutEntry) -> (r: Option<ValidationError>)
    ensures
        r == entry_input_error(*e),
{
    if e.person_id <= 0 {
        return Some(ValidationError::InvalidPersonId);
    }
    if e.exercise_id <= 0 {
        return Some(ValidationError::InvalidExerciseId);
    }
    if !is_valid_date(e.date.as_str()) {
        return Some(ValidationError::BadDate);
    }
    match e.sets {
        Some(s) => {
            if s <= 0 {
                return Some(ValidationError::NonPositiveSets);
            }
        },
        None => {},
    }
    match e.reps {
        Some(s) => {
            if s <= 0 {
                return Some(ValidationError::NonPositiveReps);
            }
        },
        None => {},
    }
    match e.weight {
        Some(w) => {
            if w < 0 {
                return Some(ValidationError::NegativeWeight);
            }
        },
        None => {},
    }
    None
}

/// Field validation of a batch, first failure wins.
fn validate_entries(es: &Vec<WorkoutEntry>) -> (r: Option<ValidationError>)
    ensures
        r == entries_error(es@),
        r is None ==> forall|i: int|
            0 <= i < es@.len() ==> entry_input_error(#[trigger] es@[i]) is None,
{
    proof {
        assert(es@.skip(0) =~= es@);
    }
    let mut i: usize = 0;
    while i < es.len()
        invariant
            0 <= i <= es@.len(),
            entries_error(es@) == entries_error(es@.skip(i as int)),
            forall|j: int| 0 <= j < i ==> entry_input_error(#[trigger] es@[j]) is None,
        decreases es@.len() - i,
    {
        proof {
            assert(es@.skip(i as int)[0] == es@[i as int]);
            assert(es@.skip(i as int).drop_first() =~= es@.skip(i + 1));
        }
        let r = validate_entry(&es[i]);
        match r {
            Some(e) => {
                return Some(e);
            },
            None => {},
        }
        i = i + 1;
    }
    proof {
        assert(es@.skip(es@.len() as int).len() == 0);
    }
    None
}

/// Same-scope validation of a batch, first mismatch wins; the person
/// check comes before the date check at each position.
fn validate_same_scope(es: &Vec<WorkoutEntry>, p: i64, d: &str) -> (r: Option<ValidationError>)
    ensures
        r == mismatch_error(es@, p, d@),
        r is None ==> forall|i: int| 0 <= i < es@.len() ==> in_scope(#[trigger] es@[i], p, d@),
        r is Some ==> r->0 is PersonMismatch || r->0 is DateMismatch,
{
    proof {
        assert(es@.skip(0) =~= es@);
    }
    let mut i: usize = 0;
    while i < es.len()
        invariant
            0 <= i <= es@.len(),
            mismatch_error(es@, p, d@) == mismatch_error(es@.skip(i as int), p, d@),
            forall|j: int| 0 <= j < i ==> in_scope(#[trigger] es@[j], p, d@),
        decreases es@.len() - i,
    {
        proof {
            assert(es@.skip(i as int)[0] == es@[i as int]);
            assert(es@.skip(i as int).drop_first() =~= es@.skip(i + 1));
        }
        let row = &es[i];
        if row.person_id != p {
            return Some(ValidationError::PersonMismatch);
        }
        if !str_eq(row.date.as_str(), d) {
            return Some(ValidationError::DateMismatch);
        }
        i = i + 1;
    }
    proof {
        assert(es@.skip(es@.len() as int).len() == 0);
    }
    None
}

/// The effective group number of each entry of a batch.
fn entry_group_values(es: &Vec<WorkoutEntry>) -> (v: Vec<i64>)
    ensures
        v@ == entry_groups(es@),
{
    let mut v: Vec<i64> = Vec::new();
    let mut i: usize = 0;
    while i < es.len()
        invariant
            0 <= i <= es@.len(),
            v@ =~= entry_groups(es@.take(i as int)),
        decreases es@.len() - i,
    {
        let g = match es[i].group_number {
            Some(g) => g,
            None => 1,
        };
        v.push(g);
        proof {
            lemma_take_push(es@, i as int);
            lemma_map_push(es@.take(i as int), es@[i as int], eff_group_fn());
        }
        i = i + 1;
    }
    proof {
        assert(es@.take(es@.len() as int) =~= es@);
    }
    v
}

/// One entry joined with the display fields of its person and exercise.
pub open spec fn joined_row(
    e: WorkoutEntry,
    p: crate::people::PersonRow,
    x: crate::exercises::ExerciseRow,
) -> WorkoutEntryWithDetails {
    WorkoutEntryWithDetails {
        id: e.id,
        person_id: e.person_id,
        exercise_id: e.exercise_id,
        date: e.date,
        sets: e.sets,
        reps: e.reps,
        weight: e.weight,
        notes: e.notes,
        order_index: e.order_index,
        group_number: e.group_number,
        created_at: e.created_at,
        updated_at: e.updated_at,
        person_name: p.name,
        person_last_name: p.last_name,
        exercise_name: x.name,
        exercise_code: x.code,
    }
}

/// The inner join of a batch of entries against the two reference
/// tables: an entry whose person or exercise cannot be resolved — even
/// among the soft-deleted rows — is dropped; every other entry is
/// decorated with the display fields.
pub open spec fn decorate_spec(
    es: Seq<WorkoutEntry>,
    ps: crate::people::PersonStore,
    xs: crate::exercises::ExerciseStore,
) -> Seq<WorkoutEntryWithDetails>
    decreases es.len(),
{
    if es.len() == 0 {
        Seq::empty()
    } else {
        let rest = decorate_spec(es.drop_last(), ps, xs);
        match (ps.lookup(es.last().person_id), xs.lookup(es.last().exercise_id)) {
            (Some(pr), Some(xr)) => rest.push(joined_row(es.last(), pr, xr)),
            _ => rest,
        }
    }
}

/// Join entries against the reference tables for display; soft-deleted
/// people and exercises still resolve, so history keeps its names.
pub fn decorate_entries(
    entries: &Vec<WorkoutEntry>,
    people: &crate::people::PersonStore,
    exercises: &crate::exercises::ExerciseStore,
) -> (r: Vec<WorkoutEntryWithDetails>)
    requires
        people.wf(),
        exercises.wf(),
    ensures
        r@ == decorate_spec(entries@, *people, *exercises),
{
    let mut out: Vec<WorkoutEntryWithDetails> = Vec::new();
    let mut i: usize = 0;
    while i < entries.len()
        invariant
            0 <= i <= entries@.len(),
            people.wf(),
            exercises.wf(),
            out@ =~= decorate_spec(entries@.take(i as int), *people, *exercises),
        decreases entries@.len() - i,
    {
        let e = &entries[i];
        proof {
            lemma_take_push(entries@, i as int);
            assert(entries@.take(i + 1).drop_last() =~= entries@.take(i as int));
            assert(entries@.take(i + 1).last() == entries@[i as int]);
        }
        let person = people.get_by_id(e.person_id);
        let exercise = exercises.get_by_id(e.exercise_id);
        match (person, exercise) {
            (Some(p), Some(x)) => {
                out.push(
                    WorkoutEntryWithDetails {
                        id: e.id,
                        person_id: e.person_id,
                        exercise_id: e.exercise_id,
                        date: e.date.clone(),
                        sets: e.sets,
                        reps: e.reps,
                        weight: e.weight,
                        notes: crate::models::clone_opt_string(&e.notes),
                        order_index: e.order_index,
                        group_number: e.group_number,
                        created_at: crate::models::clone_opt_string(&e.created_at),
                        updated_at: crate::models::clone_opt_string(&e.updated_at),
                        person_name: p.name,
                        person_last_name: p.last_name,
                        exercise_name: x.name,
                        exercise_code: x.code,
                    },
                );
            },
            _ => {},
        }
        i = i + 1;
    }
    proof {
        assert(entries@.take(entries@.len() as int) =~= entries@);
    }
    out
}

/// The workout-entry service in front of the session store.
#[derive(Debug)]
pub struct WorkoutEntryService {
    pub repository: WorkoutStore,
}

impl WorkoutEntryService {
    /// Wrap a store.
    pub fn new(repository: WorkoutStore) -> (s: WorkoutEntryService)
        ensures
            s.repository == repository,
    {
        WorkoutEntryService { repository }
    }

    /// Validate one entry and insert it. No scope-wide group check runs
    /// on a single insert.
    pub fn create_workout_entry(&mut self, workout_entry: WorkoutEntry) -> (r: Result<
        (),
        StoreError,
    >)
        requires
            old(self).repository.wf(),
        ensures
            final(self).repository.wf(),
            match entry_input_error(workout_entry) {
                Some(e) => r == Err::<(), StoreError>(StoreError::Validation(e)) && *final(self) == *old(self),
                None => {
                    &&& (r is Ok <==> old(self).repository.capacity_for(1))
                    &&& (r is Ok ==> final(self).repository.rows@ == old(
                        self,
                    ).repository.rows@.push(stamped(workout_entry, old(self).repository.next_id))
                        && final(self).repository.next_id == old(self).repository.next_id + 1)
                    &&& (r is Err ==> r == Err::<(), StoreError>(StoreError::Storage) && *final(self) == *old(self))
                },
            },
    {
        match validate_entry(&workout_entry) {
            Some(e) => Err(StoreError::Validation(e)),
            None => self.repository.create(workout_entry),
        }
    }

    /// Validate a batch and insert it atomically. The group rule runs on
    /// the union of the batch's groups and whatever is already persisted
    /// for the first entry's scope.
    pub fn create_batch(&mut self, workout_entries: Vec<WorkoutEntry>) -> (r: Result<
        (),
        StoreError,
    >)
        requires
            old(self).repository.wf(),
        ensures
            final(self).repository.wf(),
            workout_entries@.len() == 0 ==> r == Err::<(), StoreError>(
                StoreError::Validation(ValidationError::EmptyBatch),
            ) && *final(self) == *old(self),
            workout_entries@.len() > 0 && entries_error(workout_entries@) is Some ==> r == Err::<
                (),
                StoreError,
            >(StoreError::Validation(entries_error(workout_entries@)->0)) && *final(self) == *old(
                self,
            ),
            ({
                let gset = group_set(
                    entry_groups(
                        old(self).repository.session(
                            workout_entries@[0].person_id,
                            workout_entries@[0].date@,
                        ),
                    ) + entry_groups(workout_entries@),
                );
                &&& (workout_entries@.len() > 0 && entries_error(workout_entries@) is None
                    ==> match r {
                    Ok(()) => contiguous_from_one(gset) && final(self).repository.rows@ == old(
                        self,
                    ).repository.rows@ + stamp_all(
                        workout_entries@,
                        old(self).repository.next_id as int,
                    ) && final(self).repository.next_id == old(self).repository.next_id
                        + workout_entries@.len(),
                    Err(StoreError::Validation(e)) => *final(self) == *old(self) && match e {
                        ValidationError::MustStartAtOne(m) => is_min_of(m as int, gset) && m != 1,
                        ValidationError::SkippedGroup(k) => gset.contains(1) && is_first_gap(
                            k as int,
                            gset,
                        ),
                        _ => false,
                    },
                    Err(StoreError::Storage) => *final(self) == *old(self) && contiguous_from_one(
                        gset,
                    ) && !old(self).repository.capacity_for(workout_entries@.len() as int),
                    Err(StoreError::NotFound) => false,
                })
                &&& (workout_entries@.len() > 0 && entries_error(workout_entries@) is None
                    && contiguous_from_one(gset) && old(self).repository.capacity_for(
                    workout_entries@.len() as int,
                ) ==> r is Ok)
                &&& (r is Ok && workout_entries@.len() > 0 && mismatch_error(
                    workout_entries@,
                    workout_entries@[0].person_id,
                    workout_entries@[0].date@,
                ) is None ==> group_set(
                    final(self).repository.session_groups(
                        workout_entries@[0].person_id,
                        workout_entries@[0].date@,
                    ),
                ) == gset)
            }),
    {
        if workout_entries.len() == 0 {
            return Err(StoreError::Validation(ValidationError::EmptyBatch));
        }
        match validate_entries(&workout_entries) {
            Some(e) => {
                return Err(StoreError::Validation(e));
            },
            None => {},
        }
        let person_id = workout_entries[0].person_id;
        let date = workout_entries[0].date.clone();
        let existing = self.repository.session_rows(person_id, date.as_str());
        let mut union = entry_group_values(&existing);
        let fresh = entry_group_values(&workout_entries);
        let ghost u0 = union@;
        let mut i: usize = 0;
        while i < fresh.len()
            invariant
                0 <= i <= fresh@.len(),
                union@ =~= u0 + fresh@.take(i as int),
            decreases fresh@.len() - i,
        {
            union.push(fresh[i]);
            proof {
                lemma_take_push(fresh@, i as int);
            }
            i = i + 1;
        }
        proof {
            assert(fresh@.take(fresh@.len() as int) =~= fresh@);
            assert(union@ == entry_groups(
                old(self).repository.session(
                    workout_entries@[0].person_id,
                    workout_entries@[0].date@,
                ),
            ) + entry_groups(workout_entries@));
        }
        match validate_group_set(&union) {
            Ok(()) => {
                let ghost p = workout_entries@[0].person_id;
                let ghost d = workout_entries@[0].date@;
                let r = self.repository.create_batch(workout_entries);
                proof {
                    if r is Ok && mismatch_error(workout_entries@, p, d) is None {
                        lemma_no_mismatch_in_scope(workout_entries@, p, d);
                        let new_part = stamp_all(
                            workout_entries@,
                            old(self).repository.next_id as int,
                        );
                        Seq::filter_distributes_over_add(
                            old(self).repository.rows@,
                            new_part,
                            crate::workouts::scope_pred(p, d),
                        );
                        assert forall|k: int| 0 <= k < new_part.len() implies
                            crate::workouts::scope_pred(p, d)(#[trigger] new_part[k]) by {
                            assert(new_part[k] == stamped(
                                workout_entries@[k],
                                (old(self).repository.next_id + k) as i64,
                            ));
                        }
                        crate::seqs::lemma_filter_all(
                            new_part,
                            crate::workouts::scope_pred(p, d),
                        );
                        assert(self.repository.session(p, d) =~= old(self).repository.session(
                            p,
                            d,
                        ) + new_part);
                        assert(entry_groups(new_part) =~= entry_groups(workout_entries@)) by {
                            assert forall|k: int| 0 <= k < new_part.len() implies entry_groups(
                                new_part,
                            )[k] == entry_groups(workout_entries@)[k] by {
                                assert(new_part[k] == stamped(
                                    workout_entries@[k],
                                    (old(self).repository.next_id + k) as i64,
                                ));
                            }
                        }
                        assert(self.repository.session_groups(p, d) =~= entry_groups(
                            old(self).repository.session(p, d),
                        ) + entry_groups(workout_entries@)) by {
                            assert forall|k: int|
                                0 <= k < self.repository.session_groups(p, d).len() implies
                                self.repository.session_groups(p, d)[k] == (entry_groups(
                                old(self).repository.session(p, d),
                            ) + entry_groups(workout_entries@))[k] by {}
                        }
                    }
                }
                r
            },
            Err(e) => Err(StoreError::Validation(e)),
        }
    }

    /// Validate a whole session and store it by replacing the first
    /// entry's scope: the batch must be non-empty, field-valid, group
    /// contiguous, and all of one scope.
    pub fn create_workout_session(&mut self, workout_entries: Vec<WorkoutEntry>) -> (r: Result<
        (),
        StoreError,
    >)
        requires
            old(self).repository.wf(),
        ensures
            final(self).repository.wf(),
            workout_entries@.len() == 0 ==> r == Err::<(), StoreError>(
                StoreError::Validation(ValidationError::EmptyBatch),
            ) && *final(self) == *old(self),
            workout_entries@.len() > 0 && entries_error(workout_entries@) is Some ==> r == Err::<
                (),
                StoreError,
            >(StoreError::Validation(entries_error(workout_entries@)->0)) && *final(self) == *old(
                self,
            ),
            ({
                let p = workout_entries@[0].person_id;
                let d = workout_entries@[0].date@;
                let gset = group_set(entry_groups(workout_entries@));
                workout_entries@.len() > 0 && entries_error(workout_entries@) is None ==> match r {
                    Ok(()) => {
                        &&& contiguous_from_one(gset)
                        &&& mismatch_error(workout_entries@, p, d) is None
                        &&& final(self).repository.rows@ == old(self).repository.rows@.filter(
                            not_scope_pred(p, d),
                        ) + stamp_all(workout_entries@, old(self).repository.next_id as int)
                        &&& final(self).repository.session(p, d) == stamp_all(
                            workout_entries@,
                            old(self).repository.next_id as int,
                        )
                        &&& contiguous_from_one(
                            group_set(final(self).repository.session_groups(p, d)),
                        )
                    },
                    Err(StoreError::Validation(e)) => *final(self) == *old(self) && match e {
                        ValidationError::MustStartAtOne(m) => is_min_of(m as int, gset) && m != 1,
                        ValidationError::SkippedGroup(k) => gset.contains(1) && is_first_gap(
                            k as int,
                            gset,
                        ),
                        ValidationError::PersonMismatch | ValidationError::DateMismatch => (e
                            == mismatch_error(workout_entries@, p, d)->0) && contiguous_from_one(
                            gset,
                        ),
                        _ => false,
                    },
                    Err(StoreError::Storage) => *final(self) == *old(self) && !old(
                        self,
                    ).repository.replace_fits(p, d, workout_entries@.len() as int),
                    Err(StoreError::NotFound) => false,
                }
            }),
    {
        if workout_entries.len() == 0 {
            return Err(StoreError::Validation(ValidationError::EmptyBatch));
        }
        match validate_entries(&workout_entries) {
            Some(e) => {
                return Err(StoreError::Validation(e));
            },
            None => {},
        }
        let groups = entry_group_values(&workout_entries);
        match validate_group_set(&groups) {
            Ok(()) => {},
            Err(e) => {
                return Err(StoreError::Validation(e));
            },
        }
        let person_id = workout_entries[0].person_id;
        let date = workout_entries[0].date.clone();
        match validate_same_scope(&workout_entries, person_id, date.as_str()) {
            Some(e) => {
                return Err(StoreError::Validation(e));
            },
            None => {},
        }
        self.repository.replace_session(person_id, date.as_str(), workout_entries)
    }

    /// Validate and atomically replace one scope; an empty batch clears
    /// the day without further validation.
    pub fn replace_workout_session(
        &mut self,
        person_id: i64,
        date: &str,
        workout_entries: Vec<WorkoutEntry>,
    ) -> (r: Result<(), StoreError>)
        requires
            old(self).repository.wf(),
        ensures
            final(self).repository.wf(),
            person_id <= 0 ==> r == Err::<(), StoreError>(
                StoreError::Validation(ValidationError::InvalidPersonId),
            ) && *final(self) == *old(self),
            person_id > 0 && !valid_date(date@) ==> r == Err::<(), StoreError>(
                StoreError::Validation(ValidationError::BadDate),
            ) && *final(self) == *old(self),
            person_id > 0 && valid_date(date@) && workout_entries@.len() > 0 && entries_error(
                workout_entries@,
            ) is Some ==> r == Err::<(), StoreError>(
                StoreError::Validation(entries_error(workout_entries@)->0),
            ) && *final(self) == *old(self),
            ({
                let gset = group_set(entry_groups(workout_entries@));
                person_id > 0 && valid_date(date@) && (workout_entries@.len() == 0 || (
                entries_error(workout_entries@) is None)) ==> match r {
                    Ok(()) => {
                        &&& workout_entries@.len() > 0 ==> contiguous_from_one(gset)
                            && mismatch_error(workout_entries@, person_id, date@) is None
                        &&& final(self).repository.rows@ == old(self).repository.rows@.filter(
                            not_scope_pred(person_id, date@),
                        ) + stamp_all(workout_entries@, old(self).repository.next_id as int)
                        &&& final(self).repository.session(person_id, date@) == stamp_all(
                            workout_entries@,
                            old(self).repository.next_id as int,
                        )
                        &&& contiguous_from_one(
                            group_set(final(self).repository.session_groups(person_id, date@)),
                        )
                    },
                    Err(StoreError::Validation(e)) => *final(self) == *old(self)
                        && workout_entries@.len() > 0 && match e {
                        ValidationError::MustStartAtOne(m) => is_min_of(m as int, gset) && m != 1,
                        ValidationError::SkippedGroup(k) => gset.contains(1) && is_first_gap(
                            k as int,
                            gset,
                        ),
                        ValidationError::PersonMismatch | ValidationError::DateMismatch => (e
                            == mismatch_error(workout_entries@, person_id, date@)->0)
                            && contiguous_from_one(gset),
                        _ => false,
                    },
                    Err(StoreError::Storage) => *final(self) == *old(self) && !old(
                        self,
                    ).repository.replace_fits(person_id, date@, workout_entries@.len() as int),
                    Err(StoreError::NotFound) => false,
                }
            }),
    {
        if person_id <= 0 {
            return Err(StoreError::Validation(ValidationError::InvalidPersonId));
        }
        if !is_valid_date(date) {
            return Err(StoreError::Validation(ValidationError::BadDate));
        }
        if workout_entries.len() == 0 {
            return self.repository.replace_session(person_id, date, workout_entries);
        }
        match validate_entries(&workout_entries) {
            Some(e) => {
                return Err(StoreError::Validation(e));
            },
            None => {},
        }
        let groups = entry_group_values(&workout_entries);
        match validate_group_set(&groups) {
            Ok(()) => {},
            Err(e) => {
                return Err(StoreError::Validation(e));
            },
        }
        match validate_same_scope(&workout_entries, person_id, date) {
            Some(e) => {
                return Err(StoreError::Validation(e));
            },
            None => {},
        }
        self.repository.replace_session(person_id, date, workout_entries)
    }

    /// Validate and run a granular replace: delete the named rows, then
    /// insert the batch, atomically. If the insert phase is refused, the
    /// named rows are still present afterwards.
    pub fn replace_workout_session_granular(
        &mut self,
        ids_to_delete: Vec<i64>,
        workout_entries_to_insert: Vec<WorkoutEntry>,
    ) -> (r: Result<(), StoreError>)
        requires
            old(self).repository.wf(),
        ensures
            final(self).repository.wf(),
            has_bad_id(ids_to_delete@) ==> r == Err::<(), StoreError>(
                StoreError::Validation(ValidationError::InvalidEntryId),
            ) && *final(self) == *old(self),
            !has_bad_id(ids_to_delete@) && entries_error(workout_entries_to_insert@) is Some ==> r
                == Err::<(), StoreError>(
                StoreError::Validation(entries_error(workout_entries_to_insert@)->0),
            ) && *final(self) == *old(self),
            !has_bad_id(ids_to_delete@) && entries_error(workout_entries_to_insert@) is None
                ==> match r {
                Ok(()) => final(self).repository.rows@ == old(self).repository.rows@.filter(
                    kept_pred(ids_to_delete@),
                ) + stamp_all(workout_entries_to_insert@, old(self).repository.next_id as int)
                    && final(self).repository.next_id == old(self).repository.next_id
                    + workout_entries_to_insert@.len(),
                Err(e) => e == StoreError::Storage && *final(self) == *old(self) && !old(
                    self,
                ).repository.granular_fits(
                    ids_to_delete@,
                    workout_entries_to_insert@.len() as int,
                ),
            },
    {
        let mut i: usize = 0;
        while i < ids_to_delete.len()
            invariant
                0 <= i <= ids_to_delete@.len(),
                *self == *old(self),
                old(self).repository.wf(),
                forall|j: int| 0 <= j < i ==> #[trigger] ids_to_delete@[j] > 0,
            decreases ids_to_delete@.len() - i,
        {
            if ids_to_delete[i] <= 0 {
                return Err(StoreError::Validation(ValidationError::InvalidEntryId));
            }
            i = i + 1;
        }
        if workout_entries_to_insert.len() > 0 {
            match validate_entries(&workout_entries_to_insert) {
                Some(e) => {
                    return Err(StoreError::Validation(e));
                },
                None => {},
            }
        }
        self.repository.replace_session_granular(ids_to_delete, workout_entries_to_insert)
    }

    /// Look one entry up; a non-positive identifier finds nothing.
    pub fn get_workout_entry(&self, id: i64) -> (r: Option<WorkoutEntry>)
        requires
            self.repository.wf(),
        ensures
            id <= 0 ==> r is None,
            id > 0 ==> match r {
                Some(e) => exists|i: int|
                    0 <= i < self.repository.rows@.len() && id_of(
                        #[trigger] self.repository.rows@[i],
                    ) == id && e == self.repository.rows@[i],
                None => forall|i: int|
                    0 <= i < self.repository.rows@.len() ==> id_of(
                        #[trigger] self.repository.rows@[i],
                    ) != id,
            },
    {
        if id <= 0 {
            return None;
        }
        self.repository.get_by_id(id)
    }

    /// One person's rows inside a date range, in the read-path order; a
    /// bad person or date yields nothing.
    pub fn get_workout_entries_by_person_and_date_range(
        &self,
        person_id: i64,
        start_date: &str,
        end_date: &str,
    ) -> (r: Vec<WorkoutEntry>)
        requires
            self.repository.wf(),
        ensures
            person_id <= 0 || !valid_date(start_date@) || !valid_date(end_date@) ==> r@
                =~= Seq::<WorkoutEntry>::empty(),
            person_id > 0 && valid_date(start_date@) && valid_date(end_date@) ==> entries_sorted(
                r@,
            ) && r@ == arranged_entries(
                self.repository.rows@.filter(
                    range_pred(person_id, date_value(start_date@), date_value(end_date@)),
                ),
            ) && r@.to_multiset() == self.repository.rows@.filter(
                range_pred(person_id, date_value(start_date@), date_value(end_date@)),
            ).to_multiset(),
    {
        if person_id <= 0 {
            return Vec::new();
        }
        if !is_valid_date(start_date) || !is_valid_date(end_date) {
            return Vec::new();
        }
        self.repository.get_by_person_and_date_range(person_id, start_date, end_date)
    }

    /// One person's rows inside a date range, in the read-path order,
    /// each joined with the display fields of its person and exercise;
    /// a row whose parent cannot be resolved — even among the
    /// soft-deleted rows — is dropped, the way the stored read path's
    /// join drops it.
    pub fn get_workout_entries_with_details(
        &self,
        person_id: i64,
        start_date: &str,
        end_date: &str,
        people: &crate::people::PersonStore,
        exercises: &crate::exercises::ExerciseStore,
    ) -> (r: Vec<WorkoutEntryWithDetails>)
        requires
            self.repository.wf(),
            people.wf(),
            exercises.wf(),
        ensures
            person_id <= 0 || !valid_date(start_date@) || !valid_date(end_date@) ==> r@
                =~= Seq::<WorkoutEntryWithDetails>::empty(),
            person_id > 0 && valid_date(start_date@) && valid_date(end_date@) ==> r@
                == decorate_spec(
                arranged_entries(
                    self.repository.rows@.filter(
                        range_pred(person_id, date_value(start_date@), date_value(end_date@)),
                    ),
                ),
                *people,
                *exercises,
            ),
    {
        let entries = self.get_workout_entries_by_person_and_date_range(
            person_id,
            start_date,
            end_date,
        );
        proof {
            if person_id > 0 && valid_date(start_date@) && valid_date(end_date@) {
                let pred = range_pred(
                    person_id,
                    date_value(start_date@),
                    date_value(end_date@),
                );
                lemma_store_rows_distinct(self.repository, pred);
                assert(vstd::relations::sorted_by(entries@, entry_le_fn())) by {
                    assert forall|a: int, b: int| 0 <= a < b < entries@.len() implies
                        #[trigger] entry_le_fn()(entries@[a], entries@[b]) by {
                        assert(crate::workouts::entry_le(entries@[a], entries@[b]));
                    }
                }
                lemma_entries_arranged(self.repository.rows@.filter(pred), entries@);
            }
        }
        decorate_entries(&entries, people, exercises)
    }

    /// Every row of one person, in the read-path order.
    pub fn get_workout_entries_by_person(&self, person_id: i64) -> (r: Vec<WorkoutEntry>)
        requires
            self.repository.wf(),
        ensures
            person_id <= 0 ==> r@ =~= Seq::<WorkoutEntry>::empty(),
            person_id > 0 ==> entries_sorted(r@) && r@ == arranged_entries(
                self.repository.rows@.filter(person_pred(person_id)),
            ) && r@.to_multiset() == self.repository.rows@.filter(
                person_pred(person_id),
            ).to_multiset(),
    {
        if person_id <= 0 {
            return Vec::new();
        }
        self.repository.get_by_person(person_id)
    }

    /// Validate and rewrite one entry.
    pub fn update_workout_entry(&mut self, workout_entry: WorkoutEntry) -> (r: Result<
        (),
        StoreError,
    >)
        requires
            old(self).repository.wf(),
        ensures
            final(self).repository.wf(),
            workout_entry.id is None ==> r == Err::<(), StoreError>(
                StoreError::Validation(ValidationError::InvalidEntryId),
            ) && *final(self) == *old(self),
            workout_entry.id is Some ==> match entry_input_error(workout_entry) {
                Some(e) => r == Err::<(), StoreError>(StoreError::Validation(e)) && *final(self)
                    == *old(self),
                None => r is Ok && final(self).repository.next_id == old(
                    self,
                ).repository.next_id && final(self).repository.rows@ == old(
                    self,
                ).repository.rows@.map_values(apply_entry_update(workout_entry)),
            },
    {
        if workout_entry.id.is_none() {
            return Err(StoreError::Validation(ValidationError::InvalidEntryId));
        }
        match validate_entry(&workout_entry) {
            Some(e) => {
                return Err(StoreError::Validation(e));
            },
            None => {},
        }
        self.repository.update(workout_entry)
    }

    /// Delete one entry by identifier; a missing row is reported, not
    /// silently ignored.
    pub fn delete_workout_entry(&mut self, id: i64) -> (r: Result<(), StoreError>)
        requires
            old(self).repository.wf(),
        ensures
            final(self).repository.wf(),
            id <= 0 ==> r == Err::<(), StoreError>(
                StoreError::Validation(ValidationError::InvalidEntryId),
            ) && *final(self) == *old(self),
            id > 0 && (forall|i: int|
                0 <= i < old(self).repository.rows@.len() ==> id_of(
                    #[trigger] old(self).repository.rows@[i],
                ) != id) ==> r == Err::<(), StoreError>(StoreError::NotFound) && *final(self)
                == *old(self),
            id > 0 && (exists|i: int|
                0 <= i < old(self).repository.rows@.len() && id_of(
                    #[trigger] old(self).repository.rows@[i],
                ) == id) ==> r is Ok && final(self).repository.rows@ == old(
                self,
            ).repository.rows@.filter(other_id_pred(id)) && final(self).repository.next_id == old(
                self,
            ).repository.next_id,
    {
        if id <= 0 {
            return Err(StoreError::Validation(ValidationError::InvalidEntryId));
        }
        match self.repository.get_by_id(id) {
            None => Err(StoreError::NotFound),
            Some(_) => self.repository.delete(id),
        }
    }

    /// Every row of the table, in the read-path order.
    pub fn list_all_workout_entries(&self) -> (r: Vec<WorkoutEntry>)
        requires
            self.repository.wf(),
        ensures
            entries_sorted(r@),
            r@ == arranged_entries(self.repository.rows@),
            r@.to_multiset() == self.repository.rows@.to_multiset(),
    {
        self.repository.list_all()
    }

    /// Validate and apply a batch of display-order rewrites.
    pub fn update_exercise_order(&mut self, exercise_orders: Vec<(i64, i64)>) -> (r: Result<
        (),
        StoreError,
    >)
        requires
            old(self).repository.wf(),
        ensures
            final(self).repository.wf(),
            exercise_orders@.len() == 0 ==> r == Err::<(), StoreError>(
                StoreError::Validation(ValidationError::EmptyBatch),
            ) && *final(self) == *old(self),
            exercise_orders@.len() > 0 ==> match orders_error(exercise_orders@) {
                Some(e) => r == Err::<(), StoreError>(StoreError::Validation(e)) && *final(self)
                    == *old(self),
                None => r is Ok && final(self).repository.rows@ == apply_orders(
                    old(self).repository.rows@,
                    exercise_orders@,
                ) && final(self).repository.next_id == old(self).repository.next_id,
            },
    {
        if exercise_orders.len() == 0 {
            return Err(StoreError::Validation(ValidationError::EmptyBatch));
        }
        proof {
            assert(exercise_orders@.skip(0) =~= exercise_orders@);
        }
        let mut i: usize = 0;
        while i < exercise_orders.len()
            invariant
                0 <= i <= exercise_orders@.len(),
                *self == *old(self),
                old(self).repository.wf(),
                exercise_orders@.len() > 0,
                orders_error(exercise_orders@) == orders_error(exercise_orders@.skip(i as int)),
                forall|j: int| 0 <= j < i ==> #[trigger] exercise_orders@[j].0 > 0 && exercise_orders@[j].1 >= 0,
            decreases exercise_orders@.len() - i,
        {
            proof {
                assert(exercise_orders@.skip(i as int)[0] == exercise_orders@[i as int]);
                assert(exercise_orders@.skip(i as int).drop_first() =~= exercise_orders@.skip(
                    i + 1,
                ));
            }
            let (id, order) = exercise_orders[i];
            if id <= 0 {
                return Err(StoreError::Validation(ValidationError::InvalidEntryId));
            }
            if order < 0 {
                return Err(StoreError::Validation(ValidationError::NegativeOrder));
            }
            i = i + 1;
        }
        proof {
            assert(exercise_orders@.skip(exercise_orders@.len() as int).len() == 0);
        }
        self.repository.update_exercise_order(exercise_orders)
    }

    /// Compact one scope's group numbers to `1..N`.
    pub fn renumber_groups(&mut self, person_id: i64, date: &str) -> (r: Result<(), StoreError>)
        requires
            old(self).repository.wf(),
        ensures
            final(self).repository.wf(),
            person_id <= 0 ==> r == Err::<(), StoreError>(
                StoreError::Validation(ValidationError::InvalidPersonId),
            ) && *final(self) == *old(self),
            person_id > 0 && !valid_date(date@) ==> r == Err::<(), StoreError>(
                StoreError::Validation(ValidationError::BadDate),
            ) && *final(self) == *old(self),
            person_id > 0 && valid_date(date@) ==> {
                &&& r is Ok
                &&& final(self).repository.rows@ == old(self).repository.rows@.map_values(
                    renumber_row(
                        person_id,
                        date@,
                        old(self).repository.scope_groups_set(person_id, date@),
                    ),
                )
                &&& final(self).repository.session_groups(person_id, date@) == renumber_seq(
                    old(self).repository.session_groups(person_id, date@),
                )
                &&& contiguous_from_one(
                    final(self).repository.scope_groups_set(person_id, date@),
                )
            },
    {
        if person_id <= 0 {
            return Err(StoreError::Validation(ValidationError::InvalidPersonId));
        }
        if !is_valid_date(date) {
            return Err(StoreError::Validation(ValidationError::BadDate));
        }
        self.repository.renumber_groups(person_id, date)
    }
}

} // verus!
