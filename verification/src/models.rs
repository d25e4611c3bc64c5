//! The data model: reference entities (people, exercises), session rows
//! (workout entries), and routine templates with their exercise rows.
//!
//! Integer identifiers are positive once a row is stored. Dates are plain
//! `YYYY-MM-DD` strings. A stored weight is kept as a whole number of
//! thousandths of a kilogram, so the model stays in exact integers.

use vstd::prelude::*;

verus! {

/// The most rows any one table accepts; keeping the count below this
/// bound keeps every count and offset well inside `i64`.
pub const MAX_ROWS: usize = 0x7fff_ffff;

/// A person; soft-deletable reference data.
#[derive(Debug, PartialEq)]
pub struct Person {
    pub id: Option<i64>,
    pub name: String,
    pub last_name: String,
    pub phone: String,
}

impl Clone for Person {
    fn clone(&self) -> (res: Self)
        ensures
            res == *self,
    {
        Person {
            id: self.id,
            name: self.name.clone(),
            last_name: self.last_name.clone(),
            phone: self.phone.clone(),
        }
    }
}

/// One page of people together with the paging bookkeeping.
#[derive(Debug, Clone, PartialEq)]
pub struct PaginatedPersonResponse {
    pub persons: Vec<Person>,
    pub total: i64,
    pub page: i64,
    pub page_size: i64,
    pub total_pages: i64,
}

/// An exercise; soft-deletable reference data with a unique code.
#[derive(Debug, PartialEq)]
pub struct Exercise {
    pub id: Option<i64>,
    pub name: String,
    pub code: String,
}

impl Clone for Exercise {
    fn clone(&self) -> (res: Self)
        ensures
            res == *self,
    {
        Exercise { id: self.id, name: self.name.clone(), code: self.code.clone() }
    }
}

/// One page of exercises together with the paging bookkeeping.
#[derive(Debug, Clone, PartialEq)]
pub struct PaginatedExerciseResponse {
    pub exercises: Vec<Exercise>,
    pub total: i64,
    pub page: i64,
    pub page_size: i64,
    pub total_pages: i64,
}

/// A reusable routine template with a unique code; hard-deletable.
#[derive(Debug, PartialEq)]
pub struct Routine {
    pub id: Option<i64>,
    pub name: String,
    pub code: String,
    pub created_at: Option<String>,
    pub updated_at: Option<String>,
}

impl Clone for Routine {
    fn clone(&self) -> (res: Self)
        ensures
            res == *self,
    {
        Routine {
            id: self.id,
            name: self.name.clone(),
            code: self.code.clone(),
            created_at: clone_opt_string(&self.created_at),
            updated_at: clone_opt_string(&self.updated_at),
        }
    }
}

impl Routine {
    /// A fresh, not yet stored routine.
    pub fn new(name: String, code: String) -> (r: Routine)
        ensures
            r.id is None,
            r.name == name,
            r.code == code,
            r.created_at is None,
            r.updated_at is None,
    {
        Routine { id: None, name, code, created_at: None, updated_at: None }
    }
}

/// One exercise row of a routine template.
#[derive(Debug, PartialEq)]
pub struct RoutineExercise {
    pub id: Option<i64>,
    pub routine_id: i64,
    pub exercise_id: i64,
    pub order_index: i64,
    pub sets: Option<i64>,
    pub reps: Option<i64>,
    /// Thousandths of a kilogram.
    pub weight: Option<i64>,
    pub notes: Option<String>,
    pub group_number: Option<i64>,
    pub created_at: Option<String>,
    pub updated_at: Option<String>,
}

impl Clone for RoutineExercise {
    fn clone(&self) -> (res: Self)
        ensures
            res == *self,
    {
        RoutineExercise {
            id: self.id,
            routine_id: self.routine_id,
            exercise_id: self.exercise_id,
            order_index: self.order_index,
            sets: self.sets,
            reps: self.reps,
            weight: self.weight,
            notes: clone_opt_string(&self.notes),
            group_number: self.group_number,
            created_at: clone_opt_string(&self.created_at),
            updated_at: clone_opt_string(&self.updated_at),
        }
    }
}

impl RoutineExercise {
    /// A fresh, not yet stored routine-exercise row.
    pub fn new(
        routine_id: i64,
        exercise_id: i64,
        order_index: i64,
        sets: Option<i64>,
        reps: Option<i64>,
        weight: Option<i64>,
        notes: Option<String>,
        group_number: Option<i64>,
    ) -> (r: RoutineExercise)
        ensures
            r == (RoutineExercise {
                id: None,
                routine_id,
                exercise_id,
                order_index,
                sets,
                reps,
                weight,
                notes,
                group_number,
                created_at: None,
                updated_at: None,
            }),
    {
        RoutineExercise {
            id: None,
            routine_id,
            exercise_id,
            order_index,
            sets,
            reps,
            weight,
            notes,
            group_number,
            created_at: None,
            updated_at: None,
        }
    }
}

/// A routine-exercise row decorated with its exercise's display fields.
#[derive(Debug, Clone, PartialEq)]
pub struct RoutineExerciseWithDetails {
    pub id: Option<i64>,
    pub routine_id: i64,
    pub exercise_id: i64,
    pub order_index: i64,
    pub sets: Option<i64>,
    pub reps: Option<i64>,
    /// Thousandths of a kilogram.
    pub weight: Option<i64>,
    pub notes: Option<String>,
    pub group_number: Option<i64>,
    pub created_at: Option<String>,
    pub updated_at: Option<String>,
    pub exercise_name: String,
    pub exercise_code: String,
}

/// A routine together with its exercise rows.
#[derive(Debug, Clone, PartialEq)]
pub struct RoutineWithExercises {
    pub id: Option<i64>,
    pub name: String,
    pub code: String,
    pub created_at: Option<String>,
    pub updated_at: Option<String>,
    pub exercises: Vec<RoutineExercise>,
}

/// One workout entry: what one person did on one date.
#[derive(Debug, PartialEq)]
pub struct WorkoutEntry {
    pub id: Option<i64>,
    pub person_id: i64,
    pub exercise_id: i64,
    /// `YYYY-MM-DD`.
    pub date: String,
    pub sets: Option<i64>,
    pub reps: Option<i64>,
    /// Thousandths of a kilogram.
    pub weight: Option<i64>,
    pub notes: Option<String>,
    pub order_index: Option<i64>,
    pub group_number: Option<i64>,
    pub created_at: Option<String>,
    pub updated_at: Option<String>,
}

impl Clone for WorkoutEntry {
    fn clone(&self) -> (res: Self)
        ensures
            res == *self,
    {
        WorkoutEntry {
            id: self.id,
            person_id: self.person_id,
            exercise_id: self.exercise_id,
            date: self.date.clone(),
            sets: self.sets,
            reps: self.reps,
            weight: self.weight,
            notes: clone_opt_string(&self.notes),
            order_index: self.order_index,
            group_number: self.group_number,
            created_at: clone_opt_string(&self.created_at),
            updated_at: clone_opt_string(&self.updated_at),
        }
    }
}

impl WorkoutEntry {
    /// A fresh, not yet stored workout entry.
    pub fn new(
        person_id: i64,
        exercise_id: i64,
        date: String,
        sets: Option<i64>,
        reps: Option<i64>,
        weight: Option<i64>,
        notes: Option<String>,
    ) -> (r: WorkoutEntry)
        ensures
            r == (WorkoutEntry {
                id: None,
                person_id,
                exercise_id,
                date,
                sets,
                reps,
                weight,
                notes,
                order_index: None,
                group_number: None,
                created_at: None,
                updated_at: None,
            }),
    {
        WorkoutEntry {
            id: None,
            person_id,
            exercise_id,
            date,
            sets,
            reps,
            weight,
            notes,
            order_index: None,
            group_number: None,
            created_at: None,
            updated_at: None,
        }
    }
}

/// A workout entry decorated with the display fields of its person and
/// exercise.
#[derive(Debug, Clone, PartialEq)]
pub struct WorkoutEntryWithDetails {
    pub id: Option<i64>,
    pub person_id: i64,
    pub exercise_id: i64,
    pub date: String,
    pub sets: Option<i64>,
    pub reps: Option<i64>,
    /// Thousandths of a kilogram.
    pub weight: Option<i64>,
    pub notes: Option<String>,
    pub order_index: Option<i64>,
    pub group_number: Option<i64>,
    pub created_at: Option<String>,
    pub updated_at: Option<String>,
    pub person_name: String,
    pub person_last_name: String,
    pub exercise_name: String,
    pub exercise_code: String,
}

/// A copy of an optional string that is known to equal its source.
pub fn clone_opt_string(s: &Option<String>) -> (res: Option<String>)
    ensures
        res == *s,
{
    match s {
        Some(v) => Some(v.clone()),
        None => None,
    }
}

} // verus!
