//! Failure taxonomy of the storage engine.
//!
//! Validation failures are detected before any mutation is applied; a
//! `NotFound` names a missing parent entity; `Storage` stands for the
//! store refusing a mutation (a unique key already taken, or no capacity
//! left for new rows).

use vstd::prelude::*;

verus! {

/// Why an input was rejected before any mutation was attempted.
#[derive(Debug, Clone, Copy, PartialEq, Eq, Structural)]
pub enum ValidationError {
    /// A person identifier was zero or negative.
    InvalidPersonId,
    /// An exercise identifier was zero or negative.
    InvalidExerciseId,
    /// A routine identifier was zero or negative.
    InvalidRoutineId,
    /// A row identifier was zero or negative, or missing where required.
    InvalidEntryId,
    /// A date string is not of the form `YYYY-MM-DD` with fields in range.
    BadDate,
    /// A person's name is blank.
    EmptyName,
    /// A person's last name is blank.
    EmptyLastName,
    /// A person's phone is blank.
    EmptyPhone,
    /// A routine's code is blank.
    EmptyCode,
    /// A batch operation was handed no entries.
    EmptyBatch,
    /// A field that must be positive was zero or negative.
    NonPositiveSets,
    /// A field that must be positive was zero or negative.
    NonPositiveReps,
    /// A stored weight must not be negative.
    NegativeWeight,
    /// A display-order value must not be negative.
    NegativeOrder,
    /// An entry in a batch names a different person than the batch's scope.
    PersonMismatch,
    /// An entry in a batch names a different date than the batch's scope.
    DateMismatch,
    /// An entry in a batch names a different routine than the batch's scope.
    RoutineMismatch,
    /// A proposed group number lies outside the selectable range.
    GroupOutOfRange(i64),
    /// The scope's smallest group number would not be 1.
    MustStartAtOne(i64),
    /// The scope would skip this group number.
    SkippedGroup(i64),
}

/// A failure surfaced by a store operation.
#[derive(Debug, Clone, Copy, PartialEq, Eq, Structural)]
pub enum StoreError {
    /// Malformed input, rejected before any mutation was applied.
    Validation(ValidationError),
    /// The operation references a parent entity that does not exist.
    NotFound,
    /// The store refused the mutation: a unique key is already taken, or
    /// the store has no identifiers or capacity left for new rows.
    Storage,
}

} // verus!
