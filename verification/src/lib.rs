//! Storage consistency engine for a single-user fitness tracker.
//!
//! The library keeps people, exercises, ad-hoc workout sessions and reusable
//! routine templates consistent across mutations: schema evolution of the
//! persisted shape, atomic whole- and partial-replacement of a scope's rows,
//! a scope-wide "group numbers form a contiguous range starting at 1"
//! invariant, and a dual deletion policy (soft delete for reference data,
//! hard delete for session and template data).

pub mod errors;
pub mod groups;
pub mod models;
pub mod dates;
pub mod text;
pub mod seqs;
pub mod paging;
pub mod people;
pub mod exercises;
pub mod workouts;
pub mod workout_service;
pub mod routines;
pub mod routine_service;
pub mod schema;
pub mod backup;
pub mod updater;
