//! The group-contiguity validator on concrete inputs.

use gymstore::errors::ValidationError;
use gymstore::groups::{validate_added_group, validate_group_set};

#[test]
fn empty_scope_accepts_nothing_proposed() {
    let groups: Vec<i64> = vec![];
    assert_eq!(validate_group_set(&groups), Ok(()));
}

#[test]
fn group_one_is_accepted_for_an_empty_scope() {
    let existing: Vec<i64> = vec![];
    assert_eq!(validate_added_group(&existing, 1), Ok(()));
}

#[test]
fn group_two_is_rejected_for_an_empty_scope() {
    let existing: Vec<i64> = vec![];
    assert_eq!(
        validate_added_group(&existing, 2),
        Err(ValidationError::MustStartAtOne(2))
    );
}

#[test]
fn group_zero_is_always_rejected() {
    let empty: Vec<i64> = vec![];
    let busy: Vec<i64> = vec![1, 2, 3];
    assert_eq!(
        validate_added_group(&empty, 0),
        Err(ValidationError::GroupOutOfRange(0))
    );
    assert_eq!(
        validate_added_group(&busy, 0),
        Err(ValidationError::GroupOutOfRange(0))
    );
}

#[test]
fn group_six_is_always_rejected() {
    let empty: Vec<i64> = vec![];
    let busy: Vec<i64> = vec![1, 2, 3, 4, 5];
    assert_eq!(
        validate_added_group(&empty, 6),
        Err(ValidationError::GroupOutOfRange(6))
    );
    assert_eq!(
        validate_added_group(&busy, 6),
        Err(ValidationError::GroupOutOfRange(6))
    );
}

#[test]
fn a_contiguous_set_is_accepted() {
    let groups: Vec<i64> = vec![2, 1, 3, 1, 2];
    assert_eq!(validate_group_set(&groups), Ok(()));
}

#[test]
fn a_skipped_group_is_named() {
    let groups: Vec<i64> = vec![1, 1, 3];
    assert_eq!(
        validate_group_set(&groups),
        Err(ValidationError::SkippedGroup(2))
    );
}

#[test]
fn a_scope_not_starting_at_one_is_rejected_with_its_minimum() {
    let groups: Vec<i64> = vec![3, 2];
    assert_eq!(
        validate_group_set(&groups),
        Err(ValidationError::MustStartAtOne(2))
    );
}

#[test]
fn adding_the_next_group_is_accepted_and_skipping_is_not() {
    let existing: Vec<i64> = vec![1, 1, 2];
    assert_eq!(validate_added_group(&existing, 3), Ok(()));
    assert_eq!(
        validate_added_group(&existing, 4),
        Err(ValidationError::SkippedGroup(3))
    );
}
