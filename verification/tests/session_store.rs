//! The session store and its service: replace, granular replace, the
//! read-path order, and group renumbering.

use gymstore::errors::{StoreError, ValidationError};
use gymstore::models::WorkoutEntry;
use gymstore::workout_service::WorkoutEntryService;
use gymstore::workouts::WorkoutStore;

fn entry(person: i64, exercise: i64, date: &str, order: i64, group: i64) -> WorkoutEntry {
    let mut e = WorkoutEntry::new(
        person,
        exercise,
        date.to_string(),
        Some(3),
        Some(10),
        Some(20_000),
        None,
    );
    e.order_index = Some(order);
    e.group_number = Some(group);
    e
}

fn service() -> WorkoutEntryService {
    WorkoutEntryService::new(WorkoutStore::new())
}

#[test]
fn replace_empty_then_replace_returns_exactly_the_entries() {
    let mut svc = service();
    assert_eq!(svc.replace_workout_session(5, "2024-01-15", vec![]), Ok(()));
    let entries = vec![
        entry(5, 11, "2024-01-15", 0, 1),
        entry(5, 12, "2024-01-15", 1, 1),
        entry(5, 13, "2024-01-15", 2, 2),
    ];
    assert_eq!(
        svc.replace_workout_session(5, "2024-01-15", entries.clone()),
        Ok(())
    );
    let got = svc.get_workout_entries_by_person_and_date_range(5, "2024-01-15", "2024-01-15");
    assert_eq!(got.len(), 3);
    for (g, e) in got.iter().zip(entries.iter()) {
        assert_eq!(g.person_id, e.person_id);
        assert_eq!(g.exercise_id, e.exercise_id);
        assert_eq!(g.date, e.date);
        assert_eq!(g.sets, e.sets);
        assert_eq!(g.reps, e.reps);
        assert_eq!(g.weight, e.weight);
        assert_eq!(g.notes, e.notes);
        assert_eq!(g.order_index, e.order_index);
        assert_eq!(g.group_number, e.group_number);
        assert!(g.id.is_some());
    }
}

#[test]
fn range_read_orders_by_date_desc_then_order_asc_then_creation_desc() {
    let mut svc = service();
    // Stored out of order on purpose; two dates, ties on order broken by
    // creation, newest first.
    assert_eq!(
        svc.replace_workout_session(
            5,
            "2024-01-10",
            vec![
                entry(5, 21, "2024-01-10", 1, 1),
                entry(5, 22, "2024-01-10", 0, 1),
            ],
        ),
        Ok(())
    );
    assert_eq!(
        svc.replace_workout_session(
            5,
            "2024-01-20",
            vec![
                entry(5, 23, "2024-01-20", 0, 1),
                entry(5, 24, "2024-01-20", 0, 1),
            ],
        ),
        Ok(())
    );
    let got = svc.get_workout_entries_by_person_and_date_range(5, "2024-01-01", "2024-01-31");
    let keys: Vec<i64> = got.iter().map(|e| e.exercise_id).collect();
    // Date 2024-01-20 first; its two rows share order 0, so the later
    // insertion (24) comes first. Then 2024-01-10 by ascending order.
    assert_eq!(keys, vec![24, 23, 22, 21]);
}

#[test]
fn range_read_rejects_bad_person_or_dates() {
    let svc = service();
    assert!(svc
        .get_workout_entries_by_person_and_date_range(0, "2024-01-01", "2024-01-31")
        .is_empty());
    assert!(svc
        .get_workout_entries_by_person_and_date_range(5, "2024-13-01", "2024-01-31")
        .is_empty());
    assert!(svc
        .get_workout_entries_by_person_and_date_range(5, "2024-01-01", "not-a-date")
        .is_empty());
}

#[test]
fn granular_replace_keeps_deleted_rows_when_insert_is_refused() {
    let mut svc = service();
    assert_eq!(
        svc.replace_workout_session(
            7,
            "2024-02-01",
            vec![
                entry(7, 31, "2024-02-01", 0, 1),
                entry(7, 32, "2024-02-01", 1, 1),
            ],
        ),
        Ok(())
    );
    let before = svc.get_workout_entries_by_person_and_date_range(7, "2024-02-01", "2024-02-01");
    let ids: Vec<i64> = before.iter().map(|e| e.id.unwrap()).collect();

    // The insert phase is refused: one entry carries a malformed date.
    let bad = entry(7, 33, "2024-99-99", 0, 1);
    let r = svc.replace_workout_session_granular(ids.clone(), vec![bad]);
    assert_eq!(
        r,
        Err(StoreError::Validation(ValidationError::BadDate))
    );

    // The rows named for deletion are still present.
    let after = svc.get_workout_entries_by_person_and_date_range(7, "2024-02-01", "2024-02-01");
    let after_ids: Vec<i64> = after.iter().map(|e| e.id.unwrap()).collect();
    for id in &ids {
        assert!(after_ids.contains(id));
    }
}

#[test]
fn granular_replace_applies_both_phases() {
    let mut svc = service();
    assert_eq!(
        svc.replace_workout_session(
            7,
            "2024-02-01",
            vec![
                entry(7, 31, "2024-02-01", 0, 1),
                entry(7, 32, "2024-02-01", 1, 1),
            ],
        ),
        Ok(())
    );
    let before = svc.get_workout_entries_by_person_and_date_range(7, "2024-02-01", "2024-02-01");
    let drop_id = before
        .iter()
        .find(|e| e.exercise_id == 31)
        .unwrap()
        .id
        .unwrap();
    assert_eq!(
        svc.replace_workout_session_granular(vec![drop_id], vec![entry(7, 33, "2024-02-01", 2, 1)]),
        Ok(())
    );
    let after = svc.get_workout_entries_by_person_and_date_range(7, "2024-02-01", "2024-02-01");
    let keys: Vec<i64> = after.iter().map(|e| e.exercise_id).collect();
    assert!(keys.contains(&32));
    assert!(keys.contains(&33));
    assert!(!keys.contains(&31));
}

#[test]
fn session_replace_validates_groups_before_touching_the_store() {
    let mut svc = service();
    assert_eq!(
        svc.replace_workout_session(5, "2024-01-15", vec![entry(5, 1, "2024-01-15", 0, 1)]),
        Ok(())
    );
    // A gap in the batch is rejected and the day keeps its single row.
    let r = svc.replace_workout_session(
        5,
        "2024-01-15",
        vec![
            entry(5, 2, "2024-01-15", 0, 1),
            entry(5, 3, "2024-01-15", 1, 3),
        ],
    );
    assert_eq!(r, Err(StoreError::Validation(ValidationError::SkippedGroup(2))));
    let got = svc.get_workout_entries_by_person_and_date_range(5, "2024-01-15", "2024-01-15");
    assert_eq!(got.len(), 1);
    assert_eq!(got[0].exercise_id, 1);
}

#[test]
fn session_replace_rejects_a_foreign_person_or_date() {
    let mut svc = service();
    let r = svc.replace_workout_session(
        5,
        "2024-01-15",
        vec![entry(6, 2, "2024-01-15", 0, 1)],
    );
    assert_eq!(r, Err(StoreError::Validation(ValidationError::PersonMismatch)));
    let r = svc.replace_workout_session(
        5,
        "2024-01-15",
        vec![entry(5, 2, "2024-01-16", 0, 1)],
    );
    assert_eq!(r, Err(StoreError::Validation(ValidationError::DateMismatch)));
}

#[test]
fn create_batch_checks_the_union_with_the_persisted_scope() {
    let mut svc = service();
    assert_eq!(
        svc.create_batch(vec![entry(9, 1, "2024-03-01", 0, 1)]),
        Ok(())
    );
    // Group 3 against persisted {1}: group 2 is missing.
    assert_eq!(
        svc.create_batch(vec![entry(9, 2, "2024-03-01", 1, 3)]),
        Err(StoreError::Validation(ValidationError::SkippedGroup(2)))
    );
    // Group 2 joins fine.
    assert_eq!(
        svc.create_batch(vec![entry(9, 2, "2024-03-01", 1, 2)]),
        Ok(())
    );
}

#[test]
fn renumber_compacts_and_is_idempotent() {
    let mut svc = service();
    assert_eq!(
        svc.replace_workout_session(
            4,
            "2024-04-04",
            vec![
                entry(4, 1, "2024-04-04", 0, 1),
                entry(4, 2, "2024-04-04", 1, 2),
                entry(4, 3, "2024-04-04", 2, 2),
            ],
        ),
        Ok(())
    );
    // Open a gap through an update, which the validator does not forbid.
    let rows = svc.get_workout_entries_by_person_and_date_range(4, "2024-04-04", "2024-04-04");
    let mut moved = rows.iter().find(|e| e.exercise_id == 1).unwrap().clone();
    moved.group_number = Some(4);
    assert_eq!(svc.update_workout_entry(moved), Ok(()));

    assert_eq!(svc.renumber_groups(4, "2024-04-04"), Ok(()));
    let once = svc.get_workout_entries_by_person_and_date_range(4, "2024-04-04", "2024-04-04");
    let mut groups: Vec<i64> = once.iter().map(|e| e.group_number.unwrap()).collect();
    groups.sort();
    assert_eq!(groups, vec![1, 1, 2]);

    assert_eq!(svc.renumber_groups(4, "2024-04-04"), Ok(()));
    let twice = svc.get_workout_entries_by_person_and_date_range(4, "2024-04-04", "2024-04-04");
    assert_eq!(once, twice);
}

#[test]
fn update_exercise_order_applies_pairs_in_order() {
    let mut svc = service();
    assert_eq!(
        svc.replace_workout_session(
            2,
            "2024-05-05",
            vec![
                entry(2, 1, "2024-05-05", 0, 1),
                entry(2, 2, "2024-05-05", 1, 1),
            ],
        ),
        Ok(())
    );
    let rows = svc.get_workout_entries_by_person_and_date_range(2, "2024-05-05", "2024-05-05");
    let a = rows[0].id.unwrap();
    // The later pair for the same row wins.
    assert_eq!(
        svc.update_exercise_order(vec![(a, 7), (a, 9)]),
        Ok(())
    );
    let rows = svc.get_workout_entries_by_person_and_date_range(2, "2024-05-05", "2024-05-05");
    let again = rows.iter().find(|e| e.id == Some(a)).unwrap();
    assert_eq!(again.order_index, Some(9));
}

#[test]
fn update_exercise_order_rejects_bad_pairs() {
    let mut svc = service();
    assert_eq!(
        svc.update_exercise_order(vec![]),
        Err(StoreError::Validation(ValidationError::EmptyBatch))
    );
    assert_eq!(
        svc.update_exercise_order(vec![(0, 1)]),
        Err(StoreError::Validation(ValidationError::InvalidEntryId))
    );
    assert_eq!(
        svc.update_exercise_order(vec![(1, -1)]),
        Err(StoreError::Validation(ValidationError::NegativeOrder))
    );
}

#[test]
fn delete_reports_a_missing_row() {
    let mut svc = service();
    assert_eq!(
        svc.delete_workout_entry(0),
        Err(StoreError::Validation(ValidationError::InvalidEntryId))
    );
    assert_eq!(svc.delete_workout_entry(42), Err(StoreError::NotFound));
    assert_eq!(svc.create_workout_entry(entry(1, 1, "2024-01-01", 0, 1)), Ok(()));
    let e = svc.get_workout_entry(1).unwrap();
    assert_eq!(e.exercise_id, 1);
    assert_eq!(svc.delete_workout_entry(1), Ok(()));
    assert!(svc.get_workout_entry(1).is_none());
}

#[test]
fn single_entry_validation_names_the_first_failure() {
    let mut svc = service();
    assert_eq!(
        svc.create_workout_entry(entry(0, 1, "2024-01-01", 0, 1)),
        Err(StoreError::Validation(ValidationError::InvalidPersonId))
    );
    assert_eq!(
        svc.create_workout_entry(entry(1, 0, "2024-01-01", 0, 1)),
        Err(StoreError::Validation(ValidationError::InvalidExerciseId))
    );
    assert_eq!(
        svc.create_workout_entry(entry(1, 1, "2024-1-01", 0, 1)),
        Err(StoreError::Validation(ValidationError::BadDate))
    );
    let mut bad_sets = entry(1, 1, "2024-01-01", 0, 1);
    bad_sets.sets = Some(0);
    assert_eq!(
        svc.create_workout_entry(bad_sets),
        Err(StoreError::Validation(ValidationError::NonPositiveSets))
    );
    let mut bad_weight = entry(1, 1, "2024-01-01", 0, 1);
    bad_weight.weight = Some(-1);
    assert_eq!(
        svc.create_workout_entry(bad_weight),
        Err(StoreError::Validation(ValidationError::NegativeWeight))
    );
}
