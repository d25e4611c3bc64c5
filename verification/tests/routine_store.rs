//! The routine store and its service: templates, validated row mutations,
//! whole-replace, cascade delete, and group renumbering.

use gymstore::errors::{StoreError, ValidationError};
use gymstore::exercises::{ExerciseService, ExerciseStore};
use gymstore::models::{Exercise, RoutineExercise};
use gymstore::routine_service::decorate_routine_exercises;
use gymstore::routine_service::RoutineService;
use gymstore::routines::RoutineStore;

fn service() -> RoutineService {
    RoutineService::new(RoutineStore::new())
}

fn rex(routine: i64, exercise: i64, order: i64, group: i64) -> RoutineExercise {
    RoutineExercise::new(routine, exercise, order, Some(3), Some(8), Some(40_000), None, Some(group))
}

fn groups_of(svc: &RoutineService, rid: i64) -> Vec<i64> {
    let mut v: Vec<i64> = svc
        .get_routine_exercises(rid)
        .iter()
        .map(|e| e.group_number.unwrap_or(1))
        .collect();
    v.sort();
    v
}

#[test]
fn create_and_fetch_a_routine() {
    let mut svc = service();
    let rid = svc
        .create_routine("Push day".to_string(), "PUSH".to_string())
        .unwrap();
    let r = svc.get_routine_by_id(rid).unwrap();
    assert_eq!(r.name, "Push day");
    assert_eq!(r.code, "PUSH");
    assert!(svc.get_routine_by_id(rid + 1).is_none());
}

#[test]
fn a_duplicate_code_is_refused_by_the_store() {
    let mut svc = service();
    svc.create_routine("A".to_string(), "SAME".to_string()).unwrap();
    assert_eq!(
        svc.create_routine("B".to_string(), "SAME".to_string()),
        Err(StoreError::Storage)
    );
}

#[test]
fn blank_names_are_rejected() {
    let mut svc = service();
    assert_eq!(
        svc.create_routine("   ".to_string(), "X".to_string()),
        Err(StoreError::Validation(ValidationError::EmptyName))
    );
    assert_eq!(
        svc.create_routine("X".to_string(), " \t ".to_string()),
        Err(StoreError::Validation(ValidationError::EmptyCode))
    );
}

#[test]
fn adding_rows_runs_the_group_validator() {
    let mut svc = service();
    let rid = svc.create_routine("Legs".to_string(), "LEGS".to_string()).unwrap();
    assert_eq!(
        svc.add_exercise_to_routine(rid, 10, 0, None, None, None, None, Some(2)),
        Err(StoreError::Validation(ValidationError::MustStartAtOne(2)))
    );
    assert_eq!(
        svc.add_exercise_to_routine(rid, 10, 0, None, None, None, None, Some(1)),
        Ok(())
    );
    assert_eq!(
        svc.add_exercise_to_routine(rid, 11, 1, None, None, None, None, Some(3)),
        Err(StoreError::Validation(ValidationError::SkippedGroup(2)))
    );
    assert_eq!(
        svc.add_exercise_to_routine(rid, 11, 1, None, None, None, None, Some(2)),
        Ok(())
    );
    assert_eq!(
        svc.add_exercise_to_routine(rid, 12, 2, None, None, None, None, Some(6)),
        Err(StoreError::Validation(ValidationError::GroupOutOfRange(6)))
    );
}

#[test]
fn adding_a_missing_routine_is_not_found() {
    let mut svc = service();
    assert_eq!(
        svc.add_exercise_to_routine(99, 10, 0, None, None, None, None, Some(1)),
        Err(StoreError::NotFound)
    );
}

#[test]
fn a_duplicated_pair_is_refused_like_the_unique_key() {
    let mut svc = service();
    let rid = svc.create_routine("Pull".to_string(), "PULL".to_string()).unwrap();
    assert_eq!(
        svc.add_exercise_to_routine(rid, 10, 0, None, None, None, None, Some(1)),
        Ok(())
    );
    assert_eq!(
        svc.add_exercise_to_routine(rid, 10, 1, None, None, None, None, Some(1)),
        Err(StoreError::Storage)
    );
}

#[test]
fn renumber_leaves_contiguous_groups_alone() {
    let mut svc = service();
    let rid = svc.create_routine("Mixed".to_string(), "MIX".to_string()).unwrap();
    for (i, g) in [1i64, 1, 2, 2, 3].iter().enumerate() {
        svc.add_exercise_to_routine(rid, 10 + i as i64, i as i64, None, None, None, None, Some(*g))
            .unwrap();
    }
    let before = svc.get_routine_exercises(rid);
    assert_eq!(svc.renumber_routine_groups(rid), Ok(()));
    let after = svc.get_routine_exercises(rid);
    assert_eq!(before, after);
    assert_eq!(groups_of(&svc, rid), vec![1, 1, 2, 2, 3]);
}

#[test]
fn renumber_compacts_a_gap_left_by_an_update() {
    let mut svc = service();
    let rid = svc.create_routine("Gapped".to_string(), "GAP".to_string()).unwrap();
    for (i, g) in [1i64, 1, 2, 3].iter().enumerate() {
        svc.add_exercise_to_routine(rid, 20 + i as i64, i as i64, None, None, None, None, Some(*g))
            .unwrap();
    }
    // Rewrite the only group-2 row to group 3: the validator sees the
    // union of the persisted groups and the proposal and accepts,
    // leaving a gap behind.
    let row = svc
        .get_routine_exercises(rid)
        .into_iter()
        .find(|e| e.group_number == Some(2))
        .unwrap();
    svc.update_routine_exercise(
        row.id.unwrap(),
        rid,
        row.exercise_id,
        row.order_index,
        row.sets,
        row.reps,
        row.weight,
        None,
        Some(3),
    )
    .unwrap();
    assert_eq!(groups_of(&svc, rid), vec![1, 1, 3, 3]);

    assert_eq!(svc.renumber_routine_groups(rid), Ok(()));
    assert_eq!(groups_of(&svc, rid), vec![1, 1, 2, 2]);
}

#[test]
fn removal_leaves_the_gap_until_renumber_runs() {
    let mut svc = service();
    let rid = svc.create_routine("Trim".to_string(), "TRIM".to_string()).unwrap();
    for (i, g) in [1i64, 2, 3].iter().enumerate() {
        svc.add_exercise_to_routine(rid, 30 + i as i64, i as i64, None, None, None, None, Some(*g))
            .unwrap();
    }
    assert_eq!(svc.remove_exercise_from_routine(rid, 31), Ok(()));
    assert_eq!(groups_of(&svc, rid), vec![1, 3]);
    assert_eq!(svc.renumber_routine_groups(rid), Ok(()));
    assert_eq!(groups_of(&svc, rid), vec![1, 2]);
}

#[test]
fn replace_validates_scope_and_groups() {
    let mut svc = service();
    let rid = svc.create_routine("Whole".to_string(), "WHOLE".to_string()).unwrap();
    assert_eq!(
        svc.replace_routine_exercises(rid, vec![rex(rid + 1, 1, 0, 1)]),
        Err(StoreError::Validation(ValidationError::RoutineMismatch))
    );
    assert_eq!(
        svc.replace_routine_exercises(rid, vec![rex(rid, 1, 0, 2)]),
        Err(StoreError::Validation(ValidationError::MustStartAtOne(2)))
    );
    assert_eq!(
        svc.replace_routine_exercises(rid, vec![rex(rid, 1, 0, 1), rex(rid, 2, 1, 2)]),
        Ok(())
    );
    assert_eq!(groups_of(&svc, rid), vec![1, 2]);
    // An empty replace clears the template.
    assert_eq!(svc.replace_routine_exercises(rid, vec![]), Ok(()));
    assert!(svc.get_routine_exercises(rid).is_empty());
}

#[test]
fn replace_refuses_a_batch_naming_one_exercise_twice() {
    let mut svc = service();
    let rid = svc.create_routine("Twice".to_string(), "TWICE".to_string()).unwrap();
    assert_eq!(
        svc.replace_routine_exercises(rid, vec![rex(rid, 1, 0, 1), rex(rid, 1, 1, 1)]),
        Err(StoreError::Storage)
    );
}

#[test]
fn deleting_a_routine_destroys_its_rows() {
    let mut svc = service();
    let rid = svc.create_routine("Gone".to_string(), "GONE".to_string()).unwrap();
    svc.add_exercise_to_routine(rid, 1, 0, None, None, None, None, Some(1)).unwrap();
    assert_eq!(svc.delete_routine(rid), Ok(()));
    assert!(svc.get_routine_by_id(rid).is_none());
    assert!(svc.get_routine_exercises(rid).is_empty());
}

#[test]
fn template_reads_order_by_group_then_display_order() {
    let mut svc = service();
    let rid = svc.create_routine("Sorted".to_string(), "SORT".to_string()).unwrap();
    svc.add_exercise_to_routine(rid, 1, 5, None, None, None, None, Some(1)).unwrap();
    svc.add_exercise_to_routine(rid, 2, 0, None, None, None, None, Some(2)).unwrap();
    svc.add_exercise_to_routine(rid, 3, 1, None, None, None, None, Some(1)).unwrap();
    let keys: Vec<i64> = svc
        .get_routine_exercises(rid)
        .iter()
        .map(|e| e.exercise_id)
        .collect();
    assert_eq!(keys, vec![3, 1, 2]);
}

#[test]
fn get_available_groups_lists_the_selectable_range() {
    let mut svc = service();
    let rid = svc.create_routine("Range".to_string(), "RANGE".to_string()).unwrap();
    assert_eq!(svc.get_available_groups(rid), Ok(vec![1, 2, 3, 4, 5]));
    assert_eq!(svc.get_available_groups(rid + 7), Err(StoreError::NotFound));
}

#[test]
fn capture_a_workout_as_a_routine() {
    let mut svc = service();
    let rid = svc
        .create_routine_from_workout(
            "Captured".to_string(),
            "CAP".to_string(),
            vec![
                (7, Some(3), Some(10), Some(60_000), None, Some(1)),
                (8, Some(3), Some(8), None, None, Some(1)),
                (9, None, None, None, None, Some(2)),
            ],
        )
        .unwrap();
    assert_eq!(groups_of(&svc, rid), vec![1, 1, 2]);
    let rows = svc.get_routine_exercises(rid);
    let orders: Vec<i64> = rows.iter().map(|e| e.order_index).collect();
    assert_eq!(orders, vec![0, 1, 2]);
}

#[test]
fn template_rows_join_their_exercise_names() {
    let mut exercises = ExerciseService::new(ExerciseStore::new());
    exercises
        .create_exercise(Exercise { id: None, name: "Squat".to_string(), code: "SQ".to_string() })
        .unwrap();
    let mut svc = service();
    let rid = svc.create_routine("Leg".to_string(), "LEG".to_string()).unwrap();
    svc.add_exercise_to_routine(rid, 1, 0, None, None, None, None, Some(1)).unwrap();
    svc.add_exercise_to_routine(rid, 2, 1, None, None, None, None, Some(1)).unwrap();
    let joined = svc.get_routine_exercises_with_details(rid, &exercises.repository);
    // Only the row whose exercise resolves is decorated.
    assert_eq!(joined.len(), 1);
    assert_eq!(joined[0].exercise_name, "Squat");
    assert_eq!(joined[0].exercise_code, "SQ");
    let rows = svc.get_routine_exercises(rid);
    let direct = decorate_routine_exercises(&rows, &exercises.repository);
    assert_eq!(joined, direct);
}

#[test]
fn codes_are_stored_trimmed_and_uppercased() {
    let mut svc = service();
    let rid = svc.create_routine("  Push day  ".to_string(), " fb ".to_string()).unwrap();
    let r = svc.get_routine_by_id(rid).unwrap();
    assert_eq!(r.name, "Push day");
    assert_eq!(r.code, "FB");
    // The unique key sees the normalized code, so another casing of the
    // same code is taken.
    assert_eq!(
        svc.create_routine("Other".to_string(), "Fb".to_string()),
        Err(StoreError::Storage)
    );
    assert_eq!(svc.update_routine(rid, " Renamed ".to_string(), " fb2 ".to_string()), Ok(()));
    let r = svc.get_routine_by_id(rid).unwrap();
    assert_eq!(r.name, "Renamed");
    assert_eq!(r.code, "FB2");
}

#[test]
fn notes_are_stored_trimmed_and_blank_notes_not_at_all() {
    let mut svc = service();
    let rid = svc.create_routine("Notes".to_string(), "NOTE".to_string()).unwrap();
    svc.add_exercise_to_routine(
        rid,
        1,
        0,
        None,
        None,
        None,
        Some("  slow tempo  ".to_string()),
        Some(1),
    )
    .unwrap();
    svc.add_exercise_to_routine(rid, 2, 1, None, None, None, Some("   ".to_string()), Some(1))
        .unwrap();
    let rows = svc.get_routine_exercises(rid);
    assert_eq!(rows[0].notes, Some("slow tempo".to_string()));
    assert_eq!(rows[1].notes, None);
    // A rewrite trims the same way.
    svc.update_routine_exercise(
        rows[0].id.unwrap(),
        rid,
        1,
        0,
        None,
        None,
        None,
        Some(" \t ".to_string()),
        Some(1),
    )
    .unwrap();
    let rows = svc.get_routine_exercises(rid);
    assert_eq!(rows[0].notes, None);
}

#[test]
fn update_and_rename_a_routine() {
    let mut svc = service();
    let a = svc.create_routine("First".to_string(), "AAA".to_string()).unwrap();
    let b = svc.create_routine("Second".to_string(), "BBB".to_string()).unwrap();
    // Renaming onto the other routine's code hits the unique key.
    assert_eq!(
        svc.update_routine(a, "First".to_string(), "BBB".to_string()),
        Err(StoreError::Storage)
    );
    assert_eq!(
        svc.update_routine(a, "First again".to_string(), "AAA2".to_string()),
        Ok(())
    );
    let got = svc.get_routine_by_id(a).unwrap();
    assert_eq!(got.name, "First again");
    assert_eq!(got.code, "AAA2");
    let other = svc.get_routine_by_id(b).unwrap();
    assert_eq!(other.code, "BBB");
}

#[test]
fn search_and_pagination_on_routines() {
    let mut svc = service();
    svc.create_routine("Morning push".to_string(), "MP".to_string()).unwrap();
    svc.create_routine("Evening pull".to_string(), "EP".to_string()).unwrap();
    svc.create_routine("Leg day".to_string(), "LD".to_string()).unwrap();
    // The match folds ASCII case and the query is trimmed.
    let hits = svc.search_routines(" PUSH ");
    assert_eq!(hits.len(), 1);
    assert_eq!(hits[0].code, "MP");
    // The listing is ordered by name: Evening pull, Leg day, Morning push.
    let all = svc.list_routines();
    let codes: Vec<&str> = all.iter().map(|r| r.code.as_str()).collect();
    assert_eq!(codes, vec!["EP", "LD", "MP"]);
    let page = svc.list_routines_paginated(2, 2);
    assert_eq!(page.len(), 1);
    assert_eq!(page[0].code, "MP");
    assert!(svc.list_routines_paginated(0, 2).is_empty());
    let with = svc.get_routine_with_exercises(page[0].id.unwrap()).unwrap();
    assert_eq!(with.code, "MP");
    assert!(with.exercises.is_empty());
}
