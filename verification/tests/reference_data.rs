//! People and exercises under the soft-delete ledger, the listings, the
//! searches, and the display join that survives a logical delete.

use gymstore::errors::{StoreError, ValidationError};
use gymstore::exercises::{ExerciseService, ExerciseStore};
use gymstore::models::{Exercise, Person, WorkoutEntry};
use gymstore::people::{PersonService, PersonStore};
use gymstore::workout_service::{decorate_entries, WorkoutEntryService};
use gymstore::workouts::WorkoutStore;

fn person(name: &str, last: &str, phone: &str) -> Person {
    Person {
        id: None,
        name: name.to_string(),
        last_name: last.to_string(),
        phone: phone.to_string(),
    }
}

fn exercise(name: &str, code: &str) -> Exercise {
    Exercise { id: None, name: name.to_string(), code: code.to_string() }
}

#[test]
fn create_validates_blank_fields() {
    let mut svc = PersonService::new(PersonStore::new());
    assert_eq!(
        svc.create_person(person("  ", "Reyes", "555")),
        Err(StoreError::Validation(ValidationError::EmptyName))
    );
    assert_eq!(
        svc.create_person(person("Ana", "\t", "555")),
        Err(StoreError::Validation(ValidationError::EmptyLastName))
    );
    assert_eq!(
        svc.create_person(person("Ana", "Reyes", "")),
        Err(StoreError::Validation(ValidationError::EmptyPhone))
    );
    assert_eq!(svc.create_person(person("Ana", "Reyes", "555")), Ok(()));
}

#[test]
fn soft_delete_hides_and_restore_brings_back() {
    let mut svc = PersonService::new(PersonStore::new());
    svc.create_person(person("Ana", "Reyes", "1")).unwrap();
    svc.create_person(person("Bruno", "Soto", "2")).unwrap();
    assert_eq!(svc.list_people().len(), 2);

    assert_eq!(svc.delete_person(1), Ok(()));
    let listed = svc.list_people();
    assert_eq!(listed.len(), 1);
    assert_eq!(listed[0].name, "Bruno");

    // The deleted row is still resolvable by identifier.
    let still = svc.repository.get_by_id(1).unwrap();
    assert_eq!(still.name, "Ana");

    assert_eq!(svc.repository.restore(1), Ok(()));
    assert_eq!(svc.list_people().len(), 2);
}

#[test]
fn deleted_listing_and_counts() {
    let mut svc = PersonService::new(PersonStore::new());
    svc.create_person(person("Ana", "Reyes", "1")).unwrap();
    svc.create_person(person("Bruno", "Soto", "2")).unwrap();
    svc.delete_person(2).unwrap();
    assert_eq!(svc.repository.count_all(), 1);
    assert_eq!(svc.repository.count_deleted(), 1);
    let gone = svc.repository.list_deleted();
    assert_eq!(gone.len(), 1);
    assert_eq!(gone[0].name, "Bruno");
}

#[test]
fn search_folds_ascii_case_and_blank_lists_all() {
    let mut svc = PersonService::new(PersonStore::new());
    svc.create_person(person("Ana", "Reyes", "1")).unwrap();
    svc.create_person(person("Bruno", "Soto", "2")).unwrap();
    let hits = svc.search_people("REYES");
    assert_eq!(hits.len(), 1);
    assert_eq!(hits[0].name, "Ana");
    assert_eq!(svc.search_people("  ").len(), 2);
    assert!(svc.search_people_paginated("   ", 1, 10).is_empty());
}

#[test]
fn paginated_response_carries_the_totals() {
    let mut svc = PersonService::new(PersonStore::new());
    for i in 0..5 {
        svc.create_person(person(&format!("P{}", i), "Last", "1")).unwrap();
    }
    let page = svc.list_people_paginated_response(2, 2);
    assert_eq!(page.total, 5);
    assert_eq!(page.page, 2);
    assert_eq!(page.page_size, 2);
    assert_eq!(page.total_pages, 3);
    assert_eq!(page.persons.len(), 2);
    assert_eq!(page.persons[0].name, "P2");

    let empty = svc.search_people_paginated_response(" ", 1, 2);
    assert_eq!(empty.total, 0);
    assert_eq!(empty.total_pages, 0);
    assert!(empty.persons.is_empty());
}

#[test]
fn paging_beyond_the_end_or_with_bad_arguments_is_empty() {
    let mut svc = PersonService::new(PersonStore::new());
    for i in 0..3 {
        svc.create_person(person(&format!("P{}", i), "Last", "1")).unwrap();
    }
    assert!(svc.list_people_paginated(3, 2).is_empty());
    assert!(svc.list_people_paginated(0, 2).is_empty());
    assert!(svc.list_people_paginated(1, 0).is_empty());
    // A short last page keeps what is left.
    assert_eq!(svc.list_people_paginated(2, 2).len(), 1);
    // A page larger than the listing returns everything once.
    assert_eq!(svc.list_people_paginated(1, 100).len(), 3);
}

#[test]
fn update_rewrites_the_named_person_only() {
    let mut svc = PersonService::new(PersonStore::new());
    svc.create_person(person("Ana", "Reyes", "1")).unwrap();
    svc.create_person(person("Bruno", "Soto", "2")).unwrap();
    let mut changed = person("Ana Maria", "Reyes", "9");
    changed.id = Some(1);
    assert_eq!(svc.update_person(changed), Ok(()));
    let all = svc.list_people();
    assert_eq!(all[0].name, "Ana Maria");
    assert_eq!(all[0].phone, "9");
    assert_eq!(all[1].name, "Bruno");
}

#[test]
fn exercise_codes_are_unique_even_across_deleted_rows() {
    let mut svc = ExerciseService::new(ExerciseStore::new());
    assert_eq!(svc.create_exercise(exercise("Squat", "SQ")), Ok(()));
    assert_eq!(svc.delete_exercise(1), Ok(()));
    // The code stays taken while the row is only soft-deleted.
    assert_eq!(svc.create_exercise(exercise("Squat again", "SQ")), Err(StoreError::Storage));
    assert_eq!(svc.create_exercise(exercise("Bench", "BP")), Ok(()));
}

#[test]
fn exercise_update_refuses_anothers_code() {
    let mut svc = ExerciseService::new(ExerciseStore::new());
    svc.create_exercise(exercise("Squat", "SQ")).unwrap();
    svc.create_exercise(exercise("Bench", "BP")).unwrap();
    let stolen = Exercise { id: Some(2), name: "Bench".to_string(), code: "SQ".to_string() };
    assert_eq!(svc.update_exercise(stolen), Err(StoreError::Storage));
    let renamed = Exercise { id: Some(2), name: "Bench press".to_string(), code: "BP".to_string() };
    assert_eq!(svc.update_exercise(renamed), Ok(()));
    // The listing is ordered by name, so the renamed row leads.
    assert_eq!(svc.list_exercises()[0].name, "Bench press");
}

#[test]
fn exercise_listing_and_search_pages() {
    let mut svc = ExerciseService::new(ExerciseStore::new());
    svc.create_exercise(exercise("Front squat", "FS")).unwrap();
    svc.create_exercise(exercise("Back squat", "BS")).unwrap();
    svc.create_exercise(exercise("Deadlift", "DL")).unwrap();
    svc.delete_exercise(3).unwrap();
    assert_eq!(svc.restore_exercise(3), Ok(()));
    assert_eq!(svc.count_deleted_exercises(), 0);

    let page = svc.list_exercises_paginated(1, 2);
    assert_eq!(page.total, 3);
    assert_eq!(page.total_pages, 2);
    assert_eq!(page.exercises.len(), 2);

    let found = svc.search_exercises_paginated("squat", 1, 10);
    assert_eq!(found.total, 2);
    assert_eq!(found.exercises.len(), 2);

    let blank = svc.search_exercises_paginated("", 1, 10);
    assert_eq!(blank.total, 0);
    assert!(blank.exercises.is_empty());
}

#[test]
fn the_composed_range_read_joins_and_keeps_the_order() {
    let mut people = PersonService::new(PersonStore::new());
    people.create_person(person("Ana", "Reyes", "1")).unwrap();
    let mut exercises = ExerciseService::new(ExerciseStore::new());
    exercises.create_exercise(exercise("Squat", "SQ")).unwrap();
    exercises.create_exercise(exercise("Bench", "BP")).unwrap();
    let mut workouts = WorkoutEntryService::new(WorkoutStore::new());
    let mut a = WorkoutEntry::new(1, 1, "2024-01-05".to_string(), None, None, None, None);
    a.order_index = Some(1);
    a.group_number = Some(1);
    let mut b = WorkoutEntry::new(1, 2, "2024-01-05".to_string(), None, None, None, None);
    b.order_index = Some(0);
    b.group_number = Some(1);
    workouts
        .replace_workout_session(1, "2024-01-05", vec![a, b])
        .unwrap();
    let joined = workouts.get_workout_entries_with_details(
        1,
        "2024-01-01",
        "2024-01-31",
        &people.repository,
        &exercises.repository,
    );
    assert_eq!(joined.len(), 2);
    // Display order ascending: the bench row first.
    assert_eq!(joined[0].exercise_name, "Bench");
    assert_eq!(joined[1].exercise_name, "Squat");
    assert_eq!(joined[0].person_name, "Ana");
    // An unresolvable parent drops its row from the join.
    let mut orphan = WorkoutEntry::new(1, 99, "2024-01-06".to_string(), None, None, None, None);
    orphan.group_number = Some(1);
    workouts.create_workout_entry(orphan).unwrap();
    let joined = workouts.get_workout_entries_with_details(
        1,
        "2024-01-01",
        "2024-01-31",
        &people.repository,
        &exercises.repository,
    );
    assert_eq!(joined.len(), 2);
}

#[test]
fn listings_are_ordered_by_name_not_by_insertion() {
    let mut svc = PersonService::new(PersonStore::new());
    svc.create_person(person("Zoe", "Young", "1")).unwrap();
    svc.create_person(person("Ana", "Reyes", "2")).unwrap();
    svc.create_person(person("Ana", "Beltran", "3")).unwrap();
    let names: Vec<(String, String)> = svc
        .list_people()
        .iter()
        .map(|p| (p.name.clone(), p.last_name.clone()))
        .collect();
    assert_eq!(
        names,
        vec![
            ("Ana".to_string(), "Beltran".to_string()),
            ("Ana".to_string(), "Reyes".to_string()),
            ("Zoe".to_string(), "Young".to_string()),
        ]
    );
}

#[test]
fn the_deleted_listing_shows_the_most_recent_deletion_first() {
    let mut svc = PersonService::new(PersonStore::new());
    svc.create_person(person("Ana", "Reyes", "1")).unwrap();
    svc.create_person(person("Zoe", "Young", "2")).unwrap();
    svc.delete_person(1).unwrap();
    svc.delete_person(2).unwrap();
    let gone: Vec<String> = svc
        .repository
        .list_deleted()
        .iter()
        .map(|p| p.name.clone())
        .collect();
    assert_eq!(gone, vec!["Zoe".to_string(), "Ana".to_string()]);
    // Restoring and deleting again makes Ana the most recent deletion.
    svc.repository.restore(1).unwrap();
    svc.delete_person(1).unwrap();
    let gone: Vec<String> = svc
        .repository
        .list_deleted()
        .iter()
        .map(|p| p.name.clone())
        .collect();
    assert_eq!(gone, vec!["Ana".to_string(), "Zoe".to_string()]);
}

#[test]
fn the_display_join_survives_a_soft_delete() {
    let mut people = PersonService::new(PersonStore::new());
    people.create_person(person("Ana", "Reyes", "1")).unwrap();
    let mut exercises = ExerciseService::new(ExerciseStore::new());
    exercises.create_exercise(exercise("Squat", "SQ")).unwrap();

    let mut e = WorkoutEntry::new(1, 1, "2024-01-01".to_string(), None, None, None, None);
    e.id = Some(10);
    let joined = decorate_entries(&vec![e.clone()], &people.repository, &exercises.repository);
    assert_eq!(joined.len(), 1);
    assert_eq!(joined[0].person_name, "Ana");
    assert_eq!(joined[0].exercise_name, "Squat");

    // Soft-deleting the person must not break the historical join.
    people.delete_person(1).unwrap();
    let joined = decorate_entries(&vec![e.clone()], &people.repository, &exercises.repository);
    assert_eq!(joined.len(), 1);
    assert_eq!(joined[0].person_name, "Ana");

    // A reference that never resolved is dropped, not invented.
    let mut orphan = e.clone();
    orphan.person_id = 99;
    let joined = decorate_entries(&vec![orphan], &people.repository, &exercises.repository);
    assert!(joined.is_empty());
}
