//! The schema planner: fresh creation, legacy detection, the date
//! rebuild, and the no-op second pass.

use gymstore::schema::{
    ensure_schema, Catalog, Column, ColumnId, ColumnType, MigrationStep,
};

fn empty_catalog() -> Catalog {
    Catalog {
        people: None,
        exercise: None,
        workout_entries: None,
        routines: None,
        routine_exercises: None,
        migrations: None,
    }
}

fn col(name: ColumnId, ty: ColumnType) -> Column {
    Column { name, ty }
}

#[test]
fn an_empty_store_gets_every_table_created() {
    let (plan, ensured) = ensure_schema(&empty_catalog());
    assert_eq!(
        plan,
        vec![
            MigrationStep::CreatePeople,
            MigrationStep::CreateExercise,
            MigrationStep::CreateWorkoutEntries,
            MigrationStep::CreateRoutines,
            MigrationStep::CreateRoutineExercises,
            MigrationStep::CreateMigrations,
        ]
    );
    assert!(ensured.people.is_some());
    assert!(ensured.migrations.is_some());
}

#[test]
fn running_the_planner_twice_changes_nothing_the_second_time() {
    let legacy = Catalog {
        people: Some(vec![
            col(ColumnId::Id, ColumnType::Integer),
            col(ColumnId::Name, ColumnType::Text),
            col(ColumnId::LastName, ColumnType::Text),
            col(ColumnId::Phone, ColumnType::Text),
        ]),
        exercise: None,
        workout_entries: Some(vec![
            col(ColumnId::Id, ColumnType::Integer),
            col(ColumnId::PersonId, ColumnType::Integer),
            col(ColumnId::ExerciseId, ColumnType::Integer),
            col(ColumnId::Date, ColumnType::Text),
            col(ColumnId::Notes, ColumnType::Text),
        ]),
        routines: None,
        routine_exercises: Some(vec![
            col(ColumnId::Id, ColumnType::Integer),
            col(ColumnId::RoutineId, ColumnType::Integer),
            col(ColumnId::ExerciseId, ColumnType::Integer),
            col(ColumnId::OrderIndex, ColumnType::Integer),
        ]),
        migrations: None,
    };
    let (first_plan, ensured) = ensure_schema(&legacy);
    assert!(!first_plan.is_empty());
    let (second_plan, ensured_again) = ensure_schema(&ensured);
    assert!(second_plan.is_empty());
    assert_eq!(ensured, ensured_again);
}

#[test]
fn a_legacy_reference_table_gets_the_soft_delete_columns() {
    let mut cat = empty_catalog();
    cat.people = Some(vec![
        col(ColumnId::Id, ColumnType::Integer),
        col(ColumnId::Name, ColumnType::Text),
        col(ColumnId::LastName, ColumnType::Text),
        col(ColumnId::Phone, ColumnType::Text),
    ]);
    let (plan, ensured) = ensure_schema(&cat);
    assert!(plan.contains(&MigrationStep::AddSoftDeleteToPeople));
    let shape = ensured.people.unwrap();
    assert!(shape.iter().any(|c| c.name == ColumnId::DeletedAt));
    assert!(shape.iter().any(|c| c.name == ColumnId::IsActive));
}

#[test]
fn a_text_date_column_forces_the_rebuild() {
    let mut cat = empty_catalog();
    cat.workout_entries = Some(vec![
        col(ColumnId::Id, ColumnType::Integer),
        col(ColumnId::PersonId, ColumnType::Integer),
        col(ColumnId::ExerciseId, ColumnType::Integer),
        col(ColumnId::Date, ColumnType::Text),
    ]);
    let (plan, ensured) = ensure_schema(&cat);
    assert!(plan.contains(&MigrationStep::RebuildWorkoutDates));
    assert!(plan.contains(&MigrationStep::AddWorkoutGroupColumn));
    let shape = ensured.workout_entries.unwrap();
    assert!(shape
        .iter()
        .any(|c| c.name == ColumnId::Date && c.ty == ColumnType::Date));
    assert!(shape.iter().any(|c| c.name == ColumnId::GroupNumber));
    assert!(shape.iter().any(|c| c.name == ColumnId::OrderIndex));
}

#[test]
fn a_date_typed_table_missing_order_gets_the_additive_columns() {
    let mut cat = empty_catalog();
    cat.workout_entries = Some(vec![
        col(ColumnId::Id, ColumnType::Integer),
        col(ColumnId::PersonId, ColumnType::Integer),
        col(ColumnId::ExerciseId, ColumnType::Integer),
        col(ColumnId::Date, ColumnType::Date),
        col(ColumnId::Notes, ColumnType::Text),
    ]);
    let (plan, _) = ensure_schema(&cat);
    assert_eq!(
        plan.iter()
            .filter(|s| **s == MigrationStep::AddWorkoutOrderColumn)
            .count(),
        1
    );
    assert_eq!(
        plan.iter()
            .filter(|s| **s == MigrationStep::AddWorkoutGroupColumn)
            .count(),
        1
    );
    assert!(!plan.contains(&MigrationStep::RebuildWorkoutDates));
}

#[test]
fn a_current_catalog_plans_nothing() {
    let (_, ensured) = ensure_schema(&empty_catalog());
    let (plan, _) = ensure_schema(&ensured);
    assert!(plan.is_empty());
}

#[test]
fn a_routine_exercise_table_without_groups_gets_the_column() {
    let mut cat = empty_catalog();
    cat.routine_exercises = Some(vec![
        col(ColumnId::Id, ColumnType::Integer),
        col(ColumnId::RoutineId, ColumnType::Integer),
        col(ColumnId::ExerciseId, ColumnType::Integer),
    ]);
    let (plan, ensured) = ensure_schema(&cat);
    assert!(plan.contains(&MigrationStep::AddRoutineGroupColumn));
    let shape = ensured.routine_exercises.unwrap();
    assert_eq!(shape.last().unwrap().name, ColumnId::GroupNumber);
}
