//! The schema manager: it inspects the on-disk shape of each managed
//! table, as read back from the store's catalog, and plans the versioned
//! in-place migrations that bring a legacy shape forward — an additive
//! column, or a copy-rebuild where a column's storage type itself must
//! change. Planning is a pure function of the inspected shape; running
//! the planner on the shape it produced plans nothing further.

use vstd::prelude::*;

verus! {

/// The storage type a column is declared with.
#[derive(Debug, Clone, Copy, PartialEq, Eq, Structural)]
pub enum ColumnType {
    Integer,
    Text,
    Real,
    Date,
    DateTime,
    Boolean,
}

/// The columns the managed tables know.
#[derive(Debug, Clone, Copy, PartialEq, Eq, Structural)]
pub enum ColumnId {
    Id,
    Name,
    LastName,
    Phone,
    Code,
    DeletedAt,
    IsActive,
    PersonId,
    ExerciseId,
    RoutineId,
    Date,
    Sets,
    Reps,
    Weight,
    Notes,
    OrderIndex,
    GroupNumber,
    CreatedAt,
    UpdatedAt,
    Version,
    AppliedAt,
}

/// One column of a table shape.
#[derive(Debug, Clone, Copy, PartialEq, Eq, Structural)]
pub struct Column {
    pub name: ColumnId,
    pub ty: ColumnType,
}

/// The inspected shape of every managed table; an absent entry means
/// the table does not exist yet.
#[derive(Debug, Clone, PartialEq)]
pub struct Catalog {
    pub people: Option<Vec<Column>>,
    pub exercise: Option<Vec<Column>>,
    pub workout_entries: Option<Vec<Column>>,
    pub routines: Option<Vec<Column>>,
    pub routine_exercises: Option<Vec<Column>>,
    pub migrations: Option<Vec<Column>>,
}

/// One step of the migration plan, for the caller to run against the
/// store, each inside one transaction per table.
#[derive(Debug, Clone, Copy, PartialEq, Eq, Structural)]
pub enum MigrationStep {
    /// Create the table fresh with the current shape.
    CreatePeople,
    CreateExercise,
    CreateWorkoutEntries,
    CreateRoutines,
    CreateRoutineExercises,
    CreateMigrations,
    /// Add the soft-delete marker and flag columns.
    AddSoftDeleteToPeople,
    AddSoftDeleteToExercise,
    /// Copy-rebuild the session table: a shadow table with a `DATE`
    /// date column, rows copied with malformed dates replaced by a safe
    /// default, the original dropped, the shadow renamed into place.
    RebuildWorkoutDates,
    /// Add the display-order column.
    AddWorkoutOrderColumn,
    /// Add the group column.
    AddWorkoutGroupColumn,
    AddRoutineGroupColumn,
}

/// Whether a shape carries a column.
pub open spec fn has_col(s: Seq<Column>, id: ColumnId) -> bool {
    exists|i: int| 0 <= i < s.len() && (#[trigger] s[i]).name == id
}

/// Whether a shape carries a column with a given type.
pub open spec fn has_col_typed(s: Seq<Column>, id: ColumnId, ty: ColumnType) -> bool {
    exists|i: int| 0 <= i < s.len() && (#[trigger] s[i]).name == id && s[i].ty == ty
}

/// No two columns of a shape share a name.
pub open spec fn no_dup_cols(s: Seq<Column>) -> bool {
    forall|i: int, j: int| 0 <= i < j < s.len() ==> (#[trigger] s[i]).name != (#[trigger] s[j]).name
}

/// The current shape of the people table.
pub open spec fn people_shape() -> Seq<Column> {
    seq![
        Column { name: ColumnId::Id, ty: ColumnType::Integer },
        Column { name: ColumnId::Name, ty: ColumnType::Text },
        Column { name: ColumnId::LastName, ty: ColumnType::Text },
        Column { name: ColumnId::Phone, ty: ColumnType::Text },
        Column { name: ColumnId::DeletedAt, ty: ColumnType::DateTime },
        Column { name: ColumnId::IsActive, ty: ColumnType::Boolean },
    ]
}

/// The current shape of the exercise table.
pub open spec fn exercise_shape() -> Seq<Column> {
    seq![
        Column { name: ColumnId::Id, ty: ColumnType::Integer },
        Column { name: ColumnId::Name, ty: ColumnType::Text },
        Column { name: ColumnId::Code, ty: ColumnType::Text },
        Column { name: ColumnId::DeletedAt, ty: ColumnType::DateTime },
        Column { name: ColumnId::IsActive, ty: ColumnType::Boolean },
    ]
}

/// The current shape of the session table.
pub open spec fn workout_shape() -> Seq<Column> {
    seq![
        Column { name: ColumnId::Id, ty: ColumnType::Integer },
        Column { name: ColumnId::PersonId, ty: ColumnType::Integer },
        Column { name: ColumnId::ExerciseId, ty: ColumnType::Integer },
        Column { name: ColumnId::Date, ty: ColumnType::Date },
        Column { name: ColumnId::Sets, ty: ColumnType::Integer },
        Column { name: ColumnId::Reps, ty: ColumnType::Integer },
        Column { name: ColumnId::Weight, ty: ColumnType::Real },
        Column { name: ColumnId::Notes, ty: ColumnType::Text },
        Column { name: ColumnId::OrderIndex, ty: ColumnType::Integer },
        Column { name: ColumnId::GroupNumber, ty: ColumnType::Integer },
        Column { name: ColumnId::CreatedAt, ty: ColumnType::DateTime },
        Column { name: ColumnId::UpdatedAt, ty: ColumnType::DateTime },
    ]
}

/// The shape the session-table rebuild leaves behind: the date column
/// re-typed and the display order added, the group column not yet.
pub open spec fn workout_rebuilt_shape() -> Seq<Column> {
    seq![
        Column { name: ColumnId::Id, ty: ColumnType::Integer },
        Column { name: ColumnId::PersonId, ty: ColumnType::Integer },
        Column { name: ColumnId::ExerciseId, ty: ColumnType::Integer },
        Column { name: ColumnId::Date, ty: ColumnType::Date },
        Column { name: ColumnId::Sets, ty: ColumnType::Integer },
        Column { name: ColumnId::Reps, ty: ColumnType::Integer },
        Column { name: ColumnId::Weight, ty: ColumnType::Real },
        Column { name: ColumnId::Notes, ty: ColumnType::Text },
        Column { name: ColumnId::OrderIndex, ty: ColumnType::Integer },
        Column { name: ColumnId::CreatedAt, ty: ColumnType::DateTime },
        Column { name: ColumnId::UpdatedAt, ty: ColumnType::DateTime },
    ]
}

/// The current shape of the routines table.
pub open spec fn routines_shape() -> Seq<Column> {
    seq![
        Column { name: ColumnId::Id, ty: ColumnType::Integer },
        Column { name: ColumnId::Name, ty: ColumnType::Text },
        Column { name: ColumnId::Code, ty: ColumnType::Text },
        Column { name: ColumnId::CreatedAt, ty: ColumnType::DateTime },
        Column { name: ColumnId::UpdatedAt, ty: ColumnType::DateTime },
    ]
}

/// The current shape of the routine-exercises table.
pub open spec fn routine_exercises_shape() -> Seq<Column> {
    seq![
        Column { name: ColumnId::Id, ty: ColumnType::Integer },
        Column { name: ColumnId::RoutineId, ty: ColumnType::Integer },
        Column { name: ColumnId::ExerciseId, ty: ColumnType::Integer },
        Column { name: ColumnId::OrderIndex, ty: ColumnType::Integer },
        Column { name: ColumnId::Sets, ty: ColumnType::Integer },
        Column { name: ColumnId::Reps, ty: ColumnType::Integer },
        Column { name: ColumnId::Weight, ty: ColumnType::Real },
        Column { name: ColumnId::Notes, ty: ColumnType::Text },
        Column { name: ColumnId::GroupNumber, ty: ColumnType::Integer },
        Column { name: ColumnId::CreatedAt, ty: ColumnType::DateTime },
        Column { name: ColumnId::UpdatedAt, ty: ColumnType::DateTime },
    ]
}

/// The shape of the migration ledger.
pub open spec fn migrations_shape() -> Seq<Column> {
    seq![
        Column { name: ColumnId::Id, ty: ColumnType::Integer },
        Column { name: ColumnId::Version, ty: ColumnType::Text },
        Column { name: ColumnId::AppliedAt, ty: ColumnType::DateTime },
    ]
}

/// The soft-delete columns a legacy reference table lacks.
pub open spec fn soft_delete_cols() -> Seq<Column> {
    seq![
        Column { name: ColumnId::DeletedAt, ty: ColumnType::DateTime },
        Column { name: ColumnId::IsActive, ty: ColumnType::Boolean },
    ]
}

/// A reference table is legacy when it lacks both soft-delete columns.
pub open spec fn soft_delete_missing(s: Seq<Column>) -> bool {
    !has_col(s, ColumnId::DeletedAt) && !has_col(s, ColumnId::IsActive)
}

/// The plan for a reference table under the soft-delete migration.
pub open spec fn plan_reference(cur: Option<Seq<Column>>, create: MigrationStep, add: MigrationStep) -> Seq<MigrationStep> {
    match cur {
        None => seq![create],
        Some(s) => if soft_delete_missing(s) {
            seq![add]
        } else {
            Seq::empty()
        },
    }
}

/// The shape a reference table has after its plan runs.
pub open spec fn apply_reference(cur: Option<Seq<Column>>, fresh: Seq<Column>) -> Seq<Column> {
    match cur {
        None => fresh,
        Some(s) => if soft_delete_missing(s) {
            s + soft_delete_cols()
        } else {
            s
        },
    }
}

/// The plan for the session table: a `TEXT` date column forces the
/// copy-rebuild; otherwise the display-order and group columns are
/// added where absent.
pub open spec fn plan_workout(cur: Option<Seq<Column>>) -> Seq<MigrationStep> {
    match cur {
        None => seq![MigrationStep::CreateWorkoutEntries],
        Some(s) => if has_col_typed(s, ColumnId::Date, ColumnType::Text) {
            seq![MigrationStep::RebuildWorkoutDates, MigrationStep::AddWorkoutGroupColumn]
        } else if !has_col(s, ColumnId::OrderIndex) && has_col_typed(
            s,
            ColumnId::Date,
            ColumnType::Date,
        ) {
            if !has_col(s, ColumnId::GroupNumber) {
                seq![MigrationStep::AddWorkoutOrderColumn, MigrationStep::AddWorkoutGroupColumn]
            } else {
                seq![MigrationStep::AddWorkoutOrderColumn]
            }
        } else if !has_col(s, ColumnId::GroupNumber) && has_col(s, ColumnId::OrderIndex) {
            seq![MigrationStep::AddWorkoutGroupColumn]
        } else {
            Seq::empty()
        },
    }
}

/// The shape the session table has after its plan runs.
pub open spec fn apply_workout(cur: Option<Seq<Column>>) -> Seq<Column> {
    match cur {
        None => workout_shape(),
        Some(s) => if has_col_typed(s, ColumnId::Date, ColumnType::Text) {
            workout_rebuilt_shape() + seq![
                Column { name: ColumnId::GroupNumber, ty: ColumnType::Integer },
            ]
        } else if !has_col(s, ColumnId::OrderIndex) && has_col_typed(
            s,
            ColumnId::Date,
            ColumnType::Date,
        ) {
            if !has_col(s, ColumnId::GroupNumber) {
                s + seq![
                    Column { name: ColumnId::OrderIndex, ty: ColumnType::Integer },
                    Column { name: ColumnId::GroupNumber, ty: ColumnType::Integer },
                ]
            } else {
                s + seq![Column { name: ColumnId::OrderIndex, ty: ColumnType::Integer }]
            }
        } else if !has_col(s, ColumnId::GroupNumber) && has_col(s, ColumnId::OrderIndex) {
            s + seq![Column { name: ColumnId::GroupNumber, ty: ColumnType::Integer }]
        } else {
            s
        },
    }
}

/// The plan for the routines table.
pub open spec fn plan_routines(cur: Option<Seq<Column>>) -> Seq<MigrationStep> {
    match cur {
        None => seq![MigrationStep::CreateRoutines],
        Some(s) => Seq::empty(),
    }
}

/// The shape the routines table has after its plan runs.
pub open spec fn apply_routines(cur: Option<Seq<Column>>) -> Seq<Column> {
    match cur {
        None => routines_shape(),
        Some(s) => s,
    }
}

/// The plan for the routine-exercises table.
pub open spec fn plan_routine_exercises(cur: Option<Seq<Column>>) -> Seq<MigrationStep> {
    match cur {
        None => seq![MigrationStep::CreateRoutineExercises],
        Some(s) => if !has_col(s, ColumnId::GroupNumber) {
            seq![MigrationStep::AddRoutineGroupColumn]
        } else {
            Seq::empty()
        },
    }
}

/// The shape the routine-exercises table has after its plan runs.
pub open spec fn apply_routine_exercises(cur: Option<Seq<Column>>) -> Seq<Column> {
    match cur {
        None => routine_exercises_shape(),
        Some(s) => if !has_col(s, ColumnId::GroupNumber) {
            s + seq![Column { name: ColumnId::GroupNumber, ty: ColumnType::Integer }]
        } else {
            s
        },
    }
}

/// The plan for the migration ledger.
pub open spec fn plan_migrations_table(cur: Option<Seq<Column>>) -> Seq<MigrationStep> {
    match cur {
        None => seq![MigrationStep::CreateMigrations],
        Some(s) => Seq::empty(),
    }
}

/// The shape the ledger has after its plan runs.
pub open spec fn apply_migrations_table(cur: Option<Seq<Column>>) -> Seq<Column> {
    match cur {
        None => migrations_shape(),
        Some(s) => s,
    }
}

/// The shape of an optional table, viewed.
pub open spec fn shape_of(v: Option<Vec<Column>>) -> Option<Seq<Column>> {
    match v {
        Some(s) => Some(s@),
        None => None,
    }
}

/// The whole plan, tables in a fixed order.
pub open spec fn spec_plan(c: Catalog) -> Seq<MigrationStep> {
    plan_reference(
        shape_of(c.people),
        MigrationStep::CreatePeople,
        MigrationStep::AddSoftDeleteToPeople,
    ) + plan_reference(
        shape_of(c.exercise),
        MigrationStep::CreateExercise,
        MigrationStep::AddSoftDeleteToExercise,
    ) + plan_workout(shape_of(c.workout_entries)) + plan_routines(shape_of(c.routines))
        + plan_routine_exercises(shape_of(c.routine_exercises)) + plan_migrations_table(
        shape_of(c.migrations),
    )
}

/// The catalog the whole plan leaves behind: every managed table exists
/// and carries its migrated shape.
pub open spec fn spec_ensured(c: Catalog) -> (Seq<Column>, Seq<Column>, Seq<Column>, Seq<Column>, Seq<Column>, Seq<Column>) {
    (
        apply_reference(shape_of(c.people), people_shape()),
        apply_reference(shape_of(c.exercise), exercise_shape()),
        apply_workout(shape_of(c.workout_entries)),
        apply_routines(shape_of(c.routines)),
        apply_routine_exercises(shape_of(c.routine_exercises)),
        apply_migrations_table(shape_of(c.migrations)),
    )
}

/// Whether a shape carries a column.
fn vec_has_col(s: &Vec<Column>, id: ColumnId) -> (r: bool)
    ensures
        r == has_col(s@, id),
{
    let mut i: usize = 0;
    while i < s.len()
        invariant
            0 <= i <= s@.len(),
            forall|j: int| 0 <= j < i ==> (#[trigger] s@[j]).name != id,
        decreases s@.len() - i,
    {
        if s[i].name == id {
            return true;
        }
        i = i + 1;
    }
    false
}

/// Whether a shape carries a column with a given type.
fn vec_has_col_typed(s: &Vec<Column>, id: ColumnId, ty: ColumnType) -> (r: bool)
    ensures
        r == has_col_typed(s@, id, ty),
{
    let mut i: usize = 0;
    while i < s.len()
        invariant
            0 <= i <= s@.len(),
            forall|j: int| 0 <= j < i ==> !((#[trigger] s@[j]).name == id && s@[j].ty == ty),
        decreases s@.len() - i,
    {
        if s[i].name == id && s[i].ty == ty {
            return true;
        }
        i = i + 1;
    }
    false
}

/// A copy of a shape.
fn copy_cols(s: &Vec<Column>) -> (v: Vec<Column>)
    ensures
        v@ == s@,
{
    let mut v: Vec<Column> = Vec::new();
    let mut i: usize = 0;
    while i < s.len()
        invariant
            0 <= i <= s@.len(),
            v@ =~= s@.take(i as int),
        decreases s@.len() - i,
    {
        v.push(s[i]);
        proof {
            crate::seqs::lemma_take_push(s@, i as int);
        }
        i = i + 1;
    }
    proof {
        assert(s@.take(s@.len() as int) =~= s@);
    }
    v
}

/// The migrated shape of a reference table, together with its step.
fn ensure_reference(
    cur: &Option<Vec<Column>>,
    fresh: Vec<Column>,
    create: MigrationStep,
    add: MigrationStep,
    plan: &mut Vec<MigrationStep>,
) -> (v: Vec<Column>)
    requires
        fresh@ == people_shape() || fresh@ == exercise_shape(),
    ensures
        v@ == apply_reference(shape_of(*cur), fresh@),
        final(plan)@ == old(plan)@ + plan_reference(shape_of(*cur), create, add),
{
    match cur {
        None => {
            plan.push(create);
            proof {
                assert(plan@ =~= old(plan)@ + seq![create]);
            }
            fresh
        },
        Some(s) => {
            if !vec_has_col(s, ColumnId::DeletedAt) && !vec_has_col(s, ColumnId::IsActive) {
                plan.push(add);
                let mut v = copy_cols(s);
                v.push(Column { name: ColumnId::DeletedAt, ty: ColumnType::DateTime });
                v.push(Column { name: ColumnId::IsActive, ty: ColumnType::Boolean });
                proof {
                    assert(plan@ =~= old(plan)@ + seq![add]);
                    assert(v@ =~= s@ + soft_delete_cols());
                }
                v
            } else {
                proof {
                    assert(plan@ =~= old(plan)@ + Seq::<MigrationStep>::empty());
                }
                copy_cols(s)
            }
        },
    }
}

/// Inspect the catalog and plan the migrations that bring every managed
/// table to the current shape; the returned catalog is the shape the
/// plan leaves behind. Planning again on that catalog plans nothing.
#[verifier::rlimit(60)]
pub fn ensure_schema(catalog: &Catalog) -> (r: (Vec<MigrationStep>, Catalog))
    ensures
        r.0@ == spec_plan(*catalog),
        shape_of(r.1.people) == Some(spec_ensured(*catalog).0),
        shape_of(r.1.exercise) == Some(spec_ensured(*catalog).1),
        shape_of(r.1.workout_entries) == Some(spec_ensured(*catalog).2),
        shape_of(r.1.routines) == Some(spec_ensured(*catalog).3),
        shape_of(r.1.routine_exercises) == Some(spec_ensured(*catalog).4),
        shape_of(r.1.migrations) == Some(spec_ensured(*catalog).5),
{
    let mut plan: Vec<MigrationStep> = Vec::new();

    let people = ensure_reference(
        &catalog.people,
        build_people_shape(),
        MigrationStep::CreatePeople,
        MigrationStep::AddSoftDeleteToPeople,
        &mut plan,
    );
    let exercise = ensure_reference(
        &catalog.exercise,
        build_exercise_shape(),
        MigrationStep::CreateExercise,
        MigrationStep::AddSoftDeleteToExercise,
        &mut plan,
    );

    let ghost plan2 = plan@;
    let workout_entries: Vec<Column> = match &catalog.workout_entries {
        None => {
            plan.push(MigrationStep::CreateWorkoutEntries);
            proof {
                assert(plan@ =~= plan2 + plan_workout(shape_of(catalog.workout_entries)));
            }
            build_workout_shape()
        },
        Some(s) => {
            if vec_has_col_typed(s, ColumnId::Date, ColumnType::Text) {
                plan.push(MigrationStep::RebuildWorkoutDates);
                plan.push(MigrationStep::AddWorkoutGroupColumn);
                let mut v = build_workout_rebuilt_shape();
                v.push(Column { name: ColumnId::GroupNumber, ty: ColumnType::Integer });
                proof {
                    assert(plan@ =~= plan2 + plan_workout(shape_of(catalog.workout_entries)));
                    assert(v@ =~= workout_rebuilt_shape() + seq![
                        Column { name: ColumnId::GroupNumber, ty: ColumnType::Integer },
                    ]);
                }
                v
            } else if !vec_has_col(s, ColumnId::OrderIndex) && vec_has_col_typed(
                s,
                ColumnId::Date,
                ColumnType::Date,
            ) {
                plan.push(MigrationStep::AddWorkoutOrderColumn);
                let mut v = copy_cols(s);
                v.push(Column { name: ColumnId::OrderIndex, ty: ColumnType::Integer });
                if !vec_has_col(s, ColumnId::GroupNumber) {
                    plan.push(MigrationStep::AddWorkoutGroupColumn);
                    v.push(Column { name: ColumnId::GroupNumber, ty: ColumnType::Integer });
                    proof {
                        assert(plan@ =~= plan2 + plan_workout(
                            shape_of(catalog.workout_entries),
                        ));
                        assert(v@ =~= s@ + seq![
                            Column { name: ColumnId::OrderIndex, ty: ColumnType::Integer },
                            Column { name: ColumnId::GroupNumber, ty: ColumnType::Integer },
                        ]);
                    }
                } else {
                    proof {
                        assert(plan@ =~= plan2 + plan_workout(
                            shape_of(catalog.workout_entries),
                        ));
                        assert(v@ =~= s@ + seq![
                            Column { name: ColumnId::OrderIndex, ty: ColumnType::Integer },
                        ]);
                    }
                }
                v
            } else if !vec_has_col(s, ColumnId::GroupNumber) && vec_has_col(
                s,
                ColumnId::OrderIndex,
            ) {
                plan.push(MigrationStep::AddWorkoutGroupColumn);
                let mut v = copy_cols(s);
                v.push(Column { name: ColumnId::GroupNumber, ty: ColumnType::Integer });
                proof {
                    assert(plan@ =~= plan2 + plan_workout(shape_of(catalog.workout_entries)));
                    assert(v@ =~= s@ + seq![
                        Column { name: ColumnId::GroupNumber, ty: ColumnType::Integer },
                    ]);
                }
                v
            } else {
                proof {
                    assert(plan@ =~= plan2 + plan_workout(shape_of(catalog.workout_entries)));
                }
                copy_cols(s)
            }
        },
    };

    let ghost plan3 = plan@;
    let routines: Vec<Column> = match &catalog.routines {
        None => {
            plan.push(MigrationStep::CreateRoutines);
            proof {
                assert(plan@ =~= plan3 + plan_routines(shape_of(catalog.routines)));
            }
            build_routines_shape()
        },
        Some(s) => {
            proof {
                assert(plan@ =~= plan3 + plan_routines(shape_of(catalog.routines)));
            }
            copy_cols(s)
        },
    };

    let ghost plan4 = plan@;
    let routine_exercises: Vec<Column> = match &catalog.routine_exercises {
        None => {
            plan.push(MigrationStep::CreateRoutineExercises);
            proof {
                assert(plan@ =~= plan4 + plan_routine_exercises(
                    shape_of(catalog.routine_exercises),
                ));
            }
            build_routine_exercises_shape()
        },
        Some(s) => {
            if !vec_has_col(s, ColumnId::GroupNumber) {
                plan.push(MigrationStep::AddRoutineGroupColumn);
                let mut v = copy_cols(s);
                v.push(Column { name: ColumnId::GroupNumber, ty: ColumnType::Integer });
                proof {
                    assert(plan@ =~= plan4 + plan_routine_exercises(
                        shape_of(catalog.routine_exercises),
                    ));
                    assert(v@ =~= s@ + seq![
                        Column { name: ColumnId::GroupNumber, ty: ColumnType::Integer },
                    ]);
                }
                v
            } else {
                proof {
                    assert(plan@ =~= plan4 + plan_routine_exercises(
                        shape_of(catalog.routine_exercises),
                    ));
                }
                copy_cols(s)
            }
        },
    };

    let ghost plan5 = plan@;
    let migrations: Vec<Column> = match &catalog.migrations {
        None => {
            plan.push(MigrationStep::CreateMigrations);
            proof {
                assert(plan@ =~= plan5 + plan_migrations_table(shape_of(catalog.migrations)));
            }
            build_migrations_shape()
        },
        Some(s) => {
            proof {
                assert(plan@ =~= plan5 + plan_migrations_table(shape_of(catalog.migrations)));
            }
            copy_cols(s)
        },
    };

    let ensured = Catalog {
        people: Some(people),
        exercise: Some(exercise),
        workout_entries: Some(workout_entries),
        routines: Some(routines),
        routine_exercises: Some(routine_exercises),
        migrations: Some(migrations),
    };
    (plan, ensured)
}

/// The current people shape, as a value.
fn build_people_shape() -> (v: Vec<Column>)
    ensures
        v@ == people_shape(),
{
    let mut v: Vec<Column> = Vec::new();
    v.push(Column { name: ColumnId::Id, ty: ColumnType::Integer });
    v.push(Column { name: ColumnId::Name, ty: ColumnType::Text });
    v.push(Column { name: ColumnId::LastName, ty: ColumnType::Text });
    v.push(Column { name: ColumnId::Phone, ty: ColumnType::Text });
    v.push(Column { name: ColumnId::DeletedAt, ty: ColumnType::DateTime });
    v.push(Column { name: ColumnId::IsActive, ty: ColumnType::Boolean });
    proof {
        assert(v@ =~= people_shape());
    }
    v
}

/// The current exercise shape, as a value.
fn build_exercise_shape() -> (v: Vec<Column>)
    ensures
        v@ == exercise_shape(),
{
    let mut v: Vec<Column> = Vec::new();
    v.push(Column { name: ColumnId::Id, ty: ColumnType::Integer });
    v.push(Column { name: ColumnId::Name, ty: ColumnType::Text });
    v.push(Column { name: ColumnId::Code, ty: ColumnType::Text });
    v.push(Column { name: ColumnId::DeletedAt, ty: ColumnType::DateTime });
    v.push(Column { name: ColumnId::IsActive, ty: ColumnType::Boolean });
    proof {
        assert(v@ =~= exercise_shape());
    }
    v
}

/// The current session-table shape, as a value.
fn build_workout_shape() -> (v: Vec<Column>)
    ensures
        v@ == workout_shape(),
{
    let mut out: Vec<Column> = Vec::new();
    out.push(Column { name: ColumnId::Id, ty: ColumnType::Integer });
    out.push(Column { name: ColumnId::PersonId, ty: ColumnType::Integer });
    out.push(Column { name: ColumnId::ExerciseId, ty: ColumnType::Integer });
    out.push(Column { name: ColumnId::Date, ty: ColumnType::Date });
    out.push(Column { name: ColumnId::Sets, ty: ColumnType::Integer });
    out.push(Column { name: ColumnId::Reps, ty: ColumnType::Integer });
    out.push(Column { name: ColumnId::Weight, ty: ColumnType::Real });
    out.push(Column { name: ColumnId::Notes, ty: ColumnType::Text });
    out.push(Column { name: ColumnId::OrderIndex, ty: ColumnType::Integer });
    out.push(Column { name: ColumnId::GroupNumber, ty: ColumnType::Integer });
    out.push(Column { name: ColumnId::CreatedAt, ty: ColumnType::DateTime });
    out.push(Column { name: ColumnId::UpdatedAt, ty: ColumnType::DateTime });
    proof {
        assert(out@ =~= workout_shape());
    }
    out
}

/// The shape the session-table rebuild produces, as a value.
fn build_workout_rebuilt_shape() -> (v: Vec<Column>)
    ensures
        v@ == workout_rebuilt_shape(),
{
    let mut v: Vec<Column> = Vec::new();
    v.push(Column { name: ColumnId::Id, ty: ColumnType::Integer });
    v.push(Column { name: ColumnId::PersonId, ty: ColumnType::Integer });
    v.push(Column { name: ColumnId::ExerciseId, ty: ColumnType::Integer });
    v.push(Column { name: ColumnId::Date, ty: ColumnType::Date });
    v.push(Column { name: ColumnId::Sets, ty: ColumnType::Integer });
    v.push(Column { name: ColumnId::Reps, ty: ColumnType::Integer });
    v.push(Column { name: ColumnId::Weight, ty: ColumnType::Real });
    v.push(Column { name: ColumnId::Notes, ty: ColumnType::Text });
    v.push(Column { name: ColumnId::OrderIndex, ty: ColumnType::Integer });
    v.push(Column { name: ColumnId::CreatedAt, ty: ColumnType::DateTime });
    v.push(Column { name: ColumnId::UpdatedAt, ty: ColumnType::DateTime });
    proof {
        assert(v@ =~= workout_rebuilt_shape());
    }
    v
}

/// The current routines shape, as a value.
fn build_routines_shape() -> (v: Vec<Column>)
    ensures
        v@ == routines_shape(),
{
    let mut v: Vec<Column> = Vec::new();
    v.push(Column { name: ColumnId::Id, ty: ColumnType::Integer });
    v.push(Column { name: ColumnId::Name, ty: ColumnType::Text });
    v.push(Column { name: ColumnId::Code, ty: ColumnType::Text });
    v.push(Column { name: ColumnId::CreatedAt, ty: ColumnType::DateTime });
    v.push(Column { name: ColumnId::UpdatedAt, ty: ColumnType::DateTime });
    proof {
        assert(v@ =~= routines_shape());
    }
    v
}

/// The current routine-exercises shape, as a value.
fn build_routine_exercises_shape() -> (v: Vec<Column>)
    ensures
        v@ == routine_exercises_shape(),
{
    let mut v: Vec<Column> = Vec::new();
    v.push(Column { name: ColumnId::Id, ty: ColumnType::Integer });
    v.push(Column { name: ColumnId::RoutineId, ty: ColumnType::Integer });
    v.push(Column { name: ColumnId::ExerciseId, ty: ColumnType::Integer });
    v.push(Column { name: ColumnId::OrderIndex, ty: ColumnType::Integer });
    v.push(Column { name: ColumnId::Sets, ty: ColumnType::Integer });
    v.push(Column { name: ColumnId::Reps, ty: ColumnType::Integer });
    v.push(Column { name: ColumnId::Weight, ty: ColumnType::Real });
    v.push(Column { name: ColumnId::Notes, ty: ColumnType::Text });
    v.push(Column { name: ColumnId::GroupNumber, ty: ColumnType::Integer });
    v.push(Column { name: ColumnId::CreatedAt, ty: ColumnType::DateTime });
    v.push(Column { name: ColumnId::UpdatedAt, ty: ColumnType::DateTime });
    proof {
        assert(v@ =~= routine_exercises_shape());
    }
    v
}

/// The ledger shape, as a value.
fn build_migrations_shape() -> (v: Vec<Column>)
    ensures
        v@ == migrations_shape(),
{
    let mut v: Vec<Column> = Vec::new();
    v.push(Column { name: ColumnId::Id, ty: ColumnType::Integer });
    v.push(Column { name: ColumnId::Version, ty: ColumnType::Text });
    v.push(Column { name: ColumnId::AppliedAt, ty: ColumnType::DateTime });
    proof {
        assert(v@ =~= migrations_shape());
    }
    v
}

/// Law: the shapes the planner leaves behind are stable. Run on a
/// catalog that already carries them, the planner plans no step and
/// changes no shape, so a second migration pass finds nothing to do.
pub proof fn lemma_ensure_schema_idempotent(c: Catalog, c2: Catalog)
    requires
        shape_of(c2.people) == Some(spec_ensured(c).0),
        shape_of(c2.exercise) == Some(spec_ensured(c).1),
        shape_of(c2.workout_entries) == Some(spec_ensured(c).2),
        shape_of(c2.routines) == Some(spec_ensured(c).3),
        shape_of(c2.routine_exercises) == Some(spec_ensured(c).4),
        shape_of(c2.migrations) == Some(spec_ensured(c).5),
    ensures
        spec_plan(c2) =~= Seq::<MigrationStep>::empty(),
        spec_ensured(c2) == spec_ensured(c),
{
    lemma_reference_stable(shape_of(c.people), people_shape());
    lemma_reference_stable(shape_of(c.exercise), exercise_shape());
    lemma_workout_stable(shape_of(c.workout_entries));
    let s5 = apply_routine_exercises(shape_of(c.routine_exercises));
    assert(has_col(s5, ColumnId::GroupNumber)) by {
        match shape_of(c.routine_exercises) {
            None => {
                assert(routine_exercises_shape()[8].name == ColumnId::GroupNumber);
            },
            Some(s) => {
                if !has_col(s, ColumnId::GroupNumber) {
                    let ext = s + seq![
                        Column { name: ColumnId::GroupNumber, ty: ColumnType::Integer },
                    ];
                    assert(ext[s.len() as int].name == ColumnId::GroupNumber);
                }
            },
        }
    }
}

/// A reference table that went through the soft-delete migration keeps
/// its shape on a second pass.
proof fn lemma_reference_stable(cur: Option<Seq<Column>>, fresh: Seq<Column>)
    requires
        fresh == people_shape() || fresh == exercise_shape(),
    ensures
        !soft_delete_missing(apply_reference(cur, fresh)),
{
    let out = apply_reference(cur, fresh);
    match cur {
        None => {
            if fresh == people_shape() {
                assert(people_shape()[4].name == ColumnId::DeletedAt);
            } else {
                assert(exercise_shape()[3].name == ColumnId::DeletedAt);
            }
        },
        Some(s) => {
            if soft_delete_missing(s) {
                assert(out[s.len() as int].name == ColumnId::DeletedAt);
            }
        },
    }
}

/// The session table that went through its migrations keeps its shape
/// on a second pass.
proof fn lemma_workout_stable(cur: Option<Seq<Column>>)
    ensures
        plan_workout(Some(apply_workout(cur))) =~= Seq::<MigrationStep>::empty(),
        apply_workout(Some(apply_workout(cur))) == apply_workout(cur),
{
    let out = apply_workout(cur);
    match cur {
        None => {
            lemma_workout_shape_current(workout_shape());
        },
        Some(s) => {
            if has_col_typed(s, ColumnId::Date, ColumnType::Text) {
                let ext = workout_rebuilt_shape() + seq![
                    Column { name: ColumnId::GroupNumber, ty: ColumnType::Integer },
                ];
                assert(!has_col_typed(ext, ColumnId::Date, ColumnType::Text)) by {
                    assert forall|i: int| 0 <= i < ext.len() implies !((#[trigger] ext[i]).name
                        == ColumnId::Date && ext[i].ty == ColumnType::Text) by {
                        if i < workout_rebuilt_shape().len() {
                            assert(ext[i] == workout_rebuilt_shape()[i]);
                        } else {
                            assert(ext[i].name == ColumnId::GroupNumber);
                        }
                    }
                }
                assert(ext[8].name == ColumnId::OrderIndex);
                assert(ext[11].name == ColumnId::GroupNumber);
            } else if !has_col(s, ColumnId::OrderIndex) && has_col_typed(
                s,
                ColumnId::Date,
                ColumnType::Date,
            ) {
                if !has_col(s, ColumnId::GroupNumber) {
                    let ext = s + seq![
                        Column { name: ColumnId::OrderIndex, ty: ColumnType::Integer },
                        Column { name: ColumnId::GroupNumber, ty: ColumnType::Integer },
                    ];
                    lemma_extension_no_text_date(s, ext);
                    assert(ext[s.len() as int].name == ColumnId::OrderIndex);
                    assert(ext[s.len() as int + 1].name == ColumnId::GroupNumber);
                } else {
                    let ext = s + seq![
                        Column { name: ColumnId::OrderIndex, ty: ColumnType::Integer },
                    ];
                    lemma_extension_no_text_date(s, ext);
                    assert(ext[s.len() as int].name == ColumnId::OrderIndex);
                    let w = choose|i: int|
                        0 <= i < s.len() && (#[trigger] s[i]).name == ColumnId::GroupNumber;
                    assert(ext[w].name == ColumnId::GroupNumber);
                }
            } else if !has_col(s, ColumnId::GroupNumber) && has_col(s, ColumnId::OrderIndex) {
                let ext = s + seq![
                    Column { name: ColumnId::GroupNumber, ty: ColumnType::Integer },
                ];
                lemma_extension_no_text_date(s, ext);
                assert(ext[s.len() as int].name == ColumnId::GroupNumber);
                let w = choose|i: int|
                    0 <= i < s.len() && (#[trigger] s[i]).name == ColumnId::OrderIndex;
                assert(ext[w].name == ColumnId::OrderIndex);
            } else {
            }
        },
    }
}

/// The fresh session shape carries no `TEXT` date and every current
/// column.
proof fn lemma_workout_shape_current(s: Seq<Column>)
    requires
        s == workout_shape(),
    ensures
        !has_col_typed(s, ColumnId::Date, ColumnType::Text),
        has_col(s, ColumnId::OrderIndex),
        has_col(s, ColumnId::GroupNumber),
{
    assert forall|i: int| 0 <= i < s.len() implies !((#[trigger] s[i]).name == ColumnId::Date
        && s[i].ty == ColumnType::Text) by {
        if s[i].name == ColumnId::Date {
            assert(i == 3);
        }
    }
    assert(s[8].name == ColumnId::OrderIndex);
    assert(s[9].name == ColumnId::GroupNumber);
}

/// Appending integer columns to a shape without a `TEXT` date leaves it
/// without one.
proof fn lemma_extension_no_text_date(s: Seq<Column>, ext: Seq<Column>)
    requires
        !has_col_typed(s, ColumnId::Date, ColumnType::Text),
        ext.len() >= s.len(),
        forall|i: int| 0 <= i < s.len() ==> ext[i] == s[i],
        forall|i: int|
            s.len() <= i < ext.len() ==> (#[trigger] ext[i]).ty == ColumnType::Integer,
    ensures
        !has_col_typed(ext, ColumnId::Date, ColumnType::Text),
{
    assert forall|i: int| 0 <= i < ext.len() implies !((#[trigger] ext[i]).name == ColumnId::Date
        && ext[i].ty == ColumnType::Text) by {
        if i < s.len() {
            assert(ext[i] == s[i]);
        }
    }
}

} // verus!
