use vstd::prelude::*;

verus! {

/// The tables a store may hold.
#[derive(Debug, Clone, Copy, PartialEq, Eq, Structural)]
pub enum Table {
    Classes,
    Students,
    Accommodations,
    ClassStudents,
    SixWeekPeriods,
    ServiceLogs,
    AccommodationServiceLogs,
}

/// A set of tables, one flag per table.
#[derive(Debug, Clone, Copy, PartialEq, Eq, Structural)]
pub struct TableSet {
    pub classes: bool,
    pub students: bool,
    pub accommodations: bool,
    pub class_students: bool,
    pub six_week_periods: bool,
    pub service_logs: bool,
    pub accommodation_service_logs: bool,
}

impl TableSet {
    pub open spec fn has(self, t: Table) -> bool {
        match t {
            Table::Classes => self.classes,
            Table::Students => self.students,
            Table::Accommodations => self.accommodations,
            Table::ClassStudents => self.class_students,
            Table::SixWeekPeriods => self.six_week_periods,
            Table::ServiceLogs => self.service_logs,
            Table::AccommodationServiceLogs => self.accommodation_service_logs,
        }
    }

    /// The tables left after dropping `drops` and then creating `creates`.
    pub open spec fn after(self, drops: TableSet, creates: TableSet) -> TableSet {
        TableSet {
            classes: (self.classes && !drops.classes) || creates.classes,
            students: (self.students && !drops.students) || creates.students,
            accommodations: (self.accommodations && !drops.accommodations)
                || creates.accommodations,
            class_students: (self.class_students && !drops.class_students)
                || creates.class_students,
            six_week_periods: (self.six_week_periods && !drops.six_week_periods)
                || creates.six_week_periods,
            service_logs: (self.service_logs && !drops.service_logs) || creates.service_logs,
            accommodation_service_logs: (self.accommodation_service_logs
                && !drops.accommodation_service_logs) || creates.accommodation_service_logs,
        }
    }

    pub fn none() -> (r: TableSet)
        ensures
            r@ == Set::<Table>::empty(),
    {
        let r = TableSet {
            classes: false,
            students: false,
            accommodations: false,
            class_students: false,
            six_week_periods: false,
            service_logs: false,
            accommodation_service_logs: false,
        };
        assert(r@ =~= Set::<Table>::empty());
        r
    }

    pub fn contains(&self, t: Table) -> (r: bool)
        ensures
            r == self@.contains(t),
    {
        match t {
            Table::Classes => self.classes,
            Table::Students => self.students,
            Table::Accommodations => self.accommodations,
            Table::ClassStudents => self.class_students,
            Table::SixWeekPeriods => self.six_week_periods,
            Table::ServiceLogs => self.service_logs,
            Table::AccommodationServiceLogs => self.accommodation_service_logs,
        }
    }

    /// Drops the tables of `drops`, then creates those of `creates`
    /// (creating a table that exists leaves it as it is).
    pub fn apply(&self, drops: &TableSet, creates: &TableSet) -> (r: TableSet)
        ensures
            r == self.after(*drops, *creates),
            r@ == self@.difference(drops@).union(creates@),
    {
        let r = TableSet {
            classes: (self.classes && !drops.classes) || creates.classes,
            students: (self.students && !drops.students) || creates.students,
            accommodations: (self.accommodations && !drops.accommodations)
                || creates.accommodations,
            class_students: (self.class_students && !drops.class_students)
                || creates.class_students,
            six_week_periods: (self.six_week_periods && !drops.six_week_periods)
                || creates.six_week_periods,
            service_logs: (self.service_logs && !drops.service_logs) || creates.service_logs,
            accommodation_service_logs: (self.accommodation_service_logs
                && !drops.accommodation_service_logs) || creates.accommodation_service_logs,
        };
        assert(r@ =~= self@.difference(drops@).union(creates@));
        r
    }
}

impl View for TableSet {
    type V = Set<Table>;

    open spec fn view(&self) -> Set<Table> {
        Set::new(|t: Table| self.has(t))
    }
}

/// The tables of the current schema: every entity table, and no
/// per-student service log.
pub open spec fn current_tables() -> Set<Table> {
    set![
        Table::Classes,
        Table::Students,
        Table::Accommodations,
        Table::ClassStudents,
        Table::SixWeekPeriods,
        Table::AccommodationServiceLogs,
    ]
}

/// One schema transformation: the version it brings the store to, its SQL
/// text, and the tables it drops and then creates.
#[derive(Debug)]
pub struct Migration {
    pub version: i64,
    pub description: &'static str,
    pub sql: &'static str,
    pub drops: TableSet,
    pub creates: TableSet,
}

/// Versions that rise strictly along the list.
pub open spec fn ascending(ms: Seq<Migration>) -> bool {
    forall|i: int, j: int| 0 <= i < j < ms.len() ==> ms[i].version < ms[j].version
}

/// The chain of this schema: version 1 creates classes, students,
/// accommodations and enrollments; version 2 creates grading periods and the
/// per-student service log; version 3 drops that log and creates the
/// per-accommodation one.
pub open spec fn is_schema_chain(ms: Seq<Migration>) -> bool {
    &&& ms.len() == 3
    &&& ms[0].version == 1
    &&& ms[1].version == 2
    &&& ms[2].version == 3
    &&& ms[0].drops@ == Set::<Table>::empty()
    &&& ms[0].creates@ == set![
        Table::Classes,
        Table::Students,
        Table::Accommodations,
        Table::ClassStudents,
    ]
    &&& ms[1].drops@ == Set::<Table>::empty()
    &&& ms[1].creates@ == set![Table::SixWeekPeriods, Table::ServiceLogs]
    &&& ms[2].drops@ == set![Table::ServiceLogs]
    &&& ms[2].creates@ == set![Table::AccommodationServiceLogs]
}

/// A migration failed to commit; the store stays at its last good version.
#[derive(Debug, Clone, Copy, PartialEq, Eq, Structural)]
pub struct MigrationFailure {
    pub version: i64,
}

/// The schema state of a store: its version (0 when empty) and its tables.
#[derive(Debug, Clone, Copy, PartialEq, Eq, Structural)]
pub struct SchemaState {
    pub version: i64,
    pub tables: TableSet,
}

/// The state after offering `m`: applied when its version is above the
/// current one, ignored otherwise.
pub open spec fn after_migration(s: SchemaState, m: Migration) -> SchemaState {
    if m.version > s.version {
        SchemaState { version: m.version, tables: s.tables.after(m.drops, m.creates) }
    } else {
        s
    }
}

/// The state after offering every migration of `ms`, in order.
pub open spec fn after_all(s: SchemaState, ms: Seq<Migration>) -> SchemaState
    decreases ms.len(),
{
    if ms.len() == 0 {
        s
    } else {
        after_migration(after_all(s, ms.drop_last()), ms.last())
    }
}

impl SchemaState {
    /// An empty store, at version 0.
    pub fn empty() -> (r: SchemaState)
        ensures
            r.version == 0,
            r.tables@ == Set::<Table>::empty(),
    {
        SchemaState { version: 0, tables: TableSet::none() }
    }

    /// The index of the next migration to apply: the first one whose
    /// version is above the current one.
    pub fn pending(&self, ms: &Vec<Migration>) -> (r: Option<usize>)
        ensures
            match r {
                Some(i) => i < ms@.len() && ms@[i as int].version > self.version && forall|j: int|
                    0 <= j < i ==> ms@[j].version <= self.version,
                None => forall|j: int| 0 <= j < ms@.len() ==> ms@[j].version <= self.version,
            },
    {
        let mut i: usize = 0;
        while i < ms.len()
            invariant
                i <= ms@.len(),
                forall|j: int| 0 <= j < i ==> ms@[j].version <= self.version,
            decreases ms@.len() - i,
        {
            if ms[i].version > self.version {
                return Some(i);
            }
            i = i + 1;
        }
        None
    }

    /// Records the outcome of offering `m`. A migration at or below the
    /// current version is skipped (`Ok(false)`). Otherwise, when its
    /// transaction committed, its tables are applied and its version recorded
    /// (`Ok(true)`); when it did not, the state is unchanged and the failure
    /// is reported.
    pub fn step(&mut self, m: &Migration, committed: bool) -> (r: Result<bool, MigrationFailure>)
        ensures
            m.version <= old(self).version ==> r == Ok::<bool, MigrationFailure>(false)
                && *final(self) == *old(self),
            m.version > old(self).version && committed ==> r == Ok::<bool, MigrationFailure>(true)
                && *final(self) == after_migration(*old(self), *m),
            m.version > old(self).version && !committed ==> r == Err::<bool, MigrationFailure>(
                MigrationFailure { version: m.version },
            ) && *final(self) == *old(self),
    {
        if m.version <= self.version {
            Ok(false)
        } else if committed {
            self.tables = self.tables.apply(&m.drops, &m.creates);
            self.version = m.version;
            Ok(true)
        } else {
            Err(MigrationFailure { version: m.version })
        }
    }

    /// Applies, in order, every migration of `ms` whose version is above the
    /// version reached so far.
    pub fn migrate(&mut self, ms: &Vec<Migration>)
        ensures
            *final(self) == after_all(*old(self), ms@),
    {
        let mut i: usize = 0;
        while i < ms.len()
            invariant
                i <= ms@.len(),
                *self == after_all(*old(self), ms@.subrange(0, i as int)),
            decreases ms@.len() - i,
        {
            assert(ms@.subrange(0, i as int + 1).drop_last() =~= ms@.subrange(0, i as int));
            let _ = self.step(&ms[i], true);
            i = i + 1;
        }
        assert(ms@.subrange(0, ms@.len() as int) =~= ms@);
    }
}

/// The set holding exactly the tables whose flag is set.
fn table_set(
    classes: bool,
    students: bool,
    accommodations: bool,
    class_students: bool,
    six_week_periods: bool,
    service_logs: bool,
    accommodation_service_logs: bool,
) -> (r: TableSet)
    ensures
        r == (TableSet {
            classes,
            students,
            accommodations,
            class_students,
            six_week_periods,
            service_logs,
            accommodation_service_logs,
        }),
{
    TableSet {
        classes,
        students,
        accommodations,
        class_students,
        six_week_periods,
        service_logs,
        accommodation_service_logs,
    }
}

pub const CREATE_INITIAL_TABLES_SQL: &'static str = "
CREATE TABLE IF NOT EXISTS classes (
    id INTEGER PRIMARY KEY AUTOINCREMENT,
    name TEXT NOT NULL,
    subject TEXT NOT NULL,
    period TEXT NOT NULL,
    year TEXT NOT NULL
);

CREATE TABLE IF NOT EXISTS students (
    id INTEGER PRIMARY KEY AUTOINCREMENT,
    first_name TEXT NOT NULL,
    last_name TEXT NOT NULL,
    student_id TEXT NOT NULL UNIQUE,
    plan_type TEXT NOT NULL CHECK(plan_type IN ('504', 'IEP'))
);

CREATE TABLE IF NOT EXISTS accommodations (
    id INTEGER PRIMARY KEY AUTOINCREMENT,
    student_id INTEGER NOT NULL,
    description TEXT NOT NULL,
    category TEXT NOT NULL,
    FOREIGN KEY (student_id) REFERENCES students(id) ON DELETE CASCADE
);

CREATE TABLE IF NOT EXISTS class_students (
    id INTEGER PRIMARY KEY AUTOINCREMENT,
    class_id INTEGER NOT NULL,
    student_id INTEGER NOT NULL,
    FOREIGN KEY (class_id) REFERENCES classes(id) ON DELETE CASCADE,
    FOREIGN KEY (student_id) REFERENCES students(id) ON DELETE CASCADE,
    UNIQUE(class_id, student_id)
);

CREATE INDEX IF NOT EXISTS idx_accommodations_student_id ON accommodations(student_id);
CREATE INDEX IF NOT EXISTS idx_class_students_class_id ON class_students(class_id);
CREATE INDEX IF NOT EXISTS idx_class_students_student_id ON class_students(student_id);
";

pub const ADD_PERIODS_AND_SERVICE_LOGS_SQL: &'static str = "
CREATE TABLE IF NOT EXISTS six_week_periods (
    id INTEGER PRIMARY KEY AUTOINCREMENT,
    name TEXT NOT NULL,
    start_date TEXT NOT NULL,
    end_date TEXT NOT NULL,
    year TEXT NOT NULL
);

CREATE TABLE IF NOT EXISTS service_logs (
    id INTEGER PRIMARY KEY AUTOINCREMENT,
    class_id INTEGER NOT NULL,
    student_id INTEGER NOT NULL,
    service_date TEXT NOT NULL,
    provided INTEGER NOT NULL DEFAULT 0,
    FOREIGN KEY (class_id) REFERENCES classes(id) ON DELETE CASCADE,
    FOREIGN KEY (student_id) REFERENCES students(id) ON DELETE CASCADE,
    UNIQUE(class_id, student_id, service_date)
);

CREATE INDEX IF NOT EXISTS idx_service_logs_class_id ON service_logs(class_id);
CREATE INDEX IF NOT EXISTS idx_service_logs_student_id ON service_logs(student_id);
CREATE INDEX IF NOT EXISTS idx_service_logs_date ON service_logs(service_date);
";

pub const PER_ACCOMMODATION_TRACKING_SQL: &'static str = "
DROP TABLE IF EXISTS service_logs;

CREATE TABLE IF NOT EXISTS accommodation_service_logs (
    id INTEGER PRIMARY KEY AUTOINCREMENT,
    class_id INTEGER NOT NULL,
    accommodation_id INTEGER NOT NULL,
    service_date TEXT NOT NULL,
    provided INTEGER NOT NULL DEFAULT 0,
    FOREIGN KEY (class_id) REFERENCES classes(id) ON DELETE CASCADE,
    FOREIGN KEY (accommodation_id) REFERENCES accommodations(id) ON DELETE CASCADE,
    UNIQUE(class_id, accommodation_id, service_date)
);

CREATE INDEX IF NOT EXISTS idx_accommodation_service_logs_class_id ON accommodation_service_logs(class_id);
CREATE INDEX IF NOT EXISTS idx_accommodation_service_logs_accommodation_id ON accommodation_service_logs(accommodation_id);
CREATE INDEX IF NOT EXISTS idx_accommodation_service_logs_date ON accommodation_service_logs(service_date);
";

/// The schema's migration chain, oldest first.
pub fn migrations() -> (r: Vec<Migration>)
    ensures
        is_schema_chain(r@),
        ascending(r@),
{
    let nothing = TableSet::none();
    let first = table_set(true, true, true, true, false, false, false);
    let second = table_set(false, false, false, false, true, true, false);
    let third_drops = table_set(false, false, false, false, false, true, false);
    let third = table_set(false, false, false, false, false, false, true);
    let r = vec![
        Migration {
            version: 1,
            description: "create_initial_tables",
            sql: CREATE_INITIAL_TABLES_SQL,
            drops: nothing,
            creates: first,
        },
        Migration {
            version: 2,
            description: "add_periods_and_service_logs",
            sql: ADD_PERIODS_AND_SERVICE_LOGS_SQL,
            drops: nothing,
            creates: second,
        },
        Migration {
            version: 3,
            description: "per_accommodation_tracking",
            sql: PER_ACCOMMODATION_TRACKING_SQL,
            drops: third_drops,
            creates: third,
        },
    ];
    assert(first@ =~= set![Table::Classes, Table::Students, Table::Accommodations, Table::ClassStudents]);
    assert(second@ =~= set![Table::SixWeekPeriods, Table::ServiceLogs]);
    assert(third_drops@ =~= set![Table::ServiceLogs]);
    assert(third@ =~= set![Table::AccommodationServiceLogs]);
    r
}

/// Offering migrations never lowers the version, and the version reached
/// is at least that of every migration offered.
pub proof fn lemma_version_reaches_all(s: SchemaState, ms: Seq<Migration>)
    ensures
        after_all(s, ms).version >= s.version,
        forall|i: int| 0 <= i < ms.len() ==> after_all(s, ms).version >= #[trigger] ms[i].version,
    decreases ms.len(),
{
    if ms.len() > 0 {
        lemma_version_reaches_all(s, ms.drop_last());
        assert forall|i: int| 0 <= i < ms.len() implies after_all(s, ms).version >= #[trigger] ms[i].version by {
            if i < ms.len() - 1 {
                assert(ms.drop_last()[i] == ms[i]);
            }
        }
    }
}

/// Offering only migrations at or below the current version changes nothing.
pub proof fn lemma_nothing_pending(s: SchemaState, ms: Seq<Migration>)
    requires
        forall|i: int| 0 <= i < ms.len() ==> #[trigger] ms[i].version <= s.version,
    ensures
        after_all(s, ms) == s,
    decreases ms.len(),
{
    if ms.len() > 0 {
        assert forall|i: int| 0 <= i < ms.drop_last().len() implies #[trigger] ms.drop_last()[i].version <= s.version by {
            assert(ms.drop_last()[i] == ms[i]);
        }
        lemma_nothing_pending(s, ms.drop_last());
        assert(ms.last() == ms[ms.len() - 1]);
    }
}

/// Migrating an empty store with the schema's chain reaches version 3 with
/// exactly the current tables; the per-student service log is gone.
pub proof fn lemma_migrate_empty_store(s: SchemaState, ms: Seq<Migration>)
    requires
        is_schema_chain(ms),
        s.version == 0,
        s.tables@ == Set::<Table>::empty(),
    ensures
        after_all(s, ms).version == 3,
        after_all(s, ms).tables@ == current_tables(),
        !after_all(s, ms).tables@.contains(Table::ServiceLogs),
{
    let m0 = ms.drop_last().drop_last();
    let m1 = ms.drop_last();
    assert(m0.drop_last() =~= Seq::<Migration>::empty());
    assert(m0.last() == ms[0]);
    assert(m1.last() == ms[1]);
    assert(m1.drop_last() == m0);
    let s1 = after_migration(s, ms[0]);
    let s2 = after_migration(s1, ms[1]);
    let s3 = after_migration(s2, ms[2]);
    assert(after_all(s, m0.drop_last()) == s);
    assert(after_all(s, m0) == s1);
    assert(after_all(s, m1) == s2);
    assert(after_all(s, ms) == s3);
    assert forall|x: Table| #[trigger] s3.tables@.contains(x) == current_tables().contains(x) by {
        assert(s.tables@.contains(x) == false);
        assert(ms[0].drops@.contains(x) == false);
        assert(ms[1].drops@.contains(x) == false);
        assert(ms[0].creates@.contains(x) == set![
            Table::Classes,
            Table::Students,
            Table::Accommodations,
            Table::ClassStudents,
        ].contains(x));
        assert(ms[1].creates@.contains(x) == set![Table::SixWeekPeriods, Table::ServiceLogs].contains(x));
        assert(ms[2].drops@.contains(x) == set![Table::ServiceLogs].contains(x));
        assert(ms[2].creates@.contains(x) == set![Table::AccommodationServiceLogs].contains(x));
    }
    assert(s3.tables@ =~= current_tables());
}

/// Migrating a second time changes nothing: the state reached by one run
/// is a fixed point of the engine.
pub proof fn lemma_migrate_twice(s: SchemaState, ms: Seq<Migration>)
    ensures
        after_all(after_all(s, ms), ms) == after_all(s, ms),
{
    lemma_version_reaches_all(s, ms);
    lemma_nothing_pending(after_all(s, ms), ms);
}

} // verus!
