use vstd::prelude::*;
use crate::model::{
    is_plan_type, text_at_or_before, text_le, valid_plan_type, Accommodation, AccommodationServiceLog, Class, ClassStudent,
    SixWeekPeriod, Student,
};
use crate::rows::{
    copy_where, find_row, has_id, ids_rise, lemma_filter_ids_rise, lemma_filter_members,
    copy_all, keep_where, lemma_filter_has_id, lemma_row_index, lemma_update_same_id, other_rows,
    row_index, Row,
};
use crate::schema::{current_tables, lemma_migrate_empty_store, migrations, SchemaState, Table, TableSet};

verus! {

/// Why an operation on the store did not go through.
#[derive(Debug, Clone, Copy, PartialEq, Eq, Structural)]
pub enum StoreError {
    /// A uniqueness, reference or value constraint would be broken.
    ConstraintViolation,
    /// No row has the given id.
    NotFound,
    /// A migration did not commit.
    MigrationFailure,
    /// The store cannot take the write (here: its ids are used up).
    StorageIoFailure,
}

/// No two students share a school identifier.
pub open spec fn student_ids_unique(s: Seq<Student>) -> bool {
    forall|x: Student, y: Student|
        #[trigger] s.contains(x) && #[trigger] s.contains(y) && x.student_id@ == y.student_id@
            ==> x == y
}

/// No student is enrolled twice in one class.
pub open spec fn enrollments_unique(s: Seq<ClassStudent>) -> bool {
    forall|x: ClassStudent, y: ClassStudent|
        #[trigger] s.contains(x) && #[trigger] s.contains(y) && x.class_id == y.class_id
            && x.student_id == y.student_id ==> x == y
}

/// At most one log per class, accommodation and date.
pub open spec fn logs_unique(s: Seq<AccommodationServiceLog>) -> bool {
    forall|x: AccommodationServiceLog, y: AccommodationServiceLog|
        #[trigger] s.contains(x) && #[trigger] s.contains(y) && x.class_id == y.class_id
            && x.accommodation_id == y.accommodation_id && x.service_date@ == y.service_date@
            ==> x == y
}

/// Whether `s` holds a student with school identifier `sid`.
pub open spec fn student_id_taken(s: Seq<Student>, sid: Seq<char>) -> bool {
    exists|x: Student| #[trigger] s.contains(x) && x.student_id@ == sid
}

/// Whether `s` enrolls student `student` in class `class`.
pub open spec fn enrolled(s: Seq<ClassStudent>, class: i64, student: i64) -> bool {
    exists|x: ClassStudent| #[trigger] s.contains(x) && x.class_id == class && x.student_id == student
}

/// Whether `s` holds a log for this class, accommodation and date.
pub open spec fn logged(s: Seq<AccommodationServiceLog>, class: i64, acc: i64, date: Seq<char>) -> bool {
    exists|x: AccommodationServiceLog|
        #[trigger] s.contains(x) && x.class_id == class && x.accommodation_id == acc
            && x.service_date@ == date
}

/// Whether accommodation `acc` belongs to student `student`.
pub open spec fn owned_by(accs: Seq<Accommodation>, acc: i64, student: i64) -> bool {
    exists|a: Accommodation| #[trigger] accs.contains(a) && a.id == Some(acc) && a.student_id == student
}

/// The stored value of a `provided` flag.
pub open spec fn provided_flag(b: bool) -> i64 {
    if b {
        1
    } else {
        0
    }
}

/// The position of the log for this class, accommodation and date (the one
/// such log, in a well-formed store).
pub open spec fn log_index(s: Seq<AccommodationServiceLog>, class: i64, acc: i64, date: Seq<char>) -> int {
    choose|k: int|
        0 <= k < s.len() && s[k].class_id == class && s[k].accommodation_id == acc
            && s[k].service_date@ == date
}

/// The logs after recording `provided` for this class, accommodation and
/// date: the existing log is updated in place, or a log with id `id` is
/// appended.
pub open spec fn upserted(
    s: Seq<AccommodationServiceLog>,
    class: i64,
    acc: i64,
    date: String,
    provided: bool,
    id: i64,
) -> Seq<AccommodationServiceLog> {
    if logged(s, class, acc, date@) {
        let k = log_index(s, class, acc, date@);
        s.update(k, AccommodationServiceLog { provided: provided_flag(provided), ..s[k] })
    } else {
        s.push(
            AccommodationServiceLog {
                id: Some(id),
                class_id: class,
                accommodation_id: acc,
                service_date: date,
                provided: provided_flag(provided),
            },
        )
    }
}

/// Enrollments in other classes than `class`.
pub open spec fn enrollment_elsewhere(class: i64) -> spec_fn(ClassStudent) -> bool {
    |e: ClassStudent| e.class_id != class
}

/// Enrollments of other students than `student`.
pub open spec fn enrollment_of_other(student: i64) -> spec_fn(ClassStudent) -> bool {
    |e: ClassStudent| e.student_id != student
}

/// Accommodations of other students than `student`.
pub open spec fn accommodation_of_other(student: i64) -> spec_fn(Accommodation) -> bool {
    |a: Accommodation| a.student_id != student
}

/// Logs of other classes than `class`.
pub open spec fn log_elsewhere(class: i64) -> spec_fn(AccommodationServiceLog) -> bool {
    |l: AccommodationServiceLog| l.class_id != class
}

/// Logs of other accommodations than `acc`.
pub open spec fn log_of_other(acc: i64) -> spec_fn(AccommodationServiceLog) -> bool {
    |l: AccommodationServiceLog| l.accommodation_id != acc
}

/// Logs of accommodations that do not belong to `student`.
pub open spec fn log_not_owned(accs: Seq<Accommodation>, student: i64) -> spec_fn(
    AccommodationServiceLog,
) -> bool {
    |l: AccommodationServiceLog| !owned_by(accs, l.accommodation_id, student)
}

/// Accommodations of `student`.
pub open spec fn accommodation_of(student: i64) -> spec_fn(Accommodation) -> bool {
    |a: Accommodation| a.student_id == student
}

/// Logs of class `class`.
pub open spec fn log_in(class: i64) -> spec_fn(AccommodationServiceLog) -> bool {
    |l: AccommodationServiceLog| l.class_id == class
}

/// Logs of class `class` dated from `from` to `to`, both included.
pub open spec fn log_in_range(class: i64, from: Seq<char>, to: Seq<char>) -> spec_fn(
    AccommodationServiceLog,
) -> bool {
    |l: AccommodationServiceLog|
        l.class_id == class && text_le(from, l.service_date@) && text_le(l.service_date@, to)
}

/// Enrollments in class `class`.
pub open spec fn enrollment_in(class: i64) -> spec_fn(ClassStudent) -> bool {
    |e: ClassStudent| e.class_id == class
}

fn contains_id(v: &Vec<i64>, x: i64) -> (r: bool)
    ensures
        r == v@.contains(x),
{
    let mut i: usize = 0;
    while i < v.len()
        invariant
            i <= v@.len(),
            forall|k: int| 0 <= k < i ==> v@[k] != x,
        decreases v@.len() - i,
    {
        if v[i] == x {
            return true;
        }
        i = i + 1;
    }
    false
}

/// The row with id `id`, or `NotFound`.
fn get_row<R: Row>(v: &Vec<R>, id: i64) -> (r: Result<R, StoreError>)
    ensures
        !has_id(v@, id) ==> r == Err::<R, StoreError>(StoreError::NotFound),
        has_id(v@, id) ==> r is Ok && v@.contains(r->Ok_0) && r->Ok_0.row_id() == Some(id),
{
    match find_row(v, id) {
        Some(k) => {
            assert(v@.contains(v@[k as int]));
            Ok(v[k].duplicate())
        },
        None => Err(StoreError::NotFound),
    }
}

/// Whether a student other than row `id` uses the school identifier `sid`.
pub open spec fn student_id_taken_by_other(s: Seq<Student>, sid: Seq<char>, id: i64) -> bool {
    exists|x: Student| #[trigger] s.contains(x) && x.student_id@ == sid && x.id != Some(id)
}

/// Whether an enrollment other than row `id` pairs `class` and `student`.
pub open spec fn enrolled_other(s: Seq<ClassStudent>, class: i64, student: i64, id: i64) -> bool {
    exists|x: ClassStudent|
        #[trigger] s.contains(x) && x.class_id == class && x.student_id == student && x.id != Some(
            id,
        )
}

/// Whether a log other than row `id` is keyed by this class, accommodation
/// and date.
pub open spec fn logged_other(
    s: Seq<AccommodationServiceLog>,
    class: i64,
    acc: i64,
    date: Seq<char>,
    id: i64,
) -> bool {
    exists|x: AccommodationServiceLog|
        #[trigger] s.contains(x) && x.class_id == class && x.accommodation_id == acc
            && x.service_date@ == date && x.id != Some(id)
}

/// An in-memory store at the current schema version: six tables and the next
/// id to hand out.
#[derive(Debug)]
pub struct Store {
    schema: SchemaState,
    classes: Vec<Class>,
    students: Vec<Student>,
    accommodations: Vec<Accommodation>,
    class_students: Vec<ClassStudent>,
    periods: Vec<SixWeekPeriod>,
    logs: Vec<AccommodationServiceLog>,
    next_id: i64,
}

proof fn lemma_push_members<A>(s: Seq<A>, x: A)
    ensures
        forall|y: A| #[trigger] s.push(x).contains(y) <==> s.contains(y) || y == x,
{
    assert forall|y: A| #[trigger] s.push(x).contains(y) <==> s.contains(y) || y == x by {
        if s.contains(y) {
            let i = choose|i: int| 0 <= i < s.len() && s[i] == y;
            assert(s.push(x)[i] == y);
        }
        if y == x {
            assert(s.push(x)[s.len() as int] == y);
        }
        if s.push(x).contains(y) && y != x {
            let i = choose|i: int| 0 <= i < s.len() + 1 && s.push(x)[i] == y;
            assert(s[i] == y);
        }
    }
}

proof fn lemma_push_rises<R: Row>(s: Seq<R>, x: R, next: i64)
    requires
        ids_rise(s, next),
        x.row_id() == Some(next),
        0 < next < i64::MAX,
    ensures
        ids_rise(s.push(x), (next + 1) as i64),
{
    let t = s.push(x);
    assert forall|i: int| 0 <= i < t.len() implies (#[trigger] t[i].row_id()).is_some() && 0
        < t[i].row_id().unwrap() < next + 1 by {
        if i < s.len() {
            assert(t[i] == s[i]);
        } else {
            assert(t[i] == x);
        }
    }
    assert forall|i: int, j: int| 0 <= i < j < t.len() implies (#[trigger] t[i].row_id()).unwrap()
        < (#[trigger] t[j].row_id()).unwrap() by {
        assert(t[i] == s[i]);
        if j < s.len() {
            assert(t[j] == s[j]);
        }
    }
}

proof fn lemma_push_keeps_ids<R: Row>(s: Seq<R>, x: R)
    ensures
        forall|id: i64| has_id(s, id) ==> #[trigger] has_id(s.push(x), id),
        forall|id: i64| x.row_id() == Some(id) ==> #[trigger] has_id(s.push(x), id),
{
    lemma_push_members(s, x);
    assert forall|id: i64| has_id(s, id) implies #[trigger] has_id(s.push(x), id) by {
        let y = choose|y: R| #[trigger] s.contains(y) && y.row_id() == Some(id);
        assert(s.push(x).contains(y));
    }
    assert forall|id: i64| x.row_id() == Some(id) implies #[trigger] has_id(s.push(x), id) by {
        assert(s.push(x).contains(x));
    }
}

/// What a store holds: its schema state, its six tables and the id the next
/// created row receives.
pub struct StoreView {
    pub schema: SchemaState,
    pub classes: Seq<Class>,
    pub students: Seq<Student>,
    pub accommodations: Seq<Accommodation>,
    pub class_students: Seq<ClassStudent>,
    pub periods: Seq<SixWeekPeriod>,
    pub logs: Seq<AccommodationServiceLog>,
    pub next_id: i64,
}

impl View for Store {
    type V = StoreView;

    closed spec fn view(&self) -> StoreView {
        StoreView {
            schema: self.schema,
            classes: self.classes@,
            students: self.students@,
            accommodations: self.accommodations@,
            class_students: self.class_students@,
            periods: self.periods@,
            logs: self.logs@,
            next_id: self.next_id,
        }
    }
}

impl Store {
    /// The store's invariant: ids are assigned and rise in every table,
    /// every reference names an existing row, plan types and `provided`
    /// flags hold their allowed values, and the uniqueness constraints hold.
    pub closed spec fn wf(&self) -> bool {
        &&& 0 < self.next_id
        &&& ids_rise(self.classes@, self.next_id)
        &&& ids_rise(self.students@, self.next_id)
        &&& ids_rise(self.accommodations@, self.next_id)
        &&& ids_rise(self.class_students@, self.next_id)
        &&& ids_rise(self.periods@, self.next_id)
        &&& ids_rise(self.logs@, self.next_id)
        &&& forall|x: Student| #[trigger] self.students@.contains(x) ==> is_plan_type(x.plan_type@)
        &&& student_ids_unique(self.students@)
        &&& forall|a: Accommodation|
            #[trigger] self.accommodations@.contains(a) ==> has_id(self.students@, a.student_id)
        &&& forall|e: ClassStudent|
            #[trigger] self.class_students@.contains(e) ==> has_id(self.classes@, e.class_id)
                && has_id(self.students@, e.student_id)
        &&& enrollments_unique(self.class_students@)
        &&& forall|l: AccommodationServiceLog|
            #[trigger] self.logs@.contains(l) ==> has_id(self.classes@, l.class_id) && has_id(
                self.accommodations@,
                l.accommodation_id,
            ) && (l.provided == 0 || l.provided == 1)
        &&& logs_unique(self.logs@)
    }

    /// The invariant of a store whose last id was just handed out and whose
    /// new row is not stored yet.
    spec fn wf_but_next(&self) -> bool {
        &&& 1 < self.next_id
        &&& (Store { next_id: (self.next_id - 1) as i64, ..*self }).wf()
    }

    /// An empty store over a schema that a migration run produced. CRUD is
    /// served only at the current schema: any other state is a failed
    /// migration.
    pub fn with_schema(schema: SchemaState) -> (r: Result<Store, StoreError>)
        ensures
            schema.version == 3 && schema.tables@ == current_tables() ==> r is Ok && r->Ok_0.wf()
                && r->Ok_0@ == (StoreView {
                schema,
                classes: Seq::empty(),
                students: Seq::empty(),
                accommodations: Seq::empty(),
                class_students: Seq::empty(),
                periods: Seq::empty(),
                logs: Seq::empty(),
                next_id: 1,
            }),
            !(schema.version == 3 && schema.tables@ == current_tables()) ==> r == Err::<
                Store,
                StoreError,
            >(StoreError::MigrationFailure),
    {
        let mut current = TableSet::none();
        current.classes = true;
        current.students = true;
        current.accommodations = true;
        current.class_students = true;
        current.six_week_periods = true;
        current.accommodation_service_logs = true;
        proof {
            assert(current@ =~= current_tables());
            if schema.tables@ == current_tables() {
                assert(schema.tables@.contains(Table::Classes));
                assert(schema.tables@.contains(Table::Students));
                assert(schema.tables@.contains(Table::Accommodations));
                assert(schema.tables@.contains(Table::ClassStudents));
                assert(schema.tables@.contains(Table::SixWeekPeriods));
                assert(schema.tables@.contains(Table::AccommodationServiceLogs));
                assert(!schema.tables@.contains(Table::ServiceLogs));
                assert(schema.tables == current);
            }
        }
        if schema.version != 3 || schema.tables != current {
            return Err(StoreError::MigrationFailure);
        }
        let st = Store {
            schema,
            classes: Vec::new(),
            students: Vec::new(),
            accommodations: Vec::new(),
            class_students: Vec::new(),
            periods: Vec::new(),
            logs: Vec::new(),
            next_id: 1,
        };
        proof {
            assert(st@.classes =~= Seq::<Class>::empty());
        }
        Ok(st)
    }

    /// Opens an empty store and brings it to the current schema.
    pub fn open() -> (r: Store)
        ensures
            r.wf(),
            r@.next_id == 1,
            r@.schema.version == 3,
            r@.schema.tables@ == current_tables(),
            r@.classes.len() == 0,
            r@.students.len() == 0,
            r@.accommodations.len() == 0,
            r@.class_students.len() == 0,
            r@.periods.len() == 0,
            r@.logs.len() == 0,
    {
        let mut schema = SchemaState::empty();
        let ms = migrations();
        let ghost start = schema;
        schema.migrate(&ms);
        proof {
            lemma_migrate_empty_store(start, ms@);
        }
        Store {
            schema,
            classes: Vec::new(),
            students: Vec::new(),
            accommodations: Vec::new(),
            class_students: Vec::new(),
            periods: Vec::new(),
            logs: Vec::new(),
            next_id: 1,
        }
    }

    /// Hands out the next id, or fails when none is left.
    fn take_id(&mut self) -> (r: Result<i64, StoreError>)
        ensures
            old(self).next_id == i64::MAX ==> r == Err::<i64, StoreError>(
                StoreError::StorageIoFailure,
            ) && *final(self) == *old(self),
            old(self).next_id < i64::MAX ==> r == Ok::<i64, StoreError>(old(self).next_id)
                && *final(self) == (Store { next_id: (old(self).next_id + 1) as i64, ..*old(self) }),
    {
        if self.next_id == i64::MAX {
            Err(StoreError::StorageIoFailure)
        } else {
            let id = self.next_id;
            self.next_id = self.next_id + 1;
            Ok(id)
        }
    }
}


impl Store {
    /// Whether a student already uses the school identifier `sid`.
    fn student_id_in_use(&self, sid: &String) -> (r: bool)
        ensures
            r == student_id_taken(self.students@, sid@),
    {
        let mut i: usize = 0;
        while i < self.students.len()
            invariant
                i <= self.students@.len(),
                forall|k: int| 0 <= k < i ==> self.students@[k].student_id@ != sid@,
            decreases self.students@.len() - i,
        {
            if self.students[i].student_id == *sid {
                assert(self.students@.contains(self.students@[i as int]));
                return true;
            }
            i = i + 1;
        }
        false
    }

    /// Whether `student` is enrolled in `class`.
    fn is_enrolled(&self, class: i64, student: i64) -> (r: bool)
        ensures
            r == enrolled(self.class_students@, class, student),
    {
        let mut i: usize = 0;
        while i < self.class_students.len()
            invariant
                i <= self.class_students@.len(),
                forall|k: int|
                    0 <= k < i ==> !(self.class_students@[k].class_id == class
                        && self.class_students@[k].student_id == student),
            decreases self.class_students@.len() - i,
        {
            if self.class_students[i].class_id == class && self.class_students[i].student_id == student {
                assert(self.class_students@.contains(self.class_students@[i as int]));
                return true;
            }
            i = i + 1;
        }
        false
    }

    /// The position of the log for this class, accommodation and date.
    fn find_log(&self, class: i64, acc: i64, date: &String) -> (r: Option<usize>)
        ensures
            match r {
                Some(k) => k < self.logs@.len() && self.logs@[k as int].class_id == class
                    && self.logs@[k as int].accommodation_id == acc
                    && self.logs@[k as int].service_date@ == date@ && logged(
                    self.logs@,
                    class,
                    acc,
                    date@,
                ),
                None => !logged(self.logs@, class, acc, date@),
            },
    {
        let mut i: usize = 0;
        while i < self.logs.len()
            invariant
                i <= self.logs@.len(),
                forall|k: int|
                    0 <= k < i ==> !(self.logs@[k].class_id == class
                        && self.logs@[k].accommodation_id == acc
                        && self.logs@[k].service_date@ == date@),
            decreases self.logs@.len() - i,
        {
            if self.logs[i].class_id == class && self.logs[i].accommodation_id == acc
                && self.logs[i].service_date == *date {
                assert(self.logs@.contains(self.logs@[i as int]));
                return Some(i);
            }
            i = i + 1;
        }
        None
    }

    /// Inserts a class under a new id.
    pub fn create_class(&mut self, c: Class) -> (r: Result<i64, StoreError>)
        requires
            old(self).wf(),
        ensures
            final(self).wf(),
            old(self)@.next_id == i64::MAX ==> r == Err::<i64, StoreError>(
                StoreError::StorageIoFailure,
            ) && *final(self) == *old(self),
            old(self)@.next_id < i64::MAX ==> r == Ok::<i64, StoreError>(old(self)@.next_id)
                && final(self)@.classes == old(self)@.classes.push(
                (Class { id: Some(old(self)@.next_id), ..c }),
            ) && final(self)@ == (StoreView {
                classes: final(self)@.classes,
                next_id: (old(self)@.next_id + 1) as i64,
                ..old(self)@
            }),
    {
        let id = self.take_id()?;
        let row = Class { id: Some(id), ..c };
        proof {
            lemma_push_rises(self.classes@, row, id);
            lemma_push_members(self.classes@, row);
            assert forall|e: ClassStudent| #[trigger] self.class_students@.contains(e) implies has_id(
                self.classes@.push(row),
                e.class_id,
            ) by {
                let x = choose|x: Class| #[trigger] self.classes@.contains(x) && x.row_id() == Some(e.class_id);
                assert(self.classes@.push(row).contains(x));
            }
            assert forall|l: AccommodationServiceLog| #[trigger] self.logs@.contains(l) implies has_id(
                self.classes@.push(row),
                l.class_id,
            ) by {
                let x = choose|x: Class| #[trigger] self.classes@.contains(x) && x.row_id() == Some(l.class_id);
                assert(self.classes@.push(row).contains(x));
            }
        }
        self.classes.push(row);
        Ok(id)
    }

    /// Inserts a student under a new id. The plan type must be "504" or
    /// "IEP" and the school identifier must be new.
    pub fn create_student(&mut self, st: Student) -> (r: Result<i64, StoreError>)
        requires
            old(self).wf(),
        ensures
            final(self).wf(),
            !is_plan_type(st.plan_type@) || student_id_taken(old(self)@.students, st.student_id@)
                ==> r == Err::<i64, StoreError>(StoreError::ConstraintViolation) && *final(self)
                == *old(self),
            is_plan_type(st.plan_type@) && !student_id_taken(old(self)@.students, st.student_id@)
                && old(self)@.next_id == i64::MAX ==> r == Err::<i64, StoreError>(
                StoreError::StorageIoFailure,
            ) && *final(self) == *old(self),
            is_plan_type(st.plan_type@) && !student_id_taken(old(self)@.students, st.student_id@)
                && old(self)@.next_id < i64::MAX ==> r == Ok::<i64, StoreError>(old(self)@.next_id)
                && final(self)@ == (StoreView {
                students: old(self)@.students.push((Student { id: Some(old(self)@.next_id), ..st })),
                next_id: (old(self)@.next_id + 1) as i64,
                ..old(self)@
            }),
    {
        if !valid_plan_type(&st.plan_type) || self.student_id_in_use(&st.student_id) {
            return Err(StoreError::ConstraintViolation);
        }
        let id = self.take_id()?;
        let row = Student { id: Some(id), ..st };
        proof {
            lemma_push_rises(self.students@, row, id);
            lemma_push_members(self.students@, row);
            lemma_push_keeps_ids(self.students@, row);
            assert forall|x: Student, y: Student|
                #[trigger] self.students@.push(row).contains(x)
                    && #[trigger] self.students@.push(row).contains(y) && x.student_id@
                    == y.student_id@ implies x == y by {
                if x == row && y != row {
                    assert(self.students@.contains(y));
                }
                if y == row && x != row {
                    assert(self.students@.contains(x));
                }
            }
        }
        self.students.push(row);
        Ok(id)
    }

    /// Inserts an accommodation under a new id; its owner must exist.
    pub fn create_accommodation(&mut self, a: Accommodation) -> (r: Result<i64, StoreError>)
        requires
            old(self).wf(),
        ensures
            final(self).wf(),
            !has_id(old(self)@.students, a.student_id) ==> r == Err::<i64, StoreError>(
                StoreError::ConstraintViolation,
            ) && *final(self) == *old(self),
            has_id(old(self)@.students, a.student_id) && old(self)@.next_id == i64::MAX ==> r
                == Err::<i64, StoreError>(StoreError::StorageIoFailure) && *final(self)
                == *old(self),
            has_id(old(self)@.students, a.student_id) && old(self)@.next_id < i64::MAX ==> r
                == Ok::<i64, StoreError>(old(self)@.next_id) && final(self)@ == (StoreView {
                accommodations: old(self)@.accommodations.push(
                    (Accommodation { id: Some(old(self)@.next_id), ..a }),
                ),
                next_id: (old(self)@.next_id + 1) as i64,
                ..old(self)@
            }),
    {
        if find_row(&self.students, a.student_id).is_none() {
            return Err(StoreError::ConstraintViolation);
        }
        let id = self.take_id()?;
        let row = Accommodation { id: Some(id), ..a };
        proof {
            lemma_push_rises(self.accommodations@, row, id);
            lemma_push_members(self.accommodations@, row);
            lemma_push_keeps_ids(self.accommodations@, row);
        }
        self.accommodations.push(row);
        Ok(id)
    }

    /// Enrolls a student in a class under a new id. Both must exist and the
    /// student must not be enrolled in that class yet.
    pub fn create_class_student(&mut self, e: ClassStudent) -> (r: Result<i64, StoreError>)
        requires
            old(self).wf(),
        ensures
            final(self).wf(),
            !has_id(old(self)@.classes, e.class_id) || !has_id(old(self)@.students, e.student_id)
                || enrolled(old(self)@.class_students, e.class_id, e.student_id) ==> r == Err::<
                i64,
                StoreError,
            >(StoreError::ConstraintViolation) && *final(self) == *old(self),
            has_id(old(self)@.classes, e.class_id) && has_id(old(self)@.students, e.student_id)
                && !enrolled(old(self)@.class_students, e.class_id, e.student_id)
                && old(self)@.next_id == i64::MAX ==> r == Err::<i64, StoreError>(
                StoreError::StorageIoFailure,
            ) && *final(self) == *old(self),
            has_id(old(self)@.classes, e.class_id) && has_id(old(self)@.students, e.student_id)
                && !enrolled(old(self)@.class_students, e.class_id, e.student_id)
                && old(self)@.next_id < i64::MAX ==> r == Ok::<i64, StoreError>(old(self)@.next_id)
                && final(self)@ == (StoreView {
                class_students: old(self)@.class_students.push(
                    (ClassStudent { id: Some(old(self)@.next_id), ..e }),
                ),
                next_id: (old(self)@.next_id + 1) as i64,
                ..old(self)@
            }),
    {
        if find_row(&self.classes, e.class_id).is_none() || find_row(&self.students, e.student_id).is_none()
            || self.is_enrolled(e.class_id, e.student_id) {
            return Err(StoreError::ConstraintViolation);
        }
        let id = self.take_id()?;
        let row = ClassStudent { id: Some(id), ..e };
        proof {
            lemma_push_rises(self.class_students@, row, id);
            lemma_push_members(self.class_students@, row);
            assert forall|x: ClassStudent, y: ClassStudent|
                #[trigger] self.class_students@.push(row).contains(x)
                    && #[trigger] self.class_students@.push(row).contains(y) && x.class_id
                    == y.class_id && x.student_id == y.student_id implies x == y by {
                if x == row && y != row {
                    assert(self.class_students@.contains(y));
                }
                if y == row && x != row {
                    assert(self.class_students@.contains(x));
                }
            }
        }
        self.class_students.push(row);
        Ok(id)
    }

    /// Inserts a grading period under a new id.
    pub fn create_period(&mut self, p: SixWeekPeriod) -> (r: Result<i64, StoreError>)
        requires
            old(self).wf(),
        ensures
            final(self).wf(),
            old(self)@.next_id == i64::MAX ==> r == Err::<i64, StoreError>(
                StoreError::StorageIoFailure,
            ) && *final(self) == *old(self),
            old(self)@.next_id < i64::MAX ==> r == Ok::<i64, StoreError>(old(self)@.next_id)
                && final(self)@ == (StoreView {
                periods: old(self)@.periods.push((SixWeekPeriod { id: Some(old(self)@.next_id), ..p })),
                next_id: (old(self)@.next_id + 1) as i64,
                ..old(self)@
            }),
    {
        let id = self.take_id()?;
        let row = SixWeekPeriod { id: Some(id), ..p };
        proof {
            lemma_push_rises(self.periods@, row, id);
        }
        self.periods.push(row);
        Ok(id)
    }

    /// Inserts a service log under a new id. The class and accommodation
    /// must exist, `provided` must be 0 or 1, and no log may exist yet for
    /// this class, accommodation and date.
    pub fn create_service_log(&mut self, l: AccommodationServiceLog) -> (r: Result<i64, StoreError>)
        requires
            old(self).wf(),
        ensures
            final(self).wf(),
            !has_id(old(self)@.classes, l.class_id) || !has_id(
                old(self)@.accommodations,
                l.accommodation_id,
            ) || !(l.provided == 0 || l.provided == 1) || logged(
                old(self)@.logs,
                l.class_id,
                l.accommodation_id,
                l.service_date@,
            ) ==> r == Err::<i64, StoreError>(StoreError::ConstraintViolation) && *final(self)
                == *old(self),
            has_id(old(self)@.classes, l.class_id) && has_id(
                old(self)@.accommodations,
                l.accommodation_id,
            ) && (l.provided == 0 || l.provided == 1) && !logged(
                old(self)@.logs,
                l.class_id,
                l.accommodation_id,
                l.service_date@,
            ) ==> (old(self)@.next_id == i64::MAX ==> r == Err::<i64, StoreError>(
                StoreError::StorageIoFailure,
            ) && *final(self) == *old(self)) && (old(self)@.next_id < i64::MAX ==> r == Ok::<
                i64,
                StoreError,
            >(old(self)@.next_id) && final(self)@ == (StoreView {
                logs: old(self)@.logs.push(
                    (AccommodationServiceLog { id: Some(old(self)@.next_id), ..l }),
                ),
                next_id: (old(self)@.next_id + 1) as i64,
                ..old(self)@
            })),
    {
        if find_row(&self.classes, l.class_id).is_none() || find_row(
            &self.accommodations,
            l.accommodation_id,
        ).is_none() || !(l.provided == 0 || l.provided == 1) || self.find_log(
            l.class_id,
            l.accommodation_id,
            &l.service_date,
        ).is_some() {
            return Err(StoreError::ConstraintViolation);
        }
        let id = self.take_id()?;
        let row = AccommodationServiceLog { id: Some(id), ..l };
        self.push_log(row);
        Ok(id)
    }

    /// Appends a log whose references hold and whose key is new.
    fn push_log(&mut self, row: AccommodationServiceLog)
        requires
            old(self).wf_but_next(),
            row.id == Some((old(self).next_id - 1) as i64),
            0 < row.id.unwrap(),
            has_id(old(self).classes@, row.class_id),
            has_id(old(self).accommodations@, row.accommodation_id),
            row.provided == 0 || row.provided == 1,
            !logged(old(self).logs@, row.class_id, row.accommodation_id, row.service_date@),
        ensures
            final(self).wf(),
            final(self)@ == (StoreView { logs: old(self)@.logs.push(row), ..old(self)@ }),
    {
        proof {
            let ghost id = row.id.unwrap();
            lemma_push_rises(self.logs@, row, id);
            lemma_push_members(self.logs@, row);
            assert forall|x: AccommodationServiceLog, y: AccommodationServiceLog|
                #[trigger] self.logs@.push(row).contains(x) && #[trigger] self.logs@.push(
                    row,
                ).contains(y) && x.class_id == y.class_id && x.accommodation_id
                    == y.accommodation_id && x.service_date@ == y.service_date@ implies x == y by {
                if x == row && y != row {
                    assert(self.logs@.contains(y));
                }
                if y == row && x != row {
                    assert(self.logs@.contains(x));
                }
            }
        }
        self.logs.push(row);
    }

    /// Records whether an accommodation was provided in a class on a date.
    /// The class and accommodation must exist. An existing log for the three
    /// is updated in place and keeps its id; otherwise a log is created.
    pub fn upsert_service_log(
        &mut self,
        class_id: i64,
        accommodation_id: i64,
        service_date: String,
        provided: bool,
    ) -> (r: Result<i64, StoreError>)
        requires
            old(self).wf(),
        ensures
            final(self).wf(),
            !has_id(old(self)@.classes, class_id) || !has_id(
                old(self)@.accommodations,
                accommodation_id,
            ) ==> r == Err::<i64, StoreError>(StoreError::ConstraintViolation) && *final(self)
                == *old(self),
            has_id(old(self)@.classes, class_id) && has_id(
                old(self)@.accommodations,
                accommodation_id,
            ) && logged(old(self)@.logs, class_id, accommodation_id, service_date@) ==> r == Ok::<
                i64,
                StoreError,
            >(
                old(self)@.logs[log_index(
                    old(self)@.logs,
                    class_id,
                    accommodation_id,
                    service_date@,
                )].id.unwrap(),
            ) && final(self)@ == (StoreView {
                logs: upserted(
                    old(self)@.logs,
                    class_id,
                    accommodation_id,
                    service_date,
                    provided,
                    old(self)@.next_id,
                ),
                ..old(self)@
            }),
            has_id(old(self)@.classes, class_id) && has_id(
                old(self)@.accommodations,
                accommodation_id,
            ) && !logged(old(self)@.logs, class_id, accommodation_id, service_date@) ==> (
            old(self)@.next_id == i64::MAX ==> r == Err::<i64, StoreError>(StoreError::StorageIoFailure)
                && *final(self) == *old(self)) && (old(self)@.next_id < i64::MAX ==> r == Ok::<
                i64,
                StoreError,
            >(old(self)@.next_id) && final(self)@ == (StoreView {
                logs: upserted(
                    old(self)@.logs,
                    class_id,
                    accommodation_id,
                    service_date,
                    provided,
                    old(self)@.next_id,
                ),
                next_id: (old(self)@.next_id + 1) as i64,
                ..old(self)@
            })),
    {
        if find_row(&self.classes, class_id).is_none() || find_row(
            &self.accommodations,
            accommodation_id,
        ).is_none() {
            return Err(StoreError::ConstraintViolation);
        }
        let flag: i64 = if provided {
            1
        } else {
            0
        };
        match self.find_log(class_id, accommodation_id, &service_date) {
            Some(k) => {
                let ghost s = self.logs@;
                proof {
                    assert(s.contains(s[k as int]));
                    let j = log_index(s, class_id, accommodation_id, service_date@);
                    assert(s.contains(s[j]));
                    assert(s[j] == s[k as int]);
                    if j != k {
                        if j < k {
                            assert(s[j].row_id().unwrap() < s[k as int].row_id().unwrap());
                        } else {
                            assert(s[k as int].row_id().unwrap() < s[j].row_id().unwrap());
                        }
                    }
                }
                let mut row = self.logs[k].duplicate();
                row.provided = flag;
                let id = row.id.unwrap();
                proof {
                    let t = s.update(k as int, row);
                    assert forall|i: int| 0 <= i < t.len() implies (#[trigger] t[i].row_id()).is_some()
                        && 0 < t[i].row_id().unwrap() < self.next_id by {
                        assert(s[i].row_id().is_some());
                    }
                    assert forall|i: int, j: int| 0 <= i < j < t.len() implies (
                    #[trigger] t[i].row_id()).unwrap() < (#[trigger] t[j].row_id()).unwrap() by {
                        assert(s[i].row_id().unwrap() < s[j].row_id().unwrap());
                    }
                    assert forall|y: AccommodationServiceLog| #[trigger] t.contains(y) implies y == row
                        || (exists|m: int| 0 <= m < s.len() && m != k && s[m] == y) by {
                        let m = choose|m: int| 0 <= m < t.len() && t[m] == y;
                        if m != k {
                            assert(s[m] == y);
                        }
                    }
                    assert forall|y: AccommodationServiceLog| #[trigger] t.contains(y) implies has_id(
                        self.classes@,
                        y.class_id,
                    ) && has_id(self.accommodations@, y.accommodation_id) && (y.provided == 0
                        || y.provided == 1) by {
                        if y != row {
                            let m = choose|m: int| 0 <= m < s.len() && m != k && s[m] == y;
                            assert(s.contains(s[m]));
                        }
                    }
                    assert forall|x: AccommodationServiceLog, y: AccommodationServiceLog|
                        #[trigger] t.contains(x) && #[trigger] t.contains(y) && x.class_id
                            == y.class_id && x.accommodation_id == y.accommodation_id
                            && x.service_date@ == y.service_date@ implies x == y by {
                        if x != row {
                            let m = choose|m: int| 0 <= m < s.len() && m != k && s[m] == x;
                            assert(s.contains(s[m]) && s.contains(s[k as int]));
                            if y == row {
                                assert(s[m] == s[k as int]);
                                if m < k {
                                    assert(s[m].row_id().unwrap() < s[k as int].row_id().unwrap());
                                } else {
                                    assert(s[k as int].row_id().unwrap() < s[m].row_id().unwrap());
                                }
                            } else {
                                let n = choose|n: int| 0 <= n < s.len() && n != k && s[n] == y;
                                assert(s.contains(s[n]));
                            }
                        } else if y != row {
                            let m = choose|m: int| 0 <= m < s.len() && m != k && s[m] == y;
                            assert(s.contains(s[m]) && s.contains(s[k as int]));
                            assert(s[m] == s[k as int]);
                            if m < k {
                                assert(s[m].row_id().unwrap() < s[k as int].row_id().unwrap());
                            } else {
                                assert(s[k as int].row_id().unwrap() < s[m].row_id().unwrap());
                            }
                        }
                    }
                }
                self.logs.set(k, row);
                Ok(id)
            },
            None => {
                let id = self.take_id()?;
                let row = AccommodationServiceLog {
                    id: Some(id),
                    class_id,
                    accommodation_id,
                    service_date,
                    provided: flag,
                };
                self.push_log(row);
                Ok(id)
            },
        }
    }

    /// Deletes a class, with its enrollments and its service logs.
    pub fn delete_class(&mut self, id: i64) -> (r: Result<(), StoreError>)
        requires
            old(self).wf(),
        ensures
            final(self).wf(),
            !has_id(old(self)@.classes, id) ==> r == Err::<(), StoreError>(StoreError::NotFound)
                && *final(self) == *old(self),
            has_id(old(self)@.classes, id) ==> r == Ok::<(), StoreError>(()) && final(self)@
                == (StoreView {
                classes: old(self)@.classes.filter(other_rows::<Class>(id)),
                class_students: old(self)@.class_students.filter(enrollment_elsewhere(id)),
                logs: old(self)@.logs.filter(log_elsewhere(id)),
                ..old(self)@
            }),
    {
        if find_row(&self.classes, id).is_none() {
            return Err(StoreError::NotFound);
        }
        let ghost old_self = *self;
        keep_where(
            &mut self.classes,
            (|c: &Class| -> (b: bool)
                ensures
                    b == (c.id != Some(id)),
                { !(c.id == Some(id)) }),
            Ghost(other_rows::<Class>(id)),
        );
        keep_where(
            &mut self.class_students,
            (|e: &ClassStudent| -> (b: bool)
                ensures
                    b == (e.class_id != id),
                { e.class_id != id }),
            Ghost(enrollment_elsewhere(id)),
        );
        keep_where(
            &mut self.logs,
            (|l: &AccommodationServiceLog| -> (b: bool)
                ensures
                    b == (l.class_id != id),
                { l.class_id != id }),
            Ghost(log_elsewhere(id)),
        );
        proof {
            let n = self.next_id;
            lemma_filter_ids_rise(old_self.classes@, other_rows::<Class>(id), n);
            lemma_filter_ids_rise(old_self.class_students@, enrollment_elsewhere(id), n);
            lemma_filter_ids_rise(old_self.logs@, log_elsewhere(id), n);
            lemma_filter_members(old_self.classes@, other_rows::<Class>(id));
            lemma_filter_members(old_self.class_students@, enrollment_elsewhere(id));
            lemma_filter_members(old_self.logs@, log_elsewhere(id));
            assert forall|e: ClassStudent| #[trigger] self.class_students@.contains(e) implies has_id(
                self.classes@,
                e.class_id,
            ) && has_id(self.students@, e.student_id) by {
                let w = choose|w: Class| #[trigger] old_self.classes@.contains(w) && w.row_id() == Some(e.class_id);
                lemma_filter_has_id(old_self.classes@, other_rows::<Class>(id), e.class_id, w);
            }
            assert forall|l: AccommodationServiceLog| #[trigger] self.logs@.contains(l) implies has_id(
                self.classes@,
                l.class_id,
            ) by {
                let w = choose|w: Class| #[trigger] old_self.classes@.contains(w) && w.row_id() == Some(l.class_id);
                lemma_filter_has_id(old_self.classes@, other_rows::<Class>(id), l.class_id, w);
            }
        }
        Ok(())
    }

    /// The ids of the accommodations of `student`.
    fn owned_ids(&self, student: i64) -> (r: Vec<i64>)
        ensures
            forall|a: i64| #[trigger] r@.contains(a) <==> owned_by(self.accommodations@, a, student),
    {
        let mut r: Vec<i64> = Vec::new();
        let mut i: usize = 0;
        while i < self.accommodations.len()
            invariant
                i <= self.accommodations@.len(),
                forall|a: i64| #[trigger] r@.contains(a) <==> exists|k: int|
                    0 <= k < i && self.accommodations@[k].id == Some(a)
                        && self.accommodations@[k].student_id == student,
            decreases self.accommodations@.len() - i,
        {
            let ghost before = r@;
            if self.accommodations[i].student_id == student {
                match self.accommodations[i].id {
                    Some(x) => {
                        r.push(x);
                        proof {
                            lemma_push_members(before, x);
                        }
                    },
                    None => {},
                }
            }
            proof {
                assert forall|a: i64| #[trigger] r@.contains(a) <==> exists|k: int|
                    0 <= k < i + 1 && self.accommodations@[k].id == Some(a)
                        && self.accommodations@[k].student_id == student by {
                    if exists|k: int|
                        0 <= k < i + 1 && self.accommodations@[k].id == Some(a)
                            && self.accommodations@[k].student_id == student {
                        let k = choose|k: int|
                            0 <= k < i + 1 && self.accommodations@[k].id == Some(a)
                                && self.accommodations@[k].student_id == student;
                        if k < i {
                            assert(before.contains(a));
                        }
                    }
                }
            }
            i = i + 1;
        }
        proof {
            assert forall|a: i64| #[trigger] r@.contains(a) <==> owned_by(self.accommodations@, a, student) by {
                if owned_by(self.accommodations@, a, student) {
                    let w = choose|w: Accommodation| #[trigger] self.accommodations@.contains(w) && w.id == Some(a)
                        && w.student_id == student;
                    let k = choose|k: int| 0 <= k < self.accommodations@.len() && self.accommodations@[k] == w;
                    assert(self.accommodations@[k].id == Some(a));
                }
                if r@.contains(a) {
                    let k = choose|k: int|
                        0 <= k < i && self.accommodations@[k].id == Some(a)
                            && self.accommodations@[k].student_id == student;
                    assert(self.accommodations@.contains(self.accommodations@[k]));
                }
            }
        }
        r
    }

    /// Deletes a student, with the student's accommodations, the service
    /// logs of those accommodations, and the student's enrollments.
    pub fn delete_student(&mut self, id: i64) -> (r: Result<(), StoreError>)
        requires
            old(self).wf(),
        ensures
            final(self).wf(),
            !has_id(old(self)@.students, id) ==> r == Err::<(), StoreError>(StoreError::NotFound)
                && *final(self) == *old(self),
            has_id(old(self)@.students, id) ==> r == Ok::<(), StoreError>(()) && final(self)@
                == (StoreView {
                students: old(self)@.students.filter(other_rows::<Student>(id)),
                accommodations: old(self)@.accommodations.filter(accommodation_of_other(id)),
                class_students: old(self)@.class_students.filter(enrollment_of_other(id)),
                logs: old(self)@.logs.filter(log_not_owned(old(self)@.accommodations, id)),
                ..old(self)@
            }),
    {
        if find_row(&self.students, id).is_none() {
            return Err(StoreError::NotFound);
        }
        let ghost old_self = *self;
        let doomed = self.owned_ids(id);
        keep_where(
            &mut self.logs,
            (|l: &AccommodationServiceLog| -> (b: bool)
                ensures
                    b == !doomed@.contains(l.accommodation_id),
                { !contains_id(&doomed, l.accommodation_id) }),
            Ghost(log_not_owned(old_self.accommodations@, id)),
        );
        keep_where(
            &mut self.accommodations,
            (|a: &Accommodation| -> (b: bool)
                ensures
                    b == (a.student_id != id),
                { a.student_id != id }),
            Ghost(accommodation_of_other(id)),
        );
        keep_where(
            &mut self.class_students,
            (|e: &ClassStudent| -> (b: bool)
                ensures
                    b == (e.student_id != id),
                { e.student_id != id }),
            Ghost(enrollment_of_other(id)),
        );
        keep_where(
            &mut self.students,
            (|s: &Student| -> (b: bool)
                ensures
                    b == (s.id != Some(id)),
                { !(s.id == Some(id)) }),
            Ghost(other_rows::<Student>(id)),
        );
        proof {
            let n = self.next_id;
            let accs = old_self.accommodations@;
            lemma_filter_ids_rise(old_self.students@, other_rows::<Student>(id), n);
            lemma_filter_ids_rise(accs, accommodation_of_other(id), n);
            lemma_filter_ids_rise(old_self.class_students@, enrollment_of_other(id), n);
            lemma_filter_ids_rise(old_self.logs@, log_not_owned(accs, id), n);
            lemma_filter_members(old_self.students@, other_rows::<Student>(id));
            lemma_filter_members(accs, accommodation_of_other(id));
            lemma_filter_members(old_self.class_students@, enrollment_of_other(id));
            lemma_filter_members(old_self.logs@, log_not_owned(accs, id));
            assert forall|a: Accommodation| #[trigger] self.accommodations@.contains(a) implies has_id(
                self.students@,
                a.student_id,
            ) by {
                let w = choose|w: Student| #[trigger] old_self.students@.contains(w) && w.row_id() == Some(a.student_id);
                lemma_filter_has_id(old_self.students@, other_rows::<Student>(id), a.student_id, w);
            }
            assert forall|e: ClassStudent| #[trigger] self.class_students@.contains(e) implies has_id(
                self.classes@,
                e.class_id,
            ) && has_id(self.students@, e.student_id) by {
                let w = choose|w: Student| #[trigger] old_self.students@.contains(w) && w.row_id() == Some(e.student_id);
                lemma_filter_has_id(old_self.students@, other_rows::<Student>(id), e.student_id, w);
            }
            assert forall|l: AccommodationServiceLog| #[trigger] self.logs@.contains(l) implies has_id(
                self.accommodations@,
                l.accommodation_id,
            ) by {
                let w = choose|w: Accommodation| #[trigger] accs.contains(w) && w.row_id() == Some(l.accommodation_id);
                assert(!owned_by(accs, l.accommodation_id, id));
                lemma_filter_has_id(accs, accommodation_of_other(id), l.accommodation_id, w);
            }
        }
        Ok(())
    }

    /// Deletes an accommodation, with its service logs.
    pub fn delete_accommodation(&mut self, id: i64) -> (r: Result<(), StoreError>)
        requires
            old(self).wf(),
        ensures
            final(self).wf(),
            !has_id(old(self)@.accommodations, id) ==> r == Err::<(), StoreError>(
                StoreError::NotFound,
            ) && *final(self) == *old(self),
            has_id(old(self)@.accommodations, id) ==> r == Ok::<(), StoreError>(()) && final(self)@
                == (StoreView {
                accommodations: old(self)@.accommodations.filter(other_rows::<Accommodation>(id)),
                logs: old(self)@.logs.filter(log_of_other(id)),
                ..old(self)@
            }),
    {
        if find_row(&self.accommodations, id).is_none() {
            return Err(StoreError::NotFound);
        }
        let ghost old_self = *self;
        keep_where(
            &mut self.accommodations,
            (|a: &Accommodation| -> (b: bool)
                ensures
                    b == (a.id != Some(id)),
                { !(a.id == Some(id)) }),
            Ghost(other_rows::<Accommodation>(id)),
        );
        keep_where(
            &mut self.logs,
            (|l: &AccommodationServiceLog| -> (b: bool)
                ensures
                    b == (l.accommodation_id != id),
                { l.accommodation_id != id }),
            Ghost(log_of_other(id)),
        );
        proof {
            let n = self.next_id;
            lemma_filter_ids_rise(old_self.accommodations@, other_rows::<Accommodation>(id), n);
            lemma_filter_ids_rise(old_self.logs@, log_of_other(id), n);
            lemma_filter_members(old_self.accommodations@, other_rows::<Accommodation>(id));
            lemma_filter_members(old_self.logs@, log_of_other(id));
            assert forall|l: AccommodationServiceLog| #[trigger] self.logs@.contains(l) implies has_id(
                self.accommodations@,
                l.accommodation_id,
            ) by {
                let w = choose|w: Accommodation| #[trigger] old_self.accommodations@.contains(w) && w.row_id()
                    == Some(l.accommodation_id);
                lemma_filter_has_id(old_self.accommodations@, other_rows::<Accommodation>(id), l.accommodation_id, w);
            }
        }
        Ok(())
    }

    /// Deletes an enrollment.
    pub fn delete_class_student(&mut self, id: i64) -> (r: Result<(), StoreError>)
        requires
            old(self).wf(),
        ensures
            final(self).wf(),
            !has_id(old(self)@.class_students, id) ==> r == Err::<(), StoreError>(
                StoreError::NotFound,
            ) && *final(self) == *old(self),
            has_id(old(self)@.class_students, id) ==> r == Ok::<(), StoreError>(())
                && final(self)@ == (StoreView {
                class_students: old(self)@.class_students.filter(other_rows::<ClassStudent>(id)),
                ..old(self)@
            }),
    {
        if find_row(&self.class_students, id).is_none() {
            return Err(StoreError::NotFound);
        }
        let ghost old_self = *self;
        keep_where(
            &mut self.class_students,
            (|e: &ClassStudent| -> (b: bool)
                ensures
                    b == (e.id != Some(id)),
                { !(e.id == Some(id)) }),
            Ghost(other_rows::<ClassStudent>(id)),
        );
        proof {
            lemma_filter_ids_rise(old_self.class_students@, other_rows::<ClassStudent>(id), self.next_id);
            lemma_filter_members(old_self.class_students@, other_rows::<ClassStudent>(id));
        }
        Ok(())
    }

    /// Deletes a grading period.
    pub fn delete_period(&mut self, id: i64) -> (r: Result<(), StoreError>)
        requires
            old(self).wf(),
        ensures
            final(self).wf(),
            !has_id(old(self)@.periods, id) ==> r == Err::<(), StoreError>(StoreError::NotFound)
                && *final(self) == *old(self),
            has_id(old(self)@.periods, id) ==> r == Ok::<(), StoreError>(()) && final(self)@
                == (StoreView {
                periods: old(self)@.periods.filter(other_rows::<SixWeekPeriod>(id)),
                ..old(self)@
            }),
    {
        if find_row(&self.periods, id).is_none() {
            return Err(StoreError::NotFound);
        }
        let ghost old_self = *self;
        keep_where(
            &mut self.periods,
            (|p: &SixWeekPeriod| -> (b: bool)
                ensures
                    b == (p.id != Some(id)),
                { !(p.id == Some(id)) }),
            Ghost(other_rows::<SixWeekPeriod>(id)),
        );
        proof {
            lemma_filter_ids_rise(old_self.periods@, other_rows::<SixWeekPeriod>(id), self.next_id);
        }
        Ok(())
    }

    /// Deletes a service log.
    pub fn delete_service_log(&mut self, id: i64) -> (r: Result<(), StoreError>)
        requires
            old(self).wf(),
        ensures
            final(self).wf(),
            !has_id(old(self)@.logs, id) ==> r == Err::<(), StoreError>(StoreError::NotFound)
                && *final(self) == *old(self),
            has_id(old(self)@.logs, id) ==> r == Ok::<(), StoreError>(()) && final(self)@
                == (StoreView {
                logs: old(self)@.logs.filter(other_rows::<AccommodationServiceLog>(id)),
                ..old(self)@
            }),
    {
        if find_row(&self.logs, id).is_none() {
            return Err(StoreError::NotFound);
        }
        let ghost old_self = *self;
        keep_where(
            &mut self.logs,
            (|l: &AccommodationServiceLog| -> (b: bool)
                ensures
                    b == (l.id != Some(id)),
                { !(l.id == Some(id)) }),
            Ghost(other_rows::<AccommodationServiceLog>(id)),
        );
        proof {
            lemma_filter_ids_rise(old_self.logs@, other_rows::<AccommodationServiceLog>(id), self.next_id);
            lemma_filter_members(old_self.logs@, other_rows::<AccommodationServiceLog>(id));
        }
        Ok(())
    }

    /// The class with id `id`.
    pub fn get_class(&self, id: i64) -> (r: Result<Class, StoreError>)
        ensures
            !has_id(self@.classes, id) ==> r == Err::<Class, StoreError>(StoreError::NotFound),
            has_id(self@.classes, id) ==> r is Ok && self@.classes.contains(r->Ok_0) && r->Ok_0.id
                == Some(id),
    {
        get_row(&self.classes, id)
    }

    /// The student with id `id`.
    pub fn get_student(&self, id: i64) -> (r: Result<Student, StoreError>)
        ensures
            !has_id(self@.students, id) ==> r == Err::<Student, StoreError>(StoreError::NotFound),
            has_id(self@.students, id) ==> r is Ok && self@.students.contains(r->Ok_0)
                && r->Ok_0.id == Some(id),
    {
        get_row(&self.students, id)
    }

    /// The accommodation with id `id`.
    pub fn get_accommodation(&self, id: i64) -> (r: Result<Accommodation, StoreError>)
        ensures
            !has_id(self@.accommodations, id) ==> r == Err::<Accommodation, StoreError>(
                StoreError::NotFound,
            ),
            has_id(self@.accommodations, id) ==> r is Ok && self@.accommodations.contains(r->Ok_0)
                && r->Ok_0.id == Some(id),
    {
        get_row(&self.accommodations, id)
    }

    /// The enrollment with id `id`.
    pub fn get_class_student(&self, id: i64) -> (r: Result<ClassStudent, StoreError>)
        ensures
            !has_id(self@.class_students, id) ==> r == Err::<ClassStudent, StoreError>(
                StoreError::NotFound,
            ),
            has_id(self@.class_students, id) ==> r is Ok && self@.class_students.contains(r->Ok_0)
                && r->Ok_0.id == Some(id),
    {
        get_row(&self.class_students, id)
    }

    /// The grading period with id `id`.
    pub fn get_period(&self, id: i64) -> (r: Result<SixWeekPeriod, StoreError>)
        ensures
            !has_id(self@.periods, id) ==> r == Err::<SixWeekPeriod, StoreError>(
                StoreError::NotFound,
            ),
            has_id(self@.periods, id) ==> r is Ok && self@.periods.contains(r->Ok_0) && r->Ok_0.id
                == Some(id),
    {
        get_row(&self.periods, id)
    }

    /// The service log with id `id`.
    pub fn get_service_log(&self, id: i64) -> (r: Result<AccommodationServiceLog, StoreError>)
        ensures
            !has_id(self@.logs, id) ==> r == Err::<AccommodationServiceLog, StoreError>(
                StoreError::NotFound,
            ),
            has_id(self@.logs, id) ==> r is Ok && self@.logs.contains(r->Ok_0) && r->Ok_0.id == Some(
                id,
            ),
    {
        get_row(&self.logs, id)
    }

    /// All classes, in the order they were created.
    pub fn list_classes(&self) -> (r: Vec<Class>)
        ensures
            r@ == self@.classes,
    {
        copy_all(&self.classes)
    }

    /// All students, in the order they were created.
    pub fn list_students(&self) -> (r: Vec<Student>)
        ensures
            r@ == self@.students,
    {
        copy_all(&self.students)
    }

    /// All grading periods, in the order they were created.
    pub fn list_periods(&self) -> (r: Vec<SixWeekPeriod>)
        ensures
            r@ == self@.periods,
    {
        copy_all(&self.periods)
    }

    /// All service logs, in the order they were created.
    pub fn list_service_logs(&self) -> (r: Vec<AccommodationServiceLog>)
        ensures
            r@ == self@.logs,
    {
        copy_all(&self.logs)
    }

    /// The accommodations of student `student`.
    pub fn list_accommodations_for_student(&self, student: i64) -> (r: Vec<Accommodation>)
        ensures
            r@ == self@.accommodations.filter(accommodation_of(student)),
    {
        copy_where(
            &self.accommodations,
            (|a: &Accommodation| -> (b: bool)
                ensures
                    b == (a.student_id == student),
                { a.student_id == student }),
            Ghost(accommodation_of(student)),
        )
    }

    /// The service logs of class `class` dated from `from` to `to`, both
    /// included (`YYYY-MM-DD` dates compare as text).
    pub fn list_service_logs_between(
        &self,
        class: i64,
        from: &String,
        to: &String,
    ) -> (r: Vec<AccommodationServiceLog>)
        ensures
            r@ == self@.logs.filter(log_in_range(class, from@, to@)),
    {
        copy_where(
            &self.logs,
            (|l: &AccommodationServiceLog| -> (b: bool)
                ensures
                    b == (l.class_id == class && text_le(from@, l.service_date@) && text_le(
                        l.service_date@,
                        to@,
                    )),
                {
                    l.class_id == class && text_at_or_before(from, &l.service_date)
                        && text_at_or_before(&l.service_date, to)
                }),
            Ghost(log_in_range(class, from@, to@)),
        )
    }

    /// The enrollments of class `class`.
    pub fn list_class_students_for_class(&self, class: i64) -> (r: Vec<ClassStudent>)
        ensures
            r@ == self@.class_students.filter(enrollment_in(class)),
    {
        copy_where(
            &self.class_students,
            (|e: &ClassStudent| -> (b: bool)
                ensures
                    b == (e.class_id == class),
                { e.class_id == class }),
            Ghost(enrollment_in(class)),
        )
    }

    /// The service logs of class `class`.
    pub fn list_service_logs_for_class(&self, class: i64) -> (r: Vec<AccommodationServiceLog>)
        ensures
            r@ == self@.logs.filter(log_in(class)),
    {
        copy_where(
            &self.logs,
            (|l: &AccommodationServiceLog| -> (b: bool)
                ensures
                    b == (l.class_id == class),
                { l.class_id == class }),
            Ghost(log_in(class)),
        )
    }

    /// Replaces the fields of class `id`.
    pub fn update_class(&mut self, id: i64, c: Class) -> (r: Result<(), StoreError>)
        requires
            old(self).wf(),
        ensures
            final(self).wf(),
            !has_id(old(self)@.classes, id) ==> r == Err::<(), StoreError>(StoreError::NotFound)
                && *final(self) == *old(self),
            has_id(old(self)@.classes, id) ==> r == Ok::<(), StoreError>(()) && final(self)@
                == (StoreView {
                classes: old(self)@.classes.update(
                    row_index(old(self)@.classes, id),
                    (Class { id: Some(id), ..c }),
                ),
                ..old(self)@
            }),
    {
        match find_row(&self.classes, id) {
            None => Err(StoreError::NotFound),
            Some(k) => {
                let row = Class { id: Some(id), ..c };
                proof {
                    lemma_row_index(self.classes@, self.next_id, id, k as int);
                    lemma_update_same_id(self.classes@, self.next_id, k as int, row);
                }
                self.classes.set(k, row);
                Ok(())
            },
        }
    }

    /// Replaces the fields of grading period `id`.
    pub fn update_period(&mut self, id: i64, p: SixWeekPeriod) -> (r: Result<(), StoreError>)
        requires
            old(self).wf(),
        ensures
            final(self).wf(),
            !has_id(old(self)@.periods, id) ==> r == Err::<(), StoreError>(StoreError::NotFound)
                && *final(self) == *old(self),
            has_id(old(self)@.periods, id) ==> r == Ok::<(), StoreError>(()) && final(self)@
                == (StoreView {
                periods: old(self)@.periods.update(
                    row_index(old(self)@.periods, id),
                    (SixWeekPeriod { id: Some(id), ..p }),
                ),
                ..old(self)@
            }),
    {
        match find_row(&self.periods, id) {
            None => Err(StoreError::NotFound),
            Some(k) => {
                let row = SixWeekPeriod { id: Some(id), ..p };
                proof {
                    lemma_row_index(self.periods@, self.next_id, id, k as int);
                    lemma_update_same_id(self.periods@, self.next_id, k as int, row);
                }
                self.periods.set(k, row);
                Ok(())
            },
        }
    }

    /// Replaces the fields of accommodation `id`; its owner must exist.
    pub fn update_accommodation(&mut self, id: i64, a: Accommodation) -> (r: Result<(), StoreError>)
        requires
            old(self).wf(),
        ensures
            final(self).wf(),
            !has_id(old(self)@.accommodations, id) ==> r == Err::<(), StoreError>(
                StoreError::NotFound,
            ) && *final(self) == *old(self),
            has_id(old(self)@.accommodations, id) && !has_id(old(self)@.students, a.student_id)
                ==> r == Err::<(), StoreError>(StoreError::ConstraintViolation) && *final(self)
                == *old(self),
            has_id(old(self)@.accommodations, id) && has_id(old(self)@.students, a.student_id)
                ==> r == Ok::<(), StoreError>(()) && final(self)@ == (StoreView {
                accommodations: old(self)@.accommodations.update(
                    row_index(old(self)@.accommodations, id),
                    (Accommodation { id: Some(id), ..a }),
                ),
                ..old(self)@
            }),
    {
        match find_row(&self.accommodations, id) {
            None => Err(StoreError::NotFound),
            Some(k) => {
                if find_row(&self.students, a.student_id).is_none() {
                    return Err(StoreError::ConstraintViolation);
                }
                let row = Accommodation { id: Some(id), ..a };
                proof {
                    lemma_row_index(self.accommodations@, self.next_id, id, k as int);
                    lemma_update_same_id(self.accommodations@, self.next_id, k as int, row);
                }
                self.accommodations.set(k, row);
                Ok(())
            },
        }
    }

    /// Replaces the fields of student `id`. The plan type must be "504" or
    /// "IEP" and no other student may use the new school identifier.
    pub fn update_student(&mut self, id: i64, st: Student) -> (r: Result<(), StoreError>)
        requires
            old(self).wf(),
        ensures
            final(self).wf(),
            !has_id(old(self)@.students, id) ==> r == Err::<(), StoreError>(StoreError::NotFound)
                && *final(self) == *old(self),
            has_id(old(self)@.students, id) && (!is_plan_type(st.plan_type@)
                || student_id_taken_by_other(old(self)@.students, st.student_id@, id)) ==> r
                == Err::<(), StoreError>(StoreError::ConstraintViolation) && *final(self)
                == *old(self),
            has_id(old(self)@.students, id) && is_plan_type(st.plan_type@)
                && !student_id_taken_by_other(old(self)@.students, st.student_id@, id) ==> r
                == Ok::<(), StoreError>(()) && final(self)@ == (StoreView {
                students: old(self)@.students.update(
                    row_index(old(self)@.students, id),
                    (Student { id: Some(id), ..st }),
                ),
                ..old(self)@
            }),
    {
        match find_row(&self.students, id) {
            None => Err(StoreError::NotFound),
            Some(k) => {
                if !valid_plan_type(&st.plan_type) || self.student_id_used_by_other(&st.student_id, id) {
                    return Err(StoreError::ConstraintViolation);
                }
                let row = Student { id: Some(id), ..st };
                proof {
                    let s = self.students@;
                    lemma_row_index(s, self.next_id, id, k as int);
                    lemma_update_same_id(s, self.next_id, k as int, row);
                    let t = s.update(k as int, row);
                    assert forall|x: Student, y: Student|
                        #[trigger] t.contains(x) && #[trigger] t.contains(y) && x.student_id@
                            == y.student_id@ implies x == y by {
                        if x == row && y != row {
                            assert(s.contains(y));
                            if y.id == Some(id) {
                                let m = choose|m: int| 0 <= m < s.len() && s[m] == y;
                                lemma_row_index(s, self.next_id, id, m);
                                assert(t.contains(y));
                                let n = choose|n: int| 0 <= n < t.len() && t[n] == y;
                                if n != k {
                                    assert(s[n] == y);
                                    lemma_row_index(s, self.next_id, id, n);
                                }
                            }
                        }
                        if y == row && x != row {
                            assert(s.contains(x));
                            if x.id == Some(id) {
                                let n = choose|n: int| 0 <= n < t.len() && t[n] == x;
                                if n != k {
                                    assert(s[n] == x);
                                    lemma_row_index(s, self.next_id, id, n);
                                }
                            }
                        }
                    }
                }
                self.students.set(k, row);
                Ok(())
            },
        }
    }

    /// Whether a student other than row `id` uses the school identifier `sid`.
    fn student_id_used_by_other(&self, sid: &String, id: i64) -> (r: bool)
        ensures
            r == student_id_taken_by_other(self.students@, sid@, id),
    {
        let mut i: usize = 0;
        while i < self.students.len()
            invariant
                i <= self.students@.len(),
                forall|k: int|
                    0 <= k < i ==> !(self.students@[k].student_id@ == sid@ && self.students@[k].id
                        != Some(id)),
            decreases self.students@.len() - i,
        {
            if self.students[i].student_id == *sid && !(self.students[i].id == Some(id)) {
                assert(self.students@.contains(self.students@[i as int]));
                return true;
            }
            i = i + 1;
        }
        false
    }

    fn enrolled_by_other(&self, class: i64, student: i64, id: i64) -> (r: bool)
        ensures
            r == enrolled_other(self.class_students@, class, student, id),
    {
        let mut i: usize = 0;
        while i < self.class_students.len()
            invariant
                i <= self.class_students@.len(),
                forall|k: int|
                    0 <= k < i ==> !(self.class_students@[k].class_id == class
                        && self.class_students@[k].student_id == student
                        && self.class_students@[k].id != Some(id)),
            decreases self.class_students@.len() - i,
        {
            let e = &self.class_students[i];
            if e.class_id == class && e.student_id == student && !(e.id == Some(id)) {
                assert(self.class_students@.contains(self.class_students@[i as int]));
                return true;
            }
            i = i + 1;
        }
        false
    }

    fn logged_by_other(&self, class: i64, acc: i64, date: &String, id: i64) -> (r: bool)
        ensures
            r == logged_other(self.logs@, class, acc, date@, id),
    {
        let mut i: usize = 0;
        while i < self.logs.len()
            invariant
                i <= self.logs@.len(),
                forall|k: int|
                    0 <= k < i ==> !(self.logs@[k].class_id == class
                        && self.logs@[k].accommodation_id == acc
                        && self.logs@[k].service_date@ == date@ && self.logs@[k].id != Some(id)),
            decreases self.logs@.len() - i,
        {
            let l = &self.logs[i];
            if l.class_id == class && l.accommodation_id == acc && l.service_date == *date && !(l.id
                == Some(id)) {
                assert(self.logs@.contains(self.logs@[i as int]));
                return true;
            }
            i = i + 1;
        }
        false
    }

    /// Replaces the fields of enrollment `id`. The class and student must
    /// exist and no other enrollment may pair them.
    pub fn update_class_student(&mut self, id: i64, e: ClassStudent) -> (r: Result<(), StoreError>)
        requires
            old(self).wf(),
        ensures
            final(self).wf(),
            !has_id(old(self)@.class_students, id) ==> r == Err::<(), StoreError>(
                StoreError::NotFound,
            ) && *final(self) == *old(self),
            has_id(old(self)@.class_students, id) && (!has_id(old(self)@.classes, e.class_id)
                || !has_id(old(self)@.students, e.student_id) || enrolled_other(
                old(self)@.class_students,
                e.class_id,
                e.student_id,
                id,
            )) ==> r == Err::<(), StoreError>(StoreError::ConstraintViolation) && *final(self)
                == *old(self),
            has_id(old(self)@.class_students, id) && has_id(old(self)@.classes, e.class_id)
                && has_id(old(self)@.students, e.student_id) && !enrolled_other(
                old(self)@.class_students,
                e.class_id,
                e.student_id,
                id,
            ) ==> r == Ok::<(), StoreError>(()) && final(self)@ == (StoreView {
                class_students: old(self)@.class_students.update(
                    row_index(old(self)@.class_students, id),
                    (ClassStudent { id: Some(id), ..e }),
                ),
                ..old(self)@
            }),
    {
        match find_row(&self.class_students, id) {
            None => Err(StoreError::NotFound),
            Some(k) => {
                if find_row(&self.classes, e.class_id).is_none() || find_row(
                    &self.students,
                    e.student_id,
                ).is_none() || self.enrolled_by_other(e.class_id, e.student_id, id) {
                    return Err(StoreError::ConstraintViolation);
                }
                let row = ClassStudent { id: Some(id), ..e };
                proof {
                    let s = self.class_students@;
                    lemma_row_index(s, self.next_id, id, k as int);
                    lemma_update_same_id(s, self.next_id, k as int, row);
                    let t = s.update(k as int, row);
                    assert forall|x: ClassStudent, y: ClassStudent|
                        #[trigger] t.contains(x) && #[trigger] t.contains(y) && x.class_id
                            == y.class_id && x.student_id == y.student_id implies x == y by {
                        if x == row && y != row {
                            assert(s.contains(y));
                            if y.id == Some(id) {
                                let n = choose|n: int| 0 <= n < t.len() && t[n] == y;
                                if n != k {
                                    assert(s[n] == y);
                                    lemma_row_index(s, self.next_id, id, n);
                                }
                            }
                        }
                        if y == row && x != row {
                            assert(s.contains(x));
                            if x.id == Some(id) {
                                let n = choose|n: int| 0 <= n < t.len() && t[n] == x;
                                if n != k {
                                    assert(s[n] == x);
                                    lemma_row_index(s, self.next_id, id, n);
                                }
                            }
                        }
                    }
                }
                self.class_students.set(k, row);
                Ok(())
            },
        }
    }

    /// Replaces the fields of service log `id`. The class and accommodation
    /// must exist, `provided` must be 0 or 1, and no other log may have the
    /// same class, accommodation and date.
    pub fn update_service_log(&mut self, id: i64, l: AccommodationServiceLog) -> (r: Result<(), StoreError>)
        requires
            old(self).wf(),
        ensures
            final(self).wf(),
            !has_id(old(self)@.logs, id) ==> r == Err::<(), StoreError>(StoreError::NotFound)
                && *final(self) == *old(self),
            has_id(old(self)@.logs, id) && (!has_id(old(self)@.classes, l.class_id) || !has_id(
                old(self)@.accommodations,
                l.accommodation_id,
            ) || !(l.provided == 0 || l.provided == 1) || logged_other(
                old(self)@.logs,
                l.class_id,
                l.accommodation_id,
                l.service_date@,
                id,
            )) ==> r == Err::<(), StoreError>(StoreError::ConstraintViolation) && *final(self)
                == *old(self),
            has_id(old(self)@.logs, id) && has_id(old(self)@.classes, l.class_id) && has_id(
                old(self)@.accommodations,
                l.accommodation_id,
            ) && (l.provided == 0 || l.provided == 1) && !logged_other(
                old(self)@.logs,
                l.class_id,
                l.accommodation_id,
                l.service_date@,
                id,
            ) ==> r == Ok::<(), StoreError>(()) && final(self)@ == (StoreView {
                logs: old(self)@.logs.update(
                    row_index(old(self)@.logs, id),
                    (AccommodationServiceLog { id: Some(id), ..l }),
                ),
                ..old(self)@
            }),
    {
        match find_row(&self.logs, id) {
            None => Err(StoreError::NotFound),
            Some(k) => {
                if find_row(&self.classes, l.class_id).is_none() || find_row(
                    &self.accommodations,
                    l.accommodation_id,
                ).is_none() || !(l.provided == 0 || l.provided == 1) || self.logged_by_other(
                    l.class_id,
                    l.accommodation_id,
                    &l.service_date,
                    id,
                ) {
                    return Err(StoreError::ConstraintViolation);
                }
                let row = AccommodationServiceLog { id: Some(id), ..l };
                proof {
                    let s = self.logs@;
                    lemma_row_index(s, self.next_id, id, k as int);
                    lemma_update_same_id(s, self.next_id, k as int, row);
                    let t = s.update(k as int, row);
                    assert forall|x: AccommodationServiceLog, y: AccommodationServiceLog|
                        #[trigger] t.contains(x) && #[trigger] t.contains(y) && x.class_id
                            == y.class_id && x.accommodation_id == y.accommodation_id
                            && x.service_date@ == y.service_date@ implies x == y by {
                        if x == row && y != row {
                            assert(s.contains(y));
                            if y.id == Some(id) {
                                let n = choose|n: int| 0 <= n < t.len() && t[n] == y;
                                if n != k {
                                    assert(s[n] == y);
                                    lemma_row_index(s, self.next_id, id, n);
                                }
                            }
                        }
                        if y == row && x != row {
                            assert(s.contains(x));
                            if x.id == Some(id) {
                                let n = choose|n: int| 0 <= n < t.len() && t[n] == x;
                                if n != k {
                                    assert(s[n] == x);
                                    lemma_row_index(s, self.next_id, id, n);
                                }
                            }
                        }
                    }
                }
                self.logs.set(k, row);
                Ok(())
            },
        }
    }
}

/// Once a student is stored, creating another with the same school
/// identifier is refused: `create_student`'s clash condition holds for it.
pub proof fn lemma_duplicate_student_refused(before: StoreView, first: Student, second: Student)
    requires
        first.student_id@ == second.student_id@,
    ensures
        student_id_taken(
            before.students.push((Student { id: Some(before.next_id), ..first })),
            second.student_id@,
        ),
{
    let row = Student { id: Some(before.next_id), ..first };
    lemma_push_members(before.students, row);
    assert(before.students.push(row).contains(row));
}

/// Once an enrollment is stored, creating another for the same class and
/// student is refused: `create_class_student`'s clash condition holds for it.
pub proof fn lemma_duplicate_enrollment_refused(
    before: StoreView,
    first: ClassStudent,
    second: ClassStudent,
)
    requires
        first.class_id == second.class_id,
        first.student_id == second.student_id,
    ensures
        enrolled(
            before.class_students.push((ClassStudent { id: Some(before.next_id), ..first })),
            second.class_id,
            second.student_id,
        ),
{
    let row = ClassStudent { id: Some(before.next_id), ..first };
    lemma_push_members(before.class_students, row);
    assert(before.class_students.push(row).contains(row));
}

/// Recording a service twice for one class, accommodation and date leaves
/// one log for the three, holding the second value, and the second call adds
/// no row.
pub proof fn lemma_upsert_twice(
    first: Store,
    second: Store,
    class: i64,
    acc: i64,
    date: String,
    earlier: bool,
    later: bool,
    id1: i64,
    id2: i64,
    before: Seq<AccommodationServiceLog>,
)
    requires
        first.wf(),
        first@.logs == upserted(before, class, acc, date, earlier, id1),
        second@.logs == upserted(first@.logs, class, acc, date, later, id2),
    ensures
        second@.logs.len() == first@.logs.len(),
        logged(second@.logs, class, acc, date@),
        forall|i: int|
            0 <= i < second@.logs.len() && (#[trigger] second@.logs[i]).class_id == class
                && second@.logs[i].accommodation_id == acc && second@.logs[i].service_date@
                == date@ ==> second@.logs[i].provided == provided_flag(later),
        forall|i: int, j: int|
            0 <= i < second@.logs.len() && 0 <= j < second@.logs.len() && (#[trigger] second@.logs[i]).class_id == class
                && second@.logs[i].accommodation_id == acc && second@.logs[i].service_date@
                == date@ && (#[trigger] second@.logs[j]).class_id == class
                && second@.logs[j].accommodation_id == acc && second@.logs[j].service_date@
                == date@ ==> i == j,
{
    let l1 = first@.logs;
    let n = first.next_id;
    if logged(before, class, acc, date@) {
        let k = log_index(before, class, acc, date@);
        assert(l1[k].class_id == class && l1[k].accommodation_id == acc && l1[k].service_date@ == date@);
        assert(l1.contains(l1[k]));
    } else {
        assert(l1[l1.len() - 1].class_id == class);
        assert(l1.contains(l1[l1.len() - 1]));
    }
    assert(logged(l1, class, acc, date@));
    let k = log_index(l1, class, acc, date@);
    let row = AccommodationServiceLog { provided: provided_flag(later), ..l1[k] };
    let l2 = l1.update(k, row);
    assert(second@.logs == l2);
    assert(l2.contains(l2[k]));
    assert forall|i: int|
        0 <= i < l2.len() && (#[trigger] l2[i]).class_id == class && l2[i].accommodation_id == acc
            && l2[i].service_date@ == date@ implies i == k by {
        if i != k {
            assert(l1[i] == l2[i]);
            assert(l1.contains(l1[i]) && l1.contains(l1[k]));
            assert(l1[i] == l1[k]);
            if i < k {
                assert(l1[i].row_id().unwrap() < l1[k].row_id().unwrap());
            } else {
                assert(l1[k].row_id().unwrap() < l1[i].row_id().unwrap());
            }
        }
    }
}

proof fn lemma_filters_disjoint<A>(s: Seq<A>, p: spec_fn(A) -> bool, q: spec_fn(A) -> bool)
    requires
        forall|x: A| #[trigger] p(x) ==> !q(x),
    ensures
        s.filter(p).filter(q).len() == 0,
{
    let f = s.filter(p);
    lemma_filter_members(s, p);
    lemma_filter_members(f, q);
    if f.filter(q).len() > 0 {
        assert(f.filter(q).contains(f.filter(q)[0]));
    }
}

/// After a student is deleted, none of the student's accommodations or
/// enrollments remain, nor any service log of those accommodations.
pub proof fn lemma_student_delete_cascades(before: StoreView, student: i64)
    ensures
        before.accommodations.filter(accommodation_of_other(student)).filter(
            accommodation_of(student),
        ).len() == 0,
        forall|e: ClassStudent| #[trigger]
            before.class_students.filter(enrollment_of_other(student)).contains(e) ==> e.student_id
                != student,
        forall|l: AccommodationServiceLog| #[trigger]
            before.logs.filter(log_not_owned(before.accommodations, student)).contains(l)
                ==> !owned_by(before.accommodations, l.accommodation_id, student),
{
    lemma_filters_disjoint(before.accommodations, accommodation_of_other(student), accommodation_of(student));
    lemma_filter_members(before.class_students, enrollment_of_other(student));
    lemma_filter_members(before.logs, log_not_owned(before.accommodations, student));
}

/// After a class is deleted, no service log or enrollment of it remains.
pub proof fn lemma_class_delete_cascades(before: StoreView, class: i64)
    ensures
        before.logs.filter(log_elsewhere(class)).filter(log_in(class)).len() == 0,
        before.class_students.filter(enrollment_elsewhere(class)).filter(enrollment_in(class)).len()
            == 0,
{
    lemma_filters_disjoint(before.logs, log_elsewhere(class), log_in(class));
    lemma_filters_disjoint(before.class_students, enrollment_elsewhere(class), enrollment_in(class));
}

/// In a well-formed store every service log names an existing class and an
/// existing accommodation: deletes leave no orphaned log.
pub proof fn lemma_no_orphan_logs(st: Store)
    requires
        st.wf(),
    ensures
        forall|l: AccommodationServiceLog| #[trigger]
            st@.logs.contains(l) ==> has_id(st@.classes, l.class_id) && has_id(
                st@.accommodations,
                l.accommodation_id,
            ),
{
}

} // verus!
