use vstd::prelude::*;

verus! {

/// A class taught in a given period and school year.
#[derive(Debug)]
pub struct Class {
    pub id: Option<i64>,
    pub name: String,
    pub subject: String,
    pub period: String,
    pub year: String,
}

/// A student with a formal accommodation plan. `student_id` is the school's
/// own identifier (unique across the store); `plan_type` is "504" or "IEP".
#[derive(Debug)]
pub struct Student {
    pub id: Option<i64>,
    pub first_name: String,
    pub last_name: String,
    pub student_id: String,
    pub plan_type: String,
}

/// A support measure owned by one student (`student_id` is the student's row id).
#[derive(Debug)]
pub struct Accommodation {
    pub id: Option<i64>,
    pub student_id: i64,
    pub description: String,
    pub category: String,
}

/// Enrollment of a student in a class.
#[derive(Debug)]
pub struct ClassStudent {
    pub id: Option<i64>,
    pub class_id: i64,
    pub student_id: i64,
}

/// A six-week grading period; a standalone reference row.
#[derive(Debug)]
pub struct SixWeekPeriod {
    pub id: Option<i64>,
    pub name: String,
    pub start_date: String,
    pub end_date: String,
    pub year: String,
}

/// Whether an accommodation was provided in a class on a date
/// (`service_date` is `YYYY-MM-DD`; `provided` is 0 or 1).
#[derive(Debug)]
pub struct AccommodationServiceLog {
    pub id: Option<i64>,
    pub class_id: i64,
    pub accommodation_id: i64,
    pub service_date: String,
    pub provided: i64,
}

impl Clone for Class {
    fn clone(&self) -> (r: Self)
        ensures
            r == *self,
    {
        Class {
            id: self.id,
            name: self.name.clone(),
            subject: self.subject.clone(),
            period: self.period.clone(),
            year: self.year.clone(),
        }
    }
}

impl Clone for Student {
    fn clone(&self) -> (r: Self)
        ensures
            r == *self,
    {
        Student {
            id: self.id,
            first_name: self.first_name.clone(),
            last_name: self.last_name.clone(),
            student_id: self.student_id.clone(),
            plan_type: self.plan_type.clone(),
        }
    }
}

impl Clone for Accommodation {
    fn clone(&self) -> (r: Self)
        ensures
            r == *self,
    {
        Accommodation {
            id: self.id,
            student_id: self.student_id,
            description: self.description.clone(),
            category: self.category.clone(),
        }
    }
}

impl Clone for ClassStudent {
    fn clone(&self) -> (r: Self)
        ensures
            r == *self,
    {
        ClassStudent { id: self.id, class_id: self.class_id, student_id: self.student_id }
    }
}

impl Clone for SixWeekPeriod {
    fn clone(&self) -> (r: Self)
        ensures
            r == *self,
    {
        SixWeekPeriod {
            id: self.id,
            name: self.name.clone(),
            start_date: self.start_date.clone(),
            end_date: self.end_date.clone(),
            year: self.year.clone(),
        }
    }
}

impl Clone for AccommodationServiceLog {
    fn clone(&self) -> (r: Self)
        ensures
            r == *self,
    {
        AccommodationServiceLog {
            id: self.id,
            class_id: self.class_id,
            accommodation_id: self.accommodation_id,
            service_date: self.service_date.clone(),
            provided: self.provided,
        }
    }
}

/// The plan types a student may have.
pub open spec fn is_plan_type(p: Seq<char>) -> bool {
    p == "504"@ || p == "IEP"@
}

/// Checks a plan type against the two accepted values.
pub fn valid_plan_type(p: &String) -> (r: bool)
    ensures
        r == is_plan_type(p@),
{
    let a = String::from_str("504");
    let b = String::from_str("IEP");
    *p == a || *p == b
}

/// Text order: `a` sorts at or before `b`, character by character, a prefix
/// first. On `YYYY-MM-DD` dates it is the calendar order.
pub open spec fn text_le(a: Seq<char>, b: Seq<char>) -> bool
    decreases a.len(),
{
    if a.len() == 0 {
        true
    } else if b.len() == 0 {
        false
    } else if a[0] != b[0] {
        (a[0] as u32) < (b[0] as u32)
    } else {
        text_le(a.drop_first(), b.drop_first())
    }
}

/// Whether `a` sorts at or before `b` in text order.
pub fn text_at_or_before(a: &String, b: &String) -> (r: bool)
    ensures
        r == text_le(a@, b@),
{
    let n = a.unicode_len();
    let m = b.unicode_len();
    let mut i: usize = 0;
    assert(a@.skip(0) =~= a@ && b@.skip(0) =~= b@);
    while i < n
        invariant
            n == a@.len(),
            m == b@.len(),
            i <= n,
            text_le(a@, b@) == text_le(a@.skip(i as int), b@.skip(i as int)),
            i <= m,
        decreases n - i,
    {
        if i == m {
            return false;
        }
        let x = a.get_char(i);
        let y = b.get_char(i);
        if x != y {
            return (x as u32) < (y as u32);
        }
        proof {
            assert(a@.skip(i as int).drop_first() =~= a@.skip(i as int + 1));
            assert(b@.skip(i as int).drop_first() =~= b@.skip(i as int + 1));
        }
        i = i + 1;
    }
    true
}

} // verus!
