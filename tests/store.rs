use accommodation_tracker::schema::{migrations, SchemaState};
use accommodation_tracker::model::{
    valid_plan_type, Accommodation, AccommodationServiceLog, Class, ClassStudent, SixWeekPeriod,
    Student,
};
use accommodation_tracker::store::{Store, StoreError};

fn class(name: &str) -> Class {
    Class {
        id: None,
        name: name.to_string(),
        subject: "Math".to_string(),
        period: "1".to_string(),
        year: "2024-2025".to_string(),
    }
}

fn student(sid: &str, plan: &str) -> Student {
    Student {
        id: None,
        first_name: "Ada".to_string(),
        last_name: "Lovelace".to_string(),
        student_id: sid.to_string(),
        plan_type: plan.to_string(),
    }
}

fn accommodation(owner: i64, description: &str) -> Accommodation {
    Accommodation {
        id: None,
        student_id: owner,
        description: description.to_string(),
        category: "testing".to_string(),
    }
}

fn enrollment(class_id: i64, student_id: i64) -> ClassStudent {
    ClassStudent { id: None, class_id, student_id }
}

#[test]
fn open_store_is_empty_and_current() {
    let s = Store::open();
    assert!(s.list_classes().is_empty());
    assert!(s.list_students().is_empty());
    assert!(s.list_service_logs().is_empty());
}

#[test]
fn duplicate_student_id_is_refused() {
    let mut s = Store::open();
    assert!(s.create_student(student("S1", "504")).is_ok());
    assert_eq!(s.create_student(student("S1", "IEP")), Err(StoreError::ConstraintViolation));
    assert_eq!(s.list_students().len(), 1);
}

#[test]
fn invalid_plan_type_is_refused() {
    let mut s = Store::open();
    assert_eq!(s.create_student(student("S1", "ABC")), Err(StoreError::ConstraintViolation));
    assert_eq!(s.list_students().len(), 0);
    assert!(valid_plan_type(&"504".to_string()));
    assert!(valid_plan_type(&"IEP".to_string()));
    assert!(!valid_plan_type(&"iep".to_string()));
}

#[test]
fn ids_are_assigned_in_order() {
    let mut s = Store::open();
    assert_eq!(s.create_class(class("A")), Ok(1));
    assert_eq!(s.create_class(class("B")), Ok(2));
    assert_eq!(s.create_student(student("S1", "504")), Ok(3));
    let got = s.get_class(2).unwrap();
    assert_eq!(got.id, Some(2));
    assert_eq!(got.name, "B");
}

#[test]
fn duplicate_enrollment_is_refused() {
    let mut s = Store::open();
    let c = s.create_class(class("A")).unwrap();
    let st = s.create_student(student("S1", "IEP")).unwrap();
    assert!(s.create_class_student(enrollment(c, st)).is_ok());
    assert_eq!(s.create_class_student(enrollment(c, st)), Err(StoreError::ConstraintViolation));
    assert_eq!(s.list_class_students_for_class(c).len(), 1);
}

#[test]
fn references_must_exist() {
    let mut s = Store::open();
    assert_eq!(s.create_accommodation(accommodation(42, "x")), Err(StoreError::ConstraintViolation));
    let c = s.create_class(class("A")).unwrap();
    assert_eq!(s.create_class_student(enrollment(c, 99)), Err(StoreError::ConstraintViolation));
    assert_eq!(s.upsert_service_log(c, 77, "2024-09-03".to_string(), true), Err(StoreError::ConstraintViolation));
}

#[test]
fn upsert_twice_keeps_one_row_with_latest_value() {
    let mut s = Store::open();
    let c = s.create_class(class("A")).unwrap();
    let st = s.create_student(student("S1", "504")).unwrap();
    let a = s.create_accommodation(accommodation(st, "extended time")).unwrap();
    let id1 = s.upsert_service_log(c, a, "2024-09-03".to_string(), true).unwrap();
    let id2 = s.upsert_service_log(c, a, "2024-09-03".to_string(), false).unwrap();
    assert_eq!(id1, id2);
    let logs = s.list_service_logs();
    assert_eq!(logs.len(), 1);
    assert_eq!(logs[0].provided, 0);
    let id3 = s.upsert_service_log(c, a, "2024-09-04".to_string(), true).unwrap();
    assert_ne!(id3, id1);
    assert_eq!(s.list_service_logs().len(), 2);
}

#[test]
fn duplicate_service_log_is_refused() {
    let mut s = Store::open();
    let c = s.create_class(class("A")).unwrap();
    let st = s.create_student(student("S1", "504")).unwrap();
    let a = s.create_accommodation(accommodation(st, "extended time")).unwrap();
    let log = AccommodationServiceLog {
        id: None,
        class_id: c,
        accommodation_id: a,
        service_date: "2024-09-03".to_string(),
        provided: 1,
    };
    assert!(s.create_service_log(log.clone()).is_ok());
    assert_eq!(s.create_service_log(log.clone()), Err(StoreError::ConstraintViolation));
    let bad = AccommodationServiceLog { provided: 2, service_date: "2024-09-04".to_string(), ..log };
    assert_eq!(s.create_service_log(bad), Err(StoreError::ConstraintViolation));
}

#[test]
fn deleting_student_cascades() {
    let mut s = Store::open();
    let c = s.create_class(class("A")).unwrap();
    let st = s.create_student(student("S1", "IEP")).unwrap();
    let other = s.create_student(student("S2", "504")).unwrap();
    let a1 = s.create_accommodation(accommodation(st, "extended time")).unwrap();
    let _a2 = s.create_accommodation(accommodation(st, "preferential seating")).unwrap();
    let b = s.create_accommodation(accommodation(other, "read aloud")).unwrap();
    s.create_class_student(enrollment(c, st)).unwrap();
    s.create_class_student(enrollment(c, other)).unwrap();
    s.upsert_service_log(c, a1, "2024-09-03".to_string(), true).unwrap();
    s.upsert_service_log(c, b, "2024-09-03".to_string(), true).unwrap();
    assert_eq!(s.delete_student(st), Ok(()));
    assert!(s.list_accommodations_for_student(st).is_empty());
    assert_eq!(s.list_accommodations_for_student(other).len(), 1);
    let enrolled = s.list_class_students_for_class(c);
    assert_eq!(enrolled.len(), 1);
    assert_eq!(enrolled[0].student_id, other);
    let logs = s.list_service_logs();
    assert_eq!(logs.len(), 1);
    assert_eq!(logs[0].accommodation_id, b);
    assert_eq!(s.get_student(st).unwrap_err(), StoreError::NotFound);
}

#[test]
fn deleting_class_removes_its_logs() {
    let mut s = Store::open();
    let c = s.create_class(class("A")).unwrap();
    let d = s.create_class(class("B")).unwrap();
    let st = s.create_student(student("S1", "IEP")).unwrap();
    let a = s.create_accommodation(accommodation(st, "extended time")).unwrap();
    s.create_class_student(enrollment(c, st)).unwrap();
    s.upsert_service_log(c, a, "2024-09-03".to_string(), true).unwrap();
    s.upsert_service_log(c, a, "2024-09-04".to_string(), true).unwrap();
    s.upsert_service_log(d, a, "2024-09-03".to_string(), false).unwrap();
    assert_eq!(s.delete_class(c), Ok(()));
    assert!(s.list_service_logs_for_class(c).is_empty());
    assert!(s.list_class_students_for_class(c).is_empty());
    assert_eq!(s.list_service_logs().len(), 1);
    assert_eq!(s.list_service_logs_for_class(d).len(), 1);
}

#[test]
fn deleting_accommodation_removes_its_logs() {
    let mut s = Store::open();
    let c = s.create_class(class("A")).unwrap();
    let st = s.create_student(student("S1", "IEP")).unwrap();
    let a = s.create_accommodation(accommodation(st, "extended time")).unwrap();
    s.upsert_service_log(c, a, "2024-09-03".to_string(), true).unwrap();
    assert_eq!(s.delete_accommodation(a), Ok(()));
    assert!(s.list_service_logs().is_empty());
    assert_eq!(s.get_accommodation(a).unwrap_err(), StoreError::NotFound);
}

#[test]
fn deleting_missing_rows_is_not_found() {
    let mut s = Store::open();
    assert_eq!(s.delete_class(1), Err(StoreError::NotFound));
    assert_eq!(s.delete_student(1), Err(StoreError::NotFound));
    assert_eq!(s.delete_accommodation(1), Err(StoreError::NotFound));
    assert_eq!(s.delete_class_student(1), Err(StoreError::NotFound));
    assert_eq!(s.delete_period(1), Err(StoreError::NotFound));
    assert_eq!(s.delete_service_log(1), Err(StoreError::NotFound));
    assert_eq!(s.update_class(1, class("A")), Err(StoreError::NotFound));
}

#[test]
fn scenario_iep_student_with_logged_accommodation() {
    let mut s = Store::open();
    let st = s.create_student(student("S100", "IEP")).unwrap();
    let a = s.create_accommodation(accommodation(st, "extended time")).unwrap();
    let c = s.create_class(class("Algebra I")).unwrap();
    s.create_class_student(enrollment(c, st)).unwrap();
    let log = s.upsert_service_log(c, a, "2024-09-03".to_string(), true).unwrap();
    assert_eq!(s.get_service_log(log).unwrap().provided, 1);
    let again = s.upsert_service_log(c, a, "2024-09-03".to_string(), false).unwrap();
    assert_eq!(again, log);
    let logs = s.list_service_logs_for_class(c);
    assert_eq!(logs.len(), 1);
    assert_eq!(logs[0].id, Some(log));
    assert_eq!(logs[0].provided, 0);
    assert_eq!(logs[0].service_date, "2024-09-03");
}

#[test]
fn update_student_checks_constraints() {
    let mut s = Store::open();
    let a = s.create_student(student("S1", "504")).unwrap();
    let _b = s.create_student(student("S2", "504")).unwrap();
    assert_eq!(s.update_student(a, student("S2", "504")), Err(StoreError::ConstraintViolation));
    assert_eq!(s.update_student(a, student("S1", "XYZ")), Err(StoreError::ConstraintViolation));
    assert_eq!(s.update_student(a, student("S1", "IEP")), Ok(()));
    let got = s.get_student(a).unwrap();
    assert_eq!(got.plan_type, "IEP");
    assert_eq!(got.id, Some(a));
}

#[test]
fn update_accommodation_and_period() {
    let mut s = Store::open();
    let st = s.create_student(student("S1", "504")).unwrap();
    let a = s.create_accommodation(accommodation(st, "extended time")).unwrap();
    assert_eq!(s.update_accommodation(a, accommodation(999, "x")), Err(StoreError::ConstraintViolation));
    assert_eq!(s.update_accommodation(a, accommodation(st, "small group")), Ok(()));
    assert_eq!(s.get_accommodation(a).unwrap().description, "small group");
    let p = s
        .create_period(SixWeekPeriod {
            id: None,
            name: "First".to_string(),
            start_date: "2024-08-19".to_string(),
            end_date: "2024-09-27".to_string(),
            year: "2024-2025".to_string(),
        })
        .unwrap();
    let mut period = s.get_period(p).unwrap();
    period.name = "Second".to_string();
    assert_eq!(s.update_period(p, period), Ok(()));
    assert_eq!(s.list_periods()[0].name, "Second");
    assert_eq!(s.delete_period(p), Ok(()));
    assert!(s.list_periods().is_empty());
}

#[test]
fn enrollment_and_log_deletes() {
    let mut s = Store::open();
    let c = s.create_class(class("A")).unwrap();
    let st = s.create_student(student("S1", "504")).unwrap();
    let a = s.create_accommodation(accommodation(st, "extended time")).unwrap();
    let e = s.create_class_student(enrollment(c, st)).unwrap();
    assert_eq!(s.get_class_student(e).unwrap().class_id, c);
    assert_eq!(s.delete_class_student(e), Ok(()));
    assert!(s.create_class_student(enrollment(c, st)).is_ok());
    let l = s.upsert_service_log(c, a, "2024-09-03".to_string(), true).unwrap();
    assert_eq!(s.delete_service_log(l), Ok(()));
    assert!(s.list_service_logs().is_empty());
}

#[test]
fn store_needs_current_schema() {
    let ms = migrations();
    let mut schema = SchemaState::empty();
    assert_eq!(schema.step(&ms[0], true), Ok(true));
    assert_eq!(Store::with_schema(schema).unwrap_err(), StoreError::MigrationFailure);
    schema.migrate(&ms);
    let mut s = Store::with_schema(schema).unwrap();
    assert_eq!(s.create_class(class("A")), Ok(1));
}

#[test]
fn update_enrollment_checks_pair() {
    let mut s = Store::open();
    let c = s.create_class(class("A")).unwrap();
    let d = s.create_class(class("B")).unwrap();
    let st = s.create_student(student("S1", "504")).unwrap();
    let e1 = s.create_class_student(enrollment(c, st)).unwrap();
    let e2 = s.create_class_student(enrollment(d, st)).unwrap();
    assert_eq!(s.update_class_student(e2, enrollment(c, st)), Err(StoreError::ConstraintViolation));
    assert_eq!(s.update_class_student(e2, enrollment(c, 500)), Err(StoreError::ConstraintViolation));
    assert_eq!(s.update_class_student(e1, enrollment(c, st)), Ok(()));
    assert_eq!(s.update_class_student(99, enrollment(c, st)), Err(StoreError::NotFound));
}

#[test]
fn update_service_log_checks_key() {
    let mut s = Store::open();
    let c = s.create_class(class("A")).unwrap();
    let st = s.create_student(student("S1", "504")).unwrap();
    let a = s.create_accommodation(accommodation(st, "extended time")).unwrap();
    let l1 = s.upsert_service_log(c, a, "2024-09-03".to_string(), true).unwrap();
    let l2 = s.upsert_service_log(c, a, "2024-09-04".to_string(), true).unwrap();
    let mut moved = s.get_service_log(l2).unwrap();
    moved.service_date = "2024-09-03".to_string();
    assert_eq!(s.update_service_log(l2, moved.clone()), Err(StoreError::ConstraintViolation));
    moved.service_date = "2024-09-05".to_string();
    moved.provided = 0;
    assert_eq!(s.update_service_log(l2, moved), Ok(()));
    let got = s.get_service_log(l2).unwrap();
    assert_eq!(got.service_date, "2024-09-05");
    assert_eq!(got.provided, 0);
    assert_eq!(s.get_service_log(l1).unwrap().provided, 1);
}

#[test]
fn logs_between_dates() {
    let mut s = Store::open();
    let c = s.create_class(class("A")).unwrap();
    let d = s.create_class(class("B")).unwrap();
    let st = s.create_student(student("S1", "504")).unwrap();
    let a = s.create_accommodation(accommodation(st, "extended time")).unwrap();
    for date in ["2024-08-30", "2024-09-03", "2024-09-10", "2024-10-01"] {
        s.upsert_service_log(c, a, date.to_string(), true).unwrap();
    }
    s.upsert_service_log(d, a, "2024-09-05".to_string(), true).unwrap();
    let got = s.list_service_logs_between(c, &"2024-09-01".to_string(), &"2024-09-10".to_string());
    let dates: Vec<String> = got.into_iter().map(|l| l.service_date).collect();
    assert_eq!(dates, vec!["2024-09-03".to_string(), "2024-09-10".to_string()]);
}
