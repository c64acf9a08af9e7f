use accommodation_tracker::model::text_at_or_before;
use accommodation_tracker::schema::{migrations, SchemaState, Table, TableSet};

fn current(t: &TableSet) -> bool {
    t.contains(Table::Classes)
        && t.contains(Table::Students)
        && t.contains(Table::Accommodations)
        && t.contains(Table::ClassStudents)
        && t.contains(Table::SixWeekPeriods)
        && t.contains(Table::AccommodationServiceLogs)
        && !t.contains(Table::ServiceLogs)
}

#[test]
fn chain_has_three_ascending_versions() {
    let ms = migrations();
    assert_eq!(ms.len(), 3);
    assert_eq!(ms[0].version, 1);
    assert_eq!(ms[1].version, 2);
    assert_eq!(ms[2].version, 3);
    assert_eq!(ms[0].description, "create_initial_tables");
    assert_eq!(ms[1].description, "add_periods_and_service_logs");
    assert_eq!(ms[2].description, "per_accommodation_tracking");
    assert!(ms[2].sql.contains("DROP TABLE IF EXISTS service_logs"));
    assert!(ms[2].sql.contains("UNIQUE(class_id, accommodation_id, service_date)"));
}

#[test]
fn empty_store_migrates_to_current() {
    let ms = migrations();
    let mut s = SchemaState::empty();
    s.migrate(&ms);
    assert_eq!(s.version, 3);
    assert!(current(&s.tables));
}

#[test]
fn second_migration_run_is_a_no_op() {
    let ms = migrations();
    let mut s = SchemaState::empty();
    s.migrate(&ms);
    let once = s;
    s.migrate(&ms);
    assert_eq!(s, once);
    assert_eq!(s.pending(&ms), None);
}

#[test]
fn version_two_has_per_student_log() {
    let ms = migrations();
    let mut s = SchemaState::empty();
    assert_eq!(s.step(&ms[0], true), Ok(true));
    assert_eq!(s.step(&ms[1], true), Ok(true));
    assert_eq!(s.version, 2);
    assert!(s.tables.contains(Table::ServiceLogs));
    assert!(!s.tables.contains(Table::AccommodationServiceLogs));
    assert_eq!(s.pending(&ms), Some(2));
    assert_eq!(s.step(&ms[2], true), Ok(true));
    assert!(current(&s.tables));
}

#[test]
fn failed_migration_keeps_last_good_version() {
    let ms = migrations();
    let mut s = SchemaState::empty();
    assert_eq!(s.step(&ms[0], true), Ok(true));
    let good = s;
    let r = s.step(&ms[1], false);
    assert_eq!(r.unwrap_err().version, 2);
    assert_eq!(s, good);
    assert_eq!(s.version, 1);
    assert_eq!(s.pending(&ms), Some(1));
}

#[test]
fn applied_migration_is_skipped() {
    let ms = migrations();
    let mut s = SchemaState::empty();
    s.migrate(&ms);
    let before = s;
    assert_eq!(s.step(&ms[0], true), Ok(false));
    assert_eq!(s, before);
}

#[test]
fn pending_on_empty_store_is_first() {
    let ms = migrations();
    let s = SchemaState::empty();
    assert_eq!(s.pending(&ms), Some(0));
}

#[test]
fn apply_drops_then_creates() {
    let none = TableSet::none();
    let mut only_logs = none;
    only_logs.service_logs = true;
    let mut both = only_logs;
    both.classes = true;
    let r = both.apply(&only_logs, &none);
    assert!(r.contains(Table::Classes));
    assert!(!r.contains(Table::ServiceLogs));
    let r2 = both.apply(&only_logs, &only_logs);
    assert!(r2.contains(Table::ServiceLogs));
}

#[test]
fn text_order_follows_dates() {
    let a = "2024-09-03".to_string();
    let b = "2024-10-01".to_string();
    assert!(text_at_or_before(&a, &b));
    assert!(!text_at_or_before(&b, &a));
    assert!(text_at_or_before(&a, &a));
    assert!(text_at_or_before(&"".to_string(), &a));
    assert!(!text_at_or_before(&a, &"2024".to_string()));
}
