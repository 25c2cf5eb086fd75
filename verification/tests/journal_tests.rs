//! The request journal observed on concrete request histories.

use colony_core::journal::{HardTypedDBAccess, JournalError, RowKind, StreamTag};
use colony_core::time::UnixTime;

#[test]
fn request_row_is_created_open_ended() {
    let mut db = HardTypedDBAccess::new();
    let r = db.register_request_row(
        7,
        1,
        "Frontend".to_string(),
        "LocalMachine".to_string(),
        "{\"op\":\"ListDirectory\"}".to_string(),
        UnixTime::from(100),
    );
    assert!(r.is_ok());
    let rows = db.requests();
    assert_eq!(rows.len(), 1);
    assert_eq!(rows[0].request_id, 7);
    assert_eq!(rows[0].api_version, 1);
    assert_eq!(rows[0].start_time, 100);
    assert_eq!(rows[0].end_time, None);
}

#[test]
fn duplicate_request_is_a_unique_violation() {
    let mut db = HardTypedDBAccess::new();
    let now = UnixTime::from(100);
    assert!(db
        .register_request_row(7, 1, "a".to_string(), "b".to_string(), "p".to_string(), now)
        .is_ok());
    let dup = db.register_request_row(
        7,
        1,
        "a".to_string(),
        "b".to_string(),
        "p".to_string(),
        now,
    );
    assert_eq!(dup, Err(JournalError::UniqueViolation));
    assert_eq!(db.requests().len(), 1);
}

#[test]
fn response_sets_the_request_end_time_to_its_own_timestamp() {
    let mut db = HardTypedDBAccess::new();
    db.register_request_row(
        7,
        1,
        "Frontend".to_string(),
        "LocalMachine".to_string(),
        "req".to_string(),
        UnixTime::from(100),
    )
    .unwrap();
    db.register_response_row(
        7,
        1,
        "LocalMachine".to_string(),
        "Frontend".to_string(),
        "resp".to_string(),
        UnixTime::from(130),
    )
    .unwrap();
    let rows = db.requests();
    assert_eq!(rows.len(), 2);
    let request = &rows[0];
    let response = &rows[1];
    assert!(matches!(response.kind, RowKind::Response));
    assert_eq!(response.start_time, 130);
    assert_eq!(request.end_time, Some(response.start_time));
    assert!(request.end_time.unwrap() >= request.start_time);
}

#[test]
fn response_timestamp_never_falls_below_the_request_start() {
    let mut db = HardTypedDBAccess::new();
    db.register_request_row(
        7,
        1,
        "a".to_string(),
        "b".to_string(),
        "req".to_string(),
        UnixTime::from(200),
    )
    .unwrap();
    // The clock reads earlier than the journalled start.
    db.register_response_row(
        7,
        1,
        "b".to_string(),
        "a".to_string(),
        "resp".to_string(),
        UnixTime::from(150),
    )
    .unwrap();
    let rows = db.requests();
    assert_eq!(rows[0].end_time, Some(200));
    assert_eq!(rows[1].start_time, 200);
}

#[test]
fn resolving_without_a_response_closes_the_row() {
    let mut db = HardTypedDBAccess::new();
    db.register_request_row(
        9,
        1,
        "a".to_string(),
        "b".to_string(),
        "req".to_string(),
        UnixTime::from(100),
    )
    .unwrap();
    db.mark_request_resolved(9, UnixTime::from(140));
    let rows = db.requests();
    assert_eq!(rows[0].end_time, Some(140));
}

#[test]
fn log_rows_carry_increasing_identifiers() {
    let mut db = HardTypedDBAccess::new();
    db.append_log(5, StreamTag::Stdout, "one".to_string(), None, UnixTime::from(10));
    db.append_log(5, StreamTag::Stderr, "two".to_string(), None, UnixTime::from(11));
    let logs = db.logs();
    assert_eq!(logs.len(), 2);
    assert_eq!(logs[0].id, 0);
    assert_eq!(logs[1].id, 1);
    assert_eq!(logs[0].raw_line, "one");
}

#[test]
fn prune_removes_the_resolved_row_and_its_logs() {
    let mut db = HardTypedDBAccess::new();
    db.register_request_row(
        7,
        1,
        "Frontend".to_string(),
        "LocalMachine".to_string(),
        "{\"dir\":\"/x\"}".to_string(),
        UnixTime::from(100),
    )
    .unwrap();
    db.append_log(7, StreamTag::Event, "listing".to_string(), None, UnixTime::from(101));
    db.register_request_row(
        8,
        1,
        "Frontend".to_string(),
        "LocalMachine".to_string(),
        "other".to_string(),
        UnixTime::from(105),
    )
    .unwrap();
    db.append_log(8, StreamTag::Event, "kept".to_string(), None, UnixTime::from(106));
    db.mark_request_resolved(7, UnixTime::from(110));

    // The resolved row ended at or before now; pruning removes it and
    // every log row that depended on it.
    db.prune_archived(110);
    let rows = db.requests();
    assert_eq!(rows.len(), 1);
    assert_eq!(rows[0].request_id, 8);
    let logs = db.logs();
    assert_eq!(logs.len(), 1);
    assert_eq!(logs[0].request_id, 8);
}

#[test]
fn prune_spares_open_and_later_rows() {
    let mut db = HardTypedDBAccess::new();
    db.register_request_row(
        1,
        1,
        "a".to_string(),
        "b".to_string(),
        "open".to_string(),
        UnixTime::from(100),
    )
    .unwrap();
    db.register_request_row(
        2,
        1,
        "a".to_string(),
        "b".to_string(),
        "late".to_string(),
        UnixTime::from(100),
    )
    .unwrap();
    db.mark_request_resolved(2, UnixTime::from(500));
    db.prune_archived(200);
    let rows = db.requests();
    assert_eq!(rows.len(), 2);
}
