use diary::datetime::{Date, Timestamp, ts_lt};
use diary::model::{DiaryDoc, Metadata, TransitionError, WorklogParseError, parse_worklog_entry};

fn doc(path: &str, worklog: Vec<String>) -> DiaryDoc {
    DiaryDoc {
        metadata: Metadata {
            author: Some(String::from("someone")),
            date: None,
            tags: vec![String::from("TAG-1")],
            estimate: None,
            worklog,
        },
        path: String::from(path),
    }
}

fn ts(y: u16, mo: u8, d: u8, h: u8, mi: u8, s: u8) -> Timestamp {
    Timestamp { date: Date { year: y, month: mo, day: d }, hour: h, minute: mi, second: s }
}

#[test]
fn active_detects_open_entry() {
    let d = doc("a/x.md", vec![
        String::from("2023-04-01T09:00:00, 2023-04-01T10:00:00"),
        String::from("2023-04-02T09:00:00,"),
    ]);
    assert!(d.is_active());
}

#[test]
fn closed_entries_are_inactive() {
    let d = doc("a/x.md", vec![String::from("2023-04-01T09:00:00, 2023-04-01T10:00:00")]);
    assert!(!d.is_active());
}

#[test]
fn empty_worklog_is_inactive() {
    let d = doc("a/x.md", vec![]);
    assert!(!d.is_active());
}

#[test]
fn ranges_drop_malformed_entries() {
    let d = doc("a/x.md", vec![
        String::from("2023-04-01T09:00:00, 2023-04-01T10:00:00"),
        String::from("not a timestamp, also not one"),
        String::from("2023-04-03T09:00:00,"),
        String::from("2023-04-04T08:30:00,2023-04-04T09:45:10"),
    ]);
    let ranges = d.worklog_range();
    assert_eq!(ranges.len(), 2);
    assert_eq!(ranges[0].start, ts(2023, 4, 1, 9, 0, 0));
    assert_eq!(ranges[0].end, ts(2023, 4, 1, 10, 0, 0));
    assert_eq!(ranges[1].start, ts(2023, 4, 4, 8, 30, 0));
    assert_eq!(ranges[1].end, ts(2023, 4, 4, 9, 45, 10));
}

#[test]
fn entry_parse_reports_incomplete() {
    assert_eq!(parse_worklog_entry("2023-04-01T09:00:00,"), Err(WorklogParseError::Incomplete));
    assert_eq!(parse_worklog_entry("2023-04-01T09:00:00,   "), Err(WorklogParseError::Incomplete));
    assert_eq!(parse_worklog_entry("no separator"), Err(WorklogParseError::Incomplete));
}

#[test]
fn entry_parse_reports_bad_timestamps() {
    assert_eq!(
        parse_worklog_entry("2023-04-01T09:00:00, later"),
        Err(WorklogParseError::BadTimestamp)
    );
    assert_eq!(
        parse_worklog_entry("2023-02-30T09:00:00, 2023-04-01T10:00:00"),
        Err(WorklogParseError::BadTimestamp)
    );
}

#[test]
fn entry_parse_accepts_spaces_around_fields() {
    let r = parse_worklog_entry("  2023-04-01T09:00:00 , 2023-04-01T10:00:00  ").unwrap();
    assert_eq!(r.start, ts(2023, 4, 1, 9, 0, 0));
    assert_eq!(r.end, ts(2023, 4, 1, 10, 0, 0));
}

#[test]
fn start_then_stop_restores_inactive_and_adds_one_range() {
    let mut d = doc("a/x.md", vec![
        String::from("2023-04-01T09:00:00, 2023-04-01T10:00:00"),
    ]);
    let t1 = ts(2023, 4, 5, 9, 0, 0);
    let t2 = ts(2023, 4, 5, 9, 30, 0);
    assert!(d.start(t1).is_ok());
    assert!(d.is_active());
    assert_eq!(d.metadata.worklog.last().unwrap(), "2023-04-05T09:00:00,");
    assert!(d.stop(t2).is_ok());
    assert!(!d.is_active());
    let ranges = d.worklog_range();
    assert_eq!(ranges.len(), 2);
    assert_eq!(ranges[1].start, t1);
    assert_eq!(ranges[1].end, t2);
    assert!(ts_lt(&ranges[1].start, &ranges[1].end));
}

#[test]
fn start_on_active_doc_fails_and_changes_nothing() {
    let mut d = doc("a/x.md", vec![String::from("2023-04-02T09:00:00,")]);
    let before = d.metadata.worklog.clone();
    let r = d.start(ts(2023, 4, 5, 9, 0, 0));
    assert_eq!(r, Err(TransitionError::AlreadyActive));
    assert_eq!(d.metadata.worklog, before);
}

#[test]
fn stop_on_inactive_doc_fails_and_changes_nothing() {
    let mut d = doc("a/x.md", vec![String::from("2023-04-01T09:00:00, 2023-04-01T10:00:00")]);
    let before = d.metadata.worklog.clone();
    let r = d.stop(ts(2023, 4, 5, 9, 0, 0));
    assert_eq!(r, Err(TransitionError::NotActive));
    assert_eq!(d.metadata.worklog, before);
}

#[test]
fn stop_on_empty_worklog_fails_cleanly() {
    let mut d = doc("a/x.md", vec![]);
    let r = d.stop(ts(2023, 4, 5, 9, 0, 0));
    assert_eq!(r, Err(TransitionError::NotActive));
    assert!(d.metadata.worklog.is_empty());
}

#[test]
fn transition_error_messages() {
    assert_eq!(TransitionError::AlreadyActive.message(), "Requested doc is already active");
    assert_eq!(TransitionError::NotActive.message(), "Requested doc is not active");
}

#[test]
fn has_work_after_and_before_are_strict() {
    let d = doc("a/x.md", vec![String::from("2023-04-01T09:00:00,2023-04-01T10:00:00")]);
    assert!(d.has_work_after(&ts(2023, 4, 1, 9, 59, 59)));
    assert!(!d.has_work_after(&ts(2023, 4, 1, 10, 0, 0)));
    assert!(d.has_work_before(&ts(2023, 4, 1, 9, 0, 1)));
    assert!(!d.has_work_before(&ts(2023, 4, 1, 9, 0, 0)));
}

#[test]
fn diagnostics_name_dropped_entries() {
    let d = doc("a/x.md", vec![
        String::from("2023-04-01T09:00:00, 2023-04-01T10:00:00"),
        String::from("2023-04-01T09:00:00, garbage"),
        String::from("2023-04-03T09:00:00,"),
    ]);
    // The result is filtered, and the warnings are observable beside it.
    assert_eq!(d.worklog_range().len(), 1);
    let diags = d.worklog_diagnostics();
    assert_eq!(diags.len(), 2);
    assert_eq!(diags[0].0, "2023-04-01T09:00:00, garbage");
    assert_eq!(diags[0].1, WorklogParseError::BadTimestamp);
    assert_eq!(diags[1].0, "2023-04-03T09:00:00,");
    assert_eq!(diags[1].1, WorklogParseError::Incomplete);
}

#[test]
fn stop_appends_to_last_entry_text() {
    let mut d = doc("a/x.md", vec![String::from("2023-04-05T09:00:00,")]);
    assert!(d.stop(ts(2023, 4, 5, 10, 0, 0)).is_ok());
    assert_eq!(d.metadata.worklog[0], "2023-04-05T09:00:00,2023-04-05T10:00:00");
}
