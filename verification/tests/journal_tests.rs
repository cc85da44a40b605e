use filemover::codec::{parse_journal, write_journal};
use filemover::journal::{JournalEntry, ResultKind, Timestamp};
use filemover::plan::OpKind;
use filemover::undo::analyze_undo_feasibility;

fn ts() -> Timestamp {
    Timestamp { year: 2024, month: 7, day: 1, hour: 12, minute: 30, second: 5 }
}

fn entry(source: &str, dest: &str, op: OpKind) -> JournalEntry {
    JournalEntry {
        when_utc: ts(),
        source: source.to_string(),
        dest: dest.to_string(),
        op,
        result: ResultKind::Done,
        message: None,
    }
}

#[test]
fn journal_round_trip() {
    let entries = vec![
        entry("C:\\Source\\test1", "D:\\Dest\\test1", OpKind::Move),
        entry("C:\\Source\\te\"st2", "D:\\De\\st\\test2", OpKind::CopyDelete)
            .with_result(ResultKind::Failed)
            .with_message("disk full \\ retry".to_string()),
    ];

    let text = write_journal(&entries);
    let parsed = parse_journal(text.as_str()).unwrap();

    assert_eq!(parsed, entries);
}

#[test]
fn journal_blank_lines_are_ignored() {
    let entries = vec![entry("C:\\a", "D:\\b", OpKind::Move)];
    let text = write_journal(&entries);
    let padded = format!("\n{}\n\n", text);
    let parsed = parse_journal(padded.as_str()).unwrap();
    assert_eq!(parsed, entries);
}

#[test]
fn journal_garbage_is_an_undo_error() {
    let parsed = parse_journal("not a journal");
    assert!(matches!(
        parsed,
        Err(filemover::error::FileMoverError::Undo { .. })
    ));
}

#[test]
fn journal_timestamp_text_is_rfc3339() {
    let entries = vec![entry("C:\\a", "D:\\b", OpKind::Move)];
    let text = write_journal(&entries);
    assert!(text.contains("\"when_utc\":\"2024-07-01T12:30:05Z\""));
}

#[test]
fn undo_test_load_journal_entries() {
    let entries = vec![
        entry("C:\\Source\\test1", "D:\\Dest\\test1", OpKind::Move),
        entry("C:\\Source\\test2", "D:\\Dest\\test2", OpKind::CopyDelete)
            .with_result(ResultKind::Failed),
    ];
    let text = write_journal(&entries);

    let loaded = parse_journal(text.as_str()).unwrap();
    assert_eq!(loaded.len(), 2);
    assert_eq!(loaded[0].op, OpKind::Move);
    assert_eq!(loaded[1].result, ResultKind::Failed);
}

#[test]
fn undo_test_analyze_undo_feasibility() {
    let entries = vec![
        entry("C:\\src\\one", "D:\\dst\\one", OpKind::Move),
        entry("C:\\nonexistent", "D:\\also_nonexistent", OpKind::Move)
            .with_result(ResultKind::Failed),
    ];
    let dest_exists = vec![true, false];
    let source_exists = vec![false, false];

    let (undoable, issues) = analyze_undo_feasibility(&entries, &dest_exists, &source_exists);

    assert_eq!(undoable.len(), 1);
    assert_eq!(undoable[0], 0);
    assert!(issues.is_empty());
}

#[test]
fn scenario_undo_classification() {
    let entries = vec![
        entry("C:\\src\\one", "D:\\dst\\one", OpKind::Move),
        entry("C:\\src\\two", "D:\\dst\\two", OpKind::Move),
    ];
    let dest_exists = vec![true, false];
    let source_exists = vec![false, false];

    let (undoable, issues) = analyze_undo_feasibility(&entries, &dest_exists, &source_exists);

    assert_eq!(undoable, vec![0]);
    assert_eq!(issues.len(), 1);
    assert_eq!(issues[0], "Destination no longer exists: D:\\dst\\two");
}

#[test]
fn undo_order_is_reversed() {
    let entries = vec![
        entry("C:\\s1", "D:\\d1", OpKind::Move),
        entry("C:\\s2", "D:\\d2", OpKind::Move),
        entry("C:\\s3", "D:\\d3", OpKind::Move).with_result(ResultKind::Skip),
    ];
    let dest_exists = vec![true, true, true];
    let source_exists = vec![false, false, false];

    let (undoable, issues) = analyze_undo_feasibility(&entries, &dest_exists, &source_exists);

    assert_eq!(undoable, vec![1, 0]);
    assert!(issues.is_empty());
}

#[test]
fn reappeared_source_blocks_undo() {
    let entries = vec![entry("C:\\s1", "D:\\d1", OpKind::Move)];
    let dest_exists = vec![true];
    let source_exists = vec![true];

    let (undoable, issues) = analyze_undo_feasibility(&entries, &dest_exists, &source_exists);

    assert!(undoable.is_empty());
    assert_eq!(issues, vec!["Source already exists: C:\\s1".to_string()]);
}

#[test]
fn entry_builders_set_result_and_message() {
    let base = entry("C:\\a", "D:\\b", OpKind::Rename);
    let failed = base.clone().failed("boom".to_string());
    assert_eq!(failed.result, ResultKind::Failed);
    assert_eq!(failed.message, Some("boom".to_string()));
    let skipped = base.skipped("later".to_string());
    assert_eq!(skipped.result, ResultKind::Skip);
    assert_eq!(skipped.message, Some("later".to_string()));
}
