use conlang_store::models::{OperationLog, OperationLogEntry};
use conlang_store::oplog::{generate_log_id, now_iso, oplog_dir, oplog_file};

fn log_with(max: u32) -> OperationLog {
    let mut log = OperationLog::default();
    log.max_snapshots = max;
    log
}

fn add(log: &mut OperationLog, id: &str) -> (OperationLogEntry, Vec<OperationLogEntry>) {
    log.checkpoint(
        id.to_string(),
        "pull_sync".to_string(),
        "100".to_string(),
        "lang_a".to_string(),
        "lang_b".to_string(),
        format!("before {}", id),
    )
}

fn ids(log: &OperationLog) -> Vec<String> {
    log.entries.iter().map(|e| e.log_id.clone()).collect()
}

#[test]
fn log_paths_sit_under_the_language_directory() {
    assert_eq!(oplog_dir("proj/lang"), "proj/lang/.oplog");
    assert_eq!(oplog_file("proj/lang"), "proj/lang/.oplog/oplog.json");
}

#[test]
fn checkpoint_timestamp_is_decimal_seconds() {
    assert_eq!(now_iso(0), "0");
    assert_eq!(now_iso(1700000000), "1700000000");
}

#[test]
fn log_id_is_sixteen_hex_digits() {
    assert_eq!(generate_log_id(255), "00000000000000ff");
    assert_eq!(generate_log_id(u64::MAX), "ffffffffffffffff");
    assert_eq!(generate_log_id(0x1234_abcd), "000000001234abcd");
}

#[test]
fn default_log_keeps_ten() {
    let log = OperationLog::default();
    assert_eq!(log.max_snapshots, 10);
    assert!(log.entries.is_empty());
}

#[test]
fn checkpoint_appends_with_snapshot_dir() {
    let mut log = log_with(3);
    let (entry, dropped) = add(&mut log, "abc");
    assert!(dropped.is_empty());
    assert_eq!(entry.snapshot_dir, "snap_abc");
    assert_eq!(entry.description, "before abc");
    assert_eq!(ids(&log), vec!["abc".to_string()]);
    assert_eq!(log.entries[0].snapshot_dir, "snap_abc");
}

#[test]
fn checkpoints_beyond_limit_drop_the_oldest() {
    let mut log = log_with(2);
    add(&mut log, "a");
    add(&mut log, "b");
    let (_, dropped) = add(&mut log, "c");
    assert_eq!(dropped.len(), 1);
    assert_eq!(dropped[0].log_id, "a");
    assert_eq!(dropped[0].snapshot_dir, "snap_a");
    assert_eq!(ids(&log), vec!["b".to_string(), "c".to_string()]);
    let (_, dropped) = add(&mut log, "d");
    assert_eq!(dropped[0].log_id, "b");
    assert!(log.entries.len() <= 2);
}

#[test]
fn zero_retention_keeps_nothing() {
    let mut log = log_with(0);
    let (entry, dropped) = add(&mut log, "x");
    assert_eq!(dropped.len(), 1);
    assert_eq!(dropped[0].log_id, entry.log_id);
    assert!(log.entries.is_empty());
}

#[test]
fn set_retention_evicts_oldest_first() {
    let mut log = log_with(10);
    for id in ["a", "b", "c", "d"] {
        add(&mut log, id);
    }
    let dropped = log.set_retention(1);
    assert_eq!(log.max_snapshots, 1);
    let dropped_ids: Vec<String> = dropped.iter().map(|e| e.log_id.clone()).collect();
    assert_eq!(dropped_ids, vec!["a".to_string(), "b".to_string(), "c".to_string()]);
    assert_eq!(ids(&log), vec!["d".to_string()]);
}

#[test]
fn rollback_discards_checkpoint_and_later_ones() {
    let mut log = log_with(10);
    for id in ["a", "b", "c", "d"] {
        add(&mut log, id);
    }
    let discarded = log.rollback(&"b".to_string()).unwrap();
    let discarded_ids: Vec<String> = discarded.iter().map(|e| e.log_id.clone()).collect();
    assert_eq!(discarded_ids, vec!["b".to_string(), "c".to_string(), "d".to_string()]);
    assert_eq!(discarded[0].snapshot_dir, "snap_b");
    assert_eq!(ids(&log), vec!["a".to_string()]);
}

#[test]
fn rollback_to_unknown_checkpoint_changes_nothing() {
    let mut log = log_with(10);
    add(&mut log, "a");
    assert!(log.rollback(&"zz".to_string()).is_none());
    assert_eq!(ids(&log), vec!["a".to_string()]);
}

#[test]
fn checkpoint_then_rollback_finds_the_new_checkpoint() {
    let mut log = log_with(2);
    add(&mut log, "a");
    add(&mut log, "b");
    let (entry, _) = add(&mut log, "c");
    let discarded = log.rollback(&"c".to_string()).unwrap();
    assert_eq!(discarded.len(), 1);
    assert_eq!(discarded[0].snapshot_dir, entry.snapshot_dir);
    assert_eq!(ids(&log), vec!["b".to_string()]);
}
