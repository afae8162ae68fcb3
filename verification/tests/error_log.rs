use file_pipeline_core::error_log::ErrorLog;

#[test]
fn test_record_and_recent() {
    let mut log = ErrorLog::new();
    log.record("classify", "a.txt", "LLM timeout", "llm cli");
    log.record("verify", "b.txt", "구조 완전성 0%", "2-Pass 실패");
    assert_eq!(log.entries.len(), 2);
    assert_eq!(log.recent(1).len(), 1);
    assert_eq!(log.recent(1)[0].stage, "verify");
}

#[test]
fn test_max_entries() {
    let mut log = ErrorLog::new();
    for i in 0..1100 {
        log.record("test", &format!("{}.txt", i), "err", "ctx");
    }
    assert!(log.entries.len() <= 1000);
}

#[test]
fn test_count_by_stage() {
    let mut log = ErrorLog::new();
    log.record("classify", "a.txt", "err", "");
    log.record("classify", "b.txt", "err", "");
    log.record("verify", "c.txt", "err", "");
    let counts = log.count_by_stage();
    assert_eq!(counts[0], ("classify".to_string(), 2));
}

#[test]
fn the_oldest_entries_leave_first() {
    let mut log = ErrorLog::new();
    for i in 0..1005 {
        log.record("s", &format!("{}.txt", i), "e", "c");
    }
    assert_eq!(log.entries.len(), 1000);
    assert_eq!(log.entries[0].file, "5.txt");
    assert_eq!(log.entries[999].file, "1004.txt");
    assert_eq!(log.recent(2000).len(), 1000);
    assert_eq!(log.recent(0).len(), 0);
}

#[test]
fn counts_cover_every_stage_once() {
    let mut log = ErrorLog::new();
    log.record("a", "1", "e", "");
    log.record("b", "2", "e", "");
    log.record("b", "3", "e", "");
    log.record("c", "4", "e", "");
    log.record("b", "5", "e", "");
    let counts = log.count_by_stage();
    assert_eq!(counts.len(), 3);
    assert_eq!(counts[0], ("b".to_string(), 3));
    assert!(counts.contains(&("a".to_string(), 1)));
    assert!(counts.contains(&("c".to_string(), 1)));
    assert!(ErrorLog::new().count_by_stage().is_empty());
}
