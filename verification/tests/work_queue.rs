use file_pipeline_core::digest::compute_hash;
use file_pipeline_core::work_queue::{BatchPlan, ScannedFile, WorkQueue, WorkStatus};

fn file(name: &str, content: &str) -> ScannedFile {
    ScannedFile {
        key: name.to_string(),
        path: format!("/inbox/{}", name),
        size: content.len() as u64,
        hash: compute_hash(content.as_bytes()),
    }
}

#[test]
fn test_new_queue_empty() {
    let q = WorkQueue::new();
    let stats = q.stats();
    assert_eq!(stats.total, 0);
}

#[test]
fn test_scan_new_files() {
    let files = vec![file("a.txt", "small file"), file("b.txt", "another small file")];
    let mut q = WorkQueue::new();
    let plan = q.plan_from_scan(&files);
    assert_eq!(plan.small_files.len(), 2);
    assert_eq!(plan.large_files.len(), 0);
    assert_eq!(q.stats().pending, 2);
}

#[test]
fn test_mark_done_and_rescan_skips() {
    let files = vec![file("a.txt", "content")];
    let mut q = WorkQueue::new();
    let plan1 = q.plan_from_scan(&files);
    assert_eq!(plan1.small_files.len(), 1);
    q.mark_done("/inbox/a.txt");
    let plan2 = q.plan_from_scan(&files);
    assert_eq!(plan2.small_files.len(), 0);
    assert_eq!(plan2.skipped, 1);
}

#[test]
fn test_detect_modified() {
    let mut q = WorkQueue::new();
    q.plan_from_scan(&[file("a.txt", "original")]);
    q.mark_done("/inbox/a.txt");
    let plan = q.plan_from_scan(&[file("a.txt", "modified content")]);
    assert_eq!(plan.modified_files.len(), 1);
}

#[test]
fn test_detect_deleted() {
    let mut q = WorkQueue::new();
    q.plan_from_scan(&[file("a.txt", "content")]);
    q.mark_done("/inbox/a.txt");
    let plan = q.plan_from_scan(&[]);
    assert_eq!(plan.deleted_ids.len(), 1);
}

#[test]
fn test_large_file_classification() {
    let big = "x".repeat(50_000);
    let files = vec![file("big.txt", &big), file("small.txt", "tiny")];
    let mut q = WorkQueue::new();
    let plan = q.plan_from_scan(&files);
    assert_eq!(plan.large_files.len(), 1);
    assert_eq!(plan.small_files.len(), 1);
}

#[test]
fn test_mark_failed_increments_retries() {
    let mut q = WorkQueue::new();
    q.plan_from_scan(&[file("fail.txt", "bad file")]);
    q.mark_failed("/inbox/fail.txt", "LLM 오류");
    q.mark_failed("/inbox/fail.txt", "LLM 오류 2");
    let item = q.get("fail.txt").expect("item");
    match &item.status {
        WorkStatus::Failed { retries, .. } => assert_eq!(*retries, 2),
        _ => panic!("should be Failed"),
    }
}

#[test]
fn test_purge_deleted() {
    let mut q = WorkQueue::new();
    q.plan_from_scan(&[file("a.txt", "content")]);
    q.mark_done("/inbox/a.txt");
    q.plan_from_scan(&[]);
    assert_eq!(q.stats().deleted, 1);
    q.purge_deleted();
    assert_eq!(q.stats().total, 0);
}

// Further cases.

#[test]
fn small_files_come_smallest_first() {
    let files = vec![file("c.txt", "ccccc"), file("a.txt", "a"), file("b.txt", "bbb")];
    let mut q = WorkQueue::new();
    let plan = q.plan_from_scan(&files);
    assert_eq!(plan.small_files, vec!["/inbox/a.txt", "/inbox/b.txt", "/inbox/c.txt"]);
}

#[test]
fn threshold_is_inclusive_for_small() {
    let at = "y".repeat(40_000);
    let over = "z".repeat(40_001);
    let mut q = WorkQueue::new();
    let plan = q.plan_from_scan(&[file("at.txt", &at), file("over.txt", &over)]);
    assert_eq!(plan.small_files, vec!["/inbox/at.txt"]);
    assert_eq!(plan.large_files, vec!["/inbox/over.txt"]);
    assert!(q.get("over.txt").unwrap().is_large);
    assert!(!q.get("at.txt").unwrap().is_large);
}

#[test]
fn retry_all_failed_resets_to_pending() {
    let mut q = WorkQueue::new();
    q.plan_from_scan(&[file("a.txt", "1"), file("b.txt", "2")]);
    q.mark_failed("/inbox/a.txt", "x");
    q.mark_failed_at("/inbox/b.txt", "y", "2026-01-01T00:00:00+00:00");
    assert_eq!(q.stats().failed, 2);
    assert_eq!(q.retry_all_failed(), 2);
    let s = q.stats();
    assert_eq!(s.failed, 0);
    assert_eq!(s.pending, 2);
}

#[test]
fn failed_files_are_planned_again() {
    let files = vec![file("a.txt", "1")];
    let mut q = WorkQueue::new();
    q.plan_from_scan(&files);
    q.mark_failed("/inbox/a.txt", "boom");
    let plan = q.plan_from_scan(&files);
    assert_eq!(plan.small_files, vec!["/inbox/a.txt"]);
}

#[test]
fn processing_files_are_neither_planned_nor_skipped() {
    let files = vec![file("a.txt", "1")];
    let mut q = WorkQueue::new();
    q.plan_from_scan(&files);
    q.mark_processing("/inbox/a.txt");
    let plan = q.plan_from_scan(&files);
    assert!(plan.small_files.is_empty());
    assert_eq!(plan.skipped, 0);
    assert_eq!(q.stats().processing, 1);
}

#[test]
fn deleted_id_is_the_hash_and_modified_takes_new_hash() {
    let mut q = WorkQueue::new();
    q.plan_from_scan(&[file("a.txt", "one"), file("b.txt", "two")]);
    q.mark_done_at("/inbox/a.txt", "t1");
    q.mark_done_at("/inbox/b.txt", "t1");
    let plan = q.plan_from_scan_at(&[file("b.txt", "three")], "t2");
    assert_eq!(plan.deleted_ids, vec![compute_hash(b"one")]);
    assert_eq!(plan.modified_files, vec!["/inbox/b.txt"]);
    let b = q.get("b.txt").unwrap();
    assert_eq!(b.hash, compute_hash(b"three"));
    assert_eq!(b.status, WorkStatus::Modified);
    assert_eq!(b.updated_at, "t2");
    assert_eq!(q.get("a.txt").unwrap().status, WorkStatus::Deleted);
}

#[test]
fn ensure_item_adds_once() {
    let mut q = WorkQueue::new();
    q.ensure_item_at("/x/new.txt", 10, "h", "t");
    q.ensure_item_at("/x/new.txt", 99, "h2", "t");
    q.ensure_item("", 1, "h");
    let s = q.stats();
    assert_eq!(s.total, 1);
    assert_eq!(s.total_bytes, 10);
    assert_eq!(q.get("new.txt").unwrap().created_at, "t");
}

#[test]
fn unknown_paths_are_passed_over() {
    let mut q = WorkQueue::new();
    q.mark_done("/nowhere/z.txt");
    q.mark_failed("/nowhere/z.txt", "r");
    assert_eq!(q.stats().total, 0);
}

#[test]
fn plan_totals() {
    let mut plan = BatchPlan::default();
    assert!(plan.is_empty());
    assert_eq!(plan.total_work(), 0);
    plan.deleted_ids.push("h".to_string());
    assert!(!plan.is_empty());
    plan.small_files.push("a".to_string());
    plan.large_files.push("b".to_string());
    plan.modified_files.push("c".to_string());
    assert_eq!(plan.total_work(), 3);
}
