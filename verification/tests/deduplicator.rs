use file_pipeline_core::deduplicator::{render_changes, render_diff, DiffTag};

#[test]
fn test_render_diff() {
    let old = "줄1\n줄2\n줄3\n";
    let new = "줄1\n줄2 수정\n줄3\n줄4\n";
    let diff = render_diff("old.txt", "new.txt", old, new);
    assert!(diff.contains("+"));
    assert!(diff.contains("-"));
}

#[test]
fn rendered_diff_is_exact() {
    let diff = render_diff("old.txt", "new.txt", "줄1\n줄2\n줄3\n", "줄1\n줄2 수정\n줄3\n줄4\n");
    assert_eq!(
        diff,
        "── DIFF ─────────────────────────────────────\n--- 기존: old.txt\n+++ 신규: new.txt\n 줄1\n-줄2\n+줄2 수정\n 줄3\n+줄4\n──────────────────────────────────────────────\n  +2 추가  -1 삭제\n"
    );
}

#[test]
fn lines_without_a_break_get_one() {
    let changes = vec![(DiffTag::Delete, "a".to_string()), (DiffTag::Insert, "b\n".to_string())];
    assert_eq!(
        render_changes("x", "y", &changes),
        "── DIFF ─────────────────────────────────────\n--- 기존: x\n+++ 신규: y\n-a\n+b\n──────────────────────────────────────────────\n  +1 추가  -1 삭제\n"
    );
    assert!(render_diff("a", "b", "same\n", "same\n").ends_with("  +0 추가  -0 삭제\n"));
}
