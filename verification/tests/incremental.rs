use file_pipeline_core::incremental::{BenchmarkReport, CompileState, CompileStats};

#[test]
fn test_compile_state_change_detection() {
    let mut state = CompileState::new();
    assert!(state.is_changed("file.txt", "abc123"));

    state.record_compile("file.txt", "abc123", 1000, 300);
    assert!(!state.is_changed("file.txt", "abc123"));
    assert!(state.is_changed("file.txt", "def456"));
}

#[test]
fn incremental_test_token_estimation() {
    assert_eq!(BenchmarkReport::estimate_tokens(1000), 500);
}

#[test]
fn test_new_file_is_changed() {
    let state = CompileState::new();
    assert!(state.is_changed("file.txt", "abc123"));
}

#[test]
fn test_same_hash_not_changed() {
    let mut state = CompileState::new();
    state.record_compile("file.txt", "abc123", 1000, 500);
    assert!(!state.is_changed("file.txt", "abc123"));
}

#[test]
fn test_different_hash_is_changed() {
    let mut state = CompileState::new();
    state.record_compile("file.txt", "abc123", 1000, 500);
    assert!(state.is_changed("file.txt", "def456"));
}

#[test]
fn test_stats_recalc() {
    let mut state = CompileState::new();
    state.record_compile("a.txt", "h1", 1000, 500);
    state.record_compile("b.txt", "h2", 2000, 600);
    assert_eq!(state.stats.total_files, 2);
    assert_eq!(state.stats.total_input_chars, 3000);
    assert_eq!(state.stats.total_output_chars, 1100);
}

#[test]
fn tests_test_token_estimation() {
    assert_eq!(BenchmarkReport::estimate_tokens(1000), 500);
    assert_eq!(BenchmarkReport::estimate_tokens(0), 0);
}

#[test]
fn recompiling_a_file_replaces_its_record() {
    let mut state = CompileState::new();
    state.record_compile_at("a.txt", "h1", 1000, 500, "2026-01-01T00:00:00");
    state.record_compile_at("b.txt", "h2", 11, 3, "2026-01-01T00:00:01");
    state.record_compile_at("a.txt", "h3", 10, 4, "2026-01-02T00:00:00");
    assert_eq!(state.entries().len(), 2);
    assert_eq!(state.entries()[0].0, "a.txt");
    assert_eq!(state.entries()[0].1.hash, "h3");
    assert_eq!(state.entries()[0].1.compiled_at, "2026-01-02T00:00:00");
    assert!(state.is_changed("a.txt", "h1"));
    assert!(!state.is_changed("a.txt", "h3"));
    assert!(!state.is_changed("b.txt", "h2"));
    assert_eq!(
        state.stats,
        CompileStats {
            total_files: 2,
            total_input_chars: 21,
            total_output_chars: 7,
            estimated_input_tokens: 10,
            estimated_output_tokens: 3,
        }
    );
}

#[test]
fn entries_with_a_repeated_path_are_refused() {
    let s = CompileState::new();
    let mut e = s.entries().clone();
    let mut t = CompileState::new();
    t.record_compile_at("x", "h", 1, 1, "t");
    e.push(t.entries()[0].clone());
    let one = CompileState::from_entries(e.clone()).unwrap();
    assert_eq!(one.stats.total_files, 1);
    e.push(t.entries()[0].clone());
    assert!(CompileState::from_entries(e).is_none());
}

#[test]
fn totals_that_overflow_are_refused() {
    let mut t = CompileState::new();
    t.record_compile_at("x", "h", u64::MAX, 0, "t");
    let mut e = t.entries().clone();
    let mut u = CompileState::new();
    u.record_compile_at("y", "h", 1, 0, "t");
    e.push(u.entries()[0].clone());
    assert!(CompileState::from_entries(e).is_none());
    assert_eq!(t.stats.estimated_input_tokens, u64::MAX / 2);
}
