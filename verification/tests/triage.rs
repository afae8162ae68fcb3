use file_pipeline_core::classifier::SensitivityDetector;
use file_pipeline_core::incremental::CompileState;
use file_pipeline_core::triage::{
    fragment_keywords, fragment_name, fragment_text, route_by_hash, route_incoming, FileRoute,
    HashRoute,
};

fn detector() -> SensitivityDetector {
    SensitivityDetector::new(vec![], vec![])
}

#[test]
fn sensitive_file_name_routes_before_reading() {
    let r = route_incoming(&detector(), "inbox/계약서_2026.pdf", Some("일반 내용"), &[], 100);
    match r {
        FileRoute::Sensitive(reason) => assert!(reason.contains("계약")),
        other => panic!("expected sensitive, got {:?}", other),
    }
}

#[test]
fn personal_data_in_text_routes_as_sensitive() {
    let r = route_incoming(&detector(), "memo.txt", Some("이메일: john@example.com"), &[], 100);
    match r {
        FileRoute::Sensitive(reason) => assert!(reason.contains("PII")),
        other => panic!("expected sensitive, got {:?}", other),
    }
}

#[test]
fn short_note_is_a_fragment_with_trimmed_text() {
    let r = route_incoming(&detector(), "memo.txt", Some("  우유 사기  \n"), &[], 100);
    assert_eq!(r, FileRoute::Fragment("우유 사기".to_string()));
    // "우유 사기" is 13 bytes: a threshold of 12 is too small
    let r = route_incoming(&detector(), "memo.txt", Some("  우유 사기  \n"), &[], 12);
    assert_eq!(r, FileRoute::Continue);
    let r = route_incoming(&detector(), "memo.txt", Some("  우유 사기  \n"), &[], 13);
    assert_eq!(r, FileRoute::Fragment("우유 사기".to_string()));
}

#[test]
fn no_threshold_blank_or_unreadable_text_continues() {
    assert_eq!(route_incoming(&detector(), "memo.txt", Some("note"), &[], 0), FileRoute::Continue);
    assert_eq!(route_incoming(&detector(), "memo.txt", Some(" \n\t"), &[], 100), FileRoute::Continue);
    assert_eq!(route_incoming(&detector(), "memo.txt", None, &[], 100), FileRoute::Continue);
}

#[test]
fn hash_route_checks_index_then_compile_state() {
    let mut state = CompileState::new();
    assert_eq!(route_by_hash(false, &state, "a.txt", "h1"), HashRoute::Process);
    assert_eq!(route_by_hash(true, &state, "a.txt", "h1"), HashRoute::Duplicate);
    state.record_compile("a.txt", "h1", 10, 5);
    assert_eq!(route_by_hash(false, &state, "a.txt", "h1"), HashRoute::Unchanged);
    assert_eq!(route_by_hash(false, &state, "a.txt", "h2"), HashRoute::Process);
}

#[test]
fn fragment_keywords_keep_first_ten_words_of_two_chars() {
    let kws = fragment_keywords("a bb 가 나다 c dd ee ff gg hh ii jj kk ll");
    assert_eq!(kws, vec!["bb", "나다", "dd", "ee", "ff", "gg", "hh", "ii", "jj", "kk"]);
    assert!(fragment_keywords(" x y ").is_empty());
}

#[test]
fn fragment_name_and_text() {
    assert_eq!(fragment_name("inbox/memo.txt"), "memo.txt");
    assert_eq!(fragment_name(""), "fragment");
    assert_eq!(
        fragment_text("memo.txt", "2026-05-01", "우유 사기"),
        "=== META ===\nsource: memo.txt\ndoc_types: fragment\ndate: 2026-05-01\n=== CONTENT ===\n우유 사기"
    );
}

#[test]
fn feedback_lists_details_one_per_line() {
    let details = vec!["FAIL: a".to_string(), "WARNING: b".to_string()];
    assert_eq!(
        file_pipeline_core::triage::reprocess_feedback(&details),
        "이전 가공 결과에서 문제 발견:\nFAIL: a\nWARNING: b\n위 문제를 보완하여 다시 가공하세요."
    );
}
