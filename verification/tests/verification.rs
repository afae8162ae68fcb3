use file_pipeline_core::reasoning::Verifier;
use file_pipeline_core::verification::{
    detect_strong_claims, entity_hits, keyword_hits, keyword_presence_hits, rouge_l_counts, section_hits,
    structure_hits,
};

#[test]
fn test_detect_strong_claims_korean() {
    let text = "이 방법은 확실히 빠릅니다. 다른 방법보다 항상 우월합니다. 일부 경우엔 다를 수 있습니다.";
    let hits = detect_strong_claims(text);
    assert_eq!(hits.len(), 2, "확실히/항상 두 문장 검출, 일부 경우는 제외: {:?}", hits);
}

#[test]
fn test_detect_strong_claims_english() {
    let text = "This is always fast. Sometimes it could be slower. Never use this in production.";
    let hits = detect_strong_claims(text);
    assert_eq!(hits.len(), 2, "always / never 검출: {:?}", hits);
}

#[test]
fn test_detect_strong_claims_none() {
    let text = "이 방법은 빠를 수 있습니다. 다른 방법이 더 나을 가능성이 있습니다.";
    let hits = detect_strong_claims(text);
    assert!(hits.is_empty(), "약한 표현만 있으면 검출 없음: {:?}", hits);
}

#[test]
fn test_detect_strong_claims_dedup() {
    let text = "반드시 확인하세요. 반드시 확인하세요.";
    let hits = detect_strong_claims(text);
    assert_eq!(hits.len(), 1, "동일 문장은 dedup");
}

#[test]
fn test_verifier_default() {
    let v = Verifier::new();
    let v2 = Verifier;
    assert_eq!(format!("{:?}", v), format!("{:?}", v2));
}

#[test]
fn test_verifier_detect_strong_claims_passthrough() {
    let v = Verifier::new();
    let claims = v.detect_strong_claims("이 방법은 확실히 모든 경우에 작동한다.");
    assert!(!claims.is_empty());
}

#[test]
fn test_verifier_no_claims() {
    let v = Verifier::new();
    let claims = v.detect_strong_claims("일반적으로 권장됩니다.");
    assert!(claims.is_empty());
}

#[test]
fn claims_are_the_trimmed_sentences_in_order() {
    let hits = detect_strong_claims("  This is ALWAYS true!\n그리고 절대 안 됩니다？ ok");
    assert_eq!(hits, vec!["This is ALWAYS true", "그리고 절대 안 됩니다"]);
}

#[test]
fn long_claims_are_cut_with_an_ellipsis() {
    let sentence = format!("항상 {}", "가".repeat(250));
    let hits = detect_strong_claims(&sentence);
    assert_eq!(hits.len(), 1);
    assert_eq!(hits[0].chars().count(), 201);
    assert!(hits[0].ends_with('…'));
}

#[test]
fn rouge_counts_the_common_words() {
    let (lcs, m) = rouge_l_counts("오늘 회의에서 프로젝트 일정을 논의했다", "회의에서 프로젝트 일정을 다뤘다");
    assert_eq!((lcs, m), (3, 5));
    assert_eq!(rouge_l_counts("", "a b"), (0, 0));
    assert_eq!(rouge_l_counts("a b c", "a b c"), (3, 3));
    assert_eq!(rouge_l_counts("a b c d", "d c b a"), (1, 4));
}

#[test]
fn structure_and_keywords_are_counted() {
    let processed = "=== 결정사항 ===\n내용\n=== 액션아이템 ===\n항목\n=== 다음안건 ===\n안건";
    let req: Vec<String> = vec!["결정사항".into(), "액션아이템".into(), "다음안건".into(), "없음".into()];
    assert_eq!(structure_hits(processed, &req), 3);
    let names: Vec<String> = vec!["결정사항".into(), "액션아이템".into()];
    assert_eq!(section_hits(&names, &req), 2);
    let kws: Vec<String> = vec!["NVIDIA".into(), "gpu".into(), "tpu".into()];
    assert_eq!(keyword_hits("Nvidia H100 GPU cluster", &kws), 2);
}

#[test]
fn entities_and_top_keywords() {
    assert_eq!(entity_hits("2026-04-05에 매출 1,234,567원 달성", "2026-04-05 매출 1,234,567원 기록"), (3, 3));
    assert_eq!(entity_hits("2025-01-01에 매출 999원 달성", "2026-04-05에 매출 1,234,567원 달성"), (0, 3));
    assert_eq!(entity_hits("x", "no entities"), (0, 0));
    assert_eq!(
        keyword_presence_hits("NVIDIA H100 GPU 클러스터 3200대 배포 완료 보고서", "NVIDIA H100 클러스터 배포 완료"),
        (5, 8)
    );
    assert_eq!(keyword_presence_hits("the a 은 는 x", "anything"), (0, 0));
    assert_eq!(keyword_presence_hits("(Rust), rust! RUST go", "rust"), (1, 2));
}
