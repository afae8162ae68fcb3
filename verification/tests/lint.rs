use file_pipeline_core::cross_reference::RelationType;
use file_pipeline_core::lint::{strong_claim_issues, topic_contradictions, LintIssueType, Linter};
use file_pipeline_core::models::{CorpusDoc, DocRelation};

fn doc(id: &str, types: &[&str], targets: &[&str]) -> CorpusDoc {
    CorpusDoc {
        id: id.to_string(),
        path: format!("{}.zst", id),
        doc_types: types.iter().map(|t| t.to_string()).collect(),
        relations: targets
            .iter()
            .map(|t| DocRelation {
                source_id: id.to_string(),
                target_id: t.to_string(),
                relation: RelationType::References,
            })
            .collect(),
    }
}

#[test]
fn test_lint_orphan_detection() {
    let docs = vec![doc("orphan_doc", &["meeting"], &[])];
    let report = Linter::lint(&docs);
    assert!(report.orphan_docs.contains(&"orphan_doc".to_string()));
    assert!(report.issues.iter().any(|i| i.issue_type == LintIssueType::Orphan));
}

#[test]
fn test_lint_missing_backlink() {
    let docs = vec![doc("doc_a", &["meeting"], &["doc_b"]), doc("doc_b", &["report"], &[])];
    let report = Linter::lint(&docs);
    assert!(report.issues.iter().any(|i| i.issue_type == LintIssueType::MissingBacklink));
}

#[test]
fn test_lint_no_type() {
    let docs = vec![doc("untyped", &[], &[])];
    let report = Linter::lint(&docs);
    assert!(report.issues.iter().any(|i| i.doc_id == "untyped" && i.issue_type == LintIssueType::DuplicateTopic));
}

#[test]
fn lint_lists_findings_in_order() {
    let docs = vec![
        doc("a", &["meeting"], &["b", "c"]),
        doc("b", &[], &["a"]),
        doc("c", &["todo"], &[]),
    ];
    let report = Linter::lint(&docs);
    assert_eq!(report.orphan_docs, vec!["c".to_string()]);
    let got: Vec<(String, LintIssueType, String)> =
        report.issues.iter().map(|i| (i.doc_id.clone(), i.issue_type, i.description.clone())).collect();
    assert_eq!(
        got,
        vec![
            ("b".to_string(), LintIssueType::DuplicateTopic, "유형 없는 문서".to_string()),
            ("c".to_string(), LintIssueType::Orphan, "관계 없는 고아 문서: \"c.zst\"".to_string()),
            ("a".to_string(), LintIssueType::MissingBacklink, "a → c 관계에 역방향 백링크 없음".to_string()),
        ]
    );
}

#[test]
fn contradiction_marks_are_found_by_line() {
    let issues = topic_contradictions("topic.md", "## 주제\n정상 내용\n  ⚠️ 모순 발견: A와 B가 충돌 \n⚠️ 경고만\n");
    assert_eq!(issues.len(), 1);
    assert_eq!(issues[0].issue_type, LintIssueType::Contradiction);
    assert_eq!(issues[0].doc_id, "topic.md");
    assert_eq!(issues[0].description, "3줄: ⚠️ 모순 발견: A와 B가 충돌");
}

#[test]
fn strong_claims_are_capped_per_document() {
    let many = strong_claim_issues("doc_many", "반드시 A. 항상 B. 절대 C. 모든 D. 완벽히 E. 결코 F.", 3);
    assert_eq!(many.len(), 3);
    assert!(strong_claim_issues("doc_empty", "", 5).is_empty());
    let one = strong_claim_issues("doc_strong", "이 방법은 확실히 빠릅니다. 다른 방법도 가능성이 있습니다.", 5);
    assert_eq!(one.len(), 1);
    assert_eq!(one[0].issue_type, LintIssueType::StrongClaim);
    assert!(one[0].description.contains("확실히"));
    assert_eq!(strong_claim_issues("d", "반드시 A. 항상 B.", 0).len(), 1);
}

fn texts(v: &[(&str, &str)]) -> Vec<(String, String)> {
    v.iter().map(|(a, b)| (a.to_string(), b.to_string())).collect()
}

#[test]
fn test_lint_strong_claims_detects_marker_sentence() {
    let docs = texts(&[("doc_strong", "이 방법은 확실히 빠릅니다. 다른 방법도 가능성이 있습니다.")]);
    let issues = Linter::lint_strong_claims(&docs, 5);
    assert_eq!(issues.len(), 1);
    assert_eq!(issues[0].issue_type, LintIssueType::StrongClaim);
    assert!(issues[0].description.contains("확실히"));
}

#[test]
fn test_lint_strong_claims_skip_empty() {
    let docs = texts(&[("doc_empty", "")]);
    let issues = Linter::lint_strong_claims(&docs, 5);
    assert!(issues.is_empty(), "빈 본문은 스킵");
}

#[test]
fn test_lint_strong_claims_max_per_doc() {
    let docs = texts(&[("doc_many", "반드시 A. 항상 B. 절대 C. 모든 D. 완벽히 E. 결코 F.")]);
    let issues = Linter::lint_strong_claims(&docs, 3);
    assert_eq!(issues.len(), 3, "max_per_doc 상한 적용");
}

#[test]
fn strong_claims_of_several_documents_come_in_document_order() {
    let docs = texts(&[("a", "항상 A."), ("b", ""), ("c", "반드시 C. 절대 D.")]);
    let issues = Linter::lint_strong_claims(&docs, 0);
    let ids: Vec<&str> = issues.iter().map(|i| i.doc_id.as_str()).collect();
    // a cap of 0 still lets one finding per document through
    assert_eq!(ids, vec!["a", "c"]);
}
