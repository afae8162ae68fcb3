use file_pipeline_core::classifier::{SensitivityDecision, SensitivityDetector};

#[test]
fn test_sensitive_keyword() {
    let d = SensitivityDetector::default();
    let (sensitive, reason) = d.is_sensitive("계약서_2026.pdf");
    assert!(sensitive);
    assert!(reason.unwrap().contains("계약"));
}

#[test]
fn test_not_sensitive() {
    let d = SensitivityDetector::default();
    let (sensitive, _) = d.is_sensitive("meeting_notes.txt");
    assert!(!sensitive);
}

#[test]
fn test_pii_ssn_kr() {
    let hits = SensitivityDetector::scan_pii_in_text("주민번호 950101-1234567 확인 부탁");
    assert!(hits.iter().any(|h| h.kind == "ssn_kr"), "ssn_kr 매치: {:?}", hits);
}

#[test]
fn test_pii_credit_card_and_email() {
    let text = "카드: 4111-1111-1111-1111, 이메일: john.doe@example.com";
    let hits = SensitivityDetector::scan_pii_in_text(text);
    assert!(hits.iter().any(|h| h.kind == "credit_card"));
    assert!(hits.iter().any(|h| h.kind == "email"));
}

#[test]
fn test_pii_phone_kr() {
    let hits = SensitivityDetector::scan_pii_in_text("연락처 010-1234-5678");
    assert!(hits.iter().any(|h| h.kind == "phone_kr"));
}

#[test]
fn test_no_pii_in_clean_text() {
    let hits = SensitivityDetector::scan_pii_in_text("이번 주 회의 주제는 분기 OKR 정리입니다.");
    assert!(hits.is_empty(), "false positive: {:?}", hits);
}

#[test]
fn test_sensitive_with_content_triggers_on_pii() {
    let d = SensitivityDetector::default();
    let (sensitive, reason) = d.is_sensitive_with_content("memo.txt", "이메일: john@example.com");
    assert!(sensitive);
    assert!(reason.unwrap().contains("PII"));
}

#[test]
fn test_sensitive_with_content_path_takes_precedence() {
    let d = SensitivityDetector::default();
    let (sensitive, reason) = d.is_sensitive_with_content("계약서.pdf", "일반 내용");
    assert!(sensitive);
    assert!(reason.unwrap().contains("계약"));
}

#[test]
fn test_check_sensitive_and_pii_path_only_safe() {
    let d = SensitivityDetector::default();
    let dec = d.check_sensitive_and_pii("meeting_notes.txt", None, &[]);
    assert!(!dec.is_sensitive);
    assert!(dec.pii_hits.is_empty());
}

#[test]
fn test_check_sensitive_and_pii_path_sensitive() {
    let d = SensitivityDetector::default();
    let dec = d.check_sensitive_and_pii("계약서_2026.pdf", None, &[]);
    assert!(dec.is_sensitive);
    assert!(dec.reason.unwrap().contains("계약"));
    assert!(dec.pii_hits.is_empty());
}

#[test]
fn test_check_sensitive_and_pii_content_pii() {
    let d = SensitivityDetector::default();
    let dec = d.check_sensitive_and_pii("memo.txt", Some("이메일: john@example.com"), &[]);
    assert!(dec.is_sensitive);
    assert!(dec.reason.unwrap().contains("PII"));
    assert!(dec.pii_hits.iter().any(|h| h.kind == "email"));
}

#[test]
fn test_check_sensitive_and_pii_user_pattern() {
    let d = SensitivityDetector::default();
    let extra = vec![("custom_id".to_string(), r"\bACC-\d{6}\b".to_string())];
    let dec = d.check_sensitive_and_pii("memo.txt", Some("계좌 ACC-123456 참조"), &extra);
    assert!(dec.is_sensitive);
    assert!(dec.pii_hits.iter().any(|h| h.kind == "custom_id"));
}

#[test]
fn test_check_sensitive_and_pii_path_takes_precedence() {
    let d = SensitivityDetector::default();
    let dec = d.check_sensitive_and_pii("계약서.pdf", Some("이메일: a@b.com"), &[]);
    assert!(dec.is_sensitive);
    assert!(dec.reason.unwrap().contains("계약"));
    assert!(dec.pii_hits.is_empty());
}

#[test]
fn test_mask_pii_email() {
    let s = "연락처: john@example.com 으로 문의";
    let m = SensitivityDetector::mask_pii_in_text(s, &[]);
    assert!(m.contains("[REDACTED:email]"));
    assert!(!m.contains("john@example.com"));
}

#[test]
fn test_mask_pii_multiple() {
    let s = "주민 950101-1234567 / 카드 4111-1111-1111-1111";
    let m = SensitivityDetector::mask_pii_in_text(s, &[]);
    assert!(m.contains("[REDACTED:ssn_kr]"));
    assert!(m.contains("[REDACTED:credit_card]"));
}

#[test]
fn test_mask_pii_user_pattern() {
    let extra = vec![("token".to_string(), r"\bsk-[a-z0-9]{8}\b".to_string())];
    let s = "API key: sk-abcd1234 노출";
    let m = SensitivityDetector::mask_pii_in_text(s, &extra);
    assert!(m.contains("[REDACTED:token]"));
    assert!(!m.contains("sk-abcd1234"));
}

#[test]
fn test_mask_pii_no_op_on_clean() {
    let s = "이번 주 회의 주제";
    let m = SensitivityDetector::mask_pii_in_text(s, &[]);
    assert_eq!(m, s);
}

#[test]
fn test_sensitive_dir_path() {
    let d = SensitivityDetector::default();
    assert!(d.is_sensitive("/data/sensitive/report.txt").0);
    assert!(d.is_sensitive("/data/민감/file.txt").0);
}

#[test]
fn test_custom_keywords() {
    let d = SensitivityDetector::new(vec!["프로젝트X".into()], vec![]);
    assert!(d.is_sensitive("프로젝트X_기밀.txt").0);
    assert!(!d.is_sensitive("일반문서.txt").0);
}

#[test]
fn test_extension_plus_keyword() {
    let d = SensitivityDetector::default();
    assert!(d.is_sensitive("/계약서/file.pdf").0);
    assert!(!d.is_sensitive("report.pdf").0);
}

// Exact reasons and counts.

#[test]
fn reason_texts_are_exact() {
    let d = SensitivityDetector::default();
    assert_eq!(d.is_sensitive("/x/Sensitive/a.txt").1.unwrap(), "경로에 민감 디렉토리 포함");
    assert_eq!(d.is_sensitive("My_Contract.txt").1.unwrap(), "파일명에 민감 키워드 'contract' 포함");
    assert_eq!(
        d.is_sensitive("/legal/a.PDF").1.unwrap(),
        "민감 확장자 '.pdf' + 경로에 키워드 'legal'"
    );
}

#[test]
fn pii_reason_lists_kinds_with_counts() {
    let d = SensitivityDetector::default();
    let (s, r) = d.is_sensitive_with_content("memo.txt", "a@b.com and c@d.org");
    assert!(s);
    assert_eq!(r.unwrap(), "본문 PII 감지: email×2");
}

#[test]
fn invalid_user_pattern_is_passed_over() {
    let extra = vec![("bad".to_string(), "(".to_string())];
    let hits = SensitivityDetector::scan_pii_in_text_with("nothing here", &extra);
    assert!(hits.is_empty());
}

#[test]
fn safe_decision_is_empty() {
    let s = SensitivityDecision::safe();
    assert!(!s.is_sensitive);
    assert!(s.reason.is_none());
    assert!(s.pii_hits.is_empty());
}

#[test]
fn no_content_agrees_with_path_check() {
    let d = SensitivityDetector::default();
    for p in ["a/b/c.txt", "계약.hwp", "/sensitive/x", "report.pdf"] {
        let dec = d.check_sensitive_and_pii(p, None, &[]);
        let (s, r) = d.is_sensitive(p);
        assert_eq!(dec.is_sensitive, s);
        assert_eq!(dec.reason, r);
    }
}
