use file_pipeline_core::models::StoredDocSummary;
use file_pipeline_core::topic_merger::{
    auto_merge_needed, date_to_quarter, generate_cluster_index, generate_type_index,
    group_by_quarter, history_section, revision_history, revision_meta, revision_prompt,
    sanitize_filename, TopicMergeReport, AUTO_MERGE_THRESHOLD, clean_label, fallback_label,
    group_by_primary_type, label_prompt, needs_summary, summary_prompt, take_chars, topic_page,
    topic_prompt, DocSummary, clustering_done, group_clusters, merge_clusters,
    merged_cluster_size,
};

#[test]
fn test_date_to_quarter() {
    assert_eq!(date_to_quarter("2026-01-15"), "2026-Q1");
    assert_eq!(date_to_quarter("2026-04-05"), "2026-Q2");
    assert_eq!(date_to_quarter("2026-07-20"), "2026-Q3");
    assert_eq!(date_to_quarter("2026-12-31"), "2026-Q4");
    assert_eq!(date_to_quarter(""), "unknown");
    assert_eq!(date_to_quarter("invalid"), "unknown");
}

#[test]
fn test_sanitize_filename() {
    assert_eq!(sanitize_filename("hello-world_123"), "hello-world_123");
    assert_eq!(sanitize_filename("a/b\\c:d"), "a_b_c_d");
}

#[test]
fn test_group_by_quarter() {
    let dates = vec!["2026-01-10".to_string(), "2026-04-05".to_string(), "2026-01-20".to_string()];
    let groups = group_by_quarter(&dates);
    assert_eq!(groups.len(), 2);
    assert_eq!(groups[0].0, "2026-Q1");
    assert_eq!(groups[0].1.len(), 2);
}

#[test]
fn test_generate_type_index() {
    let links = vec![
        ("토픽A".to_string(), "토픽A.md".to_string(), 5usize),
        ("토픽B".to_string(), "토픽B.md".to_string(), 3usize),
    ];
    let index = generate_type_index("meeting", &links);
    assert!(index.contains("# meeting 종합"));
    assert!(index.contains("2 토픽"));
    assert!(index.contains("8 문서"));
}

#[test]
fn quarter_edge_cases() {
    assert_eq!(date_to_quarter("2026-+05"), "2026-Q2");
    assert_eq!(date_to_quarter("2026-xx-01"), "2026-Q1");
    assert_eq!(date_to_quarter("2026-13"), "2026-Q4");
    assert_eq!(date_to_quarter("2026-00"), "2026-Q4");
    assert_eq!(date_to_quarter("-3"), "-Q1");
    assert_eq!(date_to_quarter("2026-99999999999"), "2026-Q1");
}

#[test]
fn sanitize_strips_underscores_at_both_ends() {
    assert_eq!(sanitize_filename("__회의 록!__"), "회의_록");
    assert_eq!(sanitize_filename("///"), "");
}

#[test]
fn type_index_is_exact() {
    let links = vec![("A".to_string(), "a.md".to_string(), 2usize)];
    assert_eq!(
        generate_type_index("t", &links),
        "# t 종합\n\n> 1 토픽, 2 문서\n\n## 토픽 목록\n\n- [[a.md]] — A (2 문서)\n"
    );
}

#[test]
fn cluster_index_is_exact() {
    let q = vec![("2026-Q1".to_string(), 2usize), ("2026-Q2".to_string(), 1usize)];
    assert_eq!(
        generate_cluster_index("L", &q),
        "# L\n\n> 3 문서, 2 기간\n\n## 기간별\n\n- [[2026-Q1.md]] — 2026-Q1 (2 문서)\n- [[2026-Q2.md]] — 2026-Q2 (1 문서)\n"
    );
}

#[test]
fn revision_lines_are_collected() {
    let page = "<!-- revision: 2026-01-01 10:00 | 첫 수정 -->\n# T\n<!-- revision:<!-- revision: b -->-->\nbody\n";
    let h = revision_history(page);
    assert_eq!(h, vec!["2026-01-01 10:00 | 첫 수정".to_string(), "b".to_string()]);
    let section = history_section(&h);
    assert_eq!(section, "\n## 이전 수정 이력\n1. 2026-01-01 10:00 | 첫 수정\n2. b\n");
    assert_eq!(history_section(&vec![]), "");
}

#[test]
fn revision_prompt_and_meta() {
    let p = revision_prompt("fb", "H", "DOC");
    assert!(p.starts_with("아래 토픽 문서를 사용자 피드백에 따라 수정하세요.\n"));
    assert!(p.ends_with("## 이번 피드백\nfb\nH\n## 현재 문서\nDOC"));
    let long = "가".repeat(150);
    let m = revision_meta("2026-01-01 00:00", &long);
    assert_eq!(m, format!("<!-- revision: 2026-01-01 00:00 | {} -->\n", "가".repeat(100)));
}

#[test]
fn auto_merge_threshold() {
    let doc = |t: &[&str]| StoredDocSummary {
        id: "x".into(),
        path: "p".into(),
        doc_types: t.iter().map(|s| s.to_string()).collect(),
        date: String::new(),
    };
    let docs: Vec<_> = (0..4).map(|_| doc(&["meeting"])).chain(std::iter::once(doc(&[]))).collect();
    assert!(!auto_merge_needed(&docs, AUTO_MERGE_THRESHOLD));
    assert!(auto_merge_needed(&docs, 4));
    assert!(!auto_merge_needed(&[], 0));
    let r = TopicMergeReport::default();
    assert_eq!(r.topics_created, 0);
}

fn ds(id: &str, date: &str, content: &str) -> DocSummary {
    DocSummary { id: id.to_string(), date: date.to_string(), content: content.to_string() }
}

#[test]
fn long_documents_are_summarised_from_their_start() {
    assert!(!needs_summary(&"가".repeat(500)));
    assert!(needs_summary(&"가".repeat(501)));
    let p = summary_prompt(&"a".repeat(2500));
    assert_eq!(p, format!("이 문서를 200자 이내로 핵심만 요약하세요:\n\n{}", "a".repeat(2000)));
    assert_eq!(take_chars("한국어 텍스트", 3), "한국어");
    assert_eq!(take_chars("ab", 5), "ab");
}

#[test]
fn label_prompt_previews_five_documents() {
    let docs: Vec<DocSummary> = (0..7).map(|i| ds(&format!("d{}", i), "", &format!("c{}{}", i, "x".repeat(150)))).collect();
    let p = label_prompt(&docs);
    let previews: Vec<String> = (0..5).map(|i| format!("c{}{}", i, "x".repeat(98))).collect();
    assert_eq!(
        p,
        format!("아래 문서들의 공통 주제를 한국어 10자 이내로 요약하세요. 주제명만 출력.\n\n{}", previews.join("\n"))
    );
}

#[test]
fn labels_are_cleaned() {
    assert_eq!(clean_label("  회의 운영 \n설명"), "회의 운영");
    assert_eq!(clean_label("   "), "기타");
    assert_eq!(clean_label(""), "기타");
    assert_eq!(fallback_label(0), "토픽_1");
    assert_eq!(fallback_label(11), "토픽_12");
}

#[test]
fn topic_prompt_and_page() {
    let docs = vec![ds("a1", "2026-01-02", "첫 내용"), ds("b2", "", "둘째")];
    let p = topic_prompt("meeting", "예산", &docs);
    assert!(p.starts_with("meeting 유형 '예산' 토픽, 문서 2개를 종합하세요.\n\n## 지시사항\n1. 시간순 정렬"));
    assert!(p.ends_with("## 문서\n\n--- 문서 1 (2026-01-02) ---\n첫 내용\n\n--- 문서 2 ---\n둘째"));
    let page = topic_page("예산", "본문", &docs);
    assert_eq!(
        page,
        "# 예산\n\n[coverage: low -- 2 sources]\n\n> 2 문서 종합\n\n본문\n\n## 출처\n\n1. a1 (2026-01-02)\n2. b2 ()\n"
    );
    let many: Vec<DocSummary> = (0..10).map(|i| ds(&format!("x{}", i), "d", "c")).collect();
    assert!(topic_page("t", "c", &many).contains("[coverage: high -- 10 sources]"));
    assert!(topic_page("t", "c", &many[..3].to_vec()).contains("[coverage: medium -- 3 sources]"));
}

#[test]
fn documents_group_by_primary_type() {
    let d = |id: &str, types: &[&str]| StoredDocSummary {
        id: id.to_string(),
        path: format!("{}.zst", id),
        doc_types: types.iter().map(|t| t.to_string()).collect(),
        date: String::new(),
    };
    let docs = vec![d("a", &["meeting"]), d("b", &[]), d("c", &["todo", "meeting"]), d("e", &["meeting", "todo"])];
    let g = group_by_primary_type(&docs);
    assert_eq!(
        g,
        vec![
            ("meeting".to_string(), vec![0, 3]),
            ("etc".to_string(), vec![1]),
            ("todo".to_string(), vec![2]),
        ]
    );
}

#[test]
fn clusters_group_documents_by_id_in_first_appearance_order() {
    let clusters = group_clusters(&vec![7, 3, 7, 9, 3]);
    assert_eq!(clusters, vec![vec![0, 2], vec![1, 4], vec![3]]);
    assert!(group_clusters(&vec![]).is_empty());
    // every document lies in exactly one cluster
    let total: usize = clusters.iter().map(|c| c.len()).sum();
    assert_eq!(total, 5);
}

#[test]
fn merging_moves_the_second_cluster_into_the_first() {
    let mut a = vec![0, 1, 2, 1, 3];
    assert_eq!(merged_cluster_size(&a, 0, 1), 3);
    merge_clusters(&mut a, 0, 3);
    assert_eq!(a, vec![0, 0, 2, 0, 3]);
    assert_eq!(group_clusters(&a), vec![vec![0, 1, 3], vec![2], vec![4]]);
}

#[test]
fn clustering_stops_at_max_of_quotient_and_two() {
    assert!(!clustering_done(5, 5, 2));
    assert!(clustering_done(2, 5, 2));
    assert!(!clustering_done(11, 40, 4));
    assert!(clustering_done(10, 40, 4));
}

#[test]
fn sanitizing_twice_changes_nothing() {
    for s in ["hello-world_123", "a/b\\c:d", "__x y__", "///", ""] {
        let once = sanitize_filename(s);
        assert_eq!(sanitize_filename(&once), once);
    }
    assert_eq!(sanitize_filename("a/b\\c:d"), "a_b_c_d");
}
