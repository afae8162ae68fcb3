use file_pipeline_core::cross_reference::RelationType;
use file_pipeline_core::wiki_export::{KgQueryEngine, KgStats, WikiExporter, extract_summary, generate_index, split_meta_content, ExportReport, IndexEntry};

#[test]
fn test_split_meta_content() {
    let content = "=== META ===\nsource: test\n=== CONTENT ===\n\nbody text";
    let (meta, body) = split_meta_content(content);
    assert!(meta.contains("source: test"));
    assert!(body.contains("body text"));
}

#[test]
fn test_split_meta_content_no_marker() {
    let content = "plain text without marker";
    let (meta, body) = split_meta_content(content);
    assert!(meta.is_empty());
    assert_eq!(body, content);
}

#[test]
fn test_extract_summary() {
    let meta = "source: test.txt\ntype: meeting\nsummary: 핵심 요약 내용";
    assert_eq!(extract_summary(meta), "핵심 요약 내용");
}

#[test]
fn test_extract_summary_missing() {
    let meta = "source: test.txt\ntype: meeting";
    assert_eq!(extract_summary(meta), "");
}

#[test]
fn test_generate_index() {
    let entries = vec![
        IndexEntry {
            title: "회의록_0401".into(),
            path: "meeting/회의록_0401.md".into(),
            doc_types: vec!["meeting".into()],
            summary: "4월 1일 회의".into(),
        },
        IndexEntry {
            title: "학습_rust".into(),
            path: "study/학습_rust.md".into(),
            doc_types: vec!["study".into()],
            summary: "Rust 학습".into(),
        },
    ];
    let index = generate_index(&entries);
    assert!(index.contains("총 2 문서"));
    assert!(index.contains("meeting"));
    assert!(index.contains("study"));
    assert!(index.contains("[회의록_0401]"));
}

#[test]
fn split_takes_first_marker_exactly() {
    let (meta, body) = split_meta_content("a=== CONTENT ===b=== CONTENT ===c");
    assert_eq!(meta, "a");
    assert_eq!(body, "b=== CONTENT ===c");
}

#[test]
fn summary_edge_cases() {
    assert_eq!(extract_summary("  summary_line no colon\nsummary: later"), "");
    assert_eq!(extract_summary("summary:  a: b  "), "a: b");
    assert_eq!(extract_summary("x\r\n  summary :  s \r\n"), "s");
}

#[test]
fn index_is_exact_and_sorted() {
    let e = |t: &str, p: &str, ty: Vec<&str>, s: &str| IndexEntry {
        title: t.into(),
        path: p.into(),
        doc_types: ty.into_iter().map(String::from).collect(),
        summary: s.into(),
    };
    let entries = vec![
        e("b", "pb", vec!["zeta"], "sb"),
        e("a", "pa", vec![], "sa"),
        e("c", "pc", vec!["zeta", "x"], "sc"),
    ];
    let index = generate_index(&entries);
    assert_eq!(
        index,
        "# 문서 인덱스\n\n총 3 문서\n\n## etc (1 문서)\n\n- [a](pa) — sa\n\n## zeta (2 문서)\n\n- [b](pb) — sb\n- [c](pc) — sc\n\n"
    );
}

#[test]
fn export_report_default() {
    let r = ExportReport::default();
    assert_eq!((r.total, r.exported, r.errors.len()), (0, 0, 0));
}

#[test]
fn page_names_drop_the_txt_suffix() {
    assert_eq!(WikiExporter::page_name("/data/processed/report.txt.zst", "id1"), "report");
    assert_eq!(WikiExporter::page_name("notes.md", "id1"), "notes");
    assert_eq!(WikiExporter::page_name("", "id1"), "id1");
    assert_eq!(WikiExporter::type_dir(&vec!["meeting".to_string(), "todo".to_string()]), "meeting");
    assert_eq!(WikiExporter::type_dir(&vec![]), "etc");
}

#[test]
fn pages_carry_trimmed_parts_and_backlinks() {
    let links = vec![
        ("doc_b".to_string(), RelationType::References),
        ("doc_c".to_string(), RelationType::Updates),
    ];
    let b = WikiExporter::backlinks(&links);
    assert_eq!(b, "\n\n## 관련 문서\n\n- [[doc_b]] (references)\n- [[doc_c]] (updates)\n");
    assert_eq!(WikiExporter::backlinks(&vec![]), "");
    let page = WikiExporter::page_content("  title: x\n", "\n본문\n", &b);
    assert_eq!(page, format!("---\ntitle: x\n---\n\n본문{}\n", b));
    assert_eq!(WikiExporter::page_content("", "", ""), "---\n\n---\n\n\n");
}

#[test]
fn graph_stats_find_the_first_hub() {
    let d = vec![
        ("a".to_string(), 2usize),
        ("b".to_string(), 0),
        ("c".to_string(), 3),
        ("d".to_string(), 3),
        ("e".to_string(), 0),
    ];
    let s = KgQueryEngine::stats(&d);
    assert_eq!(
        s,
        KgStats { total_nodes: 5, total_edges: 4, isolated_nodes: 2, hub_node: "c".to_string(), hub_degree: 3 }
    );
    let empty = KgQueryEngine::stats(&vec![("x".to_string(), 0)]);
    assert_eq!((empty.hub_node.as_str(), empty.hub_degree, empty.isolated_nodes), ("", 0, 1));
}

#[test]
fn paths_prefer_direct_relations() {
    let s = |v: &[&str]| v.iter().map(|x| x.to_string()).collect::<Vec<String>>();
    let direct = s(&["m1", "t", "m2"]);
    let second = vec![s(&["t"]), s(&[]), s(&["t"])];
    assert_eq!(KgQueryEngine::find_paths("s", "t", &direct, &second), vec![s(&["s", "t"])]);
    let direct = s(&["m1", "m2"]);
    let second = vec![s(&["t", "x", "t"]), s(&["t"])];
    assert_eq!(
        KgQueryEngine::find_paths("s", "t", &direct, &second),
        vec![s(&["s", "m1", "t"]), s(&["s", "m1", "t"]), s(&["s", "m2", "t"])]
    );
    assert!(KgQueryEngine::find_paths("s", "t", &s(&["a"]), &vec![s(&["b"])]).is_empty());
}
