use file_pipeline_core::search::{plan_search, recent_order, ResultMerge, StoreCall};
use file_pipeline_core::search::{hyde_text_usable, hyde_wanted, kg_expand, merge_new, related_expand};
use file_pipeline_core::search::{diversity_swap, expand_query, hit_passes, SearchEngineConfig, SearchQuery};

fn query(doc_type: Option<&str>, from: &str, to: &str) -> SearchQuery {
    SearchQuery {
        query: "q".to_string(),
        keyword: None,
        doc_type: doc_type.map(|t| t.to_string()),
        mode: "default".to_string(),
        top_k: 5,
        date_from: from.to_string(),
        date_to: to.to_string(),
    }
}

fn types(v: &[&[&str]]) -> Vec<Vec<String>> {
    v.iter().map(|ts| ts.iter().map(|t| t.to_string()).collect()).collect()
}

#[test]
fn short_queries_are_expanded_in_default_and_related_modes() {
    assert_eq!(expand_query("rust 2024", "default"), "rust 2024 rust 2024");
    assert_eq!(expand_query("  a\tb ", "related"), "  a\tb  a b");
    assert_eq!(expand_query("", "default"), " ");
    assert_eq!(expand_query("one two three four", "default"), "one two three four");
    assert_eq!(expand_query("rust 2024", "exact"), "rust 2024");
    assert_eq!(expand_query("회의 결정", "related"), "회의 결정 회의 결정");
}

#[test]
fn hits_are_filtered_by_type_and_date() {
    let ts = vec!["meeting".to_string(), "todo".to_string()];
    assert!(hit_passes(&query(None, "", ""), &ts, "2026-01-01"));
    assert!(hit_passes(&query(Some("todo"), "", ""), &ts, "2026-01-01"));
    assert!(!hit_passes(&query(Some("report"), "", ""), &ts, "2026-01-01"));
    assert!(hit_passes(&query(None, "2026-01-01", "2026-01-31"), &ts, "2026-01-01"));
    assert!(hit_passes(&query(None, "2026-01-01", "2026-01-31"), &ts, "2026-01-31"));
    assert!(!hit_passes(&query(None, "2026-01-02", ""), &ts, "2026-01-01"));
    assert!(!hit_passes(&query(None, "", "2025-12-31"), &ts, "2026-01-01"));
    assert!(hit_passes(&query(None, "", "2026-01-01T"), &ts, "2026-01-01"));
}

#[test]
fn a_crowding_type_gives_way_to_another() {
    let t = types(&[&["meeting"], &["meeting"], &["todo"], &["meeting"], &["report"], &["todo"]]);
    assert_eq!(diversity_swap(&t, 3, 1), Some((1, 4)));
    assert_eq!(diversity_swap(&t, 3, 2), None);
    assert_eq!(diversity_swap(&t, 3, 0), None);
    assert_eq!(diversity_swap(&t, 6, 1), None);
    let all_same = types(&[&["a"], &["a"], &["a"], &["a"]]);
    assert_eq!(diversity_swap(&all_same, 2, 1), None);
}

#[test]
fn engine_defaults() {
    let c = SearchEngineConfig::default();
    assert_eq!((c.expand_kg_hops, c.diversity_threshold, c.hyde_min_results), (0, 0, 3));
    assert!(!c.hyde_enabled && !c.kg_beam_search && !c.tfidf_rerank_enabled);
}

#[test]
fn type_overlap_counts_types_of_the_first_found_in_the_second() {
    let a = vec!["meeting".to_string(), "todo".to_string(), "meeting".to_string()];
    let b = vec!["meeting".to_string(), "report".to_string()];
    assert_eq!(file_pipeline_core::search::type_overlap(&a, &b), 2);
    assert_eq!(file_pipeline_core::search::type_overlap(&b, &a), 1);
    assert_eq!(file_pipeline_core::search::type_overlap(&vec![], &b), 0);
}

fn ids(v: &[&str]) -> Vec<String> {
    v.iter().map(|s| s.to_string()).collect()
}

#[test]
fn merge_new_appends_only_unseen_ids_once() {
    let r = merge_new(&ids(&["a", "b"]), &ids(&["b", "c", "a", "c", "d"]));
    assert_eq!(r, ids(&["a", "b", "c", "d"]));
}

#[test]
fn kg_expand_caps_additions_and_skips_present_or_unknown() {
    let seeds = ids(&["s1", "s2", "s3"]);
    let rels = vec![ids(&["x", "s2", "ghost"]), ids(&["y", "x", "z"]), ids(&["w"])];
    let present = ids(&["s1", "s2", "s3"]);
    let known = ids(&["s1", "s2", "s3", "x", "y", "z", "w"]);
    assert_eq!(kg_expand(&seeds, &rels, &present, &known, 2, false), ids(&["x", "y"]));
    assert_eq!(kg_expand(&seeds, &rels, &present, &known, 10, false), ids(&["x", "y", "z", "w"]));
    // beam search uses only the first max_add seeds
    assert_eq!(kg_expand(&seeds, &rels, &present, &known, 1, true), ids(&["x"]));
    assert_eq!(kg_expand(&seeds, &rels, &present, &known, 0, false), ids(&[]));
}

#[test]
fn related_expand_follows_two_relations_of_three_seeds() {
    let results = ids(&["a", "b", "c", "d"]);
    let rels = vec![ids(&["b", "x", "y"]), ids(&["z", "x"]), ids(&["w"]), ids(&["v"])];
    let known = ids(&["a", "b", "c", "d", "x", "y", "z", "w", "v"]);
    assert_eq!(related_expand(&results, &rels, &known), ids(&["x", "z", "w"]));
}

#[test]
fn hyde_decisions() {
    assert!(hyde_wanted(true, 2, 3));
    assert!(!hyde_wanted(true, 3, 3));
    assert!(!hyde_wanted(false, 0, 3));
    assert!(hyde_text_usable("a longer text", "q"));
    assert!(!hyde_text_usable("q", "q"));
    assert!(!hyde_text_usable("  \n", "q"));
}

fn calls_text(calls: &[StoreCall]) -> Vec<String> {
    calls
        .iter()
        .map(|c| match c {
            StoreCall::Similar { limit } => format!("similar {}", limit),
            StoreCall::Hybrid { keyword, limit } => format!("hybrid {} {}", keyword, limit),
        })
        .collect()
}

fn search(q: &str, keyword: Option<&str>, mode: &str, top_k: usize) -> SearchQuery {
    SearchQuery {
        query: q.to_string(),
        keyword: keyword.map(|k| k.to_string()),
        doc_type: None,
        mode: mode.to_string(),
        top_k,
        date_from: String::new(),
        date_to: String::new(),
    }
}

#[test]
fn each_mode_makes_its_store_calls() {
    let (c, m) = plan_search(&search("a b", None, "exact", 4));
    assert_eq!(calls_text(&c), vec!["hybrid a b 12"]);
    assert_eq!(m, ResultMerge::Plain);
    let (c, m) = plan_search(&search("a b", Some("k"), "exact", 4));
    assert_eq!(calls_text(&c), vec!["hybrid k 12"]);
    assert_eq!(m, ResultMerge::Plain);
    let (c, m) = plan_search(&search("a", Some("k"), "related", 4));
    assert_eq!(calls_text(&c), vec!["similar 12"]);
    assert_eq!(m, ResultMerge::Related);
    let (c, m) = plan_search(&search("a", None, "recent", 4));
    assert_eq!(calls_text(&c), vec!["similar 20"]);
    assert_eq!(m, ResultMerge::Recent);
    let (c, _) = plan_search(&search("a", Some("k"), "recent", 4));
    assert_eq!(calls_text(&c), vec!["hybrid k 20"]);
    let (c, m) = plan_search(&search(" w1  w2 w3 w4 ", None, "fusion", 4));
    assert_eq!(calls_text(&c), vec!["similar 12", "hybrid w1 8", "hybrid w2 8", "hybrid w3 8"]);
    assert_eq!(m, ResultMerge::Fusion);
    let (c, m) = plan_search(&search("a", None, "default", 4));
    assert_eq!(calls_text(&c), vec!["similar 12"]);
    assert_eq!(m, ResultMerge::Plain);
    let (c, _) = plan_search(&search("a", Some("k"), "whatever", 4));
    assert_eq!(calls_text(&c), vec!["hybrid k 12"]);
}

#[test]
fn recent_order_is_by_date_then_score_and_stable() {
    let dates: Vec<String> = ["2024-01-01", "2024-03-01", "2024-01-01", "2024-03-01", "2024-01-01"]
        .iter()
        .map(|d| d.to_string())
        .collect();
    let keys = vec![5, 1, 9, 1, 5];
    assert_eq!(recent_order(&dates, &keys), vec![1, 3, 2, 0, 4]);
    assert_eq!(recent_order(&vec![], &vec![]), Vec::<usize>::new());
}
