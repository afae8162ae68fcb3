use std::hash::{Hash, Hasher};
use file_pipeline_core::cross_reference::{
    hash_name, CoverageCalculator, CoverageTag, CrossRefReport, CrossRefUpdate, CrossRefUpdater,
    document_entities, entities_from_model, entity_type_from_name,
    EntityType, RelationType, blocking_pass, plan_crossref_links, plan_crossref_links_legacy, CandidateFacts, LinkCaps,
};
use file_pipeline_core::models::StoredDocSummary;

#[test]
fn test_coverage_tag_format() {
    let tag = CoverageTag { section: "요약".to_string(), level: "high".to_string(), source_count: 15 };
    assert_eq!(CoverageCalculator::format_tag(&tag), "[coverage: high -- 15 sources]");
}

#[test]
fn test_crossref_report_summary() {
    let report = CrossRefReport {
        candidates_checked: 5,
        documents_updated: 2,
        links_created: 4,
        updates: vec![CrossRefUpdate {
            doc_id: "abc".into(),
            change_summary: "새 정보 추가".into(),
            relation_type: RelationType::References,
        }],
        entities: vec![],
    };
    let summary = report.summary();
    assert!(summary.contains("후보 검토: 5"));
    assert!(summary.contains("실제 업데이트: 2"));
}

#[test]
fn summary_is_exact() {
    let mut r = CrossRefReport::default();
    r.links_created = 2;
    r.updates.push(CrossRefUpdate { doc_id: "a".into(), change_summary: "x".into(), relation_type: RelationType::Updates });
    r.updates.push(CrossRefUpdate { doc_id: "b".into(), change_summary: "y".into(), relation_type: RelationType::RelatedTopic });
    assert_eq!(
        r.summary(),
        "=== 교차참조 업데이트 ===\n후보 검토: 0 문서\n실제 업데이트: 0 문서\n링크 생성: 2 개\n  - a (updates: x)\n  - b (related_topic: y)"
    );
}

#[test]
fn coverage_levels() {
    assert_eq!(CoverageCalculator::compute_coverage("d", 10)[0].level, "high");
    assert_eq!(CoverageCalculator::compute_coverage("d", 9)[0].level, "medium");
    assert_eq!(CoverageCalculator::compute_coverage("d", 3)[0].level, "medium");
    let t = CoverageCalculator::compute_coverage("d", 2);
    assert_eq!((t.len(), t[0].level.as_str(), t[0].section.as_str(), t[0].source_count), (1, "low", "전체", 2));
}

#[test]
fn entities_are_found_once_each() {
    let text = "김철수(팀장)와 김철수(팀장), 예산 1,000만원. Rust 1.75 도입, The plan. 프로젝트 Alpha 시작.";
    let es = CrossRefUpdater::extract_entities(text, "doc1", "2026-01-01");
    let names: Vec<(&str, EntityType)> = es.iter().map(|e| (e.name.as_str(), e.entity_type)).collect();
    assert_eq!(
        names,
        vec![
            ("김철수", EntityType::Person),
            ("1,000만원", EntityType::Amount),
            ("Rust 1.75", EntityType::Technology),
            ("Alpha", EntityType::Technology),
            ("프로젝트 Alpha", EntityType::Project),
        ]
    );
    assert!(es[0].id.starts_with("person_"));
    assert_eq!(es[0].id.len(), "person_".len() + 16);
    assert_eq!(es[0].doc_ids, vec!["doc1".to_string()]);
    assert_eq!(es[0].first_seen, "2026-01-01");
    assert_eq!(es[0].mention_count, 1);
}

#[test]
fn hash_name_ignores_case() {
    assert_eq!(hash_name("Rust"), hash_name("rust"));
    assert_ne!(hash_name("Rust"), hash_name("Go"));
    assert_eq!(hash_name("x").len(), 16);
}

#[test]
fn wikilinks_plan_both_directions() {
    let docs = vec![
        StoredDocSummary { id: "id-a".into(), path: "/p/Alpha.md".into(), doc_types: vec![], date: String::new() },
        StoredDocSummary { id: "self".into(), path: "/p/Me.md".into(), doc_types: vec![], date: String::new() },
    ];
    let links = CrossRefUpdater::link_wikilinks("self", "see [[alpha]] and [[Me]] and [[none]] and [[ALPHA|x]]", &docs);
    let v: Vec<(&str, &str, RelationType)> =
        links.iter().map(|l| (l.source_id.as_str(), l.target_id.as_str(), l.relation)).collect();
    assert_eq!(
        v,
        vec![("self", "id-a", RelationType::References), ("id-a", "self", RelationType::ReferencedBy)]
    );
}

#[test]
fn test_display() {
    assert_eq!(RelationType::References.as_str(), "references");
    assert_eq!(RelationType::Updates.as_str(), "updates");
    assert_eq!(RelationType::RelatedTopic.as_str(), "related_topic");
    assert_eq!(RelationType::Supersedes.as_str(), "supersedes");
}

fn cand(id: &str) -> CandidateFacts {
    CandidateFacts {
        cand_id: id.to_string(),
        linked_already: false,
        incoming_full: false,
        above_supersedes: false,
        above_threshold: true,
        same_type: false,
        dates_reliable: false,
        same_date: false,
        keyword_overlap: 0,
    }
}

#[test]
fn links_follow_kinds_and_caps() {
    let caps = LinkCaps { supersedes: 1, updates: 1, related: 1, references: 1, keyword_overlap_min: 3 };
    let mut a = cand("a");
    a.above_supersedes = true;
    a.same_type = true;
    a.dates_reliable = true;
    let mut b = a.clone();
    b.cand_id = "b".to_string();
    b.same_date = true;
    let mut c = cand("c");
    c.keyword_overlap = 3;
    let d = cand("d");
    let mut e = cand("e");
    e.linked_already = true;
    let f = cand("f");
    let plan = plan_crossref_links(&vec![e, a, b, c, d, f], caps);
    assert_eq!(
        plan,
        vec![
            ("a".to_string(), RelationType::Supersedes, RelationType::References),
            ("b".to_string(), RelationType::Updates, RelationType::Updates),
            ("c".to_string(), RelationType::RelatedTopic, RelationType::RelatedTopic),
            ("d".to_string(), RelationType::References, RelationType::ReferencedBy),
        ]
    );
    let mut g = cand("g");
    g.above_threshold = false;
    let mut h = cand("h");
    h.incoming_full = true;
    assert!(plan_crossref_links(&vec![g, h], caps).is_empty());
}

#[test]
fn blocking_needs_shared_type_or_keyword() {
    let s = |v: &[&str]| v.iter().map(|x| x.to_string()).collect::<Vec<String>>();
    let it = s(&["meeting"]);
    let kw = s(&["예산", "rust"]);
    assert!(blocking_pass(&it, &kw, None));
    assert!(blocking_pass(&it, &kw, Some((&s(&["todo", "meeting"]), None))));
    assert!(!blocking_pass(&it, &kw, Some((&s(&["todo"]), None))));
    assert!(blocking_pass(&it, &kw, Some((&s(&["todo"]), Some(&s(&["rust"]))))));
    assert!(!blocking_pass(&it, &kw, Some((&s(&["todo"]), Some(&s(&["go"]))))));
}

#[test]
fn legacy_planning_decides_with_fixed_caps_and_stops_on_configured_ones() {
    let caps = LinkCaps { supersedes: 1, updates: 0, related: 0, references: 1, keyword_overlap_min: 99 };
    let strong = |id: &str| CandidateFacts { above_supersedes: true, same_type: true, dates_reliable: true, ..cand(id) };
    let cs = vec![strong("c1"), strong("c2"), strong("c3"), strong("c4")];
    let kinds = |v: Vec<(String, RelationType, RelationType)>| v.into_iter().map(|(id, k, _)| (id, k)).collect::<Vec<_>>();
    assert_eq!(
        kinds(plan_crossref_links(&cs, caps)),
        vec![("c1".to_string(), RelationType::Supersedes), ("c2".to_string(), RelationType::References)]
    );
    assert_eq!(
        kinds(plan_crossref_links_legacy(&cs, caps)),
        vec![
            ("c1".to_string(), RelationType::Supersedes),
            ("c2".to_string(), RelationType::Supersedes),
            ("c3".to_string(), RelationType::References),
        ]
    );
}

fn std_hash(s: &str) -> u64 {
    let mut h = std::collections::hash_map::DefaultHasher::new();
    s.to_string().hash(&mut h);
    h.finish()
}

#[test]
fn model_type_names_map_to_kinds() {
    assert_eq!(entity_type_from_name("person"), EntityType::Person);
    assert_eq!(entity_type_from_name("organization"), EntityType::Organization);
    assert_eq!(entity_type_from_name("place"), EntityType::Place);
    assert_eq!(entity_type_from_name("technology"), EntityType::Technology);
    assert_eq!(entity_type_from_name("amount"), EntityType::Amount);
    assert_eq!(entity_type_from_name("project"), EntityType::Project);
    assert_eq!(entity_type_from_name("concept"), EntityType::Concept);
    assert_eq!(entity_type_from_name("Person"), EntityType::Concept);
    assert_eq!(entity_type_from_name("event"), EntityType::Concept);
}

#[test]
fn model_entities_take_the_given_type_name_in_their_id() {
    let named = vec![
        ("Rust".to_string(), "technology".to_string()),
        ("서울".to_string(), "event".to_string()),
    ];
    let es = entities_from_model(&named, "h1", "2024-01-02");
    assert_eq!(es.len(), 2);
    assert_eq!(es[0].id, format!("technology_{:x}", std_hash("rust")));
    assert_eq!(es[0].entity_type, EntityType::Technology);
    assert_eq!(es[1].id, format!("event_{:x}", std_hash("서울")));
    assert_eq!(es[1].entity_type, EntityType::Concept);
    assert_eq!(es[1].name, "서울");
    assert_eq!(es[1].doc_ids, vec!["h1".to_string()]);
    assert_eq!(es[1].mention_count, 1);
    assert_eq!(es[1].first_seen, "2024-01-02");
}

#[test]
fn document_entities_fall_back_to_the_rules() {
    let text = "김철수 (팀장)";
    let none: Vec<(String, String)> = vec![];
    let es = document_entities(&none, text, "h", "d");
    assert_eq!(es.len(), 1);
    assert_eq!(es[0].entity_type, EntityType::Person);
    let named = vec![("X".to_string(), "place".to_string())];
    let es = document_entities(&named, text, "h", "d");
    assert_eq!(es.len(), 1);
    assert_eq!(es[0].entity_type, EntityType::Place);
}
