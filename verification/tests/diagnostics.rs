use file_pipeline_core::cross_reference::RelationType;
use file_pipeline_core::cross_reference::RelationType::{RelatedTopic, ReferencedBy, References, Updates};
use file_pipeline_core::diagnostics::{analyze_corpus, HealthLevel};
use file_pipeline_core::models::{CorpusDoc, DocRelation};

fn doc(id: &str, rels: &[(&str, &str, RelationType)]) -> CorpusDoc {
    CorpusDoc {
        id: id.to_string(),
        path: format!("{}.zst", id),
        doc_types: vec!["meeting".to_string()],
        relations: rels
            .iter()
            .map(|(s, t, k)| DocRelation { source_id: s.to_string(), target_id: t.to_string(), relation: *k })
            .collect(),
    }
}

#[test]
fn corpus_tally_counts_pairs_kinds_and_hubs() {
    let docs = vec![
        doc("a", &[("a", "b", References), ("a", "c", Updates)]),
        doc("b", &[("b", "a", ReferencedBy)]),
        doc("c", &[("c", "a", RelatedTopic), ("c", "c", References)]),
        doc("d", &[]),
    ];
    let t = analyze_corpus(&docs);
    assert_eq!((t.doc_count, t.total_relations, t.unique_pairs, t.isolated_docs), (4, 5, 3, 1));
    assert_eq!(t.histogram, vec![("0-9".to_string(), 4)]);
    assert_eq!(t.by_type, vec![(References, 2), (Updates, 1), (ReferencedBy, 1), (RelatedTopic, 1)]);
    let hubs: Vec<(String, usize)> = t.hub_docs_top10.iter().map(|h| (h.doc_id.clone(), h.relation_count)).collect();
    assert_eq!(
        hubs,
        vec![("a".to_string(), 2), ("c".to_string(), 2), ("b".to_string(), 1), ("d".to_string(), 0)]
    );
    let inc: Vec<(String, usize)> = t.incoming_top10.iter().map(|h| (h.doc_id.clone(), h.relation_count)).collect();
    assert_eq!(inc, vec![("c".to_string(), 1)]);
}

#[test]
fn histogram_buckets_and_top_ten() {
    let mut docs = Vec::new();
    for i in 0..12usize {
        let n = if i == 0 { 120 } else if i == 1 { 35 } else { i };
        let rels: Vec<(String, String)> = (0..n).map(|k| (format!("d{}", i), format!("x{}", k))).collect();
        docs.push(CorpusDoc {
            id: format!("d{}", i),
            path: String::new(),
            doc_types: vec![],
            relations: rels
                .iter()
                .map(|(s, t)| DocRelation { source_id: s.clone(), target_id: t.clone(), relation: RelatedTopic })
                .collect(),
        });
    }
    let t = analyze_corpus(&docs);
    assert_eq!(
        t.histogram,
        vec![("0-9".to_string(), 8), ("10-19".to_string(), 2), ("30-49".to_string(), 1), ("100+".to_string(), 1)]
    );
    assert_eq!(t.hub_docs_top10.len(), 10);
    assert_eq!(t.hub_docs_top10[0].doc_id, "d0");
    assert_eq!(t.hub_docs_top10[1].doc_id, "d1");
    assert_eq!(t.hub_docs_top10[2].doc_id, "d11");
    assert_eq!(t.hub_docs_top10[9].relation_count, 4);
    assert!(t.incoming_top10.is_empty());
    assert_eq!(t.isolated_docs, 0);
}

#[test]
fn empty_corpus() {
    let t = analyze_corpus(&vec![]);
    assert_eq!((t.doc_count, t.total_relations, t.unique_pairs, t.isolated_docs), (0, 0, 0, 0));
    assert!(t.histogram.is_empty() && t.by_type.is_empty() && t.hub_docs_top10.is_empty());
}

#[test]
fn health_levels_have_marks() {
    assert_eq!(HealthLevel::Healthy.symbol(), "✅");
    assert_eq!(HealthLevel::Warning.symbol(), "⚠️");
    assert_eq!(HealthLevel::Error.symbol(), "❌");
}
