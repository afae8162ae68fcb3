use file_pipeline_core::audit::{truncate_output_summary, TraceId, TraceIdGenerator};
use file_pipeline_core::digest::input_hash_prefix;

#[test]
fn test_trace_id_unique() {
    let a = TraceId::new();
    let b = TraceId::new();
    assert_ne!(a, b);
}

#[test]
fn test_input_hash_deterministic() {
    let h1 = input_hash_prefix(b"hello");
    let h2 = input_hash_prefix(b"hello");
    assert_eq!(h1, h2);
    assert_eq!(h1.len(), 16);
}

#[test]
fn test_truncate_output_short() {
    let s = "short text";
    assert_eq!(truncate_output_summary(s), s);
}

#[test]
fn test_truncate_output_long() {
    let s = "a".repeat(300);
    let t = truncate_output_summary(&s);
    assert!(t.chars().count() <= 203);
    assert!(t.ends_with("..."));
}

#[test]
fn test_truncate_strips_newlines() {
    let s = "line1\nline2\rline3";
    let t = truncate_output_summary(s);
    assert!(!t.contains('\n'));
    assert!(!t.contains('\r'));
}

#[test]
fn input_hash_prefix_is_the_start_of_the_sha256_digest() {
    assert_eq!(input_hash_prefix(b"hello"), "2cf24dba5fb0a30e");
    assert_eq!(input_hash_prefix(b""), "e3b0c44298fc1c14");
}

#[test]
fn trace_id_from_parts_pads_both_fields() {
    let t = TraceId::from_parts(0x1a2b, 3);
    assert_eq!(t.as_str(), "00000000-0000-41a2-0000-000000000003");
    assert_eq!(t.to_string(), "00000000-0000-41a2-0000-000000000003");
    let n = TraceId::new();
    assert_eq!(n.as_str().len(), 36);
    assert_eq!(&n.as_str()[19..], "0000-000000000000");
}

#[test]
fn generator_ids_differ_and_have_uuid_shape() {
    let mut g = TraceIdGenerator::new();
    let a = g.next_id();
    let b = g.next_id();
    assert_ne!(a, b);
    assert_eq!(g.next, 2);
    assert!(b.as_str().ends_with("-000000000001"));
    let parts: Vec<usize> = a.as_str().split('-').map(|p| p.len()).collect();
    assert_eq!(parts, vec![8, 4, 4, 4, 12]);
    assert_eq!(&a.as_str()[14..15], "4");
}

#[test]
fn trace_id_from_string_keeps_the_text() {
    assert_eq!(TraceId::from_string("abc-1").as_str(), "abc-1");
}

#[test]
fn summary_cut_counts_characters_after_removing_breaks() {
    let s = format!("{}\n{}", "가".repeat(150), "나".repeat(60));
    let t = truncate_output_summary(&s);
    assert_eq!(t, format!("{}{}...", "가".repeat(150), "나".repeat(50)));
    assert_eq!(truncate_output_summary(&"x".repeat(200)), "x".repeat(200));
}
