use file_pipeline_core::auto_reindexer::AutoReindexer;

#[test]
fn type_changes_ignore_order() {
    let s = |v: &[&str]| v.iter().map(|x| x.to_string()).collect::<Vec<String>>();
    assert!(!AutoReindexer::types_changed(&s(&["b", "a"]), &s(&["a", "b"])));
    assert!(AutoReindexer::types_changed(&s(&["a"]), &s(&["a", "a"])));
    assert!(!AutoReindexer::types_changed(&s(&[]), &s(&[])));
    assert!(AutoReindexer::types_changed(&s(&["a", "b"]), &s(&["a", "c"])));
    assert!(AutoReindexer::types_changed(&s(&["meeting"]), &s(&[])));
}
