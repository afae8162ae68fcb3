use file_pipeline_core::sections::{split_by_headings, split_by_headings_with_path};

fn owned(v: &[&str]) -> Vec<String> {
    v.iter().map(|s| s.to_string()).collect()
}

#[test]
fn sections_follow_headings_and_rules_with_paths() {
    let secs = split_by_headings_with_path("# A\nintro\n## B\nbody\n---\nafter\n", true, true);
    assert_eq!(secs.len(), 3);
    assert_eq!(secs[0], (owned(&["A"]), "# A\nintro\n".to_string()));
    assert_eq!(secs[1], (owned(&["A", "B"]), "## B\nbody\n".to_string()));
    assert_eq!(secs[2], (owned(&["A", "B"]), "---\nafter\n".to_string()));
}

#[test]
fn sections_new_h1_resets_lower_levels() {
    let secs = split_by_headings_with_path("# A\n### C\nx\n# D\ny", false, false);
    assert_eq!(secs.len(), 3);
    assert_eq!(secs[1].0, owned(&["A", "C"]));
    assert_eq!(secs[2], (owned(&["D"]), "# D\ny\n".to_string()));
}

#[test]
fn sections_do_not_split_inside_code_fence() {
    let content = "intro\n```\n## not a heading\n```\nend\n";
    let kept = split_by_headings_with_path(content, true, false);
    assert_eq!(kept.len(), 1);
    assert!(kept[0].0.is_empty());
    let split = split_by_headings_with_path(content, false, false);
    assert_eq!(split.len(), 2);
    assert_eq!(split[1].0, owned(&["not a heading"]));
}

#[test]
fn sections_blank_document_has_none() {
    assert!(split_by_headings_with_path("  \n\n", true, true).is_empty());
}

#[test]
fn plain_split_ignores_h1_and_keeps_fences() {
    let secs = split_by_headings("# A\nintro\n## B\nbody\n### C\nx\n", true);
    assert_eq!(secs, owned(&["# A\nintro\n", "## B\nbody\n", "### C\nx\n"]));
    let fenced = split_by_headings("a\n```\n## no\n```\n***\nb", true);
    assert_eq!(fenced, owned(&["a\n```\n## no\n```\n", "***\nb\n"]));
    assert!(split_by_headings("\n \n", false).is_empty());
}

#[test]
fn sections_concatenate_to_the_document_lines() {
    let content = "intro\n# A\nx\n\n## B\ny\n---\nz\n  \n";
    let secs = split_by_headings_with_path(content, true, true);
    let joined: String = secs.iter().map(|(_, t)| t.as_str()).collect();
    // every line, ended by '\n', up to the blank tail
    assert_eq!(joined, "intro\n# A\nx\n\n## B\ny\n---\nz\n  \n");
    let plain: String = split_by_headings(content, true).concat();
    assert_eq!(plain, "intro\n# A\nx\n\n## B\ny\n---\nz\n  \n");
}
