use file_pipeline_core::chunking::SemanticChunk;
use file_pipeline_core::chunking_quality::{
    chunk_spans_in_doc, count_intact_blocks, count_size_compliant, estimate_tokens,
    extract_blocks, scan_is_defined, spans_are_defined, BlockKind, DocBlock,
};

fn chunk(idx: usize, text: &str) -> SemanticChunk {
    SemanticChunk {
        index: idx,
        text: text.to_string(),
        overlap_prefix: String::new(),
        title_path: vec![],
    }
}

#[test]
fn estimate_tokens_basic() {
    assert!(estimate_tokens(&"a".repeat(60)) >= 18 && estimate_tokens(&"a".repeat(60)) <= 22);
}

#[test]
fn extract_blocks_code_fence() {
    let content = "before\n```rust\nfn main() {}\n```\nafter";
    let blocks = extract_blocks(content);
    assert_eq!(blocks.len(), 1);
    assert_eq!(blocks[0].kind, BlockKind::CodeFence);
}

#[test]
fn extract_blocks_table() {
    let content = "before\n| a | b |\n| c | d |\nafter\n";
    let blocks = extract_blocks(content);
    assert!(blocks.iter().any(|b| b.kind == BlockKind::Table));
}

#[test]
fn extract_blocks_heading() {
    let content = "# Title\nbody\n## Sub\nmore\n";
    let blocks = extract_blocks(content);
    let headings: Vec<_> = blocks.iter().filter(|b| b.kind == BlockKind::Heading).collect();
    assert_eq!(headings.len(), 2);
}

// Exact ranges (byte offsets).

#[test]
fn fence_range_is_exact() {
    let content = "before\n```rust\nfn main() {}\n```\nafter";
    let b = extract_blocks(content)[0];
    assert_eq!(b.start, 7);
    assert_eq!(&content[b.start..b.end], "```rust\nfn main() {}\n```");
}

#[test]
fn table_range_ends_after_last_row_newline() {
    let content = "x\n| a |\n| b |\ny";
    let b = extract_blocks(content)[0];
    assert_eq!(b.kind, BlockKind::Table);
    assert_eq!((b.start, b.end), (2, 14));
}

#[test]
fn table_at_end_without_newline_runs_one_past() {
    let content = "| a |";
    let b = extract_blocks(content)[0];
    assert_eq!((b.start, b.end), (0, 6));
}

#[test]
fn heading_range_is_its_line() {
    let content = "# 제목\nbody";
    let b = extract_blocks(content)[0];
    assert_eq!(b.kind, BlockKind::Heading);
    assert_eq!(&content[b.start..b.end], "# 제목");
}

#[test]
fn unclosed_fence_resumes_near_the_end() {
    let content = "```abc\n#";
    let blocks = extract_blocks(content);
    assert_eq!(blocks.len(), 1);
    assert_eq!(blocks[0].kind, BlockKind::Heading);
    assert_eq!((blocks[0].start, blocks[0].end), (7, 8));
}

#[test]
fn hash_inside_a_line_is_no_heading() {
    assert!(extract_blocks("a # b\nc | d |\n").is_empty());
}

#[test]
fn size_compliance_counts() {
    let chunks = vec![
        chunk(0, &"a".repeat(30)),
        chunk(1, &"b".repeat(6000)),
        chunk(2, &"c".repeat(600)),
        chunk(3, &"d".repeat(300)),
        chunk(4, &"e".repeat(3302)),
    ];
    assert_eq!(count_size_compliant(&chunks), 3);
    assert_eq!(count_size_compliant(&[]), 0);
}

#[test]
fn spans_follow_chunks_in_order() {
    let content = "alpha beta\ngamma delta\n";
    let chunks = vec![chunk(0, "alpha beta\n"), chunk(1, "  gamma delta\n")];
    assert!(spans_are_defined(content, &chunks));
    assert_eq!(chunk_spans_in_doc(content, &chunks), vec![(0, 10), (11, 22)]);
}

#[test]
fn spans_of_blank_and_missing_chunks() {
    let content = "one two";
    let chunks = vec![chunk(0, "   "), chunk(1, "zzz"), chunk(2, "\n")];
    // blank: empty span at the cursor; not found: cursor plus body length
    assert_eq!(chunk_spans_in_doc(content, &chunks), vec![(0, 0), (0, 3), (3, 3)]);
}

#[test]
fn spans_end_is_capped_at_document_length() {
    let head = "a".repeat(30);
    let content = format!("xx {}", head);
    let chunks = vec![chunk(0, &format!("{}bbbbbbbbbb", head))];
    // found by its first 30 characters at byte 3; 40 bytes long, capped at 33
    assert_eq!(chunk_spans_in_doc(&content, &chunks), vec![(3, 33)]);
}

#[test]
fn spans_count_bytes_of_multibyte_text() {
    let content = "가나다 abc";
    let chunks = vec![chunk(0, "abc")];
    assert_eq!(chunk_spans_in_doc(content, &chunks), vec![(10, 13)]);
}

#[test]
fn spans_undefined_when_cursor_falls_inside_a_character() {
    // the first chunk is not found, so the cursor moves 1 byte into "가"
    let content = "가abc";
    let chunks = vec![chunk(0, "z"), chunk(1, "abc")];
    assert!(!spans_are_defined(content, &chunks));
    assert!(spans_are_defined(content, &chunks[1..]));
}

#[test]
fn intact_blocks_counted_with_slack() {
    let content = "alpha beta\ngamma delta\n";
    let chunks = vec![chunk(0, "alpha beta\n"), chunk(1, "gamma delta\n")];
    let blocks = vec![
        DocBlock { kind: BlockKind::Heading, start: 0, end: 10 },
        DocBlock { kind: BlockKind::Table, start: 5, end: 20 },
        DocBlock { kind: BlockKind::CodeFence, start: 12, end: 26 },
    ];
    // the second block straddles the two chunks; the third ends within the
    // slack after the second chunk
    assert_eq!(count_intact_blocks(content, &chunks, &blocks), 2);
    assert_eq!(count_intact_blocks(content, &chunks, &[]), 0);
}

#[test]
fn bar_lines_inside_a_closed_fence_are_skipped() {
    let content = "```\n|a\n```\n# H\n";
    assert!(scan_is_defined(content));
    let blocks = extract_blocks(content);
    assert_eq!(blocks.len(), 2);
    assert_eq!(blocks[0].kind, BlockKind::CodeFence);
    assert_eq!(blocks[1].kind, BlockKind::Heading);
    // a reached bar line that is no row leaves the scan undefined
    assert!(!scan_is_defined("|a\n"));
    assert!(scan_is_defined("| a |\n| b |\n"));
}

#[test]
fn extract_blocks_are_ordered_without_overlap() {
    let content = "# 제목\n\n| a | b |\n|---|---|\n\n```\ncode\n```\n## 끝\n";
    let blocks = extract_blocks(content);
    assert_eq!(blocks.len(), 4);
    for b in &blocks {
        assert!(b.start < b.end && b.end <= content.len());
    }
    for w in blocks.windows(2) {
        assert!(w[0].end <= w[1].start);
    }
    assert!(matches!(blocks[0].kind, BlockKind::Heading));
    assert!(matches!(blocks[1].kind, BlockKind::Table));
    assert!(matches!(blocks[2].kind, BlockKind::CodeFence));
    assert!(matches!(blocks[3].kind, BlockKind::Heading));
}
