use file_pipeline_core::chunking::{
    apply_overlap, chunk_by_strategy, chunk_info, split_into_chunks, split_semantic,
    ChunkingStrategy, SemanticChunk, SemanticChunkConfig,
};

#[test]
fn test_small_content_single_chunk() {
    let chunks = split_into_chunks("hello world", 1000);
    assert_eq!(chunks.len(), 1);
    assert_eq!(chunks[0].0, 0);
    assert_eq!(chunks[0].1, "hello world");
}

#[test]
fn test_split_at_newline() {
    let content = "line1\nline2\nline3\nline4\nline5\n";
    let chunks = split_into_chunks(content, 12);
    assert!(chunks.len() >= 2);
    for (_, chunk) in &chunks {
        assert!(chunk.ends_with('\n') || chunk == chunks.last().unwrap().1.as_str());
    }
}

#[test]
fn test_korean_utf8_safe() {
    let content = "가나다라마바사아자차카타파하\n".repeat(100);
    let chunks = split_into_chunks(&content, 50);
    assert!(chunks.len() > 1);
    for (_, chunk) in &chunks {
        assert!(chunk.is_ascii() || !chunk.is_empty());
    }
}

#[test]
fn test_chunk_info() {
    let content = "a".repeat(100_000);
    let info = chunk_info(&content, 40_000);
    assert_eq!(info.total_chunks, 3);
    assert_eq!(info.total_bytes, 100_000);
}

#[test]
fn test_semantic_split_by_heading() {
    let content = "\
## 서론
첫 번째 섹션 내용입니다.

## 본론
두 번째 섹션 내용입니다.

## 결론
세 번째 섹션입니다.
";
    let config = SemanticChunkConfig { max_bytes: 5000, ..Default::default() };
    let chunks = split_semantic(content, &config);
    assert_eq!(chunks.len(), 3, "헤딩 3개 → 청크 3개");
    assert!(chunks[0].text.contains("서론"));
    assert!(chunks[1].text.contains("본론"));
    assert!(chunks[2].text.contains("결론"));
}

#[test]
fn test_semantic_preserve_code_block() {
    let content = "\
## 설정

설정 파일 예시:

```yaml
apiVersion: v1
kind: Pod
metadata:
  name: test
```

설정 설명 계속.
";
    let config = SemanticChunkConfig { max_bytes: 50, preserve_code_blocks: true, ..Default::default() };
    let chunks = split_semantic(content, &config);
    let code_chunk = chunks.iter().find(|c| c.text.contains("```yaml"));
    assert!(code_chunk.is_some(), "코드 블록을 포함하는 청크가 있어야 함");
    let code_text = &code_chunk.unwrap().text;
    let fence_count = code_text.matches("```").count();
    assert!(fence_count >= 2, "코드 펜스 열기/닫기가 같은 청크에 있어야 함 (found {})", fence_count);
}

#[test]
fn test_semantic_preserve_table_off_by_default() {
    let content = "\
## 표 섹션

| 컬럼 A | 컬럼 B |
|--------|--------|
| 값 1   | 값 2   |

이후 문단.
";
    let config = SemanticChunkConfig { max_bytes: 5000, ..Default::default() };
    let chunks = split_semantic(content, &config);
    assert!(!config.preserve_tables, "디폴트는 비활성");
    assert!(!chunks.is_empty());
}

#[test]
fn test_semantic_preserve_table_when_enabled() {
    let content = "\
## 헤더

| 컬럼 A | 컬럼 B |
|--------|--------|
| 값 1   | 값 2   |
| 값 3   | 값 4   |

다음 단락.
";
    let config = SemanticChunkConfig {
        max_bytes: 5000,
        preserve_tables: true,
        ..Default::default()
    };
    let chunks = split_semantic(content, &config);
    let table_chunk = chunks.iter().find(|c| c.text.contains("| 컬럼 A |"));
    assert!(table_chunk.is_some(), "표를 포함한 청크가 있어야 함");
    let txt = &table_chunk.unwrap().text;
    assert!(txt.contains("| 값 1   |") && txt.contains("| 값 3   |"),
        "표 모든 행이 같은 청크에 있어야 함");
}

#[test]
fn test_semantic_overlap() {
    let content = "\
## A
문장 A1.
문장 A2.
문장 A3.

## B
문장 B1.
문장 B2.
";
    let config = SemanticChunkConfig {
        max_bytes: 5000,
        overlap_sentences: 1,
        ..Default::default()
    };
    let chunks = split_semantic(content, &config);
    assert!(chunks.len() >= 2);
    assert!(!chunks[1].overlap_prefix.is_empty(), "오버랩 접두사가 있어야 함");
}

#[test]
fn test_semantic_small_content_single_chunk() {
    let content = "짧은 문서입니다.";
    let config = SemanticChunkConfig::default();
    let chunks = split_semantic(content, &config);
    assert_eq!(chunks.len(), 1);
    assert_eq!(chunks[0].index, 0);
}

#[test]
fn test_semantic_hr_split() {
    let content = "\
파트 1 내용

---

파트 2 내용
";
    let config = SemanticChunkConfig { max_bytes: 5000, ..Default::default() };
    let chunks = split_semantic(content, &config);
    assert_eq!(chunks.len(), 2, "수평선에서 분할되어야 함");
}

#[test]
fn test_semantic_large_section_paragraph_split() {
    let para = "이것은 테스트 단락입니다. ".repeat(20);
    let content = format!("## 큰 섹션\n\n{}\n\n{}\n\n{}", para, para, para);
    let config = SemanticChunkConfig {
        target_bytes: 200,
        max_bytes: 400,
        overlap_sentences: 0,
        preserve_code_blocks: true,
        preserve_tables: false,
    };
    let chunks = split_semantic(&content, &config);
    assert!(chunks.len() > 1, "큰 섹션은 재분할되어야 함");
    for chunk in &chunks {
        assert!(chunk.text.len() <= config.max_bytes * 2,
            "청크가 너무 큼: {} bytes", chunk.text.len());
    }
}

#[test]
fn test_semantic_numbered_list_not_split() {
    let content = "\
## 절차

1. 첫 번째 단계
2. 두 번째 단계
3. 세 번째 단계
4. 네 번째 단계
5. 다섯 번째 단계
";
    let config = SemanticChunkConfig { max_bytes: 5000, ..Default::default() };
    let chunks = split_semantic(content, &config);
    assert_eq!(chunks.len(), 1, "짧은 번호 목록은 분할하면 안 됨");
    assert!(chunks[0].text.contains("1.") && chunks[0].text.contains("5."));
}

#[test]
fn strategy_from_str_known() {
    assert_eq!(ChunkingStrategy::from_str_or_default("fixed"), ChunkingStrategy::Fixed);
    assert_eq!(ChunkingStrategy::from_str_or_default("Semantic"), ChunkingStrategy::Semantic);
    assert_eq!(ChunkingStrategy::from_str_or_default("RECURSIVE"), ChunkingStrategy::Recursive);
    assert_eq!(ChunkingStrategy::from_str_or_default("adaptive"), ChunkingStrategy::Adaptive);
}

#[test]
fn strategy_from_str_unknown_falls_back_to_semantic() {
    assert_eq!(ChunkingStrategy::from_str_or_default(""), ChunkingStrategy::Semantic);
    assert_eq!(ChunkingStrategy::from_str_or_default("foo"), ChunkingStrategy::Semantic);
}

#[test]
fn strategy_as_str_roundtrip() {
    for s in [ChunkingStrategy::Fixed, ChunkingStrategy::Semantic, ChunkingStrategy::Recursive, ChunkingStrategy::Adaptive] {
        assert_eq!(ChunkingStrategy::from_str_or_default(s.as_str()), s);
    }
}

#[test]
fn strategy_default_is_semantic() {
    assert_eq!(ChunkingStrategy::default(), ChunkingStrategy::Semantic);
}

#[test]
fn chunk_by_strategy_fixed() {
    let content = "a".repeat(1000);
    let config = SemanticChunkConfig { target_bytes: 300, ..Default::default() };
    let chunks = chunk_by_strategy(&content, ChunkingStrategy::Fixed, &config);
    assert!(chunks.len() >= 3, "1000 bytes / 300 -> 3+ chunks, got {}", chunks.len());
    for c in &chunks {
        assert!(c.title_path.is_empty(), "fixed는 title_path 없음");
    }
}

#[test]
fn chunk_by_strategy_semantic_equiv_split_semantic() {
    let content = "## A\n본문 A\n\n## B\n본문 B\n";
    let config = SemanticChunkConfig::default();
    let via_strategy = chunk_by_strategy(content, ChunkingStrategy::Semantic, &config);
    let direct = split_semantic(content, &config);
    assert_eq!(via_strategy.len(), direct.len());
}

#[test]
fn chunk_by_strategy_adaptive_falls_back_to_semantic_in_phase_b() {
    let content = "## A\n본문 A\n\n## B\n본문 B\n";
    let config = SemanticChunkConfig::default();
    let adaptive = chunk_by_strategy(content, ChunkingStrategy::Adaptive, &config);
    let semantic = chunk_by_strategy(content, ChunkingStrategy::Semantic, &config);
    assert_eq!(adaptive.len(), semantic.len());
}

// Further cases.

#[test]
fn fixed_split_exact_pieces() {
    // 12-byte limit: "line1\nline2\n" fits exactly, then cut after each line pair.
    let content = "line1\nline2\nline3\nline4\nline5\n";
    let chunks = split_into_chunks(content, 12);
    let texts: Vec<&str> = chunks.iter().map(|c| c.1.as_str()).collect();
    assert_eq!(texts, vec!["line1\nline2\n", "line3\nline4\n", "line5\n"]);
    let joined: String = texts.concat();
    assert_eq!(joined, content);
    for (i, c) in chunks.iter().enumerate() {
        assert_eq!(c.0, i);
    }
}

#[test]
fn fixed_split_drops_blank_pieces() {
    let content = "abc\n    \n    \n";
    let chunks = split_into_chunks(content, 4);
    let texts: Vec<&str> = chunks.iter().map(|c| c.1.as_str()).collect();
    assert_eq!(texts, vec!["abc\n"]);
}

#[test]
fn fixed_split_whole_when_it_fits_even_blank() {
    let chunks = split_into_chunks("   ", 10);
    assert_eq!(chunks, vec![(0, "   ".to_string())]);
}

#[test]
fn fixed_split_multibyte_boundary() {
    // Each Hangul syllable takes 3 bytes; a 4-byte limit holds one syllable.
    let chunks = split_into_chunks("가나다", 4);
    let texts: Vec<&str> = chunks.iter().map(|c| c.1.as_str()).collect();
    assert_eq!(texts, vec!["가", "나", "다"]);
}

#[test]
fn chunk_info_average() {
    let info = chunk_info("line1\nline2\nline3\nline4\nline5\n", 12);
    assert_eq!(info.total_chunks, 3);
    assert_eq!(info.total_bytes, 30);
    assert_eq!(info.avg_chunk_bytes, 10);
}

#[test]
fn semantic_heading_paths() {
    let content = "# Top\nintro\n## Sub\nbody\n### Deep\nmore\n# Next\nend\n";
    let config = SemanticChunkConfig { overlap_sentences: 0, ..Default::default() };
    let chunks = split_semantic(content, &config);
    let paths: Vec<Vec<String>> = chunks.iter().map(|c| c.title_path.clone()).collect();
    assert_eq!(
        paths,
        vec![
            vec!["Top".to_string()],
            vec!["Top".to_string(), "Sub".to_string()],
            vec!["Top".to_string(), "Sub".to_string(), "Deep".to_string()],
            vec!["Next".to_string()],
        ]
    );
    assert_eq!(chunks[0].text, "# Top\nintro\n");
    assert_eq!(chunks[3].text, "# Next\nend\n");
}

#[test]
fn semantic_overlap_text_layout() {
    let content = "## A\na1\na2\n## B\nb1\n";
    let config = SemanticChunkConfig { overlap_sentences: 1, ..Default::default() };
    let chunks = split_semantic(content, &config);
    assert_eq!(chunks.len(), 2);
    assert_eq!(chunks[0].overlap_prefix, "");
    assert_eq!(chunks[1].overlap_prefix, "a2");
    assert_eq!(chunks[1].text, "a2\n\n## B\nb1\n");
}

#[test]
fn semantic_heading_inside_code_fence_does_not_split() {
    let content = "## A\n```\n## not a heading\n```\ntext\n";
    let config = SemanticChunkConfig { overlap_sentences: 0, ..Default::default() };
    let chunks = split_semantic(content, &config);
    assert_eq!(chunks.len(), 1);
}

#[test]
fn semantic_force_split_lines() {
    let content = format!("{}\n{}\n{}\n", "x".repeat(30), "y".repeat(30), "z".repeat(30));
    let config = SemanticChunkConfig {
        target_bytes: 40,
        max_bytes: 50,
        overlap_sentences: 0,
        preserve_code_blocks: true,
        preserve_tables: false,
    };
    let chunks = split_semantic(&content, &config);
    let texts: Vec<String> = chunks.iter().map(|c| c.text.clone()).collect();
    assert_eq!(
        texts,
        vec![
            format!("{}\n", "x".repeat(30)),
            format!("{}\n", "y".repeat(30)),
            format!("{}\n", "z".repeat(30)),
        ]
    );
}

fn plain(index: usize, text: &str) -> SemanticChunk {
    SemanticChunk {
        index,
        text: text.to_string(),
        overlap_prefix: String::new(),
        title_path: vec!["T".to_string()],
    }
}

#[test]
fn apply_overlap_takes_last_lines_of_previous_chunk() {
    let mut chunks = vec![plain(0, "a1\n\na2\na3\n"), plain(1, "b1"), plain(2, "   \n")];
    apply_overlap(&mut chunks, 2);
    assert_eq!(chunks[0].text, "a1\n\na2\na3\n");
    assert_eq!(chunks[0].overlap_prefix, "");
    assert_eq!(chunks[1].overlap_prefix, "a2\na3");
    assert_eq!(chunks[1].text, "a2\na3\n\nb1");
    assert_eq!(chunks[1].title_path, vec!["T".to_string()]);
    // the prefix comes from the previous chunk as it was before overlap
    assert_eq!(chunks[2].overlap_prefix, "b1");
    assert_eq!(chunks[2].text, "b1\n\n   \n");
    assert_eq!(chunks[2].index, 2);
}

#[test]
fn apply_overlap_leaves_single_chunk_and_zero_overlap_alone() {
    let mut one = vec![plain(0, "x\ny")];
    apply_overlap(&mut one, 3);
    assert_eq!(one[0].text, "x\ny");
    let mut two = vec![plain(0, "x"), plain(1, "y")];
    apply_overlap(&mut two, 0);
    assert_eq!(two[1].text, "y");
    assert_eq!(two[1].overlap_prefix, "");
}

#[test]
fn semantic_chunks_fit_unless_one_long_line() {
    let content = format!(
        "{}\n{}\n{}\n{}\n",
        "a".repeat(20),
        "b".repeat(20),
        "L".repeat(120),
        "c".repeat(20)
    );
    let config = SemanticChunkConfig {
        target_bytes: 45,
        max_bytes: 60,
        overlap_sentences: 0,
        preserve_code_blocks: true,
        preserve_tables: false,
    };
    let chunks = split_semantic(&content, &config);
    let texts: Vec<String> = chunks.iter().map(|c| c.text.clone()).collect();
    assert_eq!(
        texts,
        vec![
            format!("{}\n{}\n", "a".repeat(20), "b".repeat(20)),
            format!("{}\n", "L".repeat(120)),
            format!("{}\n", "c".repeat(20)),
        ]
    );
    for t in &texts {
        assert!(t.len() <= config.max_bytes || t.trim_end().lines().count() == 1);
    }
}
