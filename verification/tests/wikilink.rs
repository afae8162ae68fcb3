use file_pipeline_core::wikilink::extract_wikilinks;

#[test]
fn test_extract_simple() {
    let text = "이 문서는 [[other-doc]]를 참조합니다.";
    let links = extract_wikilinks(text);
    assert_eq!(links, vec!["other-doc"]);
}

#[test]
fn test_extract_with_section() {
    let text = "[[doc-a#section1]] 참고";
    let links = extract_wikilinks(text);
    assert_eq!(links, vec!["doc-a"]);
}

#[test]
fn test_extract_with_alias() {
    let text = "[[real-target|보이는 이름]] 사용";
    let links = extract_wikilinks(text);
    assert_eq!(links, vec!["real-target"]);
}

#[test]
fn test_extract_multiple_dedup() {
    let text = "[[a]] 그리고 [[b]] 또 [[a]]";
    let links = extract_wikilinks(text);
    assert_eq!(links, vec!["a", "b"]);
}

#[test]
fn test_extract_empty() {
    assert!(extract_wikilinks("일반 텍스트").is_empty());
    assert!(extract_wikilinks("").is_empty());
}

#[test]
fn test_extract_unclosed() {
    assert!(extract_wikilinks("[[unclosed").is_empty());
}

#[test]
fn test_extract_korean() {
    let text = "[[한국어-제목]] 참고";
    let links = extract_wikilinks(text);
    assert_eq!(links, vec!["한국어-제목"]);
}
