use doc_index::frontmatter::parse_document;

#[test]
fn no_delimiter_is_identity() {
    let content = "Hello\nWorld";
    let (fm, body) = parse_document(content);
    assert!(fm.is_none());
    assert_eq!(body, content);
}

#[test]
fn empty_content_is_identity() {
    let (fm, body) = parse_document("");
    assert!(fm.is_none());
    assert_eq!(body, "");
}

#[test]
fn content_shorter_than_delimiter_is_identity() {
    let (fm, body) = parse_document("--");
    assert!(fm.is_none());
    assert_eq!(body, "--");
}

#[test]
fn bare_delimiter_is_identity() {
    let (fm, body) = parse_document("---");
    assert!(fm.is_none());
    assert_eq!(body, "---");
}

#[test]
fn well_formed_block_yields_title_and_body() {
    let content = "---\ntitle: \"X\"\n---\nBODY";
    let (fm, body) = parse_document(content);
    let fm = fm.expect("metadata expected");
    assert_eq!(fm.title.as_deref(), Some("X"));
    assert_eq!(body, "BODY");
}

#[test]
fn well_formed_block_with_padding_yields_title_and_body() {
    let content = "---\n title: \"X\" \n---\nBODY";
    let (fm, body) = parse_document(content);
    let fm = fm.expect("metadata expected");
    assert_eq!(fm.title.as_deref(), Some("X"));
    assert_eq!(body, "BODY");
}

#[test]
fn unclosed_block_is_identity() {
    let content = "---\ntitle: \"X\"\nno closing line";
    let (fm, body) = parse_document(content);
    assert!(fm.is_none());
    assert_eq!(body, content);
}

#[test]
fn unparsable_block_returns_whole_content() {
    let content = "---\ntitle: \"unclosed\n---\nBODY";
    let (fm, body) = parse_document(content);
    assert!(fm.is_none());
    assert_eq!(body, content);
}

#[test]
fn non_mapping_block_returns_whole_content() {
    let content = "---\njust a scalar\n---\nBODY";
    let (fm, body) = parse_document(content);
    assert!(fm.is_none());
    assert_eq!(body, content);
}

#[test]
fn wrongly_typed_title_returns_whole_content() {
    let content = "---\ntitle: 123\n---\nBODY";
    let (fm, body) = parse_document(content);
    assert!(fm.is_none());
    assert_eq!(body, content);
}

#[test]
fn block_without_title_yields_metadata_without_title() {
    let content = "---\nauthor: someone\n---\nBODY";
    let (fm, body) = parse_document(content);
    let fm = fm.expect("metadata expected");
    assert!(fm.title.is_none());
    assert_eq!(body, "BODY");
}

#[test]
fn unknown_keys_are_ignored() {
    let content = "---\nauthor: someone\ntitle: \"T\"\nextra: 7\n---\nBODY";
    let (fm, body) = parse_document(content);
    let fm = fm.expect("metadata expected");
    assert_eq!(fm.title.as_deref(), Some("T"));
    assert_eq!(body, "BODY");
}

#[test]
fn null_title_yields_metadata_without_title() {
    let content = "---\ntitle: null\n---\nBODY";
    let (fm, body) = parse_document(content);
    let fm = fm.expect("metadata expected");
    assert!(fm.title.is_none());
    assert_eq!(body, "BODY");
}

#[test]
fn empty_block_returns_whole_content() {
    let content = "---\n---\nBODY";
    let (fm, body) = parse_document(content);
    assert!(fm.is_none());
    assert_eq!(body, content);
}

#[test]
fn whitespace_only_block_returns_whole_content() {
    let content = "---\n   \n---\nBODY";
    let (fm, body) = parse_document(content);
    assert!(fm.is_none());
    assert_eq!(body, content);
}

#[test]
fn leading_body_whitespace_is_trimmed() {
    let content = "---\ntitle: \"T\"\n---\n\n\n  BODY starts here";
    let (_, body) = parse_document(content);
    assert_eq!(body, "BODY starts here");
}

#[test]
fn body_keeps_inner_whitespace() {
    let content = "---\ntitle: \"T\"\n---\nline one\n\nline two  ";
    let (_, body) = parse_document(content);
    assert_eq!(body, "line one\n\nline two  ");
}
