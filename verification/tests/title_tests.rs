use doc_index::frontmatter::Frontmatter;
use doc_index::title::extract_title;

fn with_title(t: &str) -> Option<Frontmatter> {
    Some(Frontmatter {
        title: Some(t.to_string()),
    })
}

#[test]
fn metadata_title_wins_over_heading() {
    let title = extract_title(&with_title("Meta"), "# Heading\nbody", "fallback");
    assert_eq!(title, "Meta");
}

#[test]
fn metadata_title_wins_over_fallback() {
    let title = extract_title(&with_title("Meta"), "plain body", "fallback");
    assert_eq!(title, "Meta");
}

#[test]
fn metadata_title_is_returned_verbatim() {
    let title = extract_title(&with_title("  padded  "), "body", "fallback");
    assert_eq!(title, "  padded  ");
}

#[test]
fn heading_wins_over_fallback() {
    let fm = Some(Frontmatter { title: None });
    let title = extract_title(&fm, "# My Heading\nbody", "fallback");
    assert_eq!(title, "My Heading");
}

#[test]
fn heading_used_without_metadata() {
    let title = extract_title(&None, "# My Doc\nSome text", "notes");
    assert_eq!(title, "My Doc");
}

#[test]
fn fallback_when_neither_present() {
    let title = extract_title(&None, "Just text.", "plain");
    assert_eq!(title, "plain");
}

#[test]
fn empty_body_falls_back() {
    let title = extract_title(&None, "", "fallback");
    assert_eq!(title, "fallback");
}

#[test]
fn bare_hash_is_no_heading() {
    let title = extract_title(&None, "#\nbody", "fallback");
    assert_eq!(title, "fallback");
}

#[test]
fn level_two_heading_is_no_title() {
    let title = extract_title(&None, "## Second\nbody", "fallback");
    assert_eq!(title, "fallback");
}

#[test]
fn heading_line_with_crlf_ending() {
    let title = extract_title(&None, "# Hi\r\nrest", "fallback");
    assert_eq!(title, "Hi");
}

#[test]
fn heading_only_first_line_counts() {
    let title = extract_title(&None, "intro\n# Late heading\nbody", "fallback");
    assert_eq!(title, "fallback");
}

#[test]
fn empty_metadata_title_falls_through_to_heading() {
    let title = extract_title(&with_title(""), "# Heading\nbody", "fallback");
    assert_eq!(title, "Heading");
}

#[test]
fn empty_metadata_title_falls_through_to_fallback() {
    let title = extract_title(&with_title(""), "body", "fallback");
    assert_eq!(title, "fallback");
}

#[test]
fn bare_marker_heading_gives_empty_title() {
    let title = extract_title(&None, "# \nbody", "fallback");
    assert_eq!(title, "");
}

#[test]
fn heading_keeps_inner_marker() {
    let title = extract_title(&None, "# # doubled\nbody", "fallback");
    assert_eq!(title, "# doubled");
}
