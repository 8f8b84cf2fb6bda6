//! Detection and extraction of the metadata block at the head of a document.
//!
//! A document may begin with a block fenced by a three-character delimiter
//! line.  The block is read as a key-value mapping with one recognized key,
//! `title`.  A malformed block is never an error: the document is then
//! treated as having no metadata and the whole content is its body.

use vstd::prelude::*;
use vstd::string::StrSliceExecFns;

verus! {

/// Structured metadata read from the block at the head of a document.
/// The only recognized field is the optional `title`.
pub struct Frontmatter {
    pub title: Option<String>,
}

/// Ghost image of a `Frontmatter` value.
pub struct FrontmatterView {
    pub title: Option<Seq<char>>,
}

impl View for Frontmatter {
    type V = FrontmatterView;

    open spec fn view(&self) -> FrontmatterView {
        FrontmatterView {
            title: match self.title {
                Some(t) => Some(t@),
                None => None,
            },
        }
    }
}

/// View of an optional metadata value.
pub open spec fn frontmatter_view(fm: Option<Frontmatter>) -> Option<FrontmatterView> {
    match fm {
        Some(f) => Some(f@),
        None => None,
    }
}

/// The delimiter sequence that fences the metadata block.
pub open spec fn delimiter() -> Seq<char> {
    seq!['-', '-', '-']
}

/// The delimiter sequence occurs in `s` at position `i`.
pub open spec fn is_delim_at(s: Seq<char>, i: int) -> bool {
    &&& 0 <= i
    &&& i + 3 <= s.len()
    &&& s[i] == '-'
    &&& s[i + 1] == '-'
    &&& s[i + 2] == '-'
}

/// Position of the first delimiter occurrence at or after `from`, if any.
pub open spec fn find_close(s: Seq<char>, from: int) -> Option<int>
    decreases s.len() - from,
{
    if from < 0 || from + 3 > s.len() {
        None
    } else if is_delim_at(s, from) {
        Some(from)
    } else {
        find_close(s, from + 1)
    }
}

/// Names the Unicode `White_Space` classification of a character.
pub uninterp spec fn is_unicode_whitespace(c: char) -> bool;

/// Relies on `char::is_whitespace`: whether `c` has the Unicode
/// `White_Space` property.  The answer depends on the character alone.
#[verifier::external_body]
fn char_is_whitespace(c: char) -> (r: bool)
    ensures
        r == is_unicode_whitespace(c),
{
    c.is_whitespace()
}

/// Number of leading whitespace characters of `s`.
pub open spec fn ws_prefix_len(s: Seq<char>) -> int
    decreases s.len(),
{
    if s.len() > 0 && is_unicode_whitespace(s[0]) {
        1 + ws_prefix_len(s.drop_first())
    } else {
        0
    }
}

/// `s` with its leading whitespace removed.
pub open spec fn trim_start_spec(s: Seq<char>) -> Seq<char> {
    s.subrange(ws_prefix_len(s), s.len() as int)
}

proof fn lemma_ws_prefix_at(s: Seq<char>, j: int)
    requires
        0 <= j <= s.len(),
        forall|k: int| 0 <= k < j ==> is_unicode_whitespace(s[k]),
        j == s.len() || !is_unicode_whitespace(s[j]),
    ensures
        ws_prefix_len(s) == j,
    decreases j,
{
    if j == 0 {
    } else {
        assert(is_unicode_whitespace(s[0]));
        assert forall|k: int| 0 <= k < j - 1 implies is_unicode_whitespace(s.drop_first()[k]) by {
            assert(s.drop_first()[k] == s[k + 1]);
        }
        lemma_ws_prefix_at(s.drop_first(), j - 1);
    }
}

/// Remove leading whitespace, as `str::trim_start` does.
pub fn trim_start<'a>(s: &'a str) -> (r: &'a str)
    ensures
        r@ == trim_start_spec(s@),
{
    let n: usize = s.unicode_len();
    let mut j: usize = 0;
    while j < n && char_is_whitespace(s.get_char(j))
        invariant
            0 <= j <= n,
            n == s@.len(),
            forall|k: int| 0 <= k < j ==> is_unicode_whitespace(s@[k]),
        decreases n - j,
    {
        j = j + 1;
    }
    proof {
        lemma_ws_prefix_at(s@, j as int);
    }
    s.substring_char(j, n)
}

/// The single recognized metadata key.
pub open spec fn title_key() -> Seq<char> {
    seq!['t', 'i', 't', 'l', 'e']
}

/// Names the outcome of reading `block` as a key-value mapping and taking the
/// string entry under `key`: `None` when the block is not a well-formed
/// mapping or the entry holds a value of another type; `Some(None)` when the
/// entry is absent or null; `Some(Some(v))` when the entry holds the string
/// `v`.
pub uninterp spec fn yaml_string_field(block: Seq<char>, key: Seq<char>) -> Option<Option<Seq<char>>>;

/// Relies on `serde_yaml::from_str::<serde_yaml::Value>` and
/// `serde_yaml::Mapping::get`: parses `block` as YAML and reads the string
/// entry under `key`.  The outcome depends on `block` and `key` alone.
#[verifier::external_body]
fn yaml_string_entry(block: &str, key: &str) -> (r: Option<Option<String>>)
    ensures
        r.deep_view() == yaml_string_field(block@, key@),
{
    let parsed: Result<serde_yaml::Value, serde_yaml::Error> = serde_yaml::from_str(block);
    match parsed {
        Ok(serde_yaml::Value::Mapping(map)) => match map.get(key) {
            None => Some(None),
            Some(serde_yaml::Value::Null) => Some(None),
            Some(serde_yaml::Value::String(value)) => Some(Some(value.clone())),
            Some(_) => None,
        },
        Ok(_) => None,
        Err(_) => None,
    }
}

/// What `parse_document` returns: the optional metadata and the body.
///
/// The metadata is present exactly when the content opens with the
/// delimiter, a closing delimiter follows, and the text between the two
/// (after the first four characters) reads as a well-formed mapping.  The
/// body is then the text after the closing delimiter with leading
/// whitespace removed; in every other case it is the content unchanged.
pub open spec fn parse_spec(content: Seq<char>) -> (Option<FrontmatterView>, Seq<char>) {
    if !is_delim_at(content, 0) {
        (None, content)
    } else {
        match find_close(content, 4) {
            None => (None, content),
            Some(i) => match yaml_string_field(content.subrange(4, i), title_key()) {
                None => (None, content),
                Some(t) => (
                    Some(FrontmatterView { title: t }),
                    trim_start_spec(content.subrange(i + 3, content.len() as int)),
                ),
            },
        }
    }
}

proof fn lemma_find_close_none(s: Seq<char>, from: int)
    requires
        forall|k: int| from <= k ==> !is_delim_at(s, k),
    ensures
        find_close(s, from) is None,
    decreases s.len() - from,
{
    if from < 0 || from + 3 > s.len() {
    } else {
        assert(!is_delim_at(s, from));
        lemma_find_close_none(s, from + 1);
    }
}

proof fn lemma_find_close_first(s: Seq<char>, from: int, i: int)
    requires
        0 <= from <= i,
        is_delim_at(s, i),
        forall|k: int| from <= k < i ==> !is_delim_at(s, k),
    ensures
        find_close(s, from) == Some(i),
    decreases i - from,
{
    if from == i {
    } else {
        assert(!is_delim_at(s, from));
        lemma_find_close_first(s, from + 1, i);
    }
}

/// Content that does not open with the delimiter parses to absent metadata
/// and the content itself, unchanged.
pub proof fn lemma_parse_no_metadata(content: Seq<char>)
    requires
        !is_delim_at(content, 0),
    ensures
        parse_spec(content) == (None::<FrontmatterView>, content),
{
}

/// Content with an opening delimiter but no closing delimiter parses to
/// absent metadata and the content itself, unchanged.
pub proof fn lemma_parse_unclosed(content: Seq<char>)
    requires
        is_delim_at(content, 0),
        forall|k: int| 4 <= k ==> !is_delim_at(content, k),
    ensures
        parse_spec(content) == (None::<FrontmatterView>, content),
{
    lemma_find_close_none(content, 4);
}

/// Content whose delimited block does not read as a well-formed mapping
/// parses to absent metadata and the whole content unchanged — not to the
/// split-off body.
pub proof fn lemma_parse_unparsable_block(content: Seq<char>, close: int)
    requires
        is_delim_at(content, 0),
        find_close(content, 4) == Some(close),
        yaml_string_field(content.subrange(4, close), title_key()) is None,
    ensures
        parse_spec(content) == (None::<FrontmatterView>, content),
{
}

/// A document assembled from a metadata block and the remaining text: the
/// opening delimiter line, the block, the closing delimiter, and the rest.
pub open spec fn framed(block: Seq<char>, rest: Seq<char>) -> Seq<char> {
    delimiter() + seq!['\n'] + block + delimiter() + rest
}

/// Well-formed framed content — no stray delimiter inside the block region,
/// and a block in which the mapping read finds the title entry `t` — parses
/// to exactly that metadata, and to the rest of the text with its leading
/// whitespace removed as the body.
pub proof fn lemma_parse_well_formed(block: Seq<char>, rest: Seq<char>, t: Option<Seq<char>>)
    requires
        forall|k: int| 4 <= k < 4 + block.len() ==> !is_delim_at(framed(block, rest), k),
        yaml_string_field(block, title_key()) == Some(t),
    ensures
        parse_spec(framed(block, rest)) == (
            Some(FrontmatterView { title: t }),
            trim_start_spec(rest),
        ),
{
    let content = framed(block, rest);
    let i = 4 + block.len() as int;
    assert(content.len() == block.len() + rest.len() + 7);
    assert(content[0] == '-' && content[1] == '-' && content[2] == '-');
    assert(is_delim_at(content, 0));
    assert(content[i] == '-' && content[i + 1] == '-' && content[i + 2] == '-');
    assert(is_delim_at(content, i));
    lemma_find_close_first(content, 4, i);
    assert(content.subrange(4, i) =~= block);
    assert(content.subrange(i + 3, content.len() as int) =~= rest);
}

/// Split `content` into its optional metadata block and its body.
pub fn parse_document<'a>(content: &'a str) -> (r: (Option<Frontmatter>, &'a str))
    ensures
        frontmatter_view(r.0) == parse_spec(content@).0,
        r.1@ == parse_spec(content@).1,
{
    let n: usize = content.unicode_len();
    if n < 3 || content.get_char(0) != '-' || content.get_char(1) != '-'
        || content.get_char(2) != '-' {
        return (None, content);
    }
    assert(is_delim_at(content@, 0));
    let mut i: usize = 4;
    while i <= n - 3 && !(content.get_char(i) == '-' && content.get_char(i + 1) == '-'
        && content.get_char(i + 2) == '-')
        invariant
            4 <= i,
            3 <= n == content@.len(),
            find_close(content@, 4) == find_close(content@, i as int),
        decreases n - i,
    {
        proof {
            assert(!is_delim_at(content@, i as int));
            assert(find_close(content@, i as int) == find_close(content@, i as int + 1));
        }
        i = i + 1;
    }
    if i > n - 3 {
        assert(find_close(content@, i as int) is None);
        return (None, content);
    }
    assert(is_delim_at(content@, i as int));
    assert(find_close(content@, 4) == Some(i as int));
    let block = content.substring_char(4, i);
    proof {
        reveal_strlit("title");
        assert("title"@ =~= title_key());
    }
    let title_field = yaml_string_entry(block, "title");
    match title_field {
        None => (None, content),
        Some(t) => {
            let rest = content.substring_char(i + 3, n);
            let body = trim_start(rest);
            (Some(Frontmatter { title: t }), body)
        },
    }
}

} // verus!
