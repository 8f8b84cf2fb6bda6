//! Resolution of a document's display title.
//!
//! The title comes from the first source in this chain that applies: a
//! non-empty `title` field of the metadata; the remainder of the body's
//! first line when that line opens with the level-1 heading marker `"# "`;
//! otherwise the fallback id supplied by the caller (the file stem).

use crate::frontmatter::{frontmatter_view, Frontmatter, FrontmatterView};
use vstd::prelude::*;
use vstd::string::{StrSliceExecFns, StringExecFns};

verus! {

/// Number of characters of `s` before its first line feed (all of `s` when
/// it holds none).
pub open spec fn line_break(s: Seq<char>) -> int
    decreases s.len(),
{
    if s.len() == 0 {
        0
    } else if s[0] == '\n' {
        0
    } else {
        1 + line_break(s.drop_first())
    }
}

/// The first line of `s`, as `str::lines` yields it: the text before the
/// first line feed, without a carriage return left at its end by a `"\r\n"`
/// line ending.
pub open spec fn first_line(s: Seq<char>) -> Seq<char> {
    let raw = s.subrange(0, line_break(s));
    if line_break(s) < s.len() && raw.len() > 0 && raw.last() == '\r' {
        raw.drop_last()
    } else {
        raw
    }
}

/// The line opens with the two-character level-1 heading marker.
pub open spec fn has_heading_marker(line: Seq<char>) -> bool {
    line.len() >= 2 && line[0] == '#' && line[1] == ' '
}

/// The resolved display title: the metadata title when present and
/// non-empty; else the remainder of a first line `"# ..."` of the body;
/// else `fallback`.
pub open spec fn resolve_title_spec(
    fm: Option<FrontmatterView>,
    body: Seq<char>,
    fallback: Seq<char>,
) -> Seq<char> {
    let line = first_line(body);
    match fm {
        Some(f) => match f.title {
            Some(t) => if t.len() > 0 {
                t
            } else if has_heading_marker(line) {
                line.subrange(2, line.len() as int)
            } else {
                fallback
            },
            None => if has_heading_marker(line) {
                line.subrange(2, line.len() as int)
            } else {
                fallback
            },
        },
        None => if has_heading_marker(line) {
            line.subrange(2, line.len() as int)
        } else {
            fallback
        },
    }
}

/// A present, non-empty metadata title always wins over a heading line and
/// over the fallback id, and is returned verbatim.
pub proof fn lemma_title_priority_metadata(
    fm: Option<FrontmatterView>,
    body: Seq<char>,
    fallback: Seq<char>,
    t: Seq<char>,
)
    requires
        fm matches Some(f) && f.title == Some(t),
        t.len() > 0,
    ensures
        resolve_title_spec(fm, body, fallback) == t,
{
}

/// Without a non-empty metadata title, a first line that opens with the
/// heading marker always wins over the fallback id: the title is that line
/// with the marker stripped and nothing else changed.
pub proof fn lemma_title_priority_heading(
    fm: Option<FrontmatterView>,
    body: Seq<char>,
    fallback: Seq<char>,
)
    requires
        fm matches Some(f) ==> (f.title is None || f.title == Some(Seq::<char>::empty())),
        has_heading_marker(first_line(body)),
    ensures
        resolve_title_spec(fm, body, fallback) == first_line(body).subrange(
            2,
            first_line(body).len() as int,
        ),
{
}

/// With neither a non-empty metadata title nor a heading line, the fallback
/// id is returned unchanged.
pub proof fn lemma_title_priority_fallback(
    fm: Option<FrontmatterView>,
    body: Seq<char>,
    fallback: Seq<char>,
)
    requires
        fm matches Some(f) ==> (f.title is None || f.title == Some(Seq::<char>::empty())),
        !has_heading_marker(first_line(body)),
    ensures
        resolve_title_spec(fm, body, fallback) == fallback,
{
}

proof fn lemma_line_break_at(s: Seq<char>, j: int)
    requires
        0 <= j <= s.len(),
        forall|k: int| 0 <= k < j ==> s[k] != '\n',
        j == s.len() || s[j] == '\n',
    ensures
        line_break(s) == j,
    decreases j,
{
    if j == 0 {
    } else {
        assert(s[0] != '\n');
        assert forall|k: int| 0 <= k < j - 1 implies s.drop_first()[k] != '\n' by {
            assert(s.drop_first()[k] == s[k + 1]);
        }
        lemma_line_break_at(s.drop_first(), j - 1);
    }
}

/// Resolve the display title of a document from its optional metadata, its
/// body, and the fallback id derived from its file name.
pub fn extract_title(
    frontmatter: &Option<Frontmatter>,
    markdown_content: &str,
    fallback_id: &str,
) -> (r: String)
    ensures
        r@ == resolve_title_spec(frontmatter_view(*frontmatter), markdown_content@, fallback_id@),
{
    match frontmatter {
        Some(fm) => match &fm.title {
            Some(t) => {
                if t.as_str().unicode_len() > 0 {
                    return t.clone();
                }
            },
            None => {},
        },
        None => {},
    }
    let n: usize = markdown_content.unicode_len();
    let mut lb: usize = 0;
    while lb < n && markdown_content.get_char(lb) != '\n'
        invariant
            0 <= lb <= n,
            n == markdown_content@.len(),
            forall|k: int| 0 <= k < lb ==> markdown_content@[k] != '\n',
        decreases n - lb,
    {
        lb = lb + 1;
    }
    proof {
        lemma_line_break_at(markdown_content@, lb as int);
    }
    let line_end: usize = if lb < n && lb > 0 && markdown_content.get_char(lb - 1) == '\r' {
        lb - 1
    } else {
        lb
    };
    assert(markdown_content@.subrange(0, line_end as int) =~= first_line(markdown_content@));
    if line_end >= 2 && markdown_content.get_char(0) == '#' && markdown_content.get_char(1) == ' ' {
        let heading = markdown_content.substring_char(2, line_end);
        proof {
            let line = first_line(markdown_content@);
            assert(has_heading_marker(line));
            assert(heading@ =~= line.subrange(2, line.len() as int));
        }
        return String::from_str(heading);
    }
    assert(!has_heading_marker(first_line(markdown_content@)));
    String::from_str(fallback_id)
}

} // verus!
