//! Stems and extensions of file names.
//!
//! A file name splits at its last dot, provided that dot is not the leading
//! character: the part before it is the stem, used as the document's id,
//! and the part after it is the extension.  Only files with the extension
//! `md`, matched case-sensitively, count as documents.

use vstd::prelude::*;
use vstd::string::{StrSliceExecFns, StringExecFns};

verus! {

/// Index of the last `'.'` in `name`, if any.
pub open spec fn last_dot(name: Seq<char>) -> Option<int>
    decreases name.len(),
{
    if name.len() == 0 {
        None
    } else if name.last() == '.' {
        Some(name.len() - 1)
    } else {
        last_dot(name.drop_last())
    }
}

/// The stem of `name`: everything before the last dot, unless that dot is
/// the leading character or there is none, in which case the whole name.
pub open spec fn stem_spec(name: Seq<char>) -> Seq<char> {
    match last_dot(name) {
        Some(i) => if i > 0 {
            name.subrange(0, i)
        } else {
            name
        },
        None => name,
    }
}

/// The extension of `name`: everything after the last dot, absent when
/// there is no dot or the only dot is the leading character.
pub open spec fn extension_spec(name: Seq<char>) -> Option<Seq<char>> {
    match last_dot(name) {
        Some(i) => if i > 0 {
            Some(name.subrange(i + 1, name.len() as int))
        } else {
            None
        },
        None => None,
    }
}

/// The recognized document extension.
pub open spec fn document_extension() -> Seq<char> {
    seq!['m', 'd']
}

/// `name` carries the recognized document extension.
pub open spec fn is_document_file_spec(name: Seq<char>) -> bool {
    extension_spec(name) == Some(document_extension())
}

/// `name` is a document file whose stem equals `id`.
pub open spec fn matches_doc_id(name: Seq<char>, id: Seq<char>) -> bool {
    is_document_file_spec(name) && stem_spec(name) == id
}

/// A document file's stem — the id and fallback title it gives rise to —
/// is never empty: the dot before the recognized extension is never the
/// leading character.
pub proof fn lemma_document_stem_non_empty(name: Seq<char>)
    requires
        is_document_file_spec(name),
    ensures
        stem_spec(name).len() > 0,
{
    lemma_last_dot_bounds(name);
    match last_dot(name) {
        Some(i) => {
            if i > 0 {
                assert(stem_spec(name).len() == i);
            } else {
                assert(extension_spec(name) is None);
            }
        },
        None => {
            assert(extension_spec(name) is None);
        },
    }
}

proof fn lemma_last_dot_bounds(name: Seq<char>)
    ensures
        match last_dot(name) {
            Some(i) => 0 <= i < name.len(),
            None => true,
        },
    decreases name.len(),
{
    if name.len() > 0 && name.last() != '.' {
        lemma_last_dot_bounds(name.drop_last());
    }
}

proof fn lemma_last_dot_at(name: Seq<char>, i: int)
    requires
        0 <= i < name.len(),
        name[i] == '.',
        forall|k: int| i < k < name.len() ==> name[k] != '.',
    ensures
        last_dot(name) == Some(i),
    decreases name.len(),
{
    if i == name.len() - 1 {
    } else {
        assert(name.last() != '.');
        assert forall|k: int| i < k < name.drop_last().len() implies name.drop_last()[k] != '.' by {
            assert(name.drop_last()[k] == name[k]);
        }
        lemma_last_dot_at(name.drop_last(), i);
    }
}

proof fn lemma_last_dot_none(name: Seq<char>)
    requires
        forall|k: int| 0 <= k < name.len() ==> name[k] != '.',
    ensures
        last_dot(name) is None,
    decreases name.len(),
{
    if name.len() == 0 {
    } else {
        assert forall|k: int| 0 <= k < name.drop_last().len() implies name.drop_last()[k] != '.' by {
            assert(name.drop_last()[k] == name[k]);
        }
        lemma_last_dot_none(name.drop_last());
    }
}

/// Index just past the last `'.'` of `name`, or `0` when it has none.
fn scan_last_dot(name: &str) -> (r: Option<usize>)
    ensures
        match r {
            Some(i) => i < name@.len() && last_dot(name@) == Some(i as int),
            None => last_dot(name@) is None,
        },
{
    let n: usize = name.unicode_len();
    let mut k: usize = n;
    while k > 0 && name.get_char(k - 1) != '.'
        invariant
            0 <= k <= n,
            n == name@.len(),
            forall|m: int| k <= m < n ==> name@[m] != '.',
        decreases k,
    {
        k = k - 1;
    }
    if k == 0 {
        proof {
            lemma_last_dot_none(name@);
        }
        None
    } else {
        proof {
            lemma_last_dot_at(name@, k as int - 1);
        }
        Some(k - 1)
    }
}

/// The stem of `name`: the document id it gives rise to.
pub fn stem_of(name: &str) -> (r: String)
    ensures
        r@ == stem_spec(name@),
{
    match scan_last_dot(name) {
        Some(i) => {
            if i > 0 {
                String::from_str(name.substring_char(0, i))
            } else {
                String::from_str(name)
            }
        },
        None => String::from_str(name),
    }
}

/// Whether `name` carries the recognized document extension.
pub fn is_document_file(name: &str) -> (r: bool)
    ensures
        r == is_document_file_spec(name@),
{
    let n: usize = name.unicode_len();
    match scan_last_dot(name) {
        Some(i) => {
            if i > 0 && n - i == 3 && name.get_char(i + 1) == 'm' && name.get_char(i + 2) == 'd' {
                proof {
                    assert(name@.subrange(i as int + 1, n as int) =~= document_extension());
                }
                true
            } else {
                proof {
                    if i > 0 && extension_spec(name@) == Some(document_extension()) {
                        assert(name@.subrange(i as int + 1, n as int).len() == 2);
                        assert(name@[i as int + 1] == document_extension()[0]);
                        assert(name@[i as int + 2] == document_extension()[1]);
                    }
                }
                false
            }
        },
        None => false,
    }
}

/// Whether the characters of `a` and `b` are equal.
fn str_eq(a: &str, b: &str) -> (r: bool)
    ensures
        r == (a@ == b@),
{
    let n: usize = a.unicode_len();
    let m: usize = b.unicode_len();
    if n != m {
        return false;
    }
    let mut k: usize = 0;
    while k < n && a.get_char(k) == b.get_char(k)
        invariant
            0 <= k <= n,
            n == a@.len() == b@.len(),
            forall|j: int| 0 <= j < k ==> a@[j] == b@[j],
        decreases n - k,
    {
        k = k + 1;
    }
    if k == n {
        proof {
            assert(a@ =~= b@);
        }
        true
    } else {
        assert(a@[k as int] != b@[k as int]);
        false
    }
}

/// Whether `name` is a document file whose stem equals `id`.
pub fn file_matches_id(name: &str, id: &str) -> (r: bool)
    ensures
        r == matches_doc_id(name@, id@),
{
    if !is_document_file(name) {
        return false;
    }
    let stem = stem_of(name);
    str_eq(stem.as_str(), id)
}

} // verus!
