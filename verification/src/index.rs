//! The document index and single-document lookup.
//!
//! The caller hands the library the candidate files found by a directory
//! traversal, in traversal order, each as its file name and its content
//! (absent when the file could not be read).  The index holds one entry per
//! document file whose content was read, in the same order; the lookup
//! returns the body of the first document file whose stem equals the
//! requested id.

use crate::filename::{
    file_matches_id, is_document_file, is_document_file_spec, matches_doc_id, stem_of, stem_spec,
};
use crate::frontmatter::{parse_document, parse_spec};
use crate::title::{extract_title, first_line, has_heading_marker, resolve_title_spec};
use vstd::prelude::*;
use vstd::string::StringExecFns;

verus! {

/// A file offered by the directory traversal: its name and its content,
/// absent when the file could not be read.
pub struct CandidateFile {
    pub file_name: String,
    pub content: Option<String>,
}

/// Ghost image of a `CandidateFile`.
pub struct CandidateFileView {
    pub file_name: Seq<char>,
    pub content: Option<Seq<char>>,
}

impl View for CandidateFile {
    type V = CandidateFileView;

    open spec fn view(&self) -> CandidateFileView {
        CandidateFileView {
            file_name: self.file_name@,
            content: match self.content {
                Some(c) => Some(c@),
                None => None,
            },
        }
    }
}

impl DeepView for CandidateFile {
    type V = CandidateFileView;

    open spec fn deep_view(&self) -> CandidateFileView {
        self@
    }
}

/// One row of the listing: the document's id (its file stem), its resolved
/// display title, and its file name.
pub struct DocumentIndexEntry {
    pub id: String,
    pub title: String,
    pub file_name: String,
}

/// Ghost image of a `DocumentIndexEntry`.
pub struct DocumentIndexEntryView {
    pub id: Seq<char>,
    pub title: Seq<char>,
    pub file_name: Seq<char>,
}

impl View for DocumentIndexEntry {
    type V = DocumentIndexEntryView;

    open spec fn view(&self) -> DocumentIndexEntryView {
        DocumentIndexEntryView {
            id: self.id@,
            title: self.title@,
            file_name: self.file_name@,
        }
    }
}

impl DeepView for DocumentIndexEntry {
    type V = DocumentIndexEntryView;

    open spec fn deep_view(&self) -> DocumentIndexEntryView {
        self@
    }
}

/// A candidate file belongs in the listing: it carries the document
/// extension and its content could be read.
pub open spec fn included(f: CandidateFileView) -> bool {
    is_document_file_spec(f.file_name) && f.content is Some
}

/// The entry an included candidate file gives rise to.
pub open spec fn entry_spec(f: CandidateFileView) -> DocumentIndexEntryView
    recommends
        f.content is Some,
{
    let parsed = parse_spec(f.content.unwrap());
    DocumentIndexEntryView {
        id: stem_spec(f.file_name),
        title: resolve_title_spec(parsed.0, parsed.1, stem_spec(f.file_name)),
        file_name: f.file_name,
    }
}

/// The listing of a sequence of candidate files: exactly one entry, in
/// traversal order, for each included file, and none for any other.
pub open spec fn index_spec(files: Seq<CandidateFileView>) -> Seq<DocumentIndexEntryView>
    decreases files.len(),
{
    if files.len() == 0 {
        Seq::empty()
    } else {
        let rest = index_spec(files.drop_last());
        if included(files.last()) {
            rest.push(entry_spec(files.last()))
        } else {
            rest
        }
    }
}

/// Number of included files among the candidates.
pub open spec fn included_count(files: Seq<CandidateFileView>) -> int
    decreases files.len(),
{
    if files.len() == 0 {
        0
    } else {
        included_count(files.drop_last()) + if included(files.last()) {
            1int
        } else {
            0int
        }
    }
}

/// The listing holds exactly one entry per included candidate file,
/// whatever depth of the tree the traversal found it at.
pub proof fn lemma_one_entry_per_document(files: Seq<CandidateFileView>)
    ensures
        index_spec(files).len() == included_count(files),
    decreases files.len(),
{
    if files.len() > 0 {
        lemma_one_entry_per_document(files.drop_last());
    }
}

/// The entry at position `j` of the listing comes from some included
/// candidate file.
pub open spec fn entry_has_source(files: Seq<CandidateFileView>, j: int) -> bool {
    exists|k: int|
        0 <= k < files.len() && included(#[trigger] files[k]) && index_spec(files)[j]
            == entry_spec(files[k])
}

/// Every entry of the listing comes from an included candidate file: a file
/// without the document extension, or one that could not be read,
/// contributes nothing.
pub proof fn lemma_entries_from_documents(files: Seq<CandidateFileView>)
    ensures
        forall|j: int| 0 <= j < index_spec(files).len() ==> #[trigger] entry_has_source(files, j),
    decreases files.len(),
{
    if files.len() > 0 {
        lemma_entries_from_documents(files.drop_last());
        let rest = index_spec(files.drop_last());
        assert forall|j: int| 0 <= j < index_spec(files).len() implies #[trigger] entry_has_source(
            files,
            j,
        ) by {
            if j < rest.len() {
                assert(entry_has_source(files.drop_last(), j));
                let k0 = choose|k: int|
                    0 <= k < files.drop_last().len() && included(#[trigger] files.drop_last()[k])
                        && index_spec(files.drop_last())[j] == entry_spec(files.drop_last()[k]);
                assert(files.drop_last()[k0] == files[k0]);
                assert(included(files[k0]) && index_spec(files)[j] == entry_spec(files[k0]));
            } else {
                assert(included(files.last()));
                assert(files[files.len() - 1] == files.last());
                assert(included(files[files.len() - 1]) && index_spec(files)[j] == entry_spec(
                    files[files.len() - 1],
                ));
            }
        }
    } else {
        assert(index_spec(files).len() == 0);
    }
}

/// An index entry's title is non-empty, except for a document whose
/// metadata yields no non-empty title and whose body opens with the bare
/// heading marker `"# "` with nothing after it on the line: the resolution
/// chain otherwise ends at the file stem, which a document file never has
/// empty.
pub proof fn lemma_entry_title_non_empty(f: CandidateFileView)
    requires
        included(f),
        !(has_heading_marker(first_line(parse_spec(f.content.unwrap()).1)) && first_line(
            parse_spec(f.content.unwrap()).1,
        ).len() == 2),
    ensures
        entry_spec(f).title.len() > 0,
{
    crate::filename::lemma_document_stem_non_empty(f.file_name);
}

/// Build the listing of the candidate files, in their order.
pub fn build_index(files: &Vec<CandidateFile>) -> (r: Vec<DocumentIndexEntry>)
    ensures
        r.deep_view() == index_spec(files.deep_view()),
{
    let ghost dv = files.deep_view();
    let mut out: Vec<DocumentIndexEntry> = Vec::new();
    let mut idx: usize = 0;
    assert(out.deep_view() =~= index_spec(dv.take(0)));
    while idx < files.len()
        invariant
            0 <= idx <= files.len(),
            dv == files.deep_view(),
            dv.len() == files.len(),
            out.deep_view() == index_spec(dv.take(idx as int)),
        decreases files.len() - idx,
    {
        let ghost prev = out.deep_view();
        let f = &files[idx];
        assert(f@ == dv[idx as int]);
        if is_document_file(f.file_name.as_str()) {
            match &f.content {
                Some(c) => {
                    let (fm, body) = parse_document(c.as_str());
                    let stem = stem_of(f.file_name.as_str());
                    let title = extract_title(&fm, body, stem.as_str());
                    let entry = DocumentIndexEntry {
                        id: stem,
                        title,
                        file_name: f.file_name.clone(),
                    };
                    assert(entry@ == entry_spec(dv[idx as int]));
                    out.push(entry);
                    assert(out.deep_view() =~= prev.push(entry_spec(dv[idx as int])));
                },
                None => {},
            }
        }
        proof {
            assert(dv.take(idx as int + 1).drop_last() =~= dv.take(idx as int));
            assert(dv.take(idx as int + 1).last() == dv[idx as int]);
        }
        idx = idx + 1;
    }
    proof {
        assert(dv.take(files.len() as int) =~= dv);
    }
    out
}

/// Why a single-document lookup failed: no document file has the requested
/// stem, or the first one that does could not be read.
#[derive(Clone, Copy, Debug, PartialEq, Eq, Structural)]
pub enum LookupError {
    NotFound,
    Unreadable,
}

/// What the lookup of `id` among the candidate files returns: the body of
/// the first document file whose stem equals `id` (first in traversal
/// order, when stems collide); `Unreadable` when that file's content could
/// not be read; `NotFound` when no document file has that stem.
pub open spec fn find_spec(files: Seq<CandidateFileView>, id: Seq<char>) -> Result<
    Seq<char>,
    LookupError,
>
    decreases files.len(),
{
    if files.len() == 0 {
        Err(LookupError::NotFound)
    } else if matches_doc_id(files[0].file_name, id) {
        match files[0].content {
            Some(c) => Ok(parse_spec(c).1),
            None => Err(LookupError::Unreadable),
        }
    } else {
        find_spec(files.drop_first(), id)
    }
}

/// Look the document with stem `id` up among the candidate files and
/// return its body.
pub fn find_document(files: &Vec<CandidateFile>, id: &str) -> (r: Result<String, LookupError>)
    ensures
        find_spec(files.deep_view(), id@) == match r {
            Ok(body) => Ok::<Seq<char>, LookupError>(body@),
            Err(e) => Err::<Seq<char>, LookupError>(e),
        },
{
    let ghost dv = files.deep_view();
    let mut idx: usize = 0;
    assert(dv.skip(0) =~= dv);
    while idx < files.len()
        invariant
            0 <= idx <= files.len(),
            dv == files.deep_view(),
            dv.len() == files.len(),
            find_spec(dv, id@) == find_spec(dv.skip(idx as int), id@),
        decreases files.len() - idx,
    {
        let f = &files[idx];
        assert(f@ == dv[idx as int]);
        assert(dv.skip(idx as int)[0] == dv[idx as int]);
        if file_matches_id(f.file_name.as_str(), id) {
            match &f.content {
                Some(c) => {
                    let (_frontmatter, body) = parse_document(c.as_str());
                    return Ok(String::from_str(body));
                },
                None => {
                    return Err(LookupError::Unreadable);
                },
            }
        }
        proof {
            assert(dv.skip(idx as int).drop_first() =~= dv.skip(idx as int + 1));
        }
        idx = idx + 1;
    }
    proof {
        assert(dv.skip(files.len() as int) =~= Seq::<CandidateFileView>::empty());
    }
    Err(LookupError::NotFound)
}

/// The message a failed lookup reports, naming the requested id.
pub open spec fn not_found_message_spec(id: Seq<char>) -> Seq<char> {
    "Document with ID '"@ + id + "' not found."@
}

/// Render the not-found message for `id`.
pub fn not_found_message(id: &str) -> (r: String)
    ensures
        r@ == not_found_message_spec(id@),
{
    let mut m = String::from_str("Document with ID '");
    m.append(id);
    m.append("' not found.");
    m
}

} // verus!
