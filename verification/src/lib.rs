//! Indexing of a directory of markdown documents.
//!
//! A document may open with a fenced metadata block carrying an optional
//! title.  A display title for each document is resolved from that metadata,
//! from the first heading line of the body, or from the file stem, in that
//! order.  The library parses documents, resolves titles, builds the index
//! of a set of candidate files, and looks a single document up by its id.

pub mod filename;
pub mod frontmatter;
pub mod index;
pub mod title;
