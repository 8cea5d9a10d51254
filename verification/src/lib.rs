//! A table of contents for a tree of markdown documents.
//!
//! Each document is an entry with a path and a title. The entries are put in
//! an order in which a directory's index file comes before the rest of the
//! directory, and each entry is rendered as one line of a nested list of
//! links, indented by the depth of its directory.
//!
//! - [`text`]: the dictionary order of character sequences.
//! - [`path`]: depth, index files and effective paths.
//! - [`summary_entry`]: an entry and its line.
//! - [`order`]: the order of the entries, and what holds of it.
//! - [`summary`]: sorting and rendering of the whole summary.
//! - [`title`]: the title of a document, from its lines.

pub mod order;
pub mod path;
pub mod summary;
pub mod summary_entry;
pub mod text;
pub mod title;

pub use summary::{render_lines, render_summary, sort_entries};
pub use summary_entry::SummaryEntry;
pub use title::find_content;
