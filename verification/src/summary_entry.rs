//! One entry of the summary: a document's path and title, and the line of
//! the list that it becomes.

use crate::path::{
    depth, depth_of, effective_path, effective_path_of, final_segment_start, is_directory_marker,
    is_well_formed_path, lemma_effective_depth, lemma_final_segment_start, lemma_path_parts,
    marks_directory, parent_dir, well_formed_path,
};
use crate::text::{count_char, lemma_count_bounds};
use vstd::prelude::*;
use vstd::std_specs::cmp::PartialEqSpecImpl;
use vstd::string::StringExecFns;

verus! {

/// What one level of nesting puts in front of a line.
pub const INDENT_UNIT: &'static str = "    ";

/// A document of the tree: its path relative to the root, with `/` between
/// the segments, and its title.
#[derive(Debug, Eq)]
pub struct SummaryEntry {
    pub path: String,
    pub title: String,
}

/// What an entry is to the contracts: the characters of its path and title.
pub struct EntryView {
    pub path: Seq<char>,
    pub title: Seq<char>,
}

impl View for SummaryEntry {
    type V = EntryView;

    open spec fn view(&self) -> EntryView {
        EntryView { path: self.path@, title: self.title@ }
    }
}

impl EntryView {
    /// Whether this is the entry of a document: its path is a well-formed
    /// relative path and its title is one line of text, and not empty.
    pub open spec fn well_formed(self) -> bool {
        &&& well_formed_path(self.path)
        &&& self.title.len() > 0
        &&& !self.title.contains('\n')
    }
}

/// The views of a sequence of entries, in the same order.
pub open spec fn views(entries: Seq<SummaryEntry>) -> Seq<EntryView> {
    entries.map_values(|e: SummaryEntry| e@)
}

/// How many levels deep the line of `path` is indented: the depth of its
/// effective path, so that a directory's index file stands one level above
/// the other files of the directory.
pub open spec fn indentation(path: Seq<char>) -> nat {
    depth(effective_path(path))
}

/// `level` indent units in a row.
pub open spec fn indent(level: nat) -> Seq<char>
    decreases level,
{
    if level == 0 {
        Seq::empty()
    } else {
        indent((level - 1) as nat) + INDENT_UNIT@
    }
}

/// The markdown link of an entry: `[title](path)`.
pub open spec fn link_text(entry: EntryView) -> Seq<char> {
    "["@ + entry.title + "]("@ + entry.path + ")"@
}

/// The line of an entry: its indentation, a list bullet and its link, the
/// link going to the entry's own path.
pub open spec fn line_text(entry: EntryView) -> Seq<char> {
    indent(indentation(entry.path)) + "- "@ + link_text(entry)
}

/// A directory's index file is indented one unit less than a file that lies
/// directly in that directory. At the root neither is indented.
pub proof fn lemma_index_dedent(index: Seq<char>, sibling: Seq<char>)
    requires
        well_formed_path(index),
        well_formed_path(sibling),
        is_directory_marker(index),
        !is_directory_marker(sibling),
        parent_dir(sibling) == parent_dir(index),
    ensures
        depth(index) == 0 ==> indentation(index) == 0 && indentation(sibling) == 0,
        depth(index) > 0 ==> indentation(index) + 1 == indentation(sibling),
        depth(index) > 0 ==> indent(indentation(index)) + INDENT_UNIT@ == indent(
            indentation(sibling),
        ),
{
    lemma_final_segment_start(index);
    lemma_final_segment_start(sibling);
    lemma_path_parts(index);
    lemma_path_parts(sibling);
    lemma_effective_depth(index);
    if final_segment_start(index) == 0 {
        assert(parent_dir(sibling).len() == 0);
        assert(final_segment_start(sibling) == 0);
    } else {
        assert(parent_dir(index).len() > 0);
        assert(final_segment_start(sibling) > 0);
    }
}

/// An entry at the root is not indented, be it the root's index file or any
/// other file: its line is the bullet and the link.
pub proof fn lemma_root_not_indented(entry: EntryView)
    requires
        depth(entry.path) == 0,
    ensures
        indentation(entry.path) == 0,
        line_text(entry) == "- "@ + link_text(entry),
{
    lemma_effective_depth(entry.path);
    assert(indent(0) + "- "@ =~= "- "@);
}

impl SummaryEntry {
    /// The line of this entry in the summary.
    pub fn summary_line(&self) -> (line: String)
        ensures
            line@ == line_text(self@),
    {
        let level = self.indentation_level();
        let mut line = String::new();
        let mut done: usize = 0;
        while done < level
            invariant
                done <= level,
                line@ == indent(done as nat),
            decreases level - done,
        {
            line.append(INDENT_UNIT);
            done = done + 1;
        }
        line.append("- ");
        let link = self.link();
        line.append(link.as_str());
        line
    }

    /// How many levels deep the line of this entry is indented.
    pub fn indentation_level(&self) -> (level: usize)
        ensures
            level == indentation(self.path@),
    {
        proof {
            lemma_effective_depth(self.path@);
        }
        let amount = depth_of(self.path_string());
        if amount == 0 {
            return 0;
        } else if marks_directory(self.path_string()) {
            return amount - 1;
        }
        amount
    }

    /// The markdown link of this entry.
    pub fn link(&self) -> (link: String)
        ensures
            link@ == link_text(self@),
    {
        let mut link = String::from_str("[");
        link.append(self.title.as_str());
        link.append("](");
        link.append(self.path_string());
        link.append(")");
        link
    }

    /// Whether this is the entry of a document, with a well-formed path and a
    /// title of one line.
    pub fn is_well_formed(&self) -> (r: bool)
        ensures
            r == self@.well_formed(),
    {
        proof {
            lemma_count_bounds(self.title@, '\n');
        }
        is_well_formed_path(self.path_string()) && !self.title.as_str().is_empty() && count_char(
            self.title.as_str(),
            '\n',
        ) == 0
    }

    /// The path of this entry, as given.
    pub fn path_string(&self) -> (path: &str)
        ensures
            path@ == self.path@,
    {
        self.path.as_str()
    }

    /// The effective path of this entry: the directory for a directory's index
    /// file, the path itself for any other file.
    pub fn html_path(&self) -> (path: String)
        ensures
            path@ == effective_path(self.path@),
    {
        effective_path_of(self.path_string())
    }
}

impl PartialEq for SummaryEntry {
    /// Two entries are equal when their paths and their titles are.
    fn eq(&self, other: &Self) -> (r: bool) {
        self.path == other.path && self.title == other.title
    }
}

impl PartialEqSpecImpl for SummaryEntry {
    open spec fn obeys_eq_spec() -> bool {
        true
    }

    open spec fn eq_spec(&self, other: &Self) -> bool {
        self@ == other@
    }
}

} // verus!
