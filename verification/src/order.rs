//! The order of the summary: entries stand by their effective path, so that
//! a directory's index file comes first in its directory, and each
//! directory's files stay together.
//!
//! Two entries with one effective path are told apart by their path, and two
//! with one path by their title: a tie is left only between entries that are
//! the same.

use crate::path::{
    effective_path, final_segment_start, in_directory, is_directory_marker,
    lemma_final_segment_start, parent_dir, well_formed_path, SEPARATOR,
};
use crate::summary_entry::{EntryView, SummaryEntry};
use crate::text::{
    lemma_lex_transitive, lemma_lex_trichotomy, lemma_prefix_block, lemma_proper_prefix_precedes,
    less_than, lex_lt,
};
use std::cmp::Ordering;
use vstd::prelude::*;
use vstd::std_specs::cmp::PartialOrdSpecImpl;

verus! {

/// `a` stands strictly before `b` in the summary.
pub open spec fn precedes(a: EntryView, b: EntryView) -> bool {
    let ea = effective_path(a.path);
    let eb = effective_path(b.path);
    ||| lex_lt(ea, eb)
    ||| ea == eb && lex_lt(a.path, b.path)
    ||| a.path == b.path && lex_lt(a.title, b.title)
}

/// `a` stands before `b` or is the same entry.
pub open spec fn precedes_or_same(a: EntryView, b: EntryView) -> bool {
    precedes(a, b) || a == b
}

/// How `a` stands to `b`: before it, as the same entry, or behind it.
pub open spec fn ordering_of(a: EntryView, b: EntryView) -> Ordering {
    if precedes(a, b) {
        Ordering::Less
    } else if a == b {
        Ordering::Equal
    } else {
        Ordering::Greater
    }
}

/// Of two entries exactly one holds: the first stands before the second,
/// they are the same, or the second stands before the first.
pub proof fn lemma_order_trichotomy(a: EntryView, b: EntryView)
    ensures
        precedes(a, b) || a == b || precedes(b, a),
        !(precedes(a, b) && a == b),
        !(precedes(b, a) && a == b),
        !(precedes(a, b) && precedes(b, a)),
{
    lemma_lex_trichotomy(effective_path(a.path), effective_path(b.path));
    lemma_lex_trichotomy(a.path, b.path);
    lemma_lex_trichotomy(a.title, b.title);
}

/// If `a` stands before `b` and `b` before `c`, then `a` stands before `c`.
pub proof fn lemma_order_transitive(a: EntryView, b: EntryView, c: EntryView)
    requires
        precedes(a, b),
        precedes(b, c),
    ensures
        precedes(a, c),
{
    let ea = effective_path(a.path);
    let eb = effective_path(b.path);
    let ec = effective_path(c.path);
    lemma_lex_trichotomy(ea, eb);
    lemma_lex_trichotomy(eb, ec);
    lemma_lex_trichotomy(a.path, b.path);
    lemma_lex_trichotomy(b.path, c.path);
    if lex_lt(ea, eb) && lex_lt(eb, ec) {
        lemma_lex_transitive(ea, eb, ec);
    } else if ea == eb && eb == ec {
        if lex_lt(a.path, b.path) && lex_lt(b.path, c.path) {
            lemma_lex_transitive(a.path, b.path, c.path);
        } else if a.path == b.path && b.path == c.path {
            lemma_lex_transitive(a.title, b.title, c.title);
        }
    }
}

/// The order is total: any three entries are comparable two by two, in one
/// way only, and the order carries from the first over the second to the
/// third.
pub proof fn lemma_order_is_total(a: EntryView, b: EntryView, c: EntryView)
    ensures
        precedes(a, b) || a == b || precedes(b, a),
        !(precedes(a, b) && a == b),
        !(precedes(b, a) && a == b),
        !(precedes(a, b) && precedes(b, a)),
        precedes(a, b) && precedes(b, c) ==> precedes(a, c),
        precedes_or_same(a, b) && precedes_or_same(b, c) ==> precedes_or_same(a, c),
{
    lemma_order_trichotomy(a, b);
    if precedes(a, b) && precedes(b, c) {
        lemma_order_transitive(a, b, c);
    }
}

/// A directory's index file stands before every other entry of the
/// directory, at any depth below it.
pub proof fn lemma_index_precedes_contents(index: EntryView, other: EntryView)
    requires
        well_formed_path(index.path),
        well_formed_path(other.path),
        is_directory_marker(index.path),
        in_directory(effective_path(index.path), other.path),
        other.path != index.path,
    ensures
        precedes(index, other),
{
    let dir = effective_path(index.path);
    let there = effective_path(other.path);
    lemma_final_segment_start(index.path);
    lemma_final_segment_start(other.path);
    let start = final_segment_start(other.path);
    if dir.len() == 0 {
        if is_directory_marker(other.path) {
            if start == 0 {
                assert(other.path =~= index.path) by {
                    assert(final_segment_start(index.path) == 0);
                    assert(index.path.skip(0) =~= index.path);
                    assert(other.path.skip(0) =~= other.path);
                }
            }
            assert(there.len() > 0);
        }
        assert(dir.is_prefix_of(there));
        lemma_proper_prefix_precedes(dir, there);
    } else {
        let stem = dir.push(SEPARATOR);
        assert(other.path[dir.len() as int] == SEPARATOR) by {
            let at = dir.len() as int;
            assert(other.path.subrange(0, stem.len() as int)[at] == stem[at]);
        }
        assert(start > dir.len());
        assert forall|n: int| 0 <= n < dir.len() implies dir[n] == other.path[n] by {
            assert(other.path.subrange(0, stem.len() as int)[n] == stem[n]);
        }
        if is_directory_marker(other.path) {
            if start == dir.len() + 1 {
                assert(other.path =~= index.path) by {
                    let from = final_segment_start(index.path);
                    assert(from == dir.len() + 1);
                    assert(index.path.skip(from) == other.path.skip(start));
                    assert forall|n: int| 0 <= n < index.path.len() implies index.path[n]
                        == other.path[n] by {
                        if n < dir.len() {
                            assert(dir[n] == index.path[n]);
                            assert(dir[n] == other.path[n]);
                        } else if n == dir.len() {
                            assert(index.path[from - 1] == SEPARATOR);
                        } else {
                            assert(index.path.skip(from)[n - from] == other.path.skip(start)[n
                                - start]);
                        }
                    }
                    assert(index.path.len() == other.path.len()) by {
                        assert(index.path.skip(from).len() == other.path.skip(start).len());
                    }
                }
            }
            assert(there.len() > dir.len());
        }
        assert(dir =~= there.subrange(0, dir.len() as int));
        lemma_proper_prefix_precedes(dir, there);
    }
}

/// Whether the effective path of `entry` lies below the directory `dir`: the
/// entry is a file of `dir` or of a directory below it, or stands for a
/// directory below it.
pub open spec fn below(dir: Seq<char>, entry: EntryView) -> bool {
    dir.push(SEPARATOR).is_prefix_of(effective_path(entry.path))
}

/// What lies below a directory stays together: an entry that stands between
/// two entries below `dir` lies below `dir` as well.
pub proof fn lemma_directory_stays_together(
    dir: Seq<char>,
    first: EntryView,
    between: EntryView,
    last: EntryView,
)
    requires
        below(dir, first),
        below(dir, last),
        precedes_or_same(first, between),
        precedes_or_same(between, last),
    ensures
        below(dir, between),
{
    let a = effective_path(first.path);
    let b = effective_path(between.path);
    let c = effective_path(last.path);
    lemma_lex_trichotomy(a, b);
    lemma_lex_trichotomy(b, c);
    lemma_prefix_block(dir.push(SEPARATOR), a, b, c);
}

/// Two files of one directory, neither of them the directory's index file,
/// stand in the dictionary order of their full paths.
pub proof fn lemma_siblings_by_path(a: EntryView, b: EntryView)
    requires
        parent_dir(a.path) == parent_dir(b.path),
        !is_directory_marker(a.path),
        !is_directory_marker(b.path),
        a.path != b.path,
    ensures
        precedes(a, b) <==> lex_lt(a.path, b.path),
{
    lemma_lex_trichotomy(a.path, b.path);
}

impl SummaryEntry {
    /// Whether this entry stands strictly before `other` in the summary.
    pub fn precedes(&self, other: &Self) -> (r: bool)
        ensures
            r == precedes(self@, other@),
    {
        let here = self.html_path();
        let there = other.html_path();
        proof {
            lemma_lex_trichotomy(here@, there@);
            lemma_lex_trichotomy(self.path@, other.path@);
        }
        if here != there {
            less_than(here.as_str(), there.as_str())
        } else if self.path != other.path {
            less_than(self.path.as_str(), other.path.as_str())
        } else {
            less_than(self.title.as_str(), other.title.as_str())
        }
    }

    /// How this entry stands to `other` in the summary.
    pub fn cmp(&self, other: &Self) -> (o: Ordering)
        ensures
            o == ordering_of(self@, other@),
    {
        if self.precedes(other) {
            Ordering::Less
        } else if self.path == other.path && self.title == other.title {
            Ordering::Equal
        } else {
            Ordering::Greater
        }
    }
}

impl PartialOrd for SummaryEntry {
    fn partial_cmp(&self, other: &Self) -> (o: Option<Ordering>) {
        Some(self.cmp(other))
    }
}

impl PartialOrdSpecImpl for SummaryEntry {
    open spec fn obeys_partial_cmp_spec() -> bool {
        true
    }

    open spec fn partial_cmp_spec(&self, other: &Self) -> Option<Ordering> {
        Some(ordering_of(self@, other@))
    }
}

} // verus!
