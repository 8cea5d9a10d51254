//! The whole summary: the entries put in order and rendered, one line each.

use crate::order::{
    lemma_index_precedes_contents, lemma_order_is_total, lemma_siblings_by_path,
    precedes_or_same,
};
use crate::path::{effective_path, in_directory, is_directory_marker, parent_dir, well_formed_path};
use crate::text::lex_lt;
use crate::summary_entry::{line_text, views, EntryView, SummaryEntry};
use itertools::Itertools;
use vstd::prelude::*;
use vstd::relations::{sorted_by, total_ordering};
use vstd::seq_lib::{group_to_multiset_ensures, lemma_sorted_unique};
use vstd::string::StringExecFns;

verus! {

/// The order of the summary as a relation: `a` stands before `b` or is the
/// same entry.
pub open spec fn summary_order() -> spec_fn(EntryView, EntryView) -> bool {
    |a: EntryView, b: EntryView| precedes_or_same(a, b)
}

/// Whether `entries` stand in the order of the summary.
pub open spec fn in_order(entries: Seq<EntryView>) -> bool {
    forall|i: int, j: int|
        0 <= i < j < entries.len() ==> precedes_or_same(
            #[trigger] entries[i],
            #[trigger] entries[j],
        )
}

/// The entries of `entries` in the order of the summary.
pub open spec fn ordered(entries: Seq<EntryView>) -> Seq<EntryView> {
    entries.sort_by(summary_order())
}

/// The text of a summary: the line of each entry in turn, each one closed by
/// a line feed.
pub open spec fn summary_text(entries: Seq<EntryView>) -> Seq<char>
    decreases entries.len(),
{
    if entries.len() == 0 {
        Seq::empty()
    } else {
        summary_text(entries.drop_last()) + line_text(entries.last()) + "\n"@
    }
}

/// The order of the summary is a total order.
pub proof fn lemma_summary_order_total()
    ensures
        total_ordering(summary_order()),
{
    let r = summary_order();
    assert forall|x: EntryView, y: EntryView| #[trigger] r(x, y) && #[trigger] r(y, x) implies x
        == y by {
        lemma_order_is_total(x, y, x);
    }
    assert forall|x: EntryView, y: EntryView, z: EntryView| #[trigger]
        r(x, y) && #[trigger] r(y, z) implies r(x, z) by {
        lemma_order_is_total(x, y, z);
    }
    assert forall|x: EntryView, y: EntryView| #[trigger] r(x, y) || #[trigger] r(y, x) by {
        lemma_order_is_total(x, y, x);
    }
}

/// `ordered` keeps every entry, as often as it was there, and puts them in
/// the order of the summary.
pub proof fn lemma_ordered_is_arrangement(entries: Seq<EntryView>)
    ensures
        ordered(entries).to_multiset() == entries.to_multiset(),
        ordered(entries).len() == entries.len(),
        in_order(ordered(entries)),
{
    broadcast use group_to_multiset_ensures;

    lemma_summary_order_total();
    entries.lemma_sort_by_ensures(summary_order());
    let out = ordered(entries);
    assert(out.to_multiset().len() == entries.to_multiset().len());
    assert forall|i: int, j: int| 0 <= i < j < out.len() implies precedes_or_same(
        #[trigger] out[i],
        #[trigger] out[j],
    ) by {
        assert(summary_order()(out[i], out[j]));
    }
}

/// There is one way only to put given entries in the order of the summary:
/// whatever holds the same entries in that order is `ordered` of them.
pub proof fn lemma_arrangement_unique(entries: Seq<EntryView>, arranged: Seq<EntryView>)
    requires
        arranged.to_multiset() == entries.to_multiset(),
        in_order(arranged),
    ensures
        arranged == ordered(entries),
{
    lemma_summary_order_total();
    lemma_ordered_is_arrangement(entries);
    let out = ordered(entries);
    assert(sorted_by(out, summary_order())) by {
        assert forall|i: int, j: int| 0 <= i < j < out.len() implies #[trigger] summary_order()(
            out[i],
            out[j],
        ) by {
            assert(precedes_or_same(out[i], out[j]));
        }
    }
    assert(sorted_by(arranged, summary_order())) by {
        assert forall|i: int, j: int|
            0 <= i < j < arranged.len() implies #[trigger] summary_order()(
            arranged[i],
            arranged[j],
        ) by {
            assert(precedes_or_same(arranged[i], arranged[j]));
        }
    }
    lemma_sorted_unique(arranged, out, summary_order());
}

/// The summary does not depend on the order in which the entries are handed
/// in: two sequences that hold the same entries are put in the same order.
pub proof fn lemma_ordered_ignores_input_order(a: Seq<EntryView>, b: Seq<EntryView>)
    requires
        a.to_multiset() == b.to_multiset(),
    ensures
        ordered(a) == ordered(b),
        summary_text(ordered(a)) == summary_text(ordered(b)),
{
    lemma_ordered_is_arrangement(a);
    lemma_arrangement_unique(b, ordered(a));
}

/// Entries that stand in order are left as they are.
pub proof fn lemma_ordered_idempotent(entries: Seq<EntryView>)
    ensures
        ordered(ordered(entries)) == ordered(entries),
        in_order(entries) ==> ordered(entries) == entries,
{
    lemma_ordered_is_arrangement(entries);
    lemma_arrangement_unique(ordered(entries), ordered(entries));
    if in_order(entries) {
        lemma_arrangement_unique(entries, entries);
    }
}

/// In a summary that stands in order, a directory's index file comes before
/// every other entry of the directory.
pub proof fn lemma_index_comes_first(entries: Seq<EntryView>, index: int, other: int)
    requires
        in_order(entries),
        0 <= index < entries.len(),
        0 <= other < entries.len(),
        well_formed_path(entries[index].path),
        well_formed_path(entries[other].path),
        is_directory_marker(entries[index].path),
        in_directory(effective_path(entries[index].path), entries[other].path),
        entries[other].path != entries[index].path,
    ensures
        index < other,
{
    lemma_index_precedes_contents(entries[index], entries[other]);
    lemma_order_is_total(entries[index], entries[other], entries[index]);
}

/// In a summary that stands in order, the files of one directory other than
/// its index file come in the dictionary order of their full paths.
pub proof fn lemma_siblings_come_by_path(entries: Seq<EntryView>, first: int, second: int)
    requires
        in_order(entries),
        0 <= first < second < entries.len(),
        parent_dir(entries[first].path) == parent_dir(entries[second].path),
        !is_directory_marker(entries[first].path),
        !is_directory_marker(entries[second].path),
        entries[first].path != entries[second].path,
    ensures
        lex_lt(entries[first].path, entries[second].path),
{
    lemma_siblings_by_path(entries[first], entries[second]);
    lemma_order_is_total(entries[first], entries[second], entries[first]);
}

/// Two sequences that hold, place by place, entries with the same path and
/// title are rendered to the same text.
pub proof fn lemma_rendering_repeatable(a: Seq<SummaryEntry>, b: Seq<SummaryEntry>)
    requires
        a.len() == b.len(),
        forall|i: int| 0 <= i < a.len() ==> a[i]@ == b[i]@,
    ensures
        summary_text(views(a)) == summary_text(views(b)),
{
    assert(views(a) =~= views(b));
}

/// Sequences that hold the same items hold the same images of them under
/// any function.
pub proof fn lemma_map_keeps_contents<A, B>(a: Seq<A>, b: Seq<A>, f: spec_fn(A) -> B)
    requires
        a.to_multiset() == b.to_multiset(),
    ensures
        a.map_values(f).to_multiset() == b.map_values(f).to_multiset(),
    decreases a.len(),
{
    broadcast use group_to_multiset_ensures;
    broadcast use vstd::multiset::group_multiset_axioms;

    a.to_multiset_ensures();
    b.to_multiset_ensures();
    if a.len() == 0 {
        assert(a.map_values(f).len() == 0);
        assert(b.map_values(f).len() == 0);
        assert(a.map_values(f) =~= b.map_values(f));
    } else {
        let x = a.last();
        assert(a.contains(x)) by {
            assert(a[a.len() - 1] == x);
        }
        assert(b.contains(x)) by {
            assert(a.to_multiset().count(x) > 0);
            assert(b.to_multiset().count(x) > 0);
        }
        let i = choose|i: int| 0 <= i < b.len() && b[i] == x;
        let a1 = a.drop_last();
        let b1 = b.remove(i);
        assert(a1.push(x) =~= a);
        assert(a1.to_multiset() =~= a.to_multiset().remove(x));
        assert(b1.to_multiset() =~= b.to_multiset().remove(x));
        lemma_map_keeps_contents(a1, b1, f);
        assert(a.map_values(f) =~= a1.map_values(f).push(f(x)));
        assert(b.map_values(f).remove(i) =~= b1.map_values(f));
        assert(b.map_values(f)[i] == f(x));
        assert(b.map_values(f).to_multiset() =~= b1.map_values(f).to_multiset().insert(f(x)));
        assert(a.map_values(f).to_multiset() =~= a1.map_values(f).to_multiset().insert(f(x)));
    }
}

/// `Itertools::sorted_by` on the entries, with `SummaryEntry::cmp` to compare
/// them, collected into a vector. Nothing of this is proved: the contract is
/// taken from the crate, which sorts with `slice::sort_by`. What comes out
/// holds the entries that went in, each as often as before, and no entry
/// stands behind one that `cmp` puts after it. `cmp` is a total order, as
/// the sort asks. The sort is stable as well, which tells nothing more here,
/// since `cmp` leaves a tie only between entries with the same path and
/// title.
#[verifier::external_body]
fn sorted_by_order(entries: Vec<SummaryEntry>) -> (sorted: Vec<SummaryEntry>)
    ensures
        sorted@.to_multiset() == entries@.to_multiset(),
        forall|i: int, j: int|
            0 <= i < j < sorted@.len() ==> precedes_or_same(
                #[trigger] sorted@[i]@,
                #[trigger] sorted@[j]@,
            ),
{
    entries.into_iter().sorted_by(|a, b| SummaryEntry::cmp(a, b)).collect()
}

/// Puts the entries in the order of the summary.
pub fn sort_entries(entries: Vec<SummaryEntry>) -> (sorted: Vec<SummaryEntry>)
    ensures
        sorted@.to_multiset() == entries@.to_multiset(),
        sorted@.len() == entries@.len(),
        in_order(views(sorted@)),
        views(sorted@) == ordered(views(entries@)),
{
    let sorted = sorted_by_order(entries);
    proof {
        broadcast use group_to_multiset_ensures;

        assert(sorted@.to_multiset().len() == entries@.to_multiset().len());
        lemma_map_keeps_contents(sorted@, entries@, |e: SummaryEntry| e@);
        lemma_arrangement_unique(views(entries@), views(sorted@));
    }
    sorted
}

/// Renders the entries as they stand, one line each.
pub fn render_lines(entries: &Vec<SummaryEntry>) -> (text: String)
    ensures
        text@ == summary_text(views(entries@)),
{
    let mut text = String::new();
    let mut i: usize = 0;
    while i < entries.len()
        invariant
            i <= entries.len(),
            text@ == summary_text(views(entries@.take(i as int))),
        decreases entries.len() - i,
    {
        let line = entries[i].summary_line();
        text.append(line.as_str());
        text.append("\n");
        proof {
            let before = views(entries@.take(i as int));
            let now = views(entries@.take(i + 1));
            assert(now.drop_last() =~= before);
            assert(now.last() == entries@[i as int]@);
        }
        i = i + 1;
    }
    proof {
        assert(entries@.take(i as int) =~= entries@);
    }
    text
}

/// The summary of the entries: they are put in order, then rendered.
pub fn render_summary(entries: Vec<SummaryEntry>) -> (text: String)
    ensures
        text@ == summary_text(ordered(views(entries@))),
{
    let sorted = sort_entries(entries);
    render_lines(&sorted)
}

} // verus!
