//! Relative, slash-separated paths: nesting depth, the directory-index
//! convention and the effective path by which entries are ordered.

use crate::text::{chars_of, count_char, count_of, lemma_count_bounds, lemma_count_concat};
use vstd::prelude::*;
use vstd::string::StrSliceExecFns;

verus! {

/// The character that separates the segments of a path.
pub const SEPARATOR: char = '/';

/// The file name whose entry stands for the directory that holds it.
pub const DIRECTORY_INDEX: &'static str = "README.md";

/// Nesting depth of a path: the number of separators in it.
pub open spec fn depth(path: Seq<char>) -> nat {
    count_of(path, SEPARATOR)
}

/// Where the final segment of `path` starts: just behind the last
/// separator, or at 0 where the path has none.
pub open spec fn final_segment_start(path: Seq<char>) -> int {
    match path.index_of_last(SEPARATOR) {
        Some(i) => i + 1,
        None => 0,
    }
}

/// The final segment of `path`: what follows its last separator.
pub open spec fn final_segment(path: Seq<char>) -> Seq<char> {
    path.skip(final_segment_start(path))
}

/// The directory that holds `path`: what precedes its last separator, and
/// the empty path (the root) where it has none.
pub open spec fn parent_dir(path: Seq<char>) -> Seq<char> {
    if final_segment_start(path) == 0 {
        Seq::empty()
    } else {
        path.take(final_segment_start(path) - 1)
    }
}

/// Whether `path` names the index file of its directory.
pub open spec fn is_directory_marker(path: Seq<char>) -> bool {
    final_segment(path) == DIRECTORY_INDEX@
}

/// The path by which an entry is ordered and nested: the directory itself
/// for a directory's index file, the path unchanged for any other file.
pub open spec fn effective_path(path: Seq<char>) -> Seq<char> {
    if is_directory_marker(path) {
        parent_dir(path)
    } else {
        path
    }
}

/// Whether `path` lies in the directory `dir`, at any depth. Every path lies
/// in the root, which is the empty directory path.
pub open spec fn in_directory(dir: Seq<char>, path: Seq<char>) -> bool {
    dir.len() == 0 || dir.push(SEPARATOR).is_prefix_of(path)
}

/// A well-formed relative path: not empty, no empty segment (so no leading,
/// trailing or doubled separator) and no segment `..`.
pub open spec fn well_formed_path(path: Seq<char>) -> bool {
    &&& path.len() > 0
    &&& path[0] != SEPARATOR
    &&& path.last() != SEPARATOR
    &&& forall|i: int|
        0 <= i < path.len() - 1 ==> !(#[trigger] path[i] == SEPARATOR && path[i + 1] == SEPARATOR)
    &&& forall|i: int| !#[trigger] parent_segment_at(path, i)
}

/// Whether the segment `..` stands in `path` at place `i`.
pub open spec fn parent_segment_at(path: Seq<char>, i: int) -> bool {
    &&& 0 <= i
    &&& i + 2 <= path.len()
    &&& path[i] == '.'
    &&& path[i + 1] == '.'
    &&& (i == 0 || path[i - 1] == SEPARATOR)
    &&& (i + 2 == path.len() || path[i + 2] == SEPARATOR)
}

/// The final segment starts inside the path, just behind a separator unless
/// at 0, and holds no separator.
pub proof fn lemma_final_segment_start(path: Seq<char>)
    ensures
        0 <= final_segment_start(path) <= path.len(),
        final_segment_start(path) > 0 ==> path[final_segment_start(path) - 1] == SEPARATOR,
        forall|j: int| final_segment_start(path) <= j < path.len() ==> path[j] != SEPARATOR,
        !final_segment(path).contains(SEPARATOR),
{
    path.index_of_last_ensures(SEPARATOR);
    let start = final_segment_start(path);
    if path.index_of_last(SEPARATOR) is None {
        assert forall|j: int| 0 <= j < path.len() implies path[j] != SEPARATOR by {
            if path[j] == SEPARATOR {
                assert(path.contains(SEPARATOR));
            }
        }
    }
    if final_segment(path).contains(SEPARATOR) {
        let j = choose|j: int|
            0 <= j < final_segment(path).len() && final_segment(path)[j] == SEPARATOR;
        assert(path[start + j] == SEPARATOR);
    }
}

/// If `start` is 0 or just behind a separator, and no separator follows it,
/// then the final segment starts at `start`.
pub proof fn lemma_final_segment_start_is(path: Seq<char>, start: int)
    requires
        0 <= start <= path.len(),
        start > 0 ==> path[start - 1] == SEPARATOR,
        forall|j: int| start <= j < path.len() ==> path[j] != SEPARATOR,
    ensures
        final_segment_start(path) == start,
{
    lemma_final_segment_start(path);
}

/// A path with a separator is its directory, a separator and its final
/// segment, and lies one level deeper than its directory. A path without one
/// is its own final segment, at depth 0.
pub proof fn lemma_path_parts(path: Seq<char>)
    ensures
        final_segment_start(path) > 0 ==> path == parent_dir(path).push(SEPARATOR) + final_segment(
            path,
        ),
        final_segment_start(path) > 0 ==> depth(path) == depth(parent_dir(path)) + 1,
        final_segment_start(path) == 0 ==> path == final_segment(path),
        final_segment_start(path) == 0 <==> depth(path) == 0,
{
    lemma_final_segment_start(path);
    let start = final_segment_start(path);
    lemma_count_bounds(final_segment(path), SEPARATOR);
    if start > 0 {
        let dir = parent_dir(path);
        assert(path =~= dir.push(SEPARATOR) + final_segment(path));
        lemma_count_concat(dir.push(SEPARATOR), final_segment(path), SEPARATOR);
        assert(dir.push(SEPARATOR).drop_last() =~= dir);
    } else {
        assert(path =~= final_segment(path));
    }
}

/// The effective path of a directory's index file is that directory, one
/// level up unless the file is at the root; any other path is its own
/// effective path.
pub proof fn lemma_effective_depth(path: Seq<char>)
    ensures
        depth(effective_path(path)) == if is_directory_marker(path) && depth(path) > 0 {
            depth(path) - 1
        } else {
            depth(path) as int
        },
{
    lemma_final_segment_start(path);
    lemma_path_parts(path);
    if is_directory_marker(path) && depth(path) == 0 {
        assert(count_of(parent_dir(path), SEPARATOR) == 0);
    }
}

/// The effective path of a well-formed path is empty for the index file of
/// the root and for no other path.
pub proof fn lemma_effective_path_empty(path: Seq<char>)
    requires
        well_formed_path(path),
    ensures
        effective_path(path).len() == 0 <==> path == DIRECTORY_INDEX@,
{
    reveal_strlit("README.md");
    lemma_final_segment_start(path);
    lemma_path_parts(path);
    let name = DIRECTORY_INDEX@;
    if path == name {
        lemma_final_segment_start_is(name, 0);
        assert(name.skip(0) =~= name);
    }
}

/// The place where the final segment of `chars` starts.
fn find_final_segment(chars: &Vec<char>) -> (start: usize)
    ensures
        start == final_segment_start(chars@),
        start <= chars.len(),
{
    let mut start: usize = chars.len();
    while start > 0 && chars[start - 1] != SEPARATOR
        invariant
            start <= chars.len(),
            forall|j: int| start <= j < chars.len() ==> chars@[j] != SEPARATOR,
        decreases start,
    {
        start = start - 1;
    }
    proof {
        lemma_final_segment_start_is(chars@, start as int);
    }
    start
}

/// Whether `tail` is what `chars` holds from `start` on.
fn ends_with_from(chars: &Vec<char>, start: usize, tail: &Vec<char>) -> (r: bool)
    requires
        start <= chars.len(),
    ensures
        r == (chars@.skip(start as int) == tail@),
{
    if chars.len() - start != tail.len() {
        return false;
    }
    let mut i: usize = 0;
    while i < tail.len()
        invariant
            start <= chars.len(),
            chars.len() - start == tail.len(),
            i <= tail.len(),
            forall|j: int| 0 <= j < i ==> chars@[start + j] == tail@[j],
        decreases tail.len() - i,
    {
        if chars[start + i] != tail[i] {
            proof {
                assert(chars@.skip(start as int)[i as int] != tail@[i as int]);
            }
            return false;
        }
        i = i + 1;
    }
    proof {
        assert(chars@.skip(start as int) =~= tail@);
    }
    true
}

/// Whether `path` is a well-formed relative path.
pub fn is_well_formed_path(path: &str) -> (r: bool)
    ensures
        r == well_formed_path(path@),
{
    let chars = chars_of(path);
    let n = chars.len();
    if n == 0 || chars[0] == SEPARATOR || chars[n - 1] == SEPARATOR {
        return false;
    }
    let mut i: usize = 0;
    while i < n
        invariant
            n == chars.len(),
            chars@ == path@,
            i <= n,
            forall|k: int|
                0 <= k < i && k < n - 1 ==> !(#[trigger] chars@[k] == SEPARATOR && chars@[k + 1]
                    == SEPARATOR),
            forall|k: int| k < i ==> !#[trigger] parent_segment_at(chars@, k),
        decreases n - i,
    {
        if i + 1 < n && chars[i] == SEPARATOR && chars[i + 1] == SEPARATOR {
            return false;
        }
        if i + 1 < n && chars[i] == '.' && chars[i + 1] == '.' && (i == 0 || chars[i - 1]
            == SEPARATOR) && (i + 2 == n || chars[i + 2] == SEPARATOR) {
            proof {
                assert(parent_segment_at(chars@, i as int));
            }
            return false;
        }
        i = i + 1;
    }
    true
}

/// Nesting depth of `path`.
pub fn depth_of(path: &str) -> (d: usize)
    ensures
        d == depth(path@),
{
    count_char(path, SEPARATOR)
}

/// Whether `path` names the index file of its directory.
pub fn marks_directory(path: &str) -> (r: bool)
    ensures
        r == is_directory_marker(path@),
{
    let chars = chars_of(path);
    let name = chars_of(DIRECTORY_INDEX);
    let start = find_final_segment(&chars);
    ends_with_from(&chars, start, &name)
}

/// The effective path of `path`.
pub fn effective_path_of(path: &str) -> (r: String)
    ensures
        r@ == effective_path(path@),
{
    let chars = chars_of(path);
    let name = chars_of(DIRECTORY_INDEX);
    let start = find_final_segment(&chars);
    if ends_with_from(&chars, start, &name) {
        if start == 0 {
            String::new()
        } else {
            path.substring_char(0, start - 1).to_owned()
        }
    } else {
        path.to_owned()
    }
}

} // verus!
