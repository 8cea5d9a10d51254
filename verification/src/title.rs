//! The title of a document: the text of its first level-one heading.
//!
//! A line is a heading when, with the white space at both ends taken off, it
//! starts with the heading mark, `#` and a space. Its title is what is left
//! once every mark at the start is taken off as well.

use crate::summary_entry::SummaryEntry;
use crate::text::chars_of;
use vstd::prelude::*;
use vstd::string::StrSliceExecFns;

verus! {

/// Whether `c` is white space: one of the characters that Unicode classes as
/// `White_Space`.
pub open spec fn is_whitespace(c: char) -> bool {
    ||| '\u{9}' <= c <= '\u{D}'
    ||| c == ' '
    ||| c == '\u{85}'
    ||| c == '\u{A0}'
    ||| c == '\u{1680}'
    ||| '\u{2000}' <= c <= '\u{200A}'
    ||| c == '\u{2028}'
    ||| c == '\u{2029}'
    ||| c == '\u{202F}'
    ||| c == '\u{205F}'
    ||| c == '\u{3000}'
}

/// `s` without the white space at its end.
pub open spec fn trim_end(s: Seq<char>) -> Seq<char>
    decreases s.len(),
{
    if s.len() > 0 && is_whitespace(s.last()) {
        trim_end(s.drop_last())
    } else {
        s
    }
}

/// `s` without the white space at its start.
pub open spec fn trim_start(s: Seq<char>) -> Seq<char>
    decreases s.len(),
{
    if s.len() > 0 && is_whitespace(s.first()) {
        trim_start(s.drop_first())
    } else {
        s
    }
}

/// `s` without the white space at both ends.
pub open spec fn trimmed(s: Seq<char>) -> Seq<char> {
    trim_start(trim_end(s))
}

/// Whether `s` starts with the heading mark: `#` and a space.
pub open spec fn starts_with_mark(s: Seq<char>) -> bool {
    s.len() >= 2 && s[0] == '#' && s[1] == ' '
}

/// `s` without the heading marks at its start, however many there are.
pub open spec fn without_marks(s: Seq<char>) -> Seq<char>
    decreases s.len(),
{
    if starts_with_mark(s) {
        without_marks(s.skip(2))
    } else {
        s
    }
}

/// Whether `line` is a level-one heading.
pub open spec fn is_heading(line: Seq<char>) -> bool {
    starts_with_mark(trimmed(line))
}

/// The title that the heading `line` gives.
pub open spec fn title_of(line: Seq<char>) -> Seq<char> {
    without_marks(trimmed(line))
}

/// The title of a document with these lines: that of its first heading, if
/// it has one.
pub open spec fn first_title(lines: Seq<Seq<char>>) -> Option<Seq<char>>
    decreases lines.len(),
{
    if lines.len() == 0 {
        None
    } else if is_heading(lines.first()) {
        Some(title_of(lines.first()))
    } else {
        first_title(lines.drop_first())
    }
}

/// The characters of each line.
pub open spec fn line_views(lines: Seq<String>) -> Seq<Seq<char>> {
    lines.map_values(|line: String| line@)
}

/// A title is never empty, and neither starts with a heading mark nor ends
/// in white space.
pub proof fn lemma_title_shape(line: Seq<char>)
    requires
        is_heading(line),
    ensures
        title_of(line).len() > 0,
        !starts_with_mark(title_of(line)),
        !is_whitespace(title_of(line).last()),
{
    lemma_trim_end_shape(line);
    lemma_trim_start_keeps_end(trim_end(line));
    lemma_without_marks_keeps_end(trimmed(line));
}

/// What `trim_end` leaves is empty or ends in a character that is no white
/// space.
pub proof fn lemma_trim_end_shape(s: Seq<char>)
    ensures
        trim_end(s).len() == 0 || !is_whitespace(trim_end(s).last()),
    decreases s.len(),
{
    if s.len() > 0 && is_whitespace(s.last()) {
        lemma_trim_end_shape(s.drop_last());
    }
}

/// `trim_start` leaves the end of a string that does not end in white space
/// as it is.
pub proof fn lemma_trim_start_keeps_end(s: Seq<char>)
    requires
        s.len() == 0 || !is_whitespace(s.last()),
    ensures
        trim_start(s).len() == 0 <==> s.len() == 0,
        s.len() > 0 ==> trim_start(s).last() == s.last(),
    decreases s.len(),
{
    if s.len() > 0 && is_whitespace(s.first()) {
        lemma_trim_start_keeps_end(s.drop_first());
    }
}

/// `without_marks` leaves something of a string that does not end in white
/// space, and leaves its end as it is.
pub proof fn lemma_without_marks_keeps_end(s: Seq<char>)
    requires
        s.len() > 0,
        !is_whitespace(s.last()),
    ensures
        without_marks(s).len() > 0,
        without_marks(s).last() == s.last(),
        !starts_with_mark(without_marks(s)),
    decreases s.len(),
{
    if starts_with_mark(s) {
        if s.len() == 2 {
            assert(s.last() == ' ');
        }
        lemma_without_marks_keeps_end(s.skip(2));
    }
}

/// Whether `c` is white space.
pub fn is_whitespace_char(c: char) -> (r: bool)
    ensures
        r == is_whitespace(c),
{
    ('\u{9}' <= c && c <= '\u{D}') || c == ' ' || c == '\u{85}' || c == '\u{A0}' || c
        == '\u{1680}' || ('\u{2000}' <= c && c <= '\u{200A}') || c == '\u{2028}' || c
        == '\u{2029}' || c == '\u{202F}' || c == '\u{205F}' || c == '\u{3000}'
}

/// The title that `line` gives, if it is a heading.
pub fn heading_title(line: &str) -> (title: Option<String>)
    ensures
        title is Some <==> is_heading(line@),
        title matches Some(t) ==> t@ == title_of(line@) && t@.len() > 0,
{
    proof {
        if is_heading(line@) {
            lemma_title_shape(line@);
        }
    }
    let chars = chars_of(line);
    let mut end: usize = chars.len();
    proof {
        assert(chars@.take(end as int) =~= chars@);
    }
    while end > 0 && is_whitespace_char(chars[end - 1])
        invariant
            end <= chars.len(),
            trim_end(chars@) == trim_end(chars@.take(end as int)),
        decreases end,
    {
        proof {
            assert(chars@.take(end as int).drop_last() =~= chars@.take(end - 1));
        }
        end = end - 1;
    }
    let mut start: usize = 0;
    proof {
        assert(chars@.subrange(0, end as int) =~= chars@.take(end as int));
    }
    while start < end && is_whitespace_char(chars[start])
        invariant
            start <= end <= chars.len(),
            trimmed(chars@) == trim_start(chars@.subrange(start as int, end as int)),
        decreases end - start,
    {
        proof {
            assert(chars@.subrange(start as int, end as int).drop_first() =~= chars@.subrange(
                start + 1,
                end as int,
            ));
        }
        start = start + 1;
    }
    if !(end - start >= 2 && chars[start] == '#' && chars[start + 1] == ' ') {
        return None;
    }
    while end - start >= 2 && chars[start] == '#' && chars[start + 1] == ' '
        invariant
            start <= end <= chars.len(),
            title_of(chars@) == without_marks(chars@.subrange(start as int, end as int)),
        decreases end - start,
    {
        proof {
            assert(chars@.subrange(start as int, end as int).skip(2) =~= chars@.subrange(
                start + 2,
                end as int,
            ));
        }
        start = start + 2;
    }
    Some(line.substring_char(start, end).to_owned())
}

/// The title of a document with these lines: that of its first heading, if it
/// has one.
pub fn find_title(lines: &Vec<String>) -> (title: Option<String>)
    ensures
        title is Some <==> first_title(line_views(lines@)) is Some,
        title matches Some(t) ==> Some(t@) == first_title(line_views(lines@)) && t@.len() > 0,
{
    let mut i: usize = 0;
    proof {
        assert(line_views(lines@).skip(0) =~= line_views(lines@));
    }
    while i < lines.len()
        invariant
            i <= lines.len(),
            first_title(line_views(lines@)) == first_title(line_views(lines@).skip(i as int)),
        decreases lines.len() - i,
    {
        let found = heading_title(lines[i].as_str());
        proof {
            let rest = line_views(lines@).skip(i as int);
            assert(rest.first() == lines@[i as int]@);
            assert(rest.drop_first() =~= line_views(lines@).skip(i + 1));
        }
        if found.is_some() {
            return found;
        }
        i = i + 1;
    }
    None
}

/// The entry of the document at `path` with these lines, if the document has
/// a title.
pub fn find_content(lines: &Vec<String>, path: String) -> (entry: Option<SummaryEntry>)
    ensures
        entry is Some <==> first_title(line_views(lines@)) is Some,
        entry matches Some(e) ==> e.path == path && Some(e.title@) == first_title(
            line_views(lines@),
        ) && e.title@.len() > 0,
{
    match find_title(lines) {
        Some(title) => Some(SummaryEntry { path, title }),
        None => None,
    }
}

} // verus!
