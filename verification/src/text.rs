//! Character sequences: counting a character and the lexicographic order.
//!
//! Strings are modelled by their view, a `Seq<char>`. The order is the
//! dictionary order by code point, which is also the order of the UTF-8
//! bytes of the two strings.

use vstd::prelude::*;

verus! {

/// How many times `c` occurs in `s`.
pub open spec fn count_of(s: Seq<char>, c: char) -> nat
    decreases s.len(),
{
    if s.len() == 0 {
        0
    } else {
        count_of(s.drop_last(), c) + if s.last() == c {
            1nat
        } else {
            0nat
        }
    }
}

/// `a` comes strictly before `b` in dictionary order: at the first position
/// `k` where the two differ, `a` has ended or holds the smaller character.
pub open spec fn lex_lt(a: Seq<char>, b: Seq<char>) -> bool {
    exists|k: int| #[trigger] first_difference_favours(a, b, k)
}

/// `a` and `b` agree on their first `k` characters, `b` goes on, and `a`
/// either ends there or goes on with a smaller character.
pub open spec fn first_difference_favours(a: Seq<char>, b: Seq<char>, k: int) -> bool {
    &&& 0 <= k <= a.len()
    &&& k < b.len()
    &&& a.take(k) =~= b.take(k)
    &&& (k == a.len() || a[k] < b[k])
}

/// `a` and `b` agree on their first `k` characters and not on the next:
/// one of them ends there, or the characters at `k` differ.
pub open spec fn agree_until(a: Seq<char>, b: Seq<char>, k: int) -> bool {
    &&& 0 <= k <= a.len()
    &&& k <= b.len()
    &&& a.take(k) =~= b.take(k)
    &&& (k == a.len() || k == b.len() || a[k] != b[k])
}

/// A character counted in a sequence is counted in the sequence with one more
/// character pushed, plus one if that character is the one counted.
pub proof fn lemma_count_push(s: Seq<char>, x: char, c: char)
    ensures
        count_of(s.push(x), c) == count_of(s, c) + if x == c {
            1nat
        } else {
            0nat
        },
{
    assert(s.push(x).drop_last() =~= s);
}

/// Counting splits over concatenation.
pub proof fn lemma_count_concat(a: Seq<char>, b: Seq<char>, c: char)
    ensures
        count_of(a + b, c) == count_of(a, c) + count_of(b, c),
    decreases b.len(),
{
    if b.len() == 0 {
        assert(a + b =~= a);
    } else {
        assert((a + b).drop_last() =~= a + b.drop_last());
        lemma_count_concat(a, b.drop_last(), c);
    }
}

/// A sequence holds at most as many copies of a character as it has places,
/// and none exactly when the character is at no place.
pub proof fn lemma_count_bounds(s: Seq<char>, c: char)
    ensures
        count_of(s, c) <= s.len(),
        count_of(s, c) == 0 <==> !s.contains(c),
    decreases s.len(),
{
    if s.len() > 0 {
        lemma_count_bounds(s.drop_last(), c);
        if s.last() == c {
            assert(s[s.len() - 1] == c);
        } else if s.contains(c) {
            let i = choose|i: int| 0 <= i < s.len() && s[i] == c;
            assert(s.drop_last()[i] == c);
        } else if s.drop_last().contains(c) {
            let i = choose|i: int| 0 <= i < s.drop_last().len() && s.drop_last()[i] == c;
            assert(s[i] == c);
        }
    }
}

/// Where two sequences first differ decides their order: `a` precedes `b`
/// exactly when `b` goes on at that place and `a` ends or is smaller there;
/// the two are equal exactly when both end there.
pub proof fn lemma_first_difference_decides(a: Seq<char>, b: Seq<char>, k: int)
    requires
        agree_until(a, b, k),
    ensures
        lex_lt(a, b) <==> first_difference_favours(a, b, k),
        lex_lt(b, a) <==> first_difference_favours(b, a, k),
        a == b <==> (k == a.len() && k == b.len()),
{
    assert forall|j: int| first_difference_favours(a, b, j) implies j == k by {
        if j < k {
            assert(a.take(k)[j] == b.take(k)[j]);
        } else if j > k {
            assert(a.take(j)[k] == b.take(j)[k]);
        }
    }
    assert forall|j: int| first_difference_favours(b, a, j) implies j == k by {
        if j < k {
            assert(a.take(k)[j] == b.take(k)[j]);
        } else if j > k {
            assert(a.take(j)[k] == b.take(j)[k]);
        }
    }
    if k == a.len() && k == b.len() {
        assert(a.take(k) =~= a);
        assert(b.take(k) =~= b);
    }
}

/// Any two sequences first differ somewhere: the place `k` is between `from`
/// and the end of the shorter one.
pub proof fn lemma_first_difference_exists(a: Seq<char>, b: Seq<char>, from: int) -> (k: int)
    requires
        0 <= from <= a.len(),
        from <= b.len(),
        a.take(from) =~= b.take(from),
    ensures
        from <= k,
        agree_until(a, b, k),
    decreases a.len() - from,
{
    if from == a.len() || from == b.len() || a[from] != b[from] {
        from
    } else {
        assert(a.take(from + 1) =~= a.take(from).push(a[from]));
        assert(b.take(from + 1) =~= b.take(from).push(b[from]));
        lemma_first_difference_exists(a, b, from + 1)
    }
}

/// Of two sequences exactly one holds: the first precedes the second, they
/// are equal, or the second precedes the first.
pub proof fn lemma_lex_trichotomy(a: Seq<char>, b: Seq<char>)
    ensures
        lex_lt(a, b) || a == b || lex_lt(b, a),
        !(lex_lt(a, b) && a == b),
        !(lex_lt(b, a) && a == b),
        !(lex_lt(a, b) && lex_lt(b, a)),
{
    assert(a.take(0) =~= b.take(0));
    let k = lemma_first_difference_exists(a, b, 0);
    lemma_first_difference_decides(a, b, k);
}

/// If `a` precedes `b` and `b` precedes `c`, then `a` precedes `c`.
pub proof fn lemma_lex_transitive(a: Seq<char>, b: Seq<char>, c: Seq<char>)
    requires
        lex_lt(a, b),
        lex_lt(b, c),
    ensures
        lex_lt(a, c),
{
    let i = choose|i: int| first_difference_favours(a, b, i);
    let j = choose|j: int| first_difference_favours(b, c, j);
    let k = if i <= j {
        i
    } else {
        j
    };
    assert(a.take(k) =~= c.take(k)) by {
        assert forall|n: int| 0 <= n < k implies a[n] == c[n] by {
            assert(a.take(i)[n] == b.take(i)[n]);
            assert(b.take(j)[n] == c.take(j)[n]);
        }
    }
    if i < j {
        assert(b.take(j)[i] == c.take(j)[i]);
    } else if j < i {
        assert(a.take(i)[j] == b.take(i)[j]);
    }
    assert(first_difference_favours(a, c, k));
}

/// A sequence precedes every longer sequence that starts with it.
pub proof fn lemma_proper_prefix_precedes(a: Seq<char>, b: Seq<char>)
    requires
        a.is_prefix_of(b),
        a.len() < b.len(),
    ensures
        lex_lt(a, b),
{
    assert(a.take(a.len() as int) =~= a);
    assert(first_difference_favours(a, b, a.len() as int));
}

/// The sequences that start with `p` stand together: whatever stands between
/// two of them starts with `p` as well.
pub proof fn lemma_prefix_block(p: Seq<char>, a: Seq<char>, b: Seq<char>, c: Seq<char>)
    requires
        p.is_prefix_of(a),
        p.is_prefix_of(c),
        !lex_lt(b, a),
        !lex_lt(c, b),
    ensures
        p.is_prefix_of(b),
{
    assert(a.take(0) =~= b.take(0));
    let k = lemma_first_difference_exists(a, b, 0);
    lemma_first_difference_decides(a, b, k);
    assert forall|n: int| 0 <= n < p.len() implies a[n] == p[n] && c[n] == p[n] by {
        assert(a.subrange(0, p.len() as int)[n] == p[n]);
        assert(c.subrange(0, p.len() as int)[n] == p[n]);
    }
    if k < p.len() {
        assert(c.take(k) =~= b.take(k)) by {
            assert forall|n: int| 0 <= n < k implies c[n] == b[n] by {
                assert(a.take(k)[n] == b.take(k)[n]);
            }
        }
        assert(first_difference_favours(c, b, k));
    } else {
        assert(p =~= b.subrange(0, p.len() as int)) by {
            assert forall|n: int| 0 <= n < p.len() implies p[n] == b[n] by {
                assert(a.take(k)[n] == b.take(k)[n]);
            }
        }
    }
}

/// The characters of `s`, in order.
pub fn chars_of(s: &str) -> (v: Vec<char>)
    ensures
        v@ == s@,
{
    let mut v: Vec<char> = Vec::new();
    for c in it: s.chars()
        invariant
            it.seq() == s@,
            v@ == s@.take(it.index()),
    {
        v.push(c);
        proof {
            assert(s@.take(it.index() + 1) =~= s@.take(it.index()).push(c));
        }
    }
    proof {
        assert(s@.take(s@.len() as int) =~= s@);
    }
    v
}

/// Counts the occurrences of `c` in `s`.
pub fn count_char(s: &str, c: char) -> (n: usize)
    ensures
        n == count_of(s@, c),
{
    let chars = chars_of(s);
    let mut n: usize = 0;
    let mut i: usize = 0;
    while i < chars.len()
        invariant
            chars@ == s@,
            i <= chars.len(),
            n <= i,
            n == count_of(s@.take(i as int), c),
        decreases chars.len() - i,
    {
        proof {
            assert(s@.take(i + 1) =~= s@.take(i as int).push(s@[i as int]));
            lemma_count_push(s@.take(i as int), s@[i as int], c);
        }
        if chars[i] == c {
            n = n + 1;
        }
        i = i + 1;
    }
    proof {
        assert(s@.take(i as int) =~= s@);
    }
    n
}

/// Whether `a` comes strictly before `b` in dictionary order.
pub fn less_than(a: &str, b: &str) -> (r: bool)
    ensures
        r == lex_lt(a@, b@),
{
    let x = chars_of(a);
    let y = chars_of(b);
    let mut i: usize = 0;
    while i < x.len() && i < y.len() && x[i] == y[i]
        invariant
            i <= x.len(),
            i <= y.len(),
            x@.take(i as int) =~= y@.take(i as int),
        decreases x.len() - i,
    {
        proof {
            assert(x@.take(i + 1) =~= x@.take(i as int).push(x@[i as int]));
            assert(y@.take(i + 1) =~= y@.take(i as int).push(y@[i as int]));
        }
        i = i + 1;
    }
    proof {
        lemma_first_difference_decides(x@, y@, i as int);
    }
    i < y.len() && (i == x.len() || x[i] < y[i])
}

} // verus!
