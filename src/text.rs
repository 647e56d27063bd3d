//! Text primitives: characters of a string, substring containment and
//! the division of a text into lines.
use vstd::prelude::*;

verus! {

/// `needle` occurs in `hay` starting at position `i`.
pub open spec fn occurs_at(hay: Seq<char>, needle: Seq<char>, i: int) -> bool {
    0 <= i && i + needle.len() <= hay.len() && hay.subrange(i, i + needle.len()) == needle
}

/// `needle` is a contiguous part of `hay`.
pub open spec fn has_substring(hay: Seq<char>, needle: Seq<char>) -> bool {
    exists|i: int| occurs_at(hay, needle, i)
}

/// The characters of `s`, in order.
pub fn char_vec(s: &str) -> (r: Vec<char>)
    ensures
        r@ == s@,
{
    let mut r: Vec<char> = Vec::new();
    for c in it: s.chars()
        invariant
            it.seq() == s@,
            r@ == it.seq().take(it.index() as int),
    {
        r.push(c);
    }
    r
}

/// `needle` occurs in `hay` between positions `lo` and `hi`.
pub fn contains_within(hay: &Vec<char>, lo: usize, hi: usize, needle: &Vec<char>) -> (r: bool)
    requires
        lo <= hi <= hay.len(),
    ensures
        r == has_substring(hay@.subrange(lo as int, hi as int), needle@),
{
    let ghost part = hay@.subrange(lo as int, hi as int);
    let n = needle.len();
    if n > hi - lo {
        assert forall|i: int| !occurs_at(part, needle@, i) by {}
        return false;
    }
    let last = hi - n;
    let mut i: usize = lo;
    while i <= last
        invariant
            lo <= i <= last + 1,
            last + n == hi,
            hi <= hay.len(),
            part == hay@.subrange(lo as int, hi as int),
            n == needle@.len(),
            forall|k: int| 0 <= k < i - lo ==> !occurs_at(part, needle@, k),
        decreases last + 1 - i,
    {
        let mut j: usize = 0;
        while j < n && hay[i + j] == needle[j]
            invariant
                j <= n,
                i + n <= hi,
                hi <= hay.len(),
                n == needle@.len(),
                forall|m: int| 0 <= m < j ==> hay@[i + m] == needle@[m],
            decreases n - j,
        {
            j = j + 1;
        }
        if j == n {
            assert(part.subrange(i - lo, i - lo + n) =~= needle@);
            assert(occurs_at(part, needle@, i - lo));
            return true;
        }
        assert(!occurs_at(part, needle@, i - lo)) by {
            if occurs_at(part, needle@, i - lo) {
                assert(part.subrange(i - lo, i - lo + n)[j as int] == needle@[j as int]);
            }
        }
        i = i + 1;
    }
    assert forall|k: int| !occurs_at(part, needle@, k) by {
        if 0 <= k && k + n <= part.len() {
            assert(k < i - lo);
        }
    }
    false
}

/// A line ended by a line feed loses one carriage return just before it.
pub open spec fn strip_cr(line: Seq<char>) -> Seq<char> {
    if line.len() > 0 && line.last() == '\r' {
        line.drop_last()
    } else {
        line
    }
}

/// The lines of `s` from position `i` on, where the current line began at
/// `start`. A line feed ends a line (and is not part of it); text after the
/// last line feed is one more line; an empty text after it is none.
pub open spec fn lines_from(s: Seq<char>, i: nat, start: nat) -> Seq<Seq<char>>
    decreases s.len() - i,
{
    if i >= s.len() {
        if start < s.len() {
            seq![s.subrange(start as int, s.len() as int)]
        } else {
            seq![]
        }
    } else if s[i as int] == '\n' {
        seq![strip_cr(s.subrange(start as int, i as int))] + lines_from(s, i + 1, i + 1)
    } else {
        lines_from(s, i + 1, start)
    }
}

/// The lines of a text, in order.
pub open spec fn lines_of(s: Seq<char>) -> Seq<Seq<char>> {
    lines_from(s, 0, 0)
}

/// The text that each span marks in `s`.
pub open spec fn span_texts(s: Seq<char>, spans: Seq<(usize, usize)>) -> Seq<Seq<char>> {
    spans.map_values(|p: (usize, usize)| s.subrange(p.0 as int, p.1 as int))
}

/// Each span lies within a text of length `len`.
pub open spec fn spans_within(spans: Seq<(usize, usize)>, len: nat) -> bool {
    forall|k: int| 0 <= k < spans.len() ==> #[trigger] spans[k].0 <= spans[k].1 <= len
}

/// The start and end position of each line of `cs`, in order.
pub fn line_spans(cs: &Vec<char>) -> (r: Vec<(usize, usize)>)
    ensures
        spans_within(r@, cs@.len()),
        span_texts(cs@, r@) == lines_of(cs@),
{
    let mut r: Vec<(usize, usize)> = Vec::new();
    let mut start: usize = 0;
    let mut i: usize = 0;
    while i < cs.len()
        invariant
            start <= i <= cs.len(),
            spans_within(r@, cs@.len()),
            span_texts(cs@, r@) + lines_from(cs@, i as nat, start as nat) == lines_of(cs@),
        decreases cs.len() - i,
    {
        if cs[i] == '\n' {
            let end: usize = if i > start && cs[i - 1] == '\r' {
                i - 1
            } else {
                i
            };
            assert(cs@.subrange(start as int, end as int) =~= strip_cr(
                cs@.subrange(start as int, i as int),
            ));
            let ghost before = r@;
            r.push((start, end));
            assert(span_texts(cs@, r@) =~= span_texts(cs@, before) + seq![
                cs@.subrange(start as int, end as int),
            ]);
            start = i + 1;
        }
        i = i + 1;
    }
    if start < cs.len() {
        let ghost before = r@;
        r.push((start, cs.len()));
        assert(span_texts(cs@, r@) =~= span_texts(cs@, before) + seq![
            cs@.subrange(start as int, cs@.len() as int),
        ]);
    }
    assert(span_texts(cs@, r@) =~= lines_of(cs@));
    r
}

} // verus!
