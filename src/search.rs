//! Selecting the lines of a text that contain a query, with or without
//! regard to letter case.
use vstd::prelude::*;
use vstd::slice::slice_subrange;
use vstd::string::StrSliceExecFns;

use crate::text::{
    char_vec, contains_within, has_substring, occurs_at, line_spans, lines_of, span_texts, spans_within,
};

verus! {

/// What `str::to_lowercase` returns for a string with the characters `s`.
pub uninterp spec fn lower_of(s: Seq<char>) -> Seq<char>;

/// Relies on `str::to_lowercase`: its result depends on the characters alone,
/// and the empty string stays empty.
#[verifier::external_body]
fn lowercase(cs: &[char]) -> (r: String)
    ensures
        r@ == lower_of(cs@),
        cs@.len() == 0 ==> r@.len() == 0,
{
    cs.iter().collect::<String>().to_lowercase()
}

/// The characters that a sequence of string slices holds.
pub open spec fn texts(r: Seq<&str>) -> Seq<Seq<char>> {
    r.map_values(|s: &str| s@)
}

/// The lines of `content` that contain `query` exactly, in order.
pub open spec fn search_spec(query: Seq<char>, content: Seq<char>) -> Seq<Seq<char>> {
    lines_of(content).filter(|l: Seq<char>| has_substring(l, query))
}

/// A line matches `query` once both are lowercased.
pub open spec fn matches_folded(query: Seq<char>, line: Seq<char>) -> bool {
    has_substring(lower_of(line), lower_of(query))
}

/// The lines of `content` that contain `query` when both are lowercased, in order.
pub open spec fn search_case_insens_spec(query: Seq<char>, content: Seq<char>) -> Seq<Seq<char>> {
    lines_of(content).filter(|l: Seq<char>| matches_folded(query, l))
}

/// The lines of `contents` that contain `query`, in their order, each once,
/// and unchanged.
pub fn search<'a>(query: &str, contents: &'a str) -> (r: Vec<&'a str>)
    ensures
        texts(r@) == search_spec(query@, contents@),
        query@.len() == 0 ==> texts(r@) == lines_of(contents@),
{
    let cs = char_vec(contents);
    let q = char_vec(query);
    let spans = line_spans(&cs);
    let mut r: Vec<&'a str> = Vec::new();
    for k in 0..spans.len()
        invariant
            cs@ == contents@,
            q@ == query@,
            spans_within(spans@, cs@.len()),
            span_texts(cs@, spans@) == lines_of(cs@),
            texts(r@) == span_texts(cs@, spans@.take(k as int)).filter(
                |l: Seq<char>| has_substring(l, query@),
            ),
    {
        let (lo, hi) = spans[k];
        assert(spans@[k as int].0 <= spans@[k as int].1 <= cs@.len());
        let ghost before = r@;
        if contains_within(&cs, lo, hi, &q) {
            r.push(contents.substring_char(lo, hi));
            assert(texts(r@) =~= texts(before).push(cs@.subrange(lo as int, hi as int)));
        }
        let ghost grown = span_texts(cs@, spans@.take(k + 1));
        assert(grown.drop_last() =~= span_texts(cs@, spans@.take(k as int)));
        assert(grown.last() == cs@.subrange(lo as int, hi as int));
        reveal(Seq::filter);
    }
    assert(spans@.take(spans@.len() as int) =~= spans@);
    proof {
        if query@.len() == 0 {
            assert(query@ =~= Seq::<char>::empty());
            empty_query_keeps_every_line(contents@);
        }
    }
    r
}

/// The lines of `contents` that contain `query` once both are lowercased,
/// in their order, each once, and unchanged.
pub fn search_case_insens<'a>(query: &str, contents: &'a str) -> (r: Vec<&'a str>)
    ensures
        texts(r@) == search_case_insens_spec(query@, contents@),
{
    let cs = char_vec(contents);
    let q = char_vec(query);
    let lowered_query = lowercase(q.as_slice());
    let lq = char_vec(lowered_query.as_str());
    let spans = line_spans(&cs);
    let mut r: Vec<&'a str> = Vec::new();
    for k in 0..spans.len()
        invariant
            cs@ == contents@,
            lq@ == lower_of(query@),
            spans_within(spans@, cs@.len()),
            span_texts(cs@, spans@) == lines_of(cs@),
            texts(r@) == span_texts(cs@, spans@.take(k as int)).filter(
                |l: Seq<char>| matches_folded(query@, l),
            ),
    {
        let (lo, hi) = spans[k];
        assert(spans@[k as int].0 <= spans@[k as int].1 <= cs@.len());
        let ghost line = cs@.subrange(lo as int, hi as int);
        let lowered_line = lowercase(slice_subrange(cs.as_slice(), lo, hi));
        let ll = char_vec(lowered_line.as_str());
        let ghost before = r@;
        if contains_within(&ll, 0, ll.len(), &lq) {
            assert(ll@.subrange(0, ll@.len() as int) =~= ll@);
            r.push(contents.substring_char(lo, hi));
            assert(texts(r@) =~= texts(before).push(line));
        } else {
            assert(ll@.subrange(0, ll@.len() as int) =~= ll@);
        }
        let ghost grown = span_texts(cs@, spans@.take(k + 1));
        assert(grown.drop_last() =~= span_texts(cs@, spans@.take(k as int)));
        assert(grown.last() == line);
        reveal(Seq::filter);
    }
    assert(spans@.take(spans@.len() as int) =~= spans@);
    r
}

/// Positions in `s` of the items that `p` keeps, in increasing order: the
/// `j`-th item of `s.filter(p)` is the item of `s` at the `j`-th position.
proof fn kept_positions(s: Seq<Seq<char>>, p: spec_fn(Seq<char>) -> bool) -> (idx: Seq<int>)
    ensures
        idx.len() == s.filter(p).len(),
        forall|j: int|
            0 <= j < idx.len() ==> 0 <= #[trigger] idx[j] < s.len() && s[idx[j]] == s.filter(
                p,
            )[j],
        forall|j1: int, j2: int| 0 <= j1 < j2 < idx.len() ==> idx[j1] < idx[j2],
        forall|i: int| 0 <= i < s.len() && p(#[trigger] s[i]) ==> idx.contains(i),
    decreases s.len(),
{
    reveal(Seq::filter);
    if s.len() == 0 {
        Seq::empty()
    } else {
        let front = s.drop_last();
        let before = kept_positions(front, p);
        if p(s.last()) {
            let idx = before.push(s.len() - 1);
            assert forall|i: int| 0 <= i < s.len() && p(#[trigger] s[i]) implies idx.contains(i) by {
                if i < s.len() - 1 {
                    assert(front[i] == s[i]);
                    let j = choose|j: int| 0 <= j < before.len() && before[j] == i;
                    assert(idx[j] == i);
                } else {
                    assert(idx[idx.len() - 1] == i);
                }
            }
            idx
        } else {
            assert forall|i: int| 0 <= i < s.len() && p(#[trigger] s[i]) implies before.contains(
                i,
            ) by {
                assert(i < s.len() - 1);
                assert(front[i] == s[i]);
            }
            before
        }
    }
}

/// Case-sensitive search returns exactly the lines of the content that
/// contain the query: each returned line is a line of the content, unchanged,
/// and contains the query; the returned lines keep the content's order and
/// none appears twice; and no line that contains the query is left out. The
/// result gives, for each returned line, its position among the lines.
pub proof fn search_selects_matching_lines(query: Seq<char>, content: Seq<char>) -> (idx: Seq<int>)
    ensures
        idx.len() == search_spec(query, content).len(),
        forall|j: int|
            0 <= j < idx.len() ==> 0 <= #[trigger] idx[j] < lines_of(content).len()
                && search_spec(query, content)[j] == lines_of(content)[idx[j]],
        forall|j: int|
            0 <= j < idx.len() ==> has_substring(#[trigger] search_spec(query, content)[j], query),
        forall|j1: int, j2: int| 0 <= j1 < j2 < idx.len() ==> idx[j1] < idx[j2],
        forall|i: int|
            0 <= i < lines_of(content).len() && has_substring(#[trigger] lines_of(content)[i], query)
                ==> idx.contains(i),
{
    let p = |l: Seq<char>| has_substring(l, query);
    broadcast use vstd::seq_lib::group_filter_ensures;

    kept_positions(lines_of(content), p)
}

/// The empty query is contained in every line, so case-sensitive search for
/// it returns every line of the content, unchanged and in order.
pub proof fn empty_query_keeps_every_line(content: Seq<char>)
    ensures
        search_spec(Seq::empty(), content) == lines_of(content),
{
    let lines = lines_of(content);
    let p = |l: Seq<char>| has_substring(l, Seq::<char>::empty());
    assert forall|l: Seq<char>| #[trigger] p(l) by {
        assert(l.subrange(0, 0) =~= Seq::<char>::empty());
        assert(occurs_at(l, Seq::empty(), 0));
    }
    keep_all(lines, p);
}

proof fn keep_all(s: Seq<Seq<char>>, p: spec_fn(Seq<char>) -> bool)
    requires
        forall|l: Seq<char>| #[trigger] p(l),
    ensures
        s.filter(p) == s,
    decreases s.len(),
{
    reveal(Seq::filter);
    if s.len() > 0 {
        keep_all(s.drop_last(), p);
        assert(s.drop_last().push(s.last()) =~= s);
    }
}

/// Case-insensitive search returns every line that case-sensitive search
/// returns, for contents whose lines keep containing the query once both are
/// lowercased. (Lowercasing can break a match: a final capital sigma becomes
/// a final small sigma, which no longer contains the ordinary small sigma.)
pub proof fn case_insens_covers_search(query: Seq<char>, content: Seq<char>)
    requires
        forall|i: int|
            0 <= i < lines_of(content).len() && has_substring(#[trigger] lines_of(content)[i], query)
                ==> matches_folded(query, lines_of(content)[i]),
    ensures
        forall|l: Seq<char>|
            #[trigger] search_spec(query, content).contains(l) ==> search_case_insens_spec(
                query,
                content,
            ).contains(l),
{
    let lines = lines_of(content);
    let exact = |l: Seq<char>| has_substring(l, query);
    let folded = |l: Seq<char>| matches_folded(query, l);
    broadcast use vstd::seq_lib::group_filter_ensures;

    assert forall|l: Seq<char>| #[trigger] search_spec(query, content).contains(l) implies search_case_insens_spec(
        query,
        content,
    ).contains(l) by {
        let idx = kept_positions(lines, exact);
        let j = choose|j: int| 0 <= j < lines.filter(exact).len() && lines.filter(exact)[j] == l;
        let i = idx[j];
        assert(exact(lines.filter(exact)[j]));
        lines.lemma_filter_contains(folded, i);
    }
}

/// Case-insensitive search gives the same lines for two queries with the
/// same lowercase form, such as a query and its case changed uniformly.
pub proof fn case_insens_ignores_query_case(query: Seq<char>, other: Seq<char>, content: Seq<char>)
    requires
        lower_of(query) == lower_of(other),
    ensures
        search_case_insens_spec(query, content) == search_case_insens_spec(other, content),
{
    let a = |l: Seq<char>| matches_folded(query, l);
    let b = |l: Seq<char>| matches_folded(other, l);
    assert(a =~= b);
}

/// Case-insensitive search keeps the same line positions in two contents
/// whose lines correspond one for one with the same lowercase forms, such as
/// a content and one with the case of some lines changed uniformly: the two
/// results are as long, and their lines correspond with equal lowercase forms.
pub proof fn case_insens_ignores_line_case(query: Seq<char>, content: Seq<char>, other: Seq<char>)
    requires
        lines_of(content).len() == lines_of(other).len(),
        forall|i: int|
            0 <= i < lines_of(content).len() ==> lower_of(#[trigger] lines_of(content)[i])
                == lower_of(lines_of(other)[i]),
    ensures
        search_case_insens_spec(query, content).len() == search_case_insens_spec(
            query,
            other,
        ).len(),
        forall|j: int|
            0 <= j < search_case_insens_spec(query, content).len() ==> lower_of(
                #[trigger] search_case_insens_spec(query, content)[j],
            ) == lower_of(search_case_insens_spec(query, other)[j]),
{
    let p = |l: Seq<char>| matches_folded(query, l);
    folded_filters_correspond(lines_of(content), lines_of(other), p);
}

proof fn folded_filters_correspond(
    s: Seq<Seq<char>>,
    t: Seq<Seq<char>>,
    p: spec_fn(Seq<char>) -> bool,
)
    requires
        s.len() == t.len(),
        forall|i: int| 0 <= i < s.len() ==> lower_of(#[trigger] s[i]) == lower_of(t[i]),
        forall|a: Seq<char>, b: Seq<char>| lower_of(a) == lower_of(b) ==> p(a) == p(b),
    ensures
        s.filter(p).len() == t.filter(p).len(),
        forall|j: int|
            0 <= j < s.filter(p).len() ==> lower_of(#[trigger] s.filter(p)[j]) == lower_of(
                t.filter(p)[j],
            ),
    decreases s.len(),
{
    reveal(Seq::filter);
    if s.len() > 0 {
        assert(lower_of(s[s.len() - 1]) == lower_of(t[t.len() - 1]));
        folded_filters_correspond(s.drop_last(), t.drop_last(), p);
    }
}

/// Searching twice on the same query and content gives the same lines in
/// the same order: each search's contract fixes its result.
pub proof fn searches_are_repeatable(
    query: Seq<char>,
    content: Seq<char>,
    first: Seq<&str>,
    second: Seq<&str>,
    first_folded: Seq<&str>,
    second_folded: Seq<&str>,
)
    requires
        texts(first) == search_spec(query, content),
        texts(second) == search_spec(query, content),
        texts(first_folded) == search_case_insens_spec(query, content),
        texts(second_folded) == search_case_insens_spec(query, content),
    ensures
        texts(first) == texts(second),
        texts(first_folded) == texts(second_folded),
{
}

} // verus!
