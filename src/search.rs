//! Selecting the lines of a text that contain a query.

use vstd::prelude::*;
use crate::text::{chars_of, contains_chars, has_substring, lines_of, split_lines, views};

verus! {

/// What `str::to_lowercase` makes of a character sequence.
pub uninterp spec fn lower_of(s: Seq<char>) -> Seq<char>;

/// Relies on `str::to_lowercase`: the lowercase form of a string, a function
/// of its characters alone.
#[verifier::external_body]
fn lowercase(s: &str) -> (r: String)
    ensures
        r@ == lower_of(s@),
{
    s.to_lowercase()
}

/// A line matches a query when it holds the query as a substring; without
/// case sensitivity both are first brought to lowercase.
pub open spec fn is_match(query: Seq<char>, line: Seq<char>, case_sensitive: bool) -> bool {
    if case_sensitive {
        has_substring(line, query)
    } else {
        has_substring(lower_of(line), lower_of(query))
    }
}

/// The match test for one query and mode, as a predicate on lines.
pub open spec fn match_pred(query: Seq<char>, case_sensitive: bool) -> spec_fn(Seq<char>) -> bool {
    |line: Seq<char>| is_match(query, line, case_sensitive)
}

/// The lines of `content` that match `query`, in their original order.
pub open spec fn matching_lines(query: Seq<char>, content: Seq<char>, case_sensitive: bool) -> Seq<
    Seq<char>,
> {
    lines_of(content).filter(match_pred(query, case_sensitive))
}

proof fn lemma_filter_take_step<A>(s: Seq<A>, p: spec_fn(A) -> bool, i: int)
    requires
        0 <= i < s.len(),
    ensures
        s.take(i + 1).filter(p) == (if p(s[i]) {
            s.take(i).filter(p).push(s[i])
        } else {
            s.take(i).filter(p)
        }),
{
    reveal(Seq::filter);
    assert(s.take(i + 1).drop_last() =~= s.take(i));
}

/// Whether a lowercased line holds an already lowercased query.
pub fn contains_folded(lowered_line: &str, lowered_query: &Vec<char>) -> (r: bool)
    ensures
        r == has_substring(lowered_line@, lowered_query@),
{
    let l = chars_of(lowered_line);
    contains_chars(&l, lowered_query)
}

/// The lines of `contents` that contain `query`, exactly or ignoring case as
/// `case_sensitive` says, as slices of `contents` in their original order.
pub fn search_with<'a>(query: &str, contents: &'a str, case_sensitive: bool) -> (r: Vec<&'a str>)
    ensures
        views(r@) == matching_lines(query@, contents@, case_sensitive),
{
    let q = if case_sensitive {
        chars_of(query)
    } else {
        let lowered = lowercase(query);
        chars_of(lowered.as_str())
    };
    let lines = split_lines(contents);
    let ghost all = views(lines@);
    let ghost p = match_pred(query@, case_sensitive);
    let mut r: Vec<&'a str> = Vec::new();
    let mut i: usize = 0;
    assert(all.take(0).filter(p) =~= Seq::<Seq<char>>::empty()) by {
        reveal(Seq::filter);
    }
    assert(views(r@) =~= Seq::<Seq<char>>::empty());
    while i < lines.len()
        invariant
            all == views(lines@),
            all == lines_of(contents@),
            p == match_pred(query@, case_sensitive),
            q@ == (if case_sensitive {
                query@
            } else {
                lower_of(query@)
            }),
            i <= lines.len(),
            views(r@) == all.take(i as int).filter(p),
        decreases lines.len() - i,
    {
        let line = lines[i];
        let found = if case_sensitive {
            let l = chars_of(line);
            contains_chars(&l, &q)
        } else {
            let lowered = lowercase(line);
            contains_folded(lowered.as_str(), &q)
        };
        proof {
            lemma_filter_take_step(all, p, i as int);
            assert(all[i as int] == line@);
            assert(views(r@.push(line)) =~= views(r@).push(line@));
        }
        if found {
            r.push(line);
        }
        i += 1;
    }
    assert(all.take(lines.len() as int) =~= all);
    r
}

/// The lines of `contents` that contain `query` exactly.
pub fn search<'a>(query: &str, contents: &'a str) -> (r: Vec<&'a str>)
    ensures
        views(r@) == matching_lines(query@, contents@, true),
{
    search_with(query, contents, true)
}

/// The lines of `contents` that contain `query` when both are lowercased.
pub fn search_case_insensitive<'a>(query: &str, contents: &'a str) -> (r: Vec<&'a str>)
    ensures
        views(r@) == matching_lines(query@, contents@, false),
{
    search_with(query, contents, false)
}

proof fn lemma_filter_all<A>(s: Seq<A>, p: spec_fn(A) -> bool)
    requires
        forall|i: int| 0 <= i < s.len() ==> p(s[i]),
    ensures
        s.filter(p) == s,
    decreases s.len(),
{
    reveal(Seq::filter);
    if s.len() > 0 {
        lemma_filter_all(s.drop_last(), p);
        assert(s.drop_last().push(s.last()) =~= s);
    }
}

proof fn lemma_filter_len_mono<A>(s: Seq<A>, p: spec_fn(A) -> bool, q: spec_fn(A) -> bool)
    requires
        forall|i: int| 0 <= i < s.len() && p(s[i]) ==> q(s[i]),
    ensures
        s.filter(p).len() <= s.filter(q).len(),
    decreases s.len(),
{
    reveal(Seq::filter);
    if s.len() > 0 {
        lemma_filter_len_mono(s.drop_last(), p, q);
    }
}

/// With exact matching, every line in the result holds the query, and every
/// line of the content left out of the result does not.
pub proof fn lemma_search_exact(query: Seq<char>, content: Seq<char>)
    ensures
        forall|l: Seq<char>| #[trigger]
            matching_lines(query, content, true).contains(l) ==> has_substring(l, query),
        forall|l: Seq<char>|
            lines_of(content).contains(l) && !#[trigger] matching_lines(
                query,
                content,
                true,
            ).contains(l) ==> !has_substring(l, query),
{
    broadcast use Seq::lemma_filter_pred, Seq::lemma_filter_contains;

    let lines = lines_of(content);
    let p = match_pred(query, true);
    assert forall|l: Seq<char>| #[trigger]
        matching_lines(query, content, true).contains(l) implies has_substring(l, query) by {
        let k = choose|k: int| 0 <= k < lines.filter(p).len() && lines.filter(p)[k] == l;
        assert(p(lines.filter(p)[k]));
    }
    assert forall|l: Seq<char>|
        lines.contains(l) && !#[trigger] matching_lines(query, content, true).contains(
            l,
        ) implies !has_substring(l, query) by {
        let k = choose|k: int| 0 <= k < lines.len() && lines[k] == l;
        if has_substring(l, query) {
            assert(p(lines[k]));
            assert(lines.filter(p).contains(lines[k]));
        }
    }
}

/// Ignoring case keeps at least as many lines as exact matching, whenever
/// lowering case keeps each exact match of the query in a line of the content.
pub proof fn lemma_insensitive_keeps_more(query: Seq<char>, content: Seq<char>)
    requires
        forall|l: Seq<char>|
            lines_of(content).contains(l) && has_substring(l, query) ==> has_substring(
                #[trigger] lower_of(l),
                lower_of(query),
            ),
    ensures
        matching_lines(query, content, true).len() <= matching_lines(query, content, false).len(),
{
    let lines = lines_of(content);
    assert forall|i: int|
        0 <= i < lines.len() && match_pred(query, true)(lines[i]) implies match_pred(
        query,
        false,
    )(lines[i]) by {
        assert(lines.contains(lines[i]));
    }
    lemma_filter_len_mono(lines, match_pred(query, true), match_pred(query, false));
}

/// The empty query keeps every line of the content, unchanged and in order.
pub proof fn lemma_empty_query(content: Seq<char>)
    ensures
        matching_lines(Seq::empty(), content, true) == lines_of(content),
{
    let lines = lines_of(content);
    let p = match_pred(Seq::empty(), true);
    assert forall|i: int| 0 <= i < lines.len() implies p(lines[i]) by {
        assert(lines[i].subrange(0, 0) =~= Seq::<char>::empty());
        assert(crate::text::occurs_at(lines[i], Seq::empty(), 0));
    }
    lemma_filter_all(lines, p);
}

/// Empty content gives no lines, whatever the query and the mode.
pub proof fn lemma_empty_content(query: Seq<char>, case_sensitive: bool)
    ensures
        matching_lines(query, Seq::empty(), case_sensitive) == Seq::<Seq<char>>::empty(),
{
    reveal(Seq::filter);
    assert(lines_of(Seq::empty()) =~= Seq::<Seq<char>>::empty());
}

} // verus!
