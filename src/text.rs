//! Characters, substrings and lines of text.

use vstd::prelude::*;
use vstd::std_specs::iter::IteratorSpec;
use vstd::string::StrSliceExecFns;

verus! {

broadcast use vstd::string::axiom_spec_iter, vstd::string::next_postcondition;

/// `pat` occurs in `text` starting at position `i`.
pub open spec fn occurs_at(text: Seq<char>, pat: Seq<char>, i: int) -> bool {
    &&& 0 <= i
    &&& i + pat.len() <= text.len()
    &&& text.subrange(i, i + pat.len()) == pat
}

/// `pat` is a contiguous substring of `text`.
pub open spec fn has_substring(text: Seq<char>, pat: Seq<char>) -> bool {
    exists|i: int| occurs_at(text, pat, i)
}

/// The characters of a string, in order.
pub fn chars_of(s: &str) -> (r: Vec<char>)
    ensures
        r@ == s@,
{
    let mut it = s.chars();
    let mut r: Vec<char> = Vec::new();
    loop
        invariant
            r@ + it.remaining() == s@,
            it.decrease() is Some,
        ensures
            r@ == s@,
        decreases it.decrease()->0,
    {
        match it.next() {
            Some(c) => {
                proof {
                    assert(r@.push(c) + it.remaining() =~= s@);
                }
                r.push(c);
            },
            None => {
                assert(r@ =~= s@);
                break ;
            },
        }
    }
    r
}

/// Whether `pat` occurs in `text`, over character sequences.
pub fn contains_chars(text: &Vec<char>, pat: &Vec<char>) -> (r: bool)
    ensures
        r == has_substring(text@, pat@),
{
    let n = text.len();
    let m = pat.len();
    if m > n {
        assert forall|k: int| !occurs_at(text@, pat@, k) by {}
        return false;
    }
    let mut i: usize = 0;
    while i <= n - m
        invariant
            n == text@.len(),
            m == pat@.len(),
            m <= n,
            i <= n - m + 1,
            forall|k: int| 0 <= k < i ==> !occurs_at(text@, pat@, k),
        decreases n - m + 1 - i,
    {
        let mut j: usize = 0;
        let mut same = true;
        while j < m && same
            invariant
                n == text@.len(),
                m == pat@.len(),
                i + m <= n,
                j <= m,
                same ==> forall|t: int| 0 <= t < j ==> text@[i + t] == pat@[t],
                !same ==> j > 0 && text@[i + j - 1] != pat@[j - 1],
            decreases m - j + (if same { 1int } else { 0 }),
        {
            if text[i + j] != pat[j] {
                same = false;
            }
            j += 1;
        }
        if same {
            assert(text@.subrange(i as int, i + m) =~= pat@);
            assert(occurs_at(text@, pat@, i as int));
            return true;
        }
        assert(text@.subrange(i as int, i + m)[j - 1] != pat@[j - 1]);
        i += 1;
    }
    assert forall|k: int| !occurs_at(text@, pat@, k) by {
        if 0 <= k && k + m <= n {
            assert(k < i);
        }
    }
    false
}

/// Whether `pat` occurs in `text` as a substring.
pub fn contains_text(text: &str, pat: &str) -> (r: bool)
    ensures
        r == has_substring(text@, pat@),
{
    let t = chars_of(text);
    let p = chars_of(pat);
    contains_chars(&t, &p)
}

/// Position of the first line feed in `s`, or `s.len()` when it holds none.
pub open spec fn newline_index(s: Seq<char>) -> nat
    decreases s.len(),
{
    if s.len() == 0 {
        0
    } else if s[0] == '\n' {
        0
    } else {
        1 + newline_index(s.drop_first())
    }
}

/// A line taken from before a line feed, without the carriage return of a
/// `\r\n` terminator.
pub open spec fn strip_cr(line: Seq<char>) -> Seq<char> {
    if line.len() > 0 && line.last() == '\r' {
        line.drop_last()
    } else {
        line
    }
}

/// The lines of `s`: pieces separated by `\n` or `\r\n`. A final terminator
/// ends the last line and opens no empty one; empty text has no lines.
pub open spec fn lines_of(s: Seq<char>) -> Seq<Seq<char>>
    decreases s.len(),
{
    if s.len() == 0 {
        Seq::empty()
    } else {
        let k = newline_index(s) as int;
        if k < s.len() {
            seq![strip_cr(s.take(k))] + lines_of(s.skip(k + 1))
        } else {
            seq![s]
        }
    }
}

/// The character sequences of a sequence of string slices.
pub open spec fn views(v: Seq<&str>) -> Seq<Seq<char>> {
    v.map_values(|l: &str| l@)
}

proof fn lemma_newline_at(s: Seq<char>, k: int)
    requires
        0 <= k < s.len(),
        s[k] == '\n',
        forall|j: int| 0 <= j < k ==> s[j] != '\n',
    ensures
        newline_index(s) == k,
    decreases k,
{
    if k > 0 {
        lemma_newline_at(s.drop_first(), k - 1);
    }
}

proof fn lemma_no_newline(s: Seq<char>)
    requires
        forall|j: int| 0 <= j < s.len() ==> s[j] != '\n',
    ensures
        newline_index(s) == s.len(),
    decreases s.len(),
{
    if s.len() > 0 {
        lemma_no_newline(s.drop_first());
    }
}

/// The lines of `content`, as slices of it, in order.
pub fn split_lines<'a>(content: &'a str) -> (r: Vec<&'a str>)
    ensures
        views(r@) == lines_of(content@),
{
    let cs = chars_of(content);
    let n = cs.len();
    let mut r: Vec<&'a str> = Vec::new();
    let mut start: usize = 0;
    let mut i: usize = 0;
    assert(content@.skip(0) =~= content@);
    assert(views(r@) + lines_of(content@) =~= lines_of(content@));
    while i < n
        invariant
            cs@ == content@,
            n == cs@.len(),
            start <= i <= n,
            forall|j: int| start <= j < i ==> cs@[j] != '\n',
            views(r@) + lines_of(content@.skip(start as int)) == lines_of(content@),
        decreases n - i,
    {
        if cs[i] == '\n' {
            let end = if i > start && cs[i - 1] == '\r' {
                i - 1
            } else {
                i
            };
            let line = content.substring_char(start, end);
            proof {
                let t = content@.skip(start as int);
                let k = i - start;
                lemma_newline_at(t, k);
                assert(t.take(k) =~= content@.subrange(start as int, i as int));
                assert(strip_cr(t.take(k)) =~= line@);
                assert(t.skip(k + 1) =~= content@.skip(i + 1));
                assert(views(r@.push(line)) =~= views(r@).push(line@));
                assert(views(r@).push(line@) + lines_of(content@.skip(i + 1)) =~= views(r@) + (
                seq![line@] + lines_of(content@.skip(i + 1))));
            }
            r.push(line);
            start = i + 1;
        }
        i += 1;
    }
    if start < n {
        let line = content.substring_char(start, n);
        proof {
            let t = content@.skip(start as int);
            lemma_no_newline(t);
            assert(t =~= line@);
            assert(views(r@.push(line)) =~= views(r@).push(line@));
            assert(views(r@).push(line@) =~= views(r@) + seq![line@]);
        }
        r.push(line);
    } else {
        assert(views(r@) + lines_of(content@.skip(start as int)) =~= views(r@));
    }
    r
}

} // verus!
