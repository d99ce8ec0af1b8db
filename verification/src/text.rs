//! Trimming of protocol lines: a username and every chat message arrive as
//! one newline-terminated line and are stripped of surrounding whitespace.

use vstd::prelude::*;
use vstd::string::StrSliceExecFns;

verus! {

/// A character stripped from the ends of a protocol line.
pub open spec fn is_space(c: char) -> bool {
    c == ' ' || c == '\t' || c == '\r' || c == '\n'
}

/// The number of leading whitespace characters of `s`.
pub open spec fn leading_spaces(s: Seq<char>) -> int
    decreases s.len(),
{
    if s.len() == 0 || !is_space(s[0]) {
        0
    } else {
        1 + leading_spaces(s.drop_first())
    }
}

/// The number of trailing whitespace characters of `s`.
pub open spec fn trailing_spaces(s: Seq<char>) -> int
    decreases s.len(),
{
    if s.len() == 0 || !is_space(s[s.len() - 1]) {
        0
    } else {
        1 + trailing_spaces(s.drop_last())
    }
}

/// `s` with its leading and trailing whitespace removed.
pub open spec fn trim_spec(s: Seq<char>) -> Seq<char> {
    if leading_spaces(s) == s.len() {
        Seq::empty()
    } else {
        s.subrange(leading_spaces(s), s.len() - trailing_spaces(s))
    }
}

proof fn lemma_leading_spaces_value(s: Seq<char>, m: int)
    requires
        0 <= m <= s.len(),
        forall|k: int| 0 <= k < m ==> is_space(#[trigger] s[k]),
        m == s.len() || !is_space(s[m]),
    ensures
        leading_spaces(s) == m,
    decreases s.len(),
{
    if m > 0 {
        lemma_leading_spaces_value(s.drop_first(), m - 1);
    }
}

proof fn lemma_trailing_spaces_value(s: Seq<char>, m: int)
    requires
        0 <= m <= s.len(),
        forall|k: int| s.len() - m <= k < s.len() ==> is_space(#[trigger] s[k]),
        m == s.len() || !is_space(s[s.len() - m - 1]),
    ensures
        trailing_spaces(s) == m,
    decreases s.len(),
{
    if m > 0 {
        lemma_trailing_spaces_value(s.drop_last(), m - 1);
    }
}

/// Whether `c` counts as whitespace for line trimming.
pub fn is_space_char(c: char) -> (r: bool)
    ensures
        r == is_space(c),
{
    c == ' ' || c == '\t' || c == '\r' || c == '\n'
}

/// `s` with its leading and trailing whitespace removed.
pub fn trim_line(s: &str) -> (r: String)
    ensures
        r@ == trim_spec(s@),
{
    let n = s.unicode_len();
    let mut start: usize = 0;
    while start < n && is_space_char(s.get_char(start))
        invariant
            n == s@.len(),
            start <= n,
            forall|k: int| 0 <= k < start ==> is_space(#[trigger] s@[k]),
        decreases n - start,
    {
        start = start + 1;
    }
    if start == n {
        proof {
            lemma_leading_spaces_value(s@, n as int);
        }
        return String::new();
    }
    let mut end: usize = n;
    while end > start && is_space_char(s.get_char(end - 1))
        invariant
            n == s@.len(),
            start < n,
            start <= end <= n,
            !is_space(s@[start as int]),
            forall|k: int| end <= k < n ==> is_space(#[trigger] s@[k]),
        decreases end,
    {
        end = end - 1;
    }
    proof {
        lemma_leading_spaces_value(s@, start as int);
        lemma_trailing_spaces_value(s@, n - end);
    }
    s.substring_char(start, end).to_owned()
}

} // verus!
