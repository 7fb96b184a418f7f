//! Character-level models and verified scanning helpers shared by the
//! request parser: whitespace tokenization, line splitting, and the
//! `": "` header separator.

use vstd::prelude::*;

verus! {

/// A Unicode whitespace character (the White_Space set), as it separates
/// the tokens of a request line.
pub open spec fn is_ws(c: char) -> bool {
    c == '\t' || c == '\n' || c == '\u{b}' || c == '\u{c}' || c == '\r' || c == ' '
        || c == '\u{85}' || c == '\u{a0}' || c == '\u{1680}' || c == '\u{2000}'
        || c == '\u{2001}' || c == '\u{2002}' || c == '\u{2003}' || c == '\u{2004}'
        || c == '\u{2005}' || c == '\u{2006}' || c == '\u{2007}' || c == '\u{2008}'
        || c == '\u{2009}' || c == '\u{200a}' || c == '\u{2028}' || c == '\u{2029}'
        || c == '\u{202f}' || c == '\u{205f}' || c == '\u{3000}'
}

/// Length of the leading run of non-whitespace characters of `s`.
pub open spec fn token_len(s: Seq<char>) -> int
    decreases s.len(),
{
    if s.len() == 0 || is_ws(s[0]) {
        0
    } else {
        1 + token_len(s.drop_first())
    }
}

pub proof fn lemma_token_len_bounds(s: Seq<char>)
    ensures
        0 <= token_len(s) <= s.len(),
        s.len() > 0 && !is_ws(s[0]) ==> 1 <= token_len(s),
    decreases s.len(),
{
    if !(s.len() == 0 || is_ws(s[0])) {
        lemma_token_len_bounds(s.drop_first());
    }
}

/// The whitespace-separated tokens of `s`, in order; empty tokens cannot
/// occur.
pub open spec fn split_ws(s: Seq<char>) -> Seq<Seq<char>>
    decreases s.len(),
    via split_ws_decreases
{
    if s.len() == 0 {
        Seq::empty()
    } else if is_ws(s[0]) {
        split_ws(s.drop_first())
    } else {
        seq![s.take(token_len(s))] + split_ws(s.skip(token_len(s)))
    }
}

#[via_fn]
proof fn split_ws_decreases(s: Seq<char>) {
    lemma_token_len_bounds(s);
}

pub proof fn lemma_token_len_concat(t: Seq<char>, rest: Seq<char>)
    requires
        t.len() > 0,
        forall|i: int| 0 <= i < t.len() ==> !is_ws(t[i]),
        rest.len() == 0 || is_ws(rest[0]),
    ensures
        token_len(t + rest) == t.len(),
    decreases t.len(),
{
    assert((t + rest)[0] == t[0]);
    assert(!is_ws(t[0]));
    if t.len() == 1 {
        assert((t + rest).drop_first() =~= rest);
        assert(token_len(rest) == 0);
        assert(token_len(t + rest) == 1 + token_len(rest));
    } else {
        assert(forall|i: int| 0 <= i < t.drop_first().len() ==> !is_ws(t.drop_first()[i]));
        lemma_token_len_concat(t.drop_first(), rest);
        assert((t + rest).drop_first() =~= t.drop_first() + rest);
        assert(token_len(t + rest) == 1 + token_len(t.drop_first() + rest));
    }
}

/// A token followed by whitespace (or by nothing) is split off whole.
pub proof fn lemma_split_ws_token(t: Seq<char>, rest: Seq<char>)
    requires
        t.len() > 0,
        forall|i: int| 0 <= i < t.len() ==> !is_ws(t[i]),
        rest.len() == 0 || is_ws(rest[0]),
    ensures
        split_ws(t + rest) == seq![t] + split_ws(rest),
{
    lemma_token_len_concat(t, rest);
    assert((t + rest).take(t.len() as int) =~= t);
    assert((t + rest).skip(t.len() as int) =~= rest);
}

/// Index of the first `'\n'` in `s`, or `s.len()` if there is none.
pub open spec fn find_nl(s: Seq<char>) -> int
    decreases s.len(),
{
    if s.len() == 0 {
        0
    } else if s[0] == '\n' {
        0
    } else {
        1 + find_nl(s.drop_first())
    }
}

pub proof fn lemma_find_nl_bounds(s: Seq<char>)
    ensures
        0 <= find_nl(s) <= s.len(),
    decreases s.len(),
{
    if s.len() > 0 && s[0] != '\n' {
        lemma_find_nl_bounds(s.drop_first());
    }
}

/// Removes one trailing `'\r'`.
pub open spec fn strip_cr(l: Seq<char>) -> Seq<char> {
    if l.len() > 0 && l.last() == '\r' {
        l.drop_last()
    } else {
        l
    }
}

/// The first line of `s`, as the line iterator of `str` reads it:
/// everything before the first `'\n'`, with the `'\r'` of a `"\r\n"`
/// ending removed. A final line that no `'\n'` terminates keeps a
/// trailing `'\r'`.
pub open spec fn first_line(s: Seq<char>) -> Seq<char> {
    if find_nl(s) < s.len() {
        strip_cr(s.take(find_nl(s)))
    } else {
        s
    }
}

/// What follows the first line of `s`: everything after the first `'\n'`,
/// or nothing when `s` has no `'\n'`.
pub open spec fn rest_lines(s: Seq<char>) -> Seq<char> {
    if find_nl(s) < s.len() {
        s.skip(find_nl(s) + 1)
    } else {
        Seq::empty()
    }
}

/// Index of the first occurrence of the header separator `": "` in `l`;
/// without one the result is at least `l.len() - 1`.
pub open spec fn sep_pos(l: Seq<char>) -> int
    decreases l.len(),
{
    if l.len() < 2 {
        l.len() as int
    } else if l[0] == ':' && l[1] == ' ' {
        0
    } else {
        1 + sep_pos(l.drop_first())
    }
}

pub proof fn lemma_sep_pos_bounds(l: Seq<char>)
    ensures
        0 <= sep_pos(l) <= l.len(),
    decreases l.len(),
{
    if l.len() >= 2 && !(l[0] == ':' && l[1] == ' ') {
        lemma_sep_pos_bounds(l.drop_first());
    }
}

/// Whether `l` contains the header separator `": "`.
pub open spec fn has_sep(l: Seq<char>) -> bool {
    sep_pos(l) + 2 <= l.len()
}

/// The part of a header line before its first `": "`.
pub open spec fn sep_key(l: Seq<char>) -> Seq<char> {
    l.take(sep_pos(l))
}

/// The part of a header line after its first `": "`.
pub open spec fn sep_val(l: Seq<char>) -> Seq<char> {
    l.skip(sep_pos(l) + 2)
}

/// Whether `c` is Unicode whitespace.
pub(crate) fn ws_char(c: char) -> (r: bool)
    ensures
        r == is_ws(c),
{
    c == '\t' || c == '\n' || c == '\u{b}' || c == '\u{c}' || c == '\r' || c == ' '
        || c == '\u{85}' || c == '\u{a0}' || c == '\u{1680}' || c == '\u{2000}'
        || c == '\u{2001}' || c == '\u{2002}' || c == '\u{2003}' || c == '\u{2004}'
        || c == '\u{2005}' || c == '\u{2006}' || c == '\u{2007}' || c == '\u{2008}'
        || c == '\u{2009}' || c == '\u{200a}' || c == '\u{2028}' || c == '\u{2029}'
        || c == '\u{202f}' || c == '\u{205f}' || c == '\u{3000}'
}

/// Scans from `start` to the end of the token beginning there.
pub(crate) fn scan_token_end(s: &str, start: usize) -> (end: usize)
    requires
        start <= s@.len(),
    ensures
        start <= end <= s@.len(),
        end - start == token_len(s@.skip(start as int)),
{
    let n = s.unicode_len();
    let mut j: usize = start;
    while j < n && !ws_char(s.get_char(j))
        invariant
            start <= j <= n,
            n == s@.len(),
            token_len(s@.skip(start as int)) == j - start + token_len(s@.skip(j as int)),
        decreases n - j,
    {
        proof {
            assert(s@.skip(j as int).drop_first() =~= s@.skip(j + 1));
        }
        j += 1;
    }
    proof {
        lemma_token_len_bounds(s@.skip(j as int));
        if j < n {
            assert(token_len(s@.skip(j as int)) == 0);
        }
    }
    j
}

/// Scans from `start` to the first `'\n'` at or after it.
pub(crate) fn scan_line_end(s: &str, start: usize) -> (end: usize)
    requires
        start <= s@.len(),
    ensures
        start <= end <= s@.len(),
        end - start == find_nl(s@.skip(start as int)),
        end < s@.len() ==> s@[end as int] == '\n',
{
    let n = s.unicode_len();
    let mut j: usize = start;
    while j < n && s.get_char(j) != '\n'
        invariant
            start <= j <= n,
            n == s@.len(),
            find_nl(s@.skip(start as int)) == j - start + find_nl(s@.skip(j as int)),
        decreases n - j,
    {
        proof {
            assert(s@.skip(j as int).drop_first() =~= s@.skip(j + 1));
        }
        j += 1;
    }
    proof {
        lemma_find_nl_bounds(s@.skip(j as int));
        if j < n {
            assert(find_nl(s@.skip(j as int)) == 0);
        }
    }
    j
}

/// Scans `s` between `start` and `end` for the first `": "`, returning its
/// index, or `end` when the separator does not occur.
pub(crate) fn scan_sep(s: &str, start: usize, end: usize) -> (r: usize)
    requires
        start <= end <= s@.len(),
    ensures
        start <= r <= end,
        r - start == sep_pos(s@.subrange(start as int, end as int)),
{
    let ghost l = s@.subrange(start as int, end as int);
    let mut k: usize = start;
    proof {
        assert(l.skip(0) =~= l);
    }
    loop
        invariant
            start <= k <= end,
            end <= s@.len(),
            l == s@.subrange(start as int, end as int),
            sep_pos(l) == k - start + sep_pos(l.skip(k - start)),
        decreases end - k,
    {
        proof {
            assert(l.skip(k - start).len() == end - k);
            if k < end {
                assert(l.skip(k - start)[0] == s@[k as int]);
            }
            if k + 1 < end {
                assert(l.skip(k - start)[1] == s@[k + 1]);
            }
        }
        if end - k <= 1 {
            proof {
                assert(sep_pos(l.skip(k - start)) == l.skip(k - start).len());
                lemma_sep_pos_bounds(l);
            }
            return end;
        }
        if s.get_char(k) == ':' && s.get_char(k + 1) == ' ' {
            proof {
                assert(sep_pos(l.skip(k - start)) == 0);
            }
            return k;
        }
        proof {
            assert(l.skip(k - start).drop_first() =~= l.skip(k - start + 1));
        }
        k += 1;
    }
}

/// Character-by-character string equality.
pub fn str_eq(a: &str, b: &str) -> (r: bool)
    ensures
        r == (a@ == b@),
{
    let an = a.unicode_len();
    let bn = b.unicode_len();
    if an != bn {
        assert(a@ != b@) by {
            assert(a@.len() != b@.len());
        }
        return false;
    }
    let mut i: usize = 0;
    while i < an
        invariant
            i <= an,
            an == a@.len(),
            an == b@.len(),
            forall|j: int| 0 <= j < i ==> a@[j] == b@[j],
        decreases an - i,
    {
        if a.get_char(i) != b.get_char(i) {
            return false;
        }
        i += 1;
    }
    proof {
        assert(a@ =~= b@);
    }
    true
}

} // verus!
