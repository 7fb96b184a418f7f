//! The request parsers.
//!
//! The request-line parser splits the first line of a request into
//! whitespace-separated tokens; exactly three tokens mean
//! (method, path, protocol), and any other token count yields three empty
//! strings, the silent malformed-line signal.
//!
//! The request parser takes method and path from the first line, then
//! reads header lines until the first blank line; a header line is split
//! at its first `": "`, and lines without that separator are dropped.

use vstd::prelude::*;
use vstd::string::StrSliceExecFns;
use vstd::string::StringExecFns;
use crate::headers::HeaderMap;
use crate::text::{
    first_line, find_nl, has_sep, is_ws, lemma_find_nl_bounds, lemma_split_ws_token,
    lemma_token_len_bounds, rest_lines, scan_line_end, scan_sep, scan_token_end, sep_key,
    sep_pos, sep_val, split_ws, ws_char,
};

verus! {

/// What the request-line parser returns on `line`: its three tokens in
/// order, or three empty strings when there are not exactly three.
pub open spec fn parse_request_line_spec(line: Seq<char>) -> (Seq<char>, Seq<char>, Seq<char>) {
    let toks = split_ws(line);
    if toks.len() == 3 {
        (toks[0], toks[1], toks[2])
    } else {
        (Seq::empty(), Seq::empty(), Seq::empty())
    }
}

/// Splits one request line into (method, path, protocol); a line with a
/// token count other than three parses to three empty strings.
pub fn parse_request_line(line: &str) -> (r: (String, String, String))
    ensures
        (r.0@, r.1@, r.2@) == parse_request_line_spec(line@),
{
    let n = line.unicode_len();
    let mut tokens: Vec<String> = Vec::new();
    let mut i: usize = 0;
    proof {
        assert(line@.skip(0) =~= line@);
        assert(tokens.deep_view() =~= Seq::<Seq<char>>::empty());
        assert(tokens.deep_view() + split_ws(line@) =~= split_ws(line@));
    }
    while i < n
        invariant
            i <= n,
            n == line@.len(),
            split_ws(line@) == tokens.deep_view() + split_ws(line@.skip(i as int)),
        decreases n - i,
    {
        if ws_char(line.get_char(i)) {
            proof {
                assert(line@.skip(i as int).drop_first() =~= line@.skip(i + 1));
            }
            i += 1;
        } else {
            let j = scan_token_end(line, i);
            proof {
                lemma_token_len_bounds(line@.skip(i as int));
                assert(line@.skip(i as int).take(j - i) =~= line@.subrange(i as int, j as int));
                assert(line@.skip(i as int).skip(j - i) =~= line@.skip(j as int));
            }
            let tok = String::from_str(line.substring_char(i, j));
            let ghost pre = tokens.deep_view();
            tokens.push(tok);
            proof {
                assert(tokens.deep_view() =~= pre.push(line@.subrange(i as int, j as int)));
                assert(pre + (seq![line@.subrange(i as int, j as int)] + split_ws(line@.skip(j as int)))
                    =~= tokens.deep_view() + split_ws(line@.skip(j as int)));
            }
            i = j;
        }
    }
    proof {
        assert(line@.skip(n as int) =~= Seq::<char>::empty());
        assert(split_ws(line@) =~= tokens.deep_view());
    }
    if tokens.len() == 3 {
        let t0 = tokens[0].clone();
        let t1 = tokens[1].clone();
        let t2 = tokens[2].clone();
        (t0, t1, t2)
    } else {
        (String::new(), String::new(), String::new())
    }
}

/// The header block folded into a map, starting from `acc`: lines are
/// taken until the first blank one, a line with `": "` inserts its key
/// and value, and one without is dropped.
pub open spec fn parse_headers_acc(s: Seq<char>, acc: Map<Seq<char>, Seq<char>>) -> Map<
    Seq<char>,
    Seq<char>,
>
    decreases s.len(),
    via parse_headers_acc_decreases
{
    if s.len() == 0 {
        acc
    } else if first_line(s).len() == 0 {
        acc
    } else if has_sep(first_line(s)) {
        parse_headers_acc(
            rest_lines(s),
            acc.insert(sep_key(first_line(s)), sep_val(first_line(s))),
        )
    } else {
        parse_headers_acc(rest_lines(s), acc)
    }
}

#[via_fn]
proof fn parse_headers_acc_decreases(s: Seq<char>, acc: Map<Seq<char>, Seq<char>>) {
    lemma_find_nl_bounds(s);
}

/// The method of a raw request: the first token of its first line, or
/// empty when that line is malformed.
pub open spec fn request_method(s: Seq<char>) -> Seq<char> {
    parse_request_line_spec(first_line(s)).0
}

/// The path of a raw request: the second token of its first line, or
/// empty when that line is malformed.
pub open spec fn request_path(s: Seq<char>) -> Seq<char> {
    parse_request_line_spec(first_line(s)).1
}

/// The header map of a raw request: its lines after the first, up to the
/// first blank line.
pub open spec fn request_headers(s: Seq<char>) -> Map<Seq<char>, Seq<char>> {
    parse_headers_acc(rest_lines(s), Map::empty())
}

/// Parses a complete raw request into (method, path, headers). The
/// protocol token is read and discarded; anything after the first blank
/// line is never inspected.
pub fn parse_request(request: &str) -> (r: (String, String, HeaderMap))
    ensures
        r.0@ == request_method(request@),
        r.1@ == request_path(request@),
        r.2@ == request_headers(request@),
{
    let n = request.unicode_len();
    proof {
        assert(request@.skip(0) =~= request@);
    }
    let first_end = scan_line_end(request, 0);
    let line_end = if first_end < n && first_end > 0 && request.get_char(first_end - 1) == '\r' {
        first_end - 1
    } else {
        first_end
    };
    proof {
        assert(request@.take(find_nl(request@)) =~= request@.subrange(0, first_end as int));
        if first_end < n {
            if first_end > 0 && request@[first_end - 1] == '\r' {
                assert(request@.subrange(0, first_end as int).last() == request@[first_end - 1]);
                assert(request@.subrange(0, first_end as int).drop_last() =~= request@.subrange(
                    0,
                    line_end as int,
                ));
            }
        } else {
            assert(request@.subrange(0, first_end as int) =~= request@);
        }
        assert(first_line(request@) == request@.subrange(0, line_end as int));
    }
    let (method, path, _protocol) = parse_request_line(request.substring_char(0, line_end));

    let mut headers = HeaderMap::new();
    let mut pos: usize = if first_end < n {
        first_end + 1
    } else {
        n
    };
    proof {
        if first_end < n {
            assert(rest_lines(request@) =~= request@.skip(pos as int));
        } else {
            assert(rest_lines(request@) =~= request@.skip(pos as int));
        }
    }
    loop
        invariant
            pos <= n,
            n == request@.len(),
            request_headers(request@) == parse_headers_acc(request@.skip(pos as int), headers@),
        ensures
            request_headers(request@) == headers@,
        decreases n - pos,
    {
        if pos >= n {
            proof {
                assert(request@.skip(pos as int) =~= Seq::<char>::empty());
            }
            break;
        }
        let ghost rem = request@.skip(pos as int);
        let end = scan_line_end(request, pos);
        let lend = if end < n && end > pos && request.get_char(end - 1) == '\r' {
            end - 1
        } else {
            end
        };
        let ghost line = first_line(rem);
        proof {
            assert(rem.take(find_nl(rem)) =~= request@.subrange(pos as int, end as int));
            if end < n {
                if end > pos && request@[end - 1] == '\r' {
                    assert(request@.subrange(pos as int, end as int).last() == request@[end - 1]);
                    assert(request@.subrange(pos as int, end as int).drop_last()
                        =~= request@.subrange(pos as int, lend as int));
                }
            } else {
                assert(request@.subrange(pos as int, end as int) =~= rem);
            }
            assert(line == request@.subrange(pos as int, lend as int));
        }
        if lend == pos {
            proof {
                assert(line.len() == 0);
            }
            break;
        }
        let sp = scan_sep(request, pos, lend);
        proof {
            assert(sep_pos(line) == sp - pos);
        }
        if lend - sp >= 2 {
            let key = String::from_str(request.substring_char(pos, sp));
            let value = String::from_str(request.substring_char(sp + 2, lend));
            proof {
                assert(sep_key(line) =~= request@.subrange(pos as int, sp as int));
                assert(sep_val(line) =~= request@.subrange(sp + 2, lend as int));
            }
            headers.insert(key, value);
        } else {
            proof {
                assert(!has_sep(line));
            }
        }
        let next = if end < n {
            end + 1
        } else {
            n
        };
        proof {
            if end < n {
                assert(rest_lines(rem) =~= request@.skip(next as int));
            } else {
                assert(rest_lines(rem) =~= request@.skip(next as int));
            }
        }
        pos = next;
    }
    (method, path, headers)
}

/// A well-formed request line — three non-empty whitespace-free tokens,
/// one space between them — parses to exactly those three tokens.
pub proof fn lemma_request_line_well_formed(m: Seq<char>, p: Seq<char>, v: Seq<char>)
    requires
        m.len() > 0,
        p.len() > 0,
        v.len() > 0,
        forall|i: int| 0 <= i < m.len() ==> !is_ws(m[i]),
        forall|i: int| 0 <= i < p.len() ==> !is_ws(p[i]),
        forall|i: int| 0 <= i < v.len() ==> !is_ws(v[i]),
    ensures
        parse_request_line_spec(m + " "@ + p + " "@ + v) == (m, p, v),
{
    reveal_strlit(" ");
    let line = m + " "@ + p + " "@ + v;
    let rest1 = " "@ + (p + (" "@ + v));
    assert(line =~= m + rest1);
    assert(is_ws(rest1[0]));
    lemma_split_ws_token(m, rest1);
    assert(rest1.drop_first() =~= p + (" "@ + v));
    assert(split_ws(rest1) == split_ws(p + (" "@ + v)));
    assert(is_ws((" "@ + v)[0]));
    lemma_split_ws_token(p, " "@ + v);
    assert((" "@ + v).drop_first() =~= v);
    assert(split_ws(" "@ + v) == split_ws(v));
    assert(v =~= v + Seq::<char>::empty());
    lemma_split_ws_token(v, Seq::empty());
    assert(split_ws(Seq::<char>::empty()) =~= Seq::<Seq<char>>::empty());
    assert(split_ws(line) =~= seq![m, p, v]);
}

/// A request line whose token count is not three parses to three empty
/// strings.
pub proof fn lemma_request_line_malformed(line: Seq<char>)
    requires
        split_ws(line).len() != 3,
    ensures
        parse_request_line_spec(line) == (
            Seq::<char>::empty(),
            Seq::<char>::empty(),
            Seq::<char>::empty(),
        ),
{
}

/// The lines of a header block, in order: every line before the first
/// blank one.
pub open spec fn header_lines(s: Seq<char>) -> Seq<Seq<char>>
    decreases s.len(),
    via header_lines_decreases
{
    if s.len() == 0 {
        Seq::empty()
    } else if first_line(s).len() == 0 {
        Seq::empty()
    } else {
        seq![first_line(s)] + header_lines(rest_lines(s))
    }
}

#[via_fn]
proof fn header_lines_decreases(s: Seq<char>) {
    lemma_find_nl_bounds(s);
}

/// The map denoted by a sequence of header lines, starting from `acc`.
pub open spec fn headers_of_lines(ls: Seq<Seq<char>>, acc: Map<Seq<char>, Seq<char>>) -> Map<
    Seq<char>,
    Seq<char>,
>
    decreases ls.len(),
{
    if ls.len() == 0 {
        acc
    } else if has_sep(ls[0]) {
        headers_of_lines(ls.drop_first(), acc.insert(sep_key(ls[0]), sep_val(ls[0])))
    } else {
        headers_of_lines(ls.drop_first(), acc)
    }
}

/// Parsing a header block is folding its lines in order.
pub proof fn lemma_headers_are_folded_lines(s: Seq<char>, acc: Map<Seq<char>, Seq<char>>)
    ensures
        parse_headers_acc(s, acc) == headers_of_lines(header_lines(s), acc),
    decreases s.len(),
{
    lemma_find_nl_bounds(s);
    if s.len() == 0 || first_line(s).len() == 0 {
    } else {
        let ls = header_lines(s);
        assert(ls[0] == first_line(s));
        assert(ls.drop_first() =~= header_lines(rest_lines(s)));
        if has_sep(first_line(s)) {
            lemma_headers_are_folded_lines(
                rest_lines(s),
                acc.insert(sep_key(first_line(s)), sep_val(first_line(s))),
            );
        } else {
            lemma_headers_are_folded_lines(rest_lines(s), acc);
        }
    }
}

/// A key that no line of the block carries is in the result exactly when
/// it is in `acc`, with its value unchanged.
pub proof fn lemma_headers_no_key(ls: Seq<Seq<char>>, acc: Map<Seq<char>, Seq<char>>, k: Seq<char>)
    requires
        forall|j: int| 0 <= j < ls.len() && has_sep(#[trigger] ls[j]) ==> sep_key(ls[j]) != k,
    ensures
        headers_of_lines(ls, acc).contains_key(k) == acc.contains_key(k),
        acc.contains_key(k) ==> headers_of_lines(ls, acc)[k] == acc[k],
    decreases ls.len(),
{
    if ls.len() == 0 {
    } else {
        assert(forall|j: int|
            0 <= j < ls.drop_first().len() && has_sep(#[trigger] ls.drop_first()[j])
                ==> sep_key(ls.drop_first()[j]) != k) by {
            assert(forall|j: int| 0 <= j < ls.drop_first().len() ==> ls.drop_first()[j] == ls[j + 1]);
        }
        if has_sep(ls[0]) {
            lemma_headers_no_key(ls.drop_first(), acc.insert(sep_key(ls[0]), sep_val(ls[0])), k);
        } else {
            lemma_headers_no_key(ls.drop_first(), acc, k);
        }
    }
}

/// Every header line with the `": "` separator puts its key in the map,
/// and when no later line writes the same key, its value as well: one
/// entry for that line.
pub proof fn lemma_header_line_present(ls: Seq<Seq<char>>, acc: Map<Seq<char>, Seq<char>>, i: int)
    requires
        0 <= i < ls.len(),
        has_sep(ls[i]),
        forall|j: int| i < j < ls.len() && has_sep(#[trigger] ls[j]) ==> sep_key(ls[j]) != sep_key(
            ls[i],
        ),
    ensures
        headers_of_lines(ls, acc).contains_key(sep_key(ls[i])),
        headers_of_lines(ls, acc)[sep_key(ls[i])] == sep_val(ls[i]),
    decreases ls.len(),
{
    assert(forall|j: int| 0 <= j < ls.drop_first().len() ==> ls.drop_first()[j] == ls[j + 1]);
    if i == 0 {
        let acc2 = acc.insert(sep_key(ls[0]), sep_val(ls[0]));
        lemma_headers_no_key(ls.drop_first(), acc2, sep_key(ls[0]));
    } else {
        if has_sep(ls[0]) {
            lemma_header_line_present(
                ls.drop_first(),
                acc.insert(sep_key(ls[0]), sep_val(ls[0])),
                i - 1,
            );
        } else {
            lemma_header_line_present(ls.drop_first(), acc, i - 1);
        }
    }
}

/// Every key in the parsed map comes from some line with the separator.
pub proof fn lemma_header_key_origin(ls: Seq<Seq<char>>, acc: Map<Seq<char>, Seq<char>>, k: Seq<char>)
    requires
        headers_of_lines(ls, acc).contains_key(k),
        !acc.contains_key(k),
    ensures
        exists|i: int| 0 <= i < ls.len() && has_sep(#[trigger] ls[i]) && sep_key(ls[i]) == k,
    decreases ls.len(),
{
    if ls.len() == 0 {
    } else {
        if has_sep(ls[0]) && sep_key(ls[0]) == k {
            assert(has_sep(ls[0]) && sep_key(ls[0]) == k);
        } else {
            if has_sep(ls[0]) {
                lemma_header_key_origin(
                    ls.drop_first(),
                    acc.insert(sep_key(ls[0]), sep_val(ls[0])),
                    k,
                );
            } else {
                lemma_header_key_origin(ls.drop_first(), acc, k);
            }
            let i = choose|i: int|
                0 <= i < ls.drop_first().len() && has_sep(#[trigger] ls.drop_first()[i])
                    && sep_key(ls.drop_first()[i]) == k;
            assert(ls.drop_first()[i] == ls[i + 1]);
            assert(has_sep(ls[i + 1]) && sep_key(ls[i + 1]) == k);
        }
    }
}

/// The header block of a request, line by line: a line before the first
/// blank one that contains `": "` becomes one entry (the last such line
/// for a key gives its value); a key that no such line carries is absent.
pub proof fn lemma_header_block(req: Seq<char>)
    ensures
        request_headers(req) == headers_of_lines(header_lines(rest_lines(req)), Map::empty()),
        forall|k: Seq<char>| #[trigger] request_headers(req).contains_key(k) ==> exists|i: int|
            0 <= i < header_lines(rest_lines(req)).len() && has_sep(
                #[trigger] header_lines(rest_lines(req))[i],
            ) && sep_key(header_lines(rest_lines(req))[i]) == k,
{
    let ls = header_lines(rest_lines(req));
    lemma_headers_are_folded_lines(rest_lines(req), Map::empty());
    assert forall|k: Seq<char>| #[trigger] request_headers(req).contains_key(k) implies exists|i: int|
        0 <= i < ls.len() && has_sep(#[trigger] ls[i]) && sep_key(ls[i]) == k by {
        lemma_header_key_origin(ls, Map::empty(), k);
    }
}

/// A request whose header block starts with the blank terminator — zero
/// header lines — has an empty header map.
pub proof fn lemma_no_header_lines(req: Seq<char>)
    requires
        first_line(rest_lines(req)).len() == 0,
    ensures
        request_headers(req) == Map::<Seq<char>, Seq<char>>::empty(),
{
}

} // verus!
