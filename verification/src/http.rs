//! HTTP request parsing: the request line (method and path), the query
//! split, and the header block.

use vstd::prelude::*;
use vstd::string::StrSliceExecFns;

verus! {

/// The first index at or after `from` where `c` occurs in `s`, or
/// `s.len()` when it does not occur there.
pub open spec fn spec_find(s: Seq<char>, c: char, from: int) -> int
    decreases s.len() - from,
{
    if from < 0 || from >= s.len() {
        s.len() as int
    } else if s[from] == c {
        from
    } else {
        spec_find(s, c, from + 1)
    }
}

/// `spec_find` yields an index between `from` and the length; a hit
/// carries the character, and nothing before the hit does.
pub proof fn lemma_spec_find(s: Seq<char>, c: char, from: int)
    requires
        0 <= from <= s.len(),
    ensures
        from <= spec_find(s, c, from) <= s.len(),
        spec_find(s, c, from) < s.len() ==> s[spec_find(s, c, from)] == c,
        forall|j: int| from <= j < spec_find(s, c, from) ==> s[j] != c,
    decreases s.len() - from,
{
    if from < s.len() && s[from] != c {
        lemma_spec_find(s, c, from + 1);
    }
}

/// Find the first occurrence of `c` in `s` at or after `from`.
pub fn find_char(s: &str, c: char, from: usize) -> (r: usize)
    requires
        from <= s@.len(),
    ensures
        r == spec_find(s@, c, from as int),
    decreases s@.len() - from,
{
    let n = s.unicode_len();
    if from >= n {
        n
    } else if s.get_char(from) == c {
        from
    } else {
        find_char(s, c, from + 1)
    }
}

/// The route part of a path: everything before the first `?`, or the
/// whole path when there is none.
pub open spec fn spec_route(path: Seq<char>) -> Seq<char> {
    path.subrange(0, spec_find(path, '?', 0))
}

/// The query part of a path: everything after the first `?`, or empty
/// when there is none.
pub open spec fn spec_query(path: Seq<char>) -> Seq<char> {
    if spec_find(path, '?', 0) == path.len() {
        Seq::empty()
    } else {
        path.subrange(spec_find(path, '?', 0) + 1, path.len() as int)
    }
}

/// Split a path at the first `?` into the route and the query string;
/// the `?` itself belongs to neither.
pub fn split_query<'a>(path: &'a str) -> (r: (&'a str, &'a str))
    ensures
        r.0@ == spec_route(path@),
        r.1@ == spec_query(path@),
{
    let n = path.unicode_len();
    let i = find_char(path, '?', 0);
    proof {
        lemma_spec_find(path@, '?', 0);
    }
    if i == n {
        proof {
            reveal_strlit("");
            assert(""@ =~= Seq::<char>::empty());
            assert(path@ =~= path@.subrange(0, n as int));
        }
        (path, "")
    } else {
        (path.substring_char(0, i), path.substring_char(i + 1, n))
    }
}

/// Whether the four characters starting at `i` are `CRLF CRLF`.
pub open spec fn spec_blank_at(s: Seq<char>, i: int) -> bool {
    &&& i + 4 <= s.len()
    &&& s[i] == '\r'
    &&& s[i + 1] == '\n'
    &&& s[i + 2] == '\r'
    &&& s[i + 3] == '\n'
}

/// The first index at or after `from` where a blank line (`CRLF CRLF`)
/// starts, or `s.len()` when there is none.
pub open spec fn spec_find_blank(s: Seq<char>, from: int) -> int
    decreases s.len() - from,
{
    if from < 0 || from + 4 > s.len() {
        s.len() as int
    } else if spec_blank_at(s, from) {
        from
    } else {
        spec_find_blank(s, from + 1)
    }
}

/// `spec_find_blank` yields an index between `from` and the length.
pub proof fn lemma_spec_find_blank(s: Seq<char>, from: int)
    requires
        0 <= from <= s.len(),
    ensures
        from <= spec_find_blank(s, from) <= s.len(),
    decreases s.len() - from,
{
    if from + 4 <= s.len() && !spec_blank_at(s, from) {
        lemma_spec_find_blank(s, from + 1);
    }
}

/// Find the first blank line at or after `from`.
pub fn find_blank(s: &str, from: usize) -> (r: usize)
    requires
        from <= s@.len(),
    ensures
        r == spec_find_blank(s@, from as int),
    decreases s@.len() - from,
{
    let n = s.unicode_len();
    if n < 4 || from > n - 4 {
        n
    } else if s.get_char(from) == '\r' && s.get_char(from + 1) == '\n'
        && s.get_char(from + 2) == '\r' && s.get_char(from + 3) == '\n' {
        from
    } else {
        find_blank(s, from + 1)
    }
}

/// The part of the request before the first blank line: the request
/// line and the header lines.
pub open spec fn spec_head(s: Seq<char>) -> Seq<char> {
    s.subrange(0, spec_find_blank(s, 0))
}

/// A line with one trailing carriage return removed.
pub open spec fn spec_strip_cr(l: Seq<char>) -> Seq<char> {
    if l.len() > 0 && l[l.len() - 1] == '\r' {
        l.drop_last()
    } else {
        l
    }
}

/// The lines of `s`: split at each newline, with one carriage return
/// stripped from the end of each split-off line; a final segment
/// without a newline stands as it is, and a trailing newline adds no
/// empty line.
pub open spec fn spec_lines(s: Seq<char>) -> Seq<Seq<char>>
    decreases s.len(),
    via spec_lines_decreases
{
    if s.len() == 0 {
        Seq::empty()
    } else {
        let i = spec_find(s, '\n', 0);
        if i >= s.len() {
            seq![s]
        } else {
            seq![spec_strip_cr(s.subrange(0, i))]
                + spec_lines(s.subrange(i + 1, s.len() as int))
        }
    }
}

#[via_fn]
proof fn spec_lines_decreases(s: Seq<char>) {
    if s.len() > 0 {
        lemma_spec_find(s, '\n', 0);
    }
}

/// Split a string into its lines.
pub fn split_lines<'a>(s: &'a str) -> (r: Vec<&'a str>)
    ensures
        r@.len() == spec_lines(s@).len(),
        forall|i: int| 0 <= i < r@.len() ==> (#[trigger] r@[i])@ == spec_lines(s@)[i],
    decreases s@.len(),
{
    let n = s.unicode_len();
    if n == 0 {
        Vec::new()
    } else {
        let i = find_char(s, '\n', 0);
        proof {
            lemma_spec_find(s@, '\n', 0);
        }
        if i == n {
            let mut v: Vec<&'a str> = Vec::new();
            v.push(s);
            v
        } else {
            let line_end: usize = if i > 0 && s.get_char(i - 1) == '\r' {
                i - 1
            } else {
                i
            };
            let line = s.substring_char(0, line_end);
            proof {
                assert(line@ =~= spec_strip_cr(s@.subrange(0, i as int)));
            }
            let mut rest = split_lines(s.substring_char(i + 1, n));
            let mut v: Vec<&'a str> = Vec::new();
            v.push(line);
            v.append(&mut rest);
            proof {
                let ls = spec_lines(s@);
                assert(v@.len() == ls.len());
                assert forall|k: int| 0 <= k < v@.len() implies (#[trigger] v@[k])@ == ls[k] by {
                    if k > 0 {
                        assert(ls[k] == spec_lines(s@.subrange(i + 1, s@.len() as int))[k - 1]);
                    }
                }
            }
            v
        }
    }
}

/// ASCII whitespace, as trimmed from the front of header values.
pub open spec fn spec_is_ws(c: char) -> bool {
    c == ' ' || c == '\t' || c == '\n' || c == '\x0b' || c == '\x0c' || c == '\r'
}

/// A line with its leading ASCII whitespace removed.
pub open spec fn spec_trim_start(l: Seq<char>) -> Seq<char>
    decreases l.len(),
{
    if l.len() > 0 && spec_is_ws(l[0]) {
        spec_trim_start(l.drop_first())
    } else {
        l
    }
}

fn is_ws(c: char) -> (r: bool)
    ensures
        r == spec_is_ws(c),
{
    c == ' ' || c == '\t' || c == '\n' || c == '\x0b' || c == '\x0c' || c == '\r'
}

/// Remove leading ASCII whitespace.
pub fn trim_start<'a>(l: &'a str) -> (r: &'a str)
    ensures
        r@ == spec_trim_start(l@),
    decreases l@.len(),
{
    let n = l.unicode_len();
    if n > 0 && is_ws(l.get_char(0)) {
        let rest = l.substring_char(1, n);
        proof {
            assert(rest@ =~= l@.drop_first());
        }
        trim_start(rest)
    } else {
        l
    }
}

/// A header line split at its first colon: the name before it, the
/// value after it with leading whitespace trimmed. A line without a
/// colon is a name with an empty value.
pub open spec fn spec_header_of_line(l: Seq<char>) -> (Seq<char>, Seq<char>) {
    let i = spec_find(l, ':', 0);
    if i == l.len() {
        (l, Seq::empty())
    } else {
        (l.subrange(0, i), spec_trim_start(l.subrange(i + 1, l.len() as int)))
    }
}

/// Split one header line into its name and value.
pub fn header_of_line<'a>(l: &'a str) -> (r: (&'a str, &'a str))
    ensures
        r.0@ == spec_header_of_line(l@).0,
        r.1@ == spec_header_of_line(l@).1,
{
    let n = l.unicode_len();
    let i = find_char(l, ':', 0);
    proof {
        lemma_spec_find(l@, ':', 0);
    }
    if i == n {
        proof {
            reveal_strlit("");
            assert(""@ =~= Seq::<char>::empty());
        }
        (l, "")
    } else {
        let value = trim_start(l.substring_char(i + 1, n));
        (l.substring_char(0, i), value)
    }
}

/// The headers of a request: every line of the head section after the
/// request line, split into name and value.
pub open spec fn spec_headers(req: Seq<char>) -> Seq<(Seq<char>, Seq<char>)> {
    let ls = spec_lines(spec_head(req));
    if ls.len() == 0 {
        Seq::empty()
    } else {
        ls.subrange(1, ls.len() as int).map_values(|l: Seq<char>| spec_header_of_line(l))
    }
}

/// Parse the header block of a request: the lines before the first
/// blank line, except the first (the request line), each split at its
/// first colon, names kept verbatim and values with leading whitespace
/// trimmed.
pub fn parse_headers<'a>(req: &'a str) -> (r: Vec<(&'a str, &'a str)>)
    ensures
        r@.len() == spec_headers(req@).len(),
        forall|i: int| 0 <= i < r@.len() ==> {
            &&& (#[trigger] r@[i]).0@ == spec_headers(req@)[i].0
            &&& r@[i].1@ == spec_headers(req@)[i].1
        },
{
    let b = find_blank(req, 0);
    proof {
        lemma_spec_find_blank(req@, 0);
    }
    let head = req.substring_char(0, b);
    let lines = split_lines(head);
    let mut r: Vec<(&'a str, &'a str)> = Vec::new();
    if lines.len() == 0 {
        return r;
    }
    let ghost hs = spec_headers(req@);
    let mut idx: usize = 1;
    while idx < lines.len()
        invariant
            1 <= idx <= lines@.len(),
            lines@.len() == spec_lines(spec_head(req@)).len(),
            forall|i: int| 0 <= i < lines@.len() ==>
                (#[trigger] lines@[i])@ == spec_lines(spec_head(req@))[i],
            hs == spec_headers(req@),
            hs.len() == lines@.len() - 1,
            r@.len() == idx - 1,
            forall|i: int| 0 <= i < r@.len() ==> {
                &&& (#[trigger] r@[i]).0@ == hs[i].0
                &&& r@[i].1@ == hs[i].1
            },
        decreases lines@.len() - idx,
    {
        let h = header_of_line(lines[idx]);
        r.push(h);
        idx = idx + 1;
    }
    r
}

/// A request whose head section holds no line beyond the request line
/// — in particular an empty request — parses to an empty header set.
pub proof fn lemma_headers_empty(req: Seq<char>)
    requires
        spec_lines(spec_head(req)).len() <= 1,
    ensures
        spec_headers(req).len() == 0,
{
}

/// The method of a request: the first token of the space-separated
/// request line (the whole string when there is no space).
pub open spec fn spec_method(req: Seq<char>) -> Seq<char> {
    req.subrange(0, spec_find(req, ' ', 0))
}

/// The path of a request: the second token of the space-separated
/// request line, or empty when there is none.
pub open spec fn spec_path(req: Seq<char>) -> Seq<char> {
    let i = spec_find(req, ' ', 0);
    if i == req.len() {
        Seq::empty()
    } else {
        req.subrange(i + 1, spec_find(req, ' ', i + 1))
    }
}

/// Split a raw request into its first two space-separated tokens: the
/// method and the path. Missing tokens are empty.
pub fn request_line<'a>(req: &'a str) -> (r: (&'a str, &'a str))
    ensures
        r.0@ == spec_method(req@),
        r.1@ == spec_path(req@),
{
    let n = req.unicode_len();
    let i = find_char(req, ' ', 0);
    proof {
        lemma_spec_find(req@, ' ', 0);
    }
    let method = req.substring_char(0, i);
    if i == n {
        proof {
            reveal_strlit("");
            assert(""@ =~= Seq::<char>::empty());
        }
        (method, "")
    } else {
        let j = find_char(req, ' ', i + 1);
        proof {
            lemma_spec_find(req@, ' ', i + 1);
        }
        (method, req.substring_char(i + 1, j))
    }
}

} // verus!
