//! The request-file parser: text is cut into blocks at `###` lines, and each
//! block yields at most one request.

use crate::text::{
    chars_of, chars_to_string, copy_range, find_char, find_char_at, first_token,
    is_ws, join_lines, join_range, lemma_positions, lemma_segments, lines_of, lines_view,
    opt_view, positions, same_text, second_token, seg_end, seg_start, split_lines,
    token_bounds, trim, trim_bounds, trim_chars, upper_case, upper_of, lemma_positions_none,
    lemma_skip_ws_bounds,
};
use crate::text_map::{insert_entry, lemma_lookup_insert, lookup, Entries, TextMap};
use crate::url_check::{url_verdict, validate_url};
use vstd::prelude::*;

verus! {

/// One request of a file: method, target, headers, optional body, and the
/// zero-based line on which its request line stands.
#[derive(Debug, Clone)]
pub struct HttpRequest {
    pub method: String,
    pub url: String,
    pub headers: TextMap,
    pub body: Option<String>,
    pub line_number: usize,
}

/// A request as plain values.
pub struct RequestView {
    pub method: Seq<char>,
    pub url: Seq<char>,
    pub headers: Entries,
    pub body: Option<Seq<char>>,
    pub line: int,
}

impl View for HttpRequest {
    type V = RequestView;

    open spec fn view(&self) -> RequestView {
        RequestView {
            method: self.method@,
            url: self.url@,
            headers: self.headers@,
            body: opt_view(self.body),
            line: self.line_number as int,
        }
    }
}

/// The methods a request line may name.
pub open spec fn is_method(m: Seq<char>) -> bool {
    m == "GET"@ || m == "POST"@ || m == "PUT"@ || m == "DELETE"@ || m == "PATCH"@ || m
        == "HEAD"@ || m == "OPTIONS"@
}

pub open spec fn is_blank(l: Seq<char>) -> bool {
    trim(l).len() == 0
}

/// A line whose trimmed text starts with `#` or `//`.
pub open spec fn is_comment(l: Seq<char>) -> bool {
    let t = trim(l);
    (t.len() >= 1 && t[0] == '#') || (t.len() >= 2 && t[0] == '/' && t[1] == '/')
}

/// A line whose trimmed text starts with `###`.
pub open spec fn is_delimiter(l: Seq<char>) -> bool {
    let t = trim(l);
    t.len() >= 3 && t[0] == '#' && t[1] == '#' && t[2] == '#'
}

/// A line that names a method, upper-cased, and has a further token.
pub open spec fn is_request_line(l: Seq<char>) -> bool {
    !is_comment(l) && first_token(l).len() > 0 && second_token(l).len() > 0 && is_method(
        upper_of(first_token(l)),
    )
}

/// Index of the trimmed text's first `:`.
pub open spec fn colon_at(l: Seq<char>) -> int {
    find_char(trim(l), ':', 0)
}

/// A line that sets a header: not a comment, not blank, and holding a `:`.
pub open spec fn is_header_line(l: Seq<char>) -> bool {
    !is_comment(l) && !is_blank(l) && colon_at(l) < trim(l).len()
}

pub open spec fn header_name(l: Seq<char>) -> Seq<char> {
    trim(trim(l).subrange(0, colon_at(l)))
}

pub open spec fn header_value(l: Seq<char>) -> Seq<char> {
    trim(trim(l).subrange(colon_at(l) + 1, trim(l).len() as int))
}

/// First request line in `[i, e)`, or `e`.
pub open spec fn request_line_in(ls: Seq<Seq<char>>, i: int, e: int) -> int
    decreases e - i,
{
    if i < e && !is_request_line(ls[i]) {
        request_line_in(ls, i + 1, e)
    } else {
        i
    }
}

/// First blank line in `[i, e)`, or `e`: where the headers end.
pub open spec fn header_end(ls: Seq<Seq<char>>, i: int, e: int) -> int
    decreases e - i,
{
    if i < e && !is_blank(ls[i]) {
        header_end(ls, i + 1, e)
    } else {
        i
    }
}

/// The headers set by the lines in `[a, b)`, each later line overriding an earlier one.
pub open spec fn headers_between(ls: Seq<Seq<char>>, a: int, b: int) -> Entries
    decreases b - a,
{
    if b <= a {
        Seq::empty()
    } else {
        let prev = headers_between(ls, a, b - 1);
        if is_header_line(ls[b - 1]) {
            insert_entry(prev, header_name(ls[b - 1]), header_value(ls[b - 1]))
        } else {
            prev
        }
    }
}

/// The body after the blank line at `h`: the rest of the block joined and trimmed,
/// absent where that is empty or there is no blank line.
pub open spec fn body_of(ls: Seq<Seq<char>>, h: int, e: int) -> Option<Seq<char>> {
    if h < e {
        let t = trim(join_lines(ls.subrange(h + 1, e)));
        if t.len() == 0 {
            None
        } else {
            Some(t)
        }
    } else {
        None
    }
}

/// The request of the block of lines `[s, e)`, if it has one.
pub open spec fn parse_block(ls: Seq<Seq<char>>, s: int, e: int) -> Option<RequestView> {
    let r = request_line_in(ls, s, e);
    if r >= e {
        None
    } else {
        match url_verdict(second_token(ls[r])) {
            Err(_) => None,
            Ok(u) => {
                let h = header_end(ls, r + 1, e);
                Some(
                    RequestView {
                        method: upper_of(first_token(ls[r])),
                        url: u,
                        headers: headers_between(ls, r + 1, h),
                        body: body_of(ls, h, e),
                        line: r,
                    },
                )
            },
        }
    }
}

pub open spec fn delimiter_test() -> spec_fn(Seq<char>) -> bool {
    |l: Seq<char>| is_delimiter(l)
}

/// Indices of the delimiter lines.
pub open spec fn delimiters(ls: Seq<Seq<char>>) -> Seq<int> {
    positions(ls, delimiter_test(), ls.len() as int)
}

/// Number of blocks: one more than there are delimiter lines.
pub open spec fn block_count(ls: Seq<Seq<char>>) -> int {
    delimiters(ls).len() + 1int
}

pub open spec fn block_start(ls: Seq<Seq<char>>, k: int) -> int {
    seg_start(delimiters(ls), k)
}

pub open spec fn block_end(ls: Seq<Seq<char>>, k: int) -> int {
    seg_end(delimiters(ls), k, ls.len() as int)
}

/// What the `k`-th block yields.
pub open spec fn block_result(ls: Seq<Seq<char>>, k: int) -> Option<RequestView> {
    parse_block(ls, block_start(ls, k), block_end(ls, k))
}

/// The present values, in order.
pub open spec fn somes<T>(s: Seq<Option<T>>) -> Seq<T>
    decreases s.len(),
{
    if s.len() == 0 {
        Seq::empty()
    } else {
        let p = somes(s.drop_last());
        match s.last() {
            Some(x) => p.push(x),
            None => p,
        }
    }
}

/// What each block yields, top to bottom.
pub open spec fn block_results(ls: Seq<Seq<char>>) -> Seq<Option<RequestView>> {
    Seq::new(block_count(ls) as nat, |k: int| block_result(ls, k))
}

/// The requests of a file, top to bottom.
pub open spec fn parse_spec(text: Seq<char>) -> Seq<RequestView> {
    somes(block_results(lines_of(text)))
}

pub open spec fn requests_view(v: Seq<HttpRequest>) -> Seq<RequestView> {
    Seq::new(v.len(), |i: int| v[i]@)
}

pub open spec fn opt_request_view(o: Option<HttpRequest>) -> Option<RequestView> {
    match o {
        Some(r) => Some(r@),
        None => None,
    }
}


fn line_is_blank(line: &Vec<char>) -> (b: bool)
    ensures
        b == is_blank(line@),
{
    let (a, z) = trim_bounds(line);
    a == z
}

fn line_is_comment(line: &Vec<char>) -> (b: bool)
    ensures
        b == is_comment(line@),
{
    let t = trim_chars(line);
    (t.len() >= 1 && t[0] == '#') || (t.len() >= 2 && t[0] == '/' && t[1] == '/')
}

fn line_is_delimiter(line: &Vec<char>) -> (b: bool)
    ensures
        b == is_delimiter(line@),
{
    let t = trim_chars(line);
    t.len() >= 3 && t[0] == '#' && t[1] == '#' && t[2] == '#'
}

fn is_method_text(m: &String) -> (b: bool)
    ensures
        b == is_method(m@),
{
    same_text(m, "GET") || same_text(m, "POST") || same_text(m, "PUT") || same_text(m, "DELETE")
        || same_text(m, "PATCH") || same_text(m, "HEAD") || same_text(m, "OPTIONS")
}

/// The upper-cased method of a request line; `None` for any other line.
fn request_method(line: &Vec<char>) -> (r: Option<String>)
    ensures
        r is Some == is_request_line(line@),
        r matches Some(m) ==> m@ == upper_of(first_token(line@)),
{
    if line_is_comment(line) {
        return None;
    }
    let (a1, b1, a2, b2) = token_bounds(line);
    if a1 == b1 || a2 == b2 {
        return None;
    }
    let token = copy_range(line, a1, b1);
    let word = chars_to_string(token.as_slice());
    let upper = upper_case(word.as_str());
    if is_method_text(&upper) {
        Some(upper)
    } else {
        None
    }
}

/// Name and value of a header line; `None` for any other line.
fn header_fields(line: &Vec<char>) -> (r: Option<(String, String)>)
    ensures
        r is Some == is_header_line(line@),
        r matches Some((n, v)) ==> n@ == header_name(line@) && v@ == header_value(line@),
{
    if line_is_comment(line) || line_is_blank(line) {
        return None;
    }
    let t = trim_chars(line);
    let k = find_char_at(&t, ':', 0);
    if k >= t.len() {
        return None;
    }
    let name = trim_chars(&copy_range(&t, 0, k));
    let value = trim_chars(&copy_range(&t, k + 1, t.len()));
    Some((chars_to_string(name.as_slice()), chars_to_string(value.as_slice())))
}

/// The first request line in `[start, end)` (or `end`), with its method.
fn find_request_line(lines: &Vec<Vec<char>>, start: usize, end: usize) -> (r: (usize, Option<String>))
    requires
        start <= end <= lines.len(),
    ensures
        r.0 as int == request_line_in(lines_view(lines@), start as int, end as int),
        start <= r.0 <= end,
        r.0 < end ==> (r.1 matches Some(m) && m@ == upper_of(first_token(lines@[r.0 as int]@))),
{
    let ghost ls = lines_view(lines@);
    let mut i = start;
    while i < end
        invariant
            start <= i <= end <= lines.len(),
            ls == lines_view(lines@),
            request_line_in(ls, start as int, end as int) == request_line_in(ls, i as int, end as int),
        decreases end - i,
    {
        assert(ls[i as int] == lines@[i as int]@);
        match request_method(&lines[i]) {
            Some(m) => {
                return (i, Some(m));
            },
            None => {},
        }
        i = i + 1;
    }
    (i, None)
}

/// The request of the block of lines `[start, end)`, if it has one.
pub fn parse_block_lines(lines: &Vec<Vec<char>>, start: usize, end: usize) -> (r: Option<HttpRequest>)
    requires
        start <= end <= lines.len(),
    ensures
        opt_request_view(r) == parse_block(lines_view(lines@), start as int, end as int),
{
    let ghost ls = lines_view(lines@);
    let (at, found) = find_request_line(lines, start, end);
    if at >= end {
        return None;
    }
    let method = match found {
        Some(m) => m,
        None => {
            return None;
        },
    };
    let line = &lines[at];
    assert(ls[at as int] == line@);
    let (_, _, a2, b2) = token_bounds(line);
    let target = chars_to_string(copy_range(line, a2, b2).as_slice());
    let url = match validate_url(target.as_str()) {
        Ok(u) => u,
        Err(_) => {
            return None;
        },
    };
    let mut headers = TextMap::new();
    let mut i = at + 1;
    while i < end && !line_is_blank(&lines[i])
        invariant
            at < i <= end <= lines.len(),
            ls == lines_view(lines@),
            header_end(ls, at + 1, end as int) == header_end(ls, i as int, end as int),
            headers@ == headers_between(ls, at + 1, i as int),
        decreases end - i,
    {
        assert(ls[i as int] == lines@[i as int]@);
        match header_fields(&lines[i]) {
            Some((name, value)) => {
                headers.insert(name, value);
            },
            None => {},
        }
        i = i + 1;
    }
    proof {
        if i < end {
            assert(ls[i as int] == lines@[i as int]@);
        }
    }
    let body = if i < end {
        let joined = join_range(lines, i + 1, end);
        let trimmed = trim_chars(&joined);
        if trimmed.len() == 0 {
            None
        } else {
            Some(chars_to_string(trimmed.as_slice()))
        }
    } else {
        None
    };
    Some(HttpRequest { method, url, headers, body, line_number: at })
}


/// Indices of the delimiter lines.
fn delimiter_indices(lines: &Vec<Vec<char>>) -> (r: Vec<usize>)
    ensures
        r.len() == delimiters(lines_view(lines@)).len(),
        forall|k: int| 0 <= k < r.len() ==> r[k] as int == delimiters(lines_view(lines@))[k],
{
    let ghost ls = lines_view(lines@);
    let mut r: Vec<usize> = Vec::new();
    let mut i: usize = 0;
    while i < lines.len()
        invariant
            i <= lines.len(),
            ls == lines_view(lines@),
            r.len() == positions(ls, delimiter_test(), i as int).len(),
            forall|k: int|
                0 <= k < r.len() ==> r[k] as int == positions(ls, delimiter_test(), i as int)[k],
        decreases lines.len() - i,
    {
        assert(ls[i as int] == lines@[i as int]@);
        if line_is_delimiter(&lines[i]) {
            r.push(i);
        }
        i = i + 1;
    }
    r
}

proof fn lemma_somes_step<T>(s: Seq<Option<T>>, k: int)
    requires
        0 <= k < s.len(),
    ensures
        somes(s.subrange(0, k + 1)) == match s[k] {
            Some(x) => somes(s.subrange(0, k)).push(x),
            None => somes(s.subrange(0, k)),
        },
{
    assert(s.subrange(0, k + 1).drop_last() =~= s.subrange(0, k));
}

/// Parses the text of a request file into its requests, top to bottom.
///
/// Every line whose trimmed text starts with `###` closes a block; each block
/// yields at most one request, anchored at its request line.
pub fn parse_http_file(content: &str) -> (r: Vec<HttpRequest>)
    ensures
        requests_view(r@) == parse_spec(content@),
{
    let text = chars_of(content);
    let lines = split_lines(&text);
    let ghost ls = lines_view(lines@);
    let delims = delimiter_indices(&lines);
    let ghost d = delimiters(ls);
    let ghost results = block_results(ls);
    proof {
        lemma_positions(ls, delimiter_test(), ls.len() as int);
    }
    let mut requests: Vec<HttpRequest> = Vec::new();
    let mut k: usize = 0;
    while k < delims.len()
        invariant
            k <= delims.len() == d.len(),
            ls == lines_view(lines@),
            d == delimiters(ls),
            results == block_results(ls),
            forall|j: int| 0 <= j < delims.len() ==> delims[j] as int == d[j],
            forall|j: int| 0 <= j < d.len() ==> 0 <= #[trigger] d[j] < ls.len(),
            forall|a: int, b: int| 0 <= a < b < d.len() ==> d[a] < d[b],
            requests_view(requests@) == somes(results.subrange(0, k as int)),
        decreases delims.len() - k,
    {
        proof {
            assert(delims[k as int] as int == d[k as int]);
            assert(d[k as int] < ls.len());
            if k > 0 {
                assert(delims[k - 1] as int == d[k - 1]);
                assert(d[k - 1] < d[k as int]);
            }
            lemma_somes_step(results, k as int);
        }
        let start = if k == 0 {
            0
        } else {
            delims[k - 1] + 1
        };
        let ghost before = requests@;
        match parse_block_lines(&lines, start, delims[k]) {
            Some(req) => {
                requests.push(req);
                assert(requests_view(requests@) =~= requests_view(before).push(req@));
            },
            None => {},
        }
        k = k + 1;
    }
    proof {
        if delims.len() > 0 {
            assert(delims[delims.len() - 1] as int == d[delims.len() - 1]);
            assert(d[delims.len() - 1] < ls.len());
        }
        lemma_somes_step(results, k as int);
        assert(results.subrange(0, k + 1) =~= results);
    }
    let start = if delims.len() == 0 {
        0
    } else {
        delims[delims.len() - 1] + 1
    };
    let ghost before = requests@;
    match parse_block_lines(&lines, start, lines.len()) {
        Some(req) => {
            requests.push(req);
            assert(requests_view(requests@) =~= requests_view(before).push(req@));
        },
        None => {},
    }
    requests
}


proof fn lemma_somes_len<T>(s: Seq<Option<T>>)
    ensures
        somes(s).len() <= s.len(),
    decreases s.len(),
{
    if s.len() > 0 {
        lemma_somes_len(s.drop_last());
    }
}

proof fn lemma_request_line_in(ls: Seq<Seq<char>>, i: int, e: int)
    requires
        0 <= i <= e <= ls.len(),
    ensures
        i <= request_line_in(ls, i, e) <= e,
        request_line_in(ls, i, e) < e ==> is_request_line(ls[request_line_in(ls, i, e)]),
        forall|j: int| i <= j < request_line_in(ls, i, e) ==> !is_request_line(#[trigger] ls[j]),
    decreases e - i,
{
    if i < e && !is_request_line(ls[i]) {
        lemma_request_line_in(ls, i + 1, e);
    }
}

proof fn lemma_header_end(ls: Seq<Seq<char>>, i: int, e: int)
    requires
        0 <= i <= e <= ls.len(),
    ensures
        i <= header_end(ls, i, e) <= e,
    decreases e - i,
{
    if i < e && !is_blank(ls[i]) {
        lemma_header_end(ls, i + 1, e);
    }
}

proof fn lemma_block_bounds(ls: Seq<Seq<char>>, k: int)
    requires
        0 <= k < block_count(ls),
    ensures
        0 <= block_start(ls, k) <= block_end(ls, k) <= ls.len(),
{
    lemma_segments(ls, delimiter_test(), k);
}

proof fn lemma_somes_member<T>(s: Seq<Option<T>>, i: int)
    requires
        0 <= i < somes(s).len(),
    ensures
        exists|k: int| 0 <= k < s.len() && s[k] == Some(#[trigger] somes(s)[i]),
    decreases s.len(),
{
    let p = somes(s.drop_last());
    lemma_somes_len(s.drop_last());
    if i < p.len() {
        lemma_somes_member(s.drop_last(), i);
        let k = choose|k: int| 0 <= k < s.drop_last().len() && s.drop_last()[k] == Some(p[i]);
        assert(s[k] == Some(somes(s)[i]));
    } else {
        assert(s[s.len() - 1] == Some(somes(s)[i]));
    }
}

/// Every request is anchored at a request line of the text: that line, split again,
/// names the request's method and target.
pub proof fn lemma_anchor_is_request_line(text: Seq<char>, i: int)
    requires
        0 <= i < parse_spec(text).len(),
    ensures
        ({
            let ls = lines_of(text);
            let q = parse_spec(text)[i];
            &&& 0 <= q.line < ls.len()
            &&& is_request_line(ls[q.line])
            &&& q.method == upper_of(first_token(ls[q.line]))
            &&& q.url == second_token(ls[q.line])
        }),
{
    let ls = lines_of(text);
    let results = block_results(ls);
    lemma_somes_member(results, i);
    let k = choose|k: int| 0 <= k < results.len() && results[k] == Some(#[trigger] somes(results)[i]);
    lemma_block_bounds(ls, k);
    lemma_request_line_in(ls, block_start(ls, k), block_end(ls, k));
}

/// A text without delimiter lines yields at most one request; where it yields one,
/// that request stands on the first request line of the text, and that line's
/// target is accepted.
pub proof fn lemma_undelimited_text(text: Seq<char>)
    requires
        forall|i: int|
            0 <= i < lines_of(text).len() ==> !is_delimiter(#[trigger] lines_of(text)[i]),
    ensures
        parse_spec(text).len() <= 1,
        parse_spec(text).len() == 1 ==> ({
            let ls = lines_of(text);
            let r = parse_spec(text)[0].line;
            &&& 0 <= r < ls.len()
            &&& is_request_line(ls[r])
            &&& url_verdict(second_token(ls[r])) is Ok
            &&& forall|j: int| 0 <= j < r ==> !is_request_line(#[trigger] ls[j])
        }),
{
    let ls = lines_of(text);
    assert forall|i: int| 0 <= i < ls.len() implies !delimiter_test()(#[trigger] ls[i]) by {
        assert(!is_delimiter(ls[i]));
    }
    lemma_positions_none(ls, delimiter_test(), ls.len() as int);
    let results = block_results(ls);
    assert(results.len() == 1);
    assert(results.drop_last().len() == 0);
    assert(somes(results.drop_last()).len() == 0);
    assert(block_start(ls, 0) == 0);
    assert(block_end(ls, 0) == ls.len());
    lemma_request_line_in(ls, 0, ls.len() as int);
    if parse_spec(text).len() == 1 {
        assert(results[0] is Some);
        assert(parse_spec(text)[0] == results[0]->0);
    }
}

/// A text with `n` delimiter lines has `n + 1` blocks and yields at most `n + 1` requests.
pub proof fn lemma_request_count_bound(text: Seq<char>)
    ensures
        block_results(lines_of(text)).len() == delimiters(lines_of(text)).len() + 1,
        parse_spec(text).len() <= delimiters(lines_of(text)).len() + 1,
{
    lemma_somes_len(block_results(lines_of(text)));
}

/// Parsing depends on the text alone: equal texts give equal requests and anchors.
pub proof fn lemma_parse_deterministic(a: Seq<char>, b: Seq<char>)
    requires
        a == b,
    ensures
        parse_spec(a) == parse_spec(b),
{
}

/// The value set for header name `q` by the last line in `[a, b)` that sets it.
pub open spec fn last_header_value(ls: Seq<Seq<char>>, a: int, b: int, q: Seq<char>) -> Option<
    Seq<char>,
>
    decreases b - a,
{
    if b <= a {
        None
    } else if is_header_line(ls[b - 1]) && header_name(ls[b - 1]) == q {
        Some(header_value(ls[b - 1]))
    } else {
        last_header_value(ls, a, b - 1, q)
    }
}

proof fn lemma_headers_between_lookup(ls: Seq<Seq<char>>, a: int, b: int, q: Seq<char>)
    ensures
        lookup(headers_between(ls, a, b), q) == last_header_value(ls, a, b, q),
    decreases b - a,
{
    if b > a {
        lemma_headers_between_lookup(ls, a, b - 1, q);
        if is_header_line(ls[b - 1]) {
            lemma_lookup_insert(
                headers_between(ls, a, b - 1),
                header_name(ls[b - 1]),
                header_value(ls[b - 1]),
                q,
            );
        }
    }
}

/// Within any block of lines `[s, e)`, a later header line overrides an earlier one
/// with the same name: the block's request (as `parse_block_lines` returns it)
/// carries, for each name, the value of the last header line that sets it.
pub proof fn lemma_block_headers_last_write_wins(ls: Seq<Seq<char>>, s: int, e: int, q: Seq<char>)
    requires
        0 <= s <= e <= ls.len(),
        parse_block(ls, s, e) is Some,
    ensures
        ({
            let r = parse_block(ls, s, e)->0;
            lookup(r.headers, q) == last_header_value(ls, r.line + 1, header_end(ls, r.line + 1, e), q)
        }),
{
    let r = request_line_in(ls, s, e);
    lemma_headers_between_lookup(ls, r + 1, header_end(ls, r + 1, e), q);
}

/// The same law for the `k`-th block of a text.
pub proof fn lemma_headers_last_write_wins(text: Seq<char>, k: int, q: Seq<char>)
    requires
        0 <= k < block_count(lines_of(text)),
        block_result(lines_of(text), k) is Some,
    ensures
        ({
            let ls = lines_of(text);
            let r = block_result(ls, k)->0;
            lookup(r.headers, q) == last_header_value(
                ls,
                r.line + 1,
                header_end(ls, r.line + 1, block_end(ls, k)),
                q,
            )
        }),
{
    let ls = lines_of(text);
    lemma_block_bounds(ls, k);
    lemma_block_headers_last_write_wins(ls, block_start(ls, k), block_end(ls, k), q);
}

proof fn lemma_join_blank(ls: Seq<Seq<char>>)
    requires
        forall|j: int, c: int| 0 <= j < ls.len() && 0 <= c < ls[j].len() ==> is_ws(#[trigger] ls[j][c]),
    ensures
        forall|c: int| 0 <= c < join_lines(ls).len() ==> is_ws(#[trigger] join_lines(ls)[c]),
    decreases ls.len(),
{
    if ls.len() > 1 {
        lemma_join_blank(ls.drop_last());
        let front = join_lines(ls.drop_last()) + seq!['\n'];
        assert forall|c: int| 0 <= c < join_lines(ls).len() implies is_ws(#[trigger] join_lines(ls)[c]) by {
            if c < join_lines(ls.drop_last()).len() {
                assert(join_lines(ls)[c] == join_lines(ls.drop_last())[c]);
            } else if c == join_lines(ls.drop_last()).len() {
                assert(join_lines(ls)[c] == '\n');
            } else {
                let j = ls.len() - 1;
                assert(join_lines(ls)[c] == ls[j][c - front.len()]);
            }
        }
    } else if ls.len() == 1 {
        assert forall|c: int| 0 <= c < join_lines(ls).len() implies is_ws(#[trigger] join_lines(ls)[c]) by {
            assert(join_lines(ls)[c] == ls[0][c]);
        }
    }
}

/// In any block of lines `[s, e)`, a body section holding only whitespace leaves
/// the block's request (as `parse_block_lines` returns it) without a body: absent,
/// never empty.
pub proof fn lemma_block_blank_body_absent(ls: Seq<Seq<char>>, s: int, e: int)
    requires
        0 <= s <= e <= ls.len(),
        parse_block(ls, s, e) is Some,
        ({
            let h = header_end(ls, parse_block(ls, s, e)->0.line + 1, e);
            forall|j: int, c: int| h < j < e && 0 <= c < ls[j].len() ==> is_ws(#[trigger] ls[j][c])
        }),
    ensures
        parse_block(ls, s, e)->0.body is None,
{
    let r = request_line_in(ls, s, e);
    lemma_request_line_in(ls, s, e);
    let h = header_end(ls, r + 1, e);
    lemma_header_end(ls, r + 1, e);
    if h < e {
        let part = ls.subrange(h + 1, e);
        assert forall|j: int, c: int| 0 <= j < part.len() && 0 <= c < part[j].len() implies is_ws(
            #[trigger] part[j][c],
        ) by {
            assert(part[j] == ls[h + 1 + j]);
        }
        lemma_join_blank(part);
        let joined = join_lines(part);
        lemma_skip_ws_bounds(joined, 0);
        assert(trim(joined).len() == 0);
    }
}

/// The same law for the `k`-th block of a text.
pub proof fn lemma_blank_body_absent(text: Seq<char>, k: int)
    requires
        0 <= k < block_count(lines_of(text)),
        block_result(lines_of(text), k) is Some,
        ({
            let ls = lines_of(text);
            let e = block_end(ls, k);
            let h = header_end(ls, block_result(ls, k)->0.line + 1, e);
            forall|j: int, c: int| h < j < e && 0 <= c < ls[j].len() ==> is_ws(#[trigger] ls[j][c])
        }),
    ensures
        block_result(lines_of(text), k)->0.body is None,
{
    let ls = lines_of(text);
    lemma_block_bounds(ls, k);
    lemma_block_blank_body_absent(ls, block_start(ls, k), block_end(ls, k));
}

} // verus!
