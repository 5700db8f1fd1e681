//! The command dispatcher: from an invoked command to the request it names,
//! and from the executor's outcome to the transcript record and the notices
//! shown to the user.

use crate::parser::{parse_http_file, parse_spec, requests_view, HttpRequest, RequestView};
use crate::response::{header_block, summary_text, append_header_block, HttpResponse, ResponseView};
use crate::text::{chars_of, contains, contains_chars, decimal, decimal_string, occurs_at, opt_view, same_text};
use crate::text_map::lookup;
use vstd::prelude::*;
use vstd::string::StringExecFns;

verus! {

/// Index of the first request whose anchor is exactly `line` (or `rs.len()`).
pub open spec fn first_at_line(rs: Seq<RequestView>, line: int, i: int) -> int
    decreases rs.len() - i,
{
    if i < rs.len() && rs[i].line != line {
        first_at_line(rs, line, i + 1)
    } else {
        i
    }
}

/// The request whose anchor is exactly `line`, if any.
pub open spec fn request_at_spec(text: Seq<char>, line: int) -> Option<RequestView> {
    let rs = parse_spec(text);
    let i = first_at_line(rs, line, 0);
    if 0 <= i < rs.len() {
        Some(rs[i])
    } else {
        None
    }
}

proof fn lemma_first_at_line(rs: Seq<RequestView>, line: int, i: int)
    requires
        0 <= i <= rs.len(),
    ensures
        i <= first_at_line(rs, line, i) <= rs.len(),
        first_at_line(rs, line, i) < rs.len() ==> rs[first_at_line(rs, line, i)].line == line,
        forall|j: int| i <= j < first_at_line(rs, line, i) ==> #[trigger] rs[j].line != line,
    decreases rs.len() - i,
{
    if i < rs.len() && rs[i].line != line {
        lemma_first_at_line(rs, line, i + 1);
    }
}

/// The request of the text anchored exactly at `line`; unlike the offered action,
/// no nearby request is taken in its place.
pub fn request_at_line(text: &str, line: usize) -> (r: Option<HttpRequest>)
    ensures
        match r {
            Some(q) => request_at_spec(text@, line as int) == Some(q@),
            None => request_at_spec(text@, line as int) is None,
        },
        r is None <==> forall|i: int|
            0 <= i < parse_spec(text@).len() ==> #[trigger] parse_spec(text@)[i].line != line,
{
    let mut requests = parse_http_file(text);
    let ghost rs = requests_view(requests@);
    proof {
        lemma_first_at_line(rs, line as int, 0);
    }
    let mut i: usize = 0;
    while i < requests.len()
        invariant
            i <= requests.len(),
            rs == requests_view(requests@),
            rs == parse_spec(text@),
            first_at_line(rs, line as int, 0) == first_at_line(rs, line as int, i as int),
        decreases requests.len() - i,
    {
        assert(rs[i as int] == requests@[i as int]@);
        if requests[i].line_number == line {
            let q = requests.swap_remove(i);
            proof {
                lemma_first_at_line(rs, line as int, 0);
            }
            return Some(q);
        }
        i = i + 1;
    }
    proof {
        lemma_first_at_line(rs, line as int, 0);
    }
    None
}

/// What an invoked command comes to.
pub enum Dispatch {
    /// The document is not open: the user is told, nothing is sent.
    MissingDocument,
    /// No request is anchored at the line: nothing happens.
    NoRequest,
    /// This request is to be sent.
    Send(HttpRequest),
}

/// Resolves an invoked command against the current text of the document it
/// names (`None` where that document is not open) and the line it names.
pub fn plan_send(current_text: Option<&str>, line: usize) -> (r: Dispatch)
    ensures
        match current_text {
            None => r is MissingDocument,
            Some(text) => match request_at_spec(text@, line as int) {
                None => r is NoRequest,
                Some(q) => r matches Dispatch::Send(s) && s@ == q,
            },
        },
{
    match current_text {
        None => Dispatch::MissingDocument,
        Some(text) => match request_at_line(text, line) {
            None => Dispatch::NoRequest,
            Some(q) => Dispatch::Send(q),
        },
    }
}

/// The text shown when a command names a document that is not open.
pub fn missing_document_message() -> (r: String)
    ensures
        r@ == "Document not found"@,
{
    String::from_str("Document not found")
}

/// The command that sends the request at a line.
pub fn send_request_command() -> (r: String)
    ensures
        r@ == "http.sendRequest"@,
{
    String::from_str("http.sendRequest")
}

/// The document and line an invoked command names: only the send-request command,
/// with at least two arguments, names one. A first argument that is not text counts
/// as the empty identifier, a second that is not an unsigned integer as line 0.
pub fn command_target(command: &str, arg_count: usize, uri: Option<String>, line: Option<u64>) -> (r: Option<(String, usize)>)
    ensures
        r is Some == (command@ == "http.sendRequest"@ && arg_count >= 2),
        r matches Some((u, l)) ==> u@ == (match uri {
            Some(s) => s@,
            None => Seq::empty(),
        }) && l == (match line {
            Some(n) => n as usize,
            None => 0usize,
        }),
{
    let owned = String::from_str(command);
    if !same_text(&owned, "http.sendRequest") || arg_count < 2 {
        return None;
    }
    let u = match uri {
        Some(s) => s,
        None => String::new(),
    };
    let l: usize = match line {
        Some(n) => n as usize,
        None => 0,
    };
    Some((u, l))
}


/// What `serde_json` makes of a text: parsed as a JSON value and printed back
/// pretty, or `None` where it is not JSON.
pub uninterp spec fn pretty_json_of(s: Seq<char>) -> Option<Seq<char>>;

/// Relies on `serde_json::from_str::<serde_json::Value>` and
/// `serde_json::to_string_pretty`: the outcome depends on the text alone.
#[verifier::external_body]
fn pretty_json(s: &str) -> (r: Option<String>)
    ensures
        opt_view(r) == pretty_json_of(s@),
{
    match serde_json::from_str::<serde_json::Value>(s) {
        Ok(v) => serde_json::to_string_pretty(&v).ok(),
        Err(_) => None,
    }
}

/// The request half of a transcript record: request line, then headers and body
/// where present, each after a blank line.
pub open spec fn request_section(q: RequestView) -> Seq<char> {
    "### REQUEST ###\n"@ + q.method + " "@ + q.url + "\n"@ + (if q.headers.len() > 0 {
        "\n"@ + header_block(q.headers)
    } else {
        Seq::empty()
    }) + match q.body {
        Some(b) => "\n"@ + b + "\n"@,
        None => Seq::empty(),
    }
}

/// The response half of a transcript record; the body is shown as `shown`.
pub open spec fn response_section(r: ResponseView, shown: Seq<char>) -> Seq<char> {
    "\n"@ + "### RESPONSE ###\n"@ + "HTTP/1.1 "@ + decimal(r.status) + " "@ + r.status_text + " ("@
        + decimal(r.duration_ms) + "ms)\n"@ + "\n"@ + header_block(r.headers) + "\n"@ + shown
        + "\n"@
}

/// A request and its response as text; a pretty rendering of the body, where
/// given, stands in place of the body.
pub open spec fn exchange_text(q: RequestView, r: ResponseView, pretty: Option<Seq<char>>) -> Seq<
    char,
> {
    request_section(q) + response_section(
        r,
        match pretty {
            Some(p) => p,
            None => r.body,
        },
    )
}

/// The response declares JSON content.
pub open spec fn is_json_response(r: ResponseView) -> bool {
    match lookup(r.headers, "content-type"@) {
        Some(ct) => contains(ct, "application/json"@),
        None => false,
    }
}

fn append_request_section(out: &mut String, request: &HttpRequest)
    ensures
        final(out)@ == old(out)@ + request_section(request@),
{
    let ghost start = out@;
    out.append("### REQUEST ###\n");
    out.append(request.method.as_str());
    out.append(" ");
    out.append(request.url.as_str());
    out.append("\n");
    if !request.headers.is_empty() {
        out.append("\n");
        append_header_block(out, &request.headers);
    }
    match &request.body {
        Some(body) => {
            out.append("\n");
            out.append(body.as_str());
            out.append("\n");
        },
        None => {},
    }
    assert(out@ =~= start + request_section(request@));
}

fn append_response_section(out: &mut String, response: &HttpResponse, shown: &str)
    ensures
        final(out)@ == old(out)@ + response_section(response@, shown@),
{
    let ghost start = out@;
    out.append("\n");
    out.append("### RESPONSE ###\n");
    out.append("HTTP/1.1 ");
    out.append(decimal_string(response.status as u64).as_str());
    out.append(" ");
    out.append(response.status_text.as_str());
    out.append(" (");
    out.append(decimal_string(response.duration_ms).as_str());
    out.append("ms)\n");
    out.append("\n");
    append_header_block(out, &response.headers);
    out.append("\n");
    out.append(shown);
    out.append("\n");
    assert(out@ =~= start + response_section(response@, shown@));
}

/// Writes a request and its response as text, with `pretty` in place of the
/// response body where it is given.
pub fn render_exchange(request: &HttpRequest, response: &HttpResponse, pretty: Option<String>) -> (r: String)
    ensures
        r@ == exchange_text(request@, response@, opt_view(pretty)),
{
    let mut out = String::new();
    append_request_section(&mut out, request);
    match &pretty {
        Some(p) => append_response_section(&mut out, response, p.as_str()),
        None => append_response_section(&mut out, response, response.body.as_str()),
    }
    assert(out@ =~= exchange_text(request@, response@, opt_view(pretty)));
    out
}

fn is_json_content(response: &HttpResponse) -> (b: bool)
    ensures
        b == is_json_response(response@),
{
    match response.headers.get("content-type") {
        Some(ct) => {
            let text = chars_of(ct.as_str());
            let pattern = chars_of("application/json");
            contains_chars(&text, &pattern)
        },
        None => false,
    }
}

/// Writes a request and its response as text. Where the response declares JSON
/// content and its body parses as JSON, the body is shown pretty-printed;
/// otherwise as it came.
pub fn format_response_output(request: &HttpRequest, response: &HttpResponse) -> (r: String)
    ensures
        r@ == exchange_text(
            request@,
            response@,
            if is_json_response(response@) {
                pretty_json_of(response.body@)
            } else {
                None
            },
        ),
{
    let pretty = if is_json_content(response) {
        pretty_json(response.body.as_str())
    } else {
        None
    };
    render_exchange(request, response, pretty)
}

/// A row of 80 `=`.
pub open spec fn separator() -> Seq<char> {
    Seq::new(80, |i: int| '=')
}

fn separator_line() -> (r: Vec<char>)
    ensures
        r@ == separator(),
{
    let mut r: Vec<char> = Vec::new();
    let mut i: usize = 0;
    while i < 80
        invariant
            i <= 80,
            r@ == Seq::new(i as nat, |j: int| '='),
        decreases 80 - i,
    {
        r.push('=');
        i = i + 1;
        assert(r@ =~= Seq::new(i as nat, |j: int| '='));
    }
    r
}

/// A transcript record: separator, timestamp in brackets, separator, the exchange,
/// and a blank line.
pub open spec fn record_text(timestamp: Seq<char>, exchange: Seq<char>) -> Seq<char> {
    separator() + "\n["@ + timestamp + "]\n"@ + separator() + "\n"@ + exchange + "\n\n"@
}

/// The record appended to the transcript for one exchange.
pub fn transcript_record(timestamp: &str, exchange: &str) -> (r: String)
    ensures
        r@ == record_text(timestamp@, exchange@),
{
    let sep = crate::text::chars_to_string(separator_line().as_slice());
    let mut out = sep.clone();
    out.append("\n[");
    out.append(timestamp);
    out.append("]\n");
    out.append(sep.as_str());
    out.append("\n");
    out.append(exchange);
    out.append("\n\n");
    assert(out@ =~= record_text(timestamp@, exchange@));
    out
}

/// A message for the user.
pub enum Notice {
    Info(String),
    Error(String),
}

/// What follows the executor's outcome.
pub enum AfterSend {
    /// Append this record to the transcript.
    Append(String),
    /// Nothing is written; tell the user.
    Notify(Notice),
}

/// Decides what follows a send: on success, the record to append (stamped with
/// `timestamp`); on failure, an error notice and no record.
pub fn after_send(request: &HttpRequest, outcome: &Result<HttpResponse, String>, timestamp: &str) -> (r: AfterSend)
    ensures
        match outcome {
            Ok(resp) => r matches AfterSend::Append(rec) && rec@ == record_text(
                timestamp@,
                exchange_text(
                    request@,
                    resp@,
                    if is_json_response(resp@) {
                        pretty_json_of(resp.body@)
                    } else {
                        None
                    },
                ),
            ),
            Err(e) => r matches AfterSend::Notify(Notice::Error(m)) && m@ == "Request failed: "@ + e@,
        },
{
    match outcome {
        Ok(resp) => {
            let exchange = format_response_output(request, resp);
            AfterSend::Append(transcript_record(timestamp, exchange.as_str()))
        },
        Err(e) => AfterSend::Notify(
            Notice::Error(String::from_str("Request failed: ").concat(e.as_str())),
        ),
    }
}

/// The notice once the record was appended, or could not be.
pub fn after_write(response: &HttpResponse, written: &Result<(), String>) -> (r: Notice)
    ensures
        match written {
            Ok(_) => r matches Notice::Info(m) && m@ == "\u{2713} "@ + summary_text(response@)
                + " - Response appended to http-responses.http"@,
            Err(e) => r matches Notice::Error(m) && m@ == "Failed to write response: "@ + e@,
        },
{
    match written {
        Ok(_) => {
            let mut m = String::from_str("\u{2713} ");
            m.append(response.summary().as_str());
            m.append(" - Response appended to http-responses.http");
            Notice::Info(m)
        },
        Err(e) => Notice::Error(String::from_str("Failed to write response: ").concat(e.as_str())),
    }
}


/// Greatest index at or below `i` at which `pat` occurs in `s`, or -1.
pub open spec fn rfind_from(s: Seq<char>, pat: Seq<char>, i: int) -> int
    decreases i + 1,
{
    if i < 0 {
        -1
    } else if occurs_at(s, pat, i) {
        i
    } else {
        rfind_from(s, pat, i - 1)
    }
}

/// Start of the last occurrence of `pat` in `s`, or -1, as `str::rfind` finds it.
pub open spec fn rfind(s: Seq<char>, pat: Seq<char>) -> int {
    rfind_from(s, pat, s.len() - pat.len())
}

fn rfind_chars(s: &Vec<char>, pat: &Vec<char>) -> (r: Option<usize>)
    ensures
        match r {
            Some(i) => i as int == rfind(s@, pat@) && i + pat@.len() <= s@.len(),
            None => rfind(s@, pat@) == -1,
        },
{
    if pat.len() > s.len() {
        assert(rfind_from(s@, pat@, s@.len() - pat@.len()) == -1);
        return None;
    }
    let mut i = s.len() - pat.len();
    loop
        invariant
            i + pat.len() <= s.len(),
            rfind(s@, pat@) == rfind_from(s@, pat@, i as int),
        decreases i,
    {
        let mut matched = true;
        let mut j: usize = 0;
        while j < pat.len()
            invariant
                j <= pat.len(),
                i + pat.len() <= s.len(),
                matched == forall|k: int| 0 <= k < j ==> s@[i + k] == pat@[k],
            decreases pat.len() - j,
        {
            if s[i + j] != pat[j] {
                matched = false;
            }
            j = j + 1;
        }
        proof {
            if matched {
                assert(s@.subrange(i as int, i + pat.len()) =~= pat@);
            } else {
                let k = choose|k: int| 0 <= k < pat.len() && s@[i + k] != pat@[k];
                assert(s@.subrange(i as int, i + pat.len())[k] != pat@[k]);
            }
        }
        if matched {
            return Some(i);
        }
        if i == 0 {
            assert(rfind_from(s@, pat@, -1) == -1);
            return None;
        }
        i = i - 1;
    }
}

/// Start of the deepest `/test/` or `/src/` in `path`: where the nearest
/// ancestor directory named `test` or `src` begins; -1 where there is none.
pub open spec fn root_marker(path: Seq<char>) -> int {
    let t = rfind(path, "/test/"@);
    let s = rfind(path, "/src/"@);
    if t >= s {
        t
    } else {
        s
    }
}

/// The directory named by the text of `path` before index `i`; the root where
/// that text is empty.
pub open spec fn dir_before(path: Seq<char>, i: int) -> Seq<char> {
    if i == 0 {
        "/"@
    } else {
        path.subrange(0, i)
    }
}

/// Where the transcript goes for a document at `path` (a URL path): the directory
/// that holds the nearest ancestor named `test` or `src`, else `parent`. A path
/// that does not start with `/` gets no directory; the caller then uses a scratch one.
pub open spec fn output_dir_spec(path: Seq<char>, parent: Option<Seq<char>>) -> Option<Seq<char>> {
    if !(path.len() > 0 && path[0] == '/') {
        None
    } else if root_marker(path) >= 0 {
        Some(dir_before(path, root_marker(path)))
    } else {
        parent
    }
}

/// An absolute path whose last component is an ordinary name: it starts with a
/// single separator and ends in neither a separator nor a `.`.
pub open spec fn names_file_under_root(p: Seq<char>) -> bool {
    &&& p.len() >= 2
    &&& p[0] == '/'
    &&& p[1] != '/' && p[1] != '\\'
    &&& p.last() != '/' && p.last() != '\\' && p.last() != '.'
}

/// Relies on `std::path::Path::parent`: the path without its final component,
/// so a shorter prefix of it; `None` only where the path ends in a root or
/// prefix, or is empty.
#[verifier::external_body]
fn path_parent(p: &str) -> (r: Option<String>)
    ensures
        r matches Some(q) ==> q@.len() < p@.len() && q@ == p@.subrange(0, q@.len() as int),
        names_file_under_root(p@) ==> r is Some,
{
    std::path::Path::new(p).parent().map(|q| q.to_string_lossy().into_owned())
}

fn dir_string(s: &Vec<char>, n: usize) -> (r: String)
    requires
        n <= s.len(),
    ensures
        r@ == dir_before(s@, n as int),
{
    if n == 0 {
        String::from_str("/")
    } else {
        crate::text::chars_to_string(crate::text::copy_range(s, 0, n).as_slice())
    }
}

/// The transcript directory for a document at `path`, given the path's parent
/// directory as `parent`.
pub fn choose_output_directory(path: &str, parent: Option<String>) -> (r: Option<String>)
    ensures
        opt_view(r) == output_dir_spec(path@, opt_view(parent)),
{
    let cs = chars_of(path);
    if !(cs.len() > 0 && cs[0] == '/') {
        return None;
    }
    let t = rfind_chars(&cs, &chars_of("/test/"));
    let s = rfind_chars(&cs, &chars_of("/src/"));
    match (t, s) {
        (Some(i), Some(j)) => {
            if i >= j {
                Some(dir_string(&cs, i))
            } else {
                Some(dir_string(&cs, j))
            }
        },
        (Some(i), None) => Some(dir_string(&cs, i)),
        (None, Some(j)) => Some(dir_string(&cs, j)),
        (None, None) => parent,
    }
}

/// The transcript directory for a document at `path` (a URL path); `None` where a
/// scratch directory is to be used. Without a `test` or `src` ancestor it is the
/// path's parent directory, a shorter prefix of the path.
pub fn output_directory(path: &str) -> (r: Option<String>)
    ensures
        !(path@.len() > 0 && path@[0] == '/') ==> r is None,
        path@.len() > 0 && path@[0] == '/' && root_marker(path@) >= 0 ==> opt_view(r) == Some(
            dir_before(path@, root_marker(path@)),
        ),
        path@.len() > 0 && path@[0] == '/' && root_marker(path@) < 0 ==> {
            &&& r matches Some(d) ==> d@.len() < path@.len() && d@ == path@.subrange(
                0,
                d@.len() as int,
            )
            &&& names_file_under_root(path@) ==> r is Some
        },
{
    let cs = chars_of(path);
    let parent = if cs.len() > 0 && cs[0] == '/' {
        path_parent(path)
    } else {
        None
    };
    choose_output_directory(path, parent)
}

} // verus!
