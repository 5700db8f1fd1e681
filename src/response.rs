//! Responses as the executor hands them back, their textual forms, and what
//! the executor sends for a request.

use crate::parser::HttpRequest;
use crate::text::{decimal, decimal_string, opt_view, same_text};
use crate::text_map::{Entries, TextMap};
use vstd::prelude::*;
use vstd::string::StringExecFns;

verus! {

/// A response: status code and reason phrase, headers, body, and how long the call took.
#[derive(Debug, Clone)]
pub struct HttpResponse {
    pub status: u16,
    pub status_text: String,
    pub headers: TextMap,
    pub body: String,
    pub duration_ms: u64,
}

/// A response as plain values.
pub struct ResponseView {
    pub status: nat,
    pub status_text: Seq<char>,
    pub headers: Entries,
    pub body: Seq<char>,
    pub duration_ms: nat,
}

impl View for HttpResponse {
    type V = ResponseView;

    open spec fn view(&self) -> ResponseView {
        ResponseView {
            status: self.status as nat,
            status_text: self.status_text@,
            headers: self.headers@,
            body: self.body@,
            duration_ms: self.duration_ms as nat,
        }
    }
}

/// One `name: value` line per entry, in order.
pub open spec fn header_block(hs: Entries) -> Seq<char>
    decreases hs.len(),
{
    if hs.len() == 0 {
        Seq::empty()
    } else {
        header_block(hs.drop_last()) + hs.last().0 + ": "@ + hs.last().1 + "\n"@
    }
}

/// Status line, header lines, a blank line and the body.
pub open spec fn http_text(r: ResponseView) -> Seq<char> {
    "HTTP/1.1 "@ + decimal(r.status) + " "@ + r.status_text + "\n"@ + header_block(r.headers)
        + "\n"@ + r.body
}

/// Status code, reason phrase and elapsed milliseconds, as `200 OK (120ms)`.
pub open spec fn summary_text(r: ResponseView) -> Seq<char> {
    decimal(r.status) + " "@ + r.status_text + " ("@ + decimal(r.duration_ms) + "ms)"@
}

/// Appends the header lines of `hs`.
pub fn append_header_block(out: &mut String, hs: &TextMap)
    ensures
        final(out)@ == old(out)@ + header_block(hs@),
{
    let ghost before = out@;
    let mut i: usize = 0;
    while i < hs.len()
        invariant
            i <= hs@.len(),
            out@ == before + header_block(hs@.subrange(0, i as int)),
        decreases hs@.len() - i,
    {
        let (name, value) = hs.entry(i);
        out.append(name.as_str());
        out.append(": ");
        out.append(value.as_str());
        out.append("\n");
        proof {
            let sub = hs@.subrange(0, i + 1);
            assert(sub.drop_last() =~= hs@.subrange(0, i as int));
            assert(sub.last() == hs@[i as int]);
            assert(out@ =~= before + header_block(sub));
        }
        i = i + 1;
    }
    assert(hs@.subrange(0, hs@.len() as int) =~= hs@);
}

impl HttpResponse {
    /// The response written out as HTTP text: status line, headers, blank line, body.
    pub fn format_as_http(&self) -> (r: String)
        ensures
            r@ == http_text(self@),
    {
        let mut out = String::from_str("HTTP/1.1 ");
        out.append(decimal_string(self.status as u64).as_str());
        out.append(" ");
        out.append(self.status_text.as_str());
        out.append("\n");
        append_header_block(&mut out, &self.headers);
        out.append("\n");
        out.append(self.body.as_str());
        assert(out@ =~= http_text(self@));
        out
    }

    /// A one-line summary: status code, reason phrase and elapsed time.
    pub fn summary(&self) -> (r: String)
        ensures
            r@ == summary_text(self@),
    {
        let mut out = decimal_string(self.status as u64);
        out.append(" ");
        out.append(self.status_text.as_str());
        out.append(" (");
        out.append(decimal_string(self.duration_ms).as_str());
        out.append("ms)");
        assert(out@ =~= summary_text(self@));
        out
    }
}

/// The request methods the executor can send.
#[derive(Debug, Clone, Copy, PartialEq, Eq, Structural)]
pub enum Verb {
    Get,
    Post,
    Put,
    Delete,
    Patch,
    Head,
}

/// The verb for a method name; the executor has none for any other name.
pub open spec fn verb_of(m: Seq<char>) -> Option<Verb> {
    if m == "GET"@ {
        Some(Verb::Get)
    } else if m == "POST"@ {
        Some(Verb::Post)
    } else if m == "PUT"@ {
        Some(Verb::Put)
    } else if m == "DELETE"@ {
        Some(Verb::Delete)
    } else if m == "PATCH"@ {
        Some(Verb::Patch)
    } else if m == "HEAD"@ {
        Some(Verb::Head)
    } else {
        None
    }
}

/// The verb to send a request with, or the error for a method the executor cannot send.
pub fn request_verb(method: &String) -> (r: Result<Verb, String>)
    ensures
        match verb_of(method@) {
            Some(v) => r == Ok::<Verb, String>(v),
            None => r matches Err(e) && e@ == "Unsupported HTTP method: "@ + method@,
        },
{
    if same_text(method, "GET") {
        Ok(Verb::Get)
    } else if same_text(method, "POST") {
        Ok(Verb::Post)
    } else if same_text(method, "PUT") {
        Ok(Verb::Put)
    } else if same_text(method, "DELETE") {
        Ok(Verb::Delete)
    } else if same_text(method, "PATCH") {
        Ok(Verb::Patch)
    } else if same_text(method, "HEAD") {
        Ok(Verb::Head)
    } else {
        Err(String::from_str("Unsupported HTTP method: ").concat(method.as_str()))
    }
}

/// The body to send with a request: its own, except that a `HEAD` request carries none.
pub fn outgoing_body(req: &HttpRequest) -> (r: Option<String>)
    ensures
        opt_view(r) == if req.method@ == "HEAD"@ {
            None
        } else {
            opt_view(req.body)
        },
{
    if same_text(&req.method, "HEAD") {
        None
    } else {
        match &req.body {
            Some(b) => Some(b.clone()),
            None => None,
        }
    }
}

} // verus!
