//! The session layer: open documents, the affordances offered on them, and
//! the resolution of an invoked command back to a request.

use crate::parser::{parse_http_file, parse_spec, requests_view, HttpRequest, RequestView};
use crate::text::opt_view;
use crate::text_map::{
    insert_entry, keys_unique, lemma_lookup_insert, lookup, remove_entry, Entries, TextMap,
};
use vstd::prelude::*;
use vstd::string::StringExecFns;

verus! {

/// The text of every open document, by document identifier.
pub struct DocumentStore {
    docs: TextMap,
}

impl View for DocumentStore {
    type V = Entries;

    closed spec fn view(&self) -> Entries {
        self.docs@
    }
}

impl DocumentStore {
    /// A store with no documents.
    pub fn new() -> (r: DocumentStore)
        ensures
            r@ == Seq::<(Seq<char>, Seq<char>)>::empty(),
            keys_unique(r@),
            forall|q: Seq<char>| lookup(r@, q) is None,
    {
        DocumentStore { docs: TextMap::new() }
    }

    /// Records a document that was opened with the given text.
    pub fn open(&mut self, uri: String, text: String)
        ensures
            final(self)@ == insert_entry(old(self)@, uri@, text@),
            keys_unique(old(self)@) ==> keys_unique(final(self)@),
            lookup(final(self)@, uri@) == Some(text@),
            forall|q: Seq<char>| q != uri@ ==> lookup(final(self)@, q) == lookup(old(self)@, q),
    {
        proof {
            assert forall|q: Seq<char>| lookup(insert_entry(self@, uri@, text@), q) == if q == uri@ {
                Some(text@)
            } else {
                lookup(self@, q)
            } by {
                lemma_lookup_insert(self@, uri@, text@, q);
            }
        }
        self.docs.insert(uri, text);
    }

    /// Applies a change notification: the first fragment, if any, replaces the
    /// whole text; no fragment leaves the store as it was.
    pub fn update(&mut self, uri: String, fragments: Vec<String>)
        ensures
            final(self)@ == if fragments@.len() > 0 {
                insert_entry(old(self)@, uri@, fragments@[0]@)
            } else {
                old(self)@
            },
            keys_unique(old(self)@) ==> keys_unique(final(self)@),
            fragments@.len() > 0 ==> lookup(final(self)@, uri@) == Some(fragments@[0]@),
            forall|q: Seq<char>| q != uri@ ==> lookup(final(self)@, q) == lookup(old(self)@, q),
    {
        let mut fragments = fragments;
        if fragments.len() > 0 {
            let text = fragments.remove(0);
            self.open(uri, text);
        }
    }

    /// Forgets a closed document.
    pub fn close(&mut self, uri: &str)
        ensures
            final(self)@ == remove_entry(old(self)@, uri@),
            lookup(final(self)@, uri@) is None,
            forall|q: Seq<char>| q != uri@ ==> lookup(final(self)@, q) == lookup(old(self)@, q),
    {
        self.docs.remove(uri);
    }

    /// The current text of a document, if it is open.
    pub fn get(&self, uri: &str) -> (r: Option<String>)
        ensures
            opt_view(r) == lookup(self@, uri@),
    {
        match self.docs.get(uri) {
            Some(t) => Some(t.clone()),
            None => None,
        }
    }
}

/// A "send this request" affordance, bound to the line of a request.
#[derive(Debug, Clone)]
pub struct Affordance {
    pub line: usize,
    pub title: String,
}

pub open spec fn title_of(method: Seq<char>) -> Seq<char> {
    "Send "@ + method + " Request"@
}

/// An affordance as plain values.
pub open spec fn affordance_view(a: Affordance) -> (int, Seq<char>) {
    (a.line as int, a.title@)
}

pub open spec fn lens_of(q: RequestView) -> (int, Seq<char>) {
    (q.line, title_of(q.method))
}

fn affordance_for(req: &HttpRequest) -> (r: Affordance)
    ensures
        affordance_view(r) == lens_of(req@),
{
    let title = String::from_str("Send ").concat(req.method.as_str()).concat(" Request");
    Affordance { line: req.line_number, title }
}

/// One affordance per request of the text, at its line, in order.
pub fn lenses_in(text: &str) -> (r: Vec<Affordance>)
    ensures
        r@.len() == parse_spec(text@).len(),
        forall|i: int| 0 <= i < r@.len() ==> affordance_view(#[trigger] r@[i]) == lens_of(parse_spec(text@)[i]),
{
    let requests = parse_http_file(text);
    let ghost rs = requests_view(requests@);
    let mut r: Vec<Affordance> = Vec::new();
    let mut i: usize = 0;
    while i < requests.len()
        invariant
            i <= requests.len(),
            rs == requests_view(requests@),
            r@.len() == i,
            forall|j: int| 0 <= j < i ==> affordance_view(#[trigger] r@[j]) == lens_of(rs[j]),
        decreases requests.len() - i,
    {
        r.push(affordance_for(&requests[i]));
        i = i + 1;
    }
    r
}

/// The affordances of an open document; `None` where the document is not open.
pub fn lenses_for(store: &DocumentStore, uri: &str) -> (r: Option<Vec<Affordance>>)
    ensures
        r is Some == lookup(store@, uri@) is Some,
        r matches Some(v) ==> ({
            let rs = parse_spec(lookup(store@, uri@)->0);
            &&& v@.len() == rs.len()
            &&& forall|i: int| 0 <= i < v@.len() ==> affordance_view(#[trigger] v@[i]) == lens_of(rs[i])
        }),
{
    match store.get(uri) {
        Some(text) => Some(lenses_in(text.as_str())),
        None => None,
    }
}

/// `i` indexes the request with the greatest line at or before `line`.
pub open spec fn is_closest_before(rs: Seq<RequestView>, line: int, i: int) -> bool {
    &&& 0 <= i < rs.len()
    &&& rs[i].line <= line
    &&& forall|j: int| 0 <= j < rs.len() && rs[j].line <= line ==> #[trigger] rs[j].line <= rs[i].line
}

/// The affordance of the closest request at or before `line` in the text;
/// `None` where no request stands at or before it.
pub fn action_in(text: &str, line: usize) -> (r: Option<Affordance>)
    ensures
        r is Some == exists|i: int|
            0 <= i < parse_spec(text@).len() && #[trigger] parse_spec(text@)[i].line <= line,
        r matches Some(a) ==> exists|i: int|
            is_closest_before(parse_spec(text@), line as int, i) && affordance_view(a) == lens_of(
                #[trigger] parse_spec(text@)[i],
            ),
{
    let requests = parse_http_file(text);
    let ghost rs = requests_view(requests@);
    let mut best: Option<usize> = None;
    let mut i: usize = 0;
    while i < requests.len()
        invariant
            i <= requests.len(),
            rs == requests_view(requests@),
            rs == parse_spec(text@),
            best is None == forall|j: int| 0 <= j < i ==> rs[j].line > line,
            best matches Some(b) ==> b < i && rs[b as int].line <= line && forall|j: int|
                0 <= j < i && rs[j].line <= line ==> #[trigger] rs[j].line <= rs[b as int].line,
        decreases requests.len() - i,
    {
        assert(rs[i as int] == requests@[i as int]@);
        if requests[i].line_number <= line {
            match best {
                Some(b) => {
                    assert(rs[b as int] == requests@[b as int]@);
                    if requests[i].line_number >= requests[b].line_number {
                        best = Some(i);
                    }
                },
                None => {
                    best = Some(i);
                },
            }
        }
        i = i + 1;
    }
    match best {
        Some(b) => {
            let a = affordance_for(&requests[b]);
            assert(is_closest_before(rs, line as int, b as int));
            Some(a)
        },
        None => {
            assert forall|j: int| 0 <= j < rs.len() implies !(#[trigger] rs[j].line <= line) by {}
            None
        },
    }
}

/// The action offered at `line` of an open document; `None` where the document is
/// not open or no request stands at or before that line.
pub fn action_for(store: &DocumentStore, uri: &str, line: usize) -> (r: Option<Affordance>)
    ensures
        lookup(store@, uri@) is None ==> r is None,
        lookup(store@, uri@) matches Some(text) ==> ({
            let rs = parse_spec(text);
            &&& r is Some == exists|i: int| 0 <= i < rs.len() && #[trigger] rs[i].line <= line
            &&& r matches Some(a) ==> exists|i: int|
                is_closest_before(rs, line as int, i) && affordance_view(a) == lens_of(#[trigger] rs[i])
        }),
{
    match store.get(uri) {
        Some(text) => action_in(text.as_str(), line),
        None => None,
    }
}

} // verus!
