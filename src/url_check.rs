//! Which request targets the parser accepts.

use crate::text::{decimal, decimal_string, result_view, same_text};
use vstd::prelude::*;
use vstd::string::{StrSliceExecFns, StringExecFns};

verus! {

/// Longest target, in characters, that is accepted.
pub const MAX_URL_LEN: usize = 2048;

/// What `url::Url::parse` makes of a text: its scheme and whether it has a host,
/// or the text of the parse error.
pub uninterp spec fn url_parse_of(s: Seq<char>) -> Result<(Seq<char>, bool), Seq<char>>;

/// Relies on `url::Url::parse` (with `Url::scheme` and `Url::host_str` read off a
/// parsed value, and `ParseError`'s `Display` text on failure): the outcome depends
/// on the text alone.
#[verifier::external_body]
fn parse_url(s: &str) -> (r: Result<(String, bool), String>)
    ensures
        match r {
            Ok((scheme, host)) => url_parse_of(s@) == Ok::<(Seq<char>, bool), Seq<char>>(
                (scheme@, host),
            ),
            Err(e) => url_parse_of(s@) == Err::<(Seq<char>, bool), Seq<char>>(e@),
        },
{
    match url::Url::parse(s) {
        Ok(u) => Ok((u.scheme().to_string(), u.host_str().is_some())),
        Err(e) => Err(e.to_string()),
    }
}

pub open spec fn too_long_message(n: nat) -> Seq<char> {
    "URL too long: "@ + decimal(n) + " characters (max 2048)"@
}

pub open spec fn scheme_message(scheme: Seq<char>) -> Seq<char> {
    "Unsupported URL scheme: '"@ + scheme + "'. Only http:// and https:// are allowed"@
}

/// The verdict on a target of at most 2048 characters, given what the URL parser made of it.
pub open spec fn parsed_url_verdict(
    s: Seq<char>,
    parsed: Result<(Seq<char>, bool), Seq<char>>,
) -> Result<Seq<char>, Seq<char>> {
    match parsed {
        Err(e) => Err("Invalid URL: "@ + e),
        Ok((scheme, host)) => if scheme != "http"@ && scheme != "https"@ {
            Err(scheme_message(scheme))
        } else if !host {
            Err("URL must have a valid host"@)
        } else {
            Ok(s)
        },
    }
}

/// The verdict on a target: the target itself where accepted, else the reason.
pub open spec fn url_verdict(s: Seq<char>) -> Result<Seq<char>, Seq<char>> {
    if s.len() > 2048 {
        Err(too_long_message(s.len()))
    } else {
        parsed_url_verdict(s, url_parse_of(s))
    }
}

/// A target is accepted exactly when it has at most 2048 characters, parses as an
/// absolute URL whose scheme is `http` or `https`, and has a host; every other
/// scheme, and every text that does not parse, is rejected.
pub proof fn lemma_url_acceptance(s: Seq<char>)
    ensures
        url_verdict(s) is Ok <==> ({
            &&& s.len() <= 2048
            &&& url_parse_of(s) is Ok
            &&& (url_parse_of(s)->Ok_0.0 == "http"@ || url_parse_of(s)->Ok_0.0 == "https"@)
            &&& url_parse_of(s)->Ok_0.1
        }),
        url_verdict(s) matches Ok(u) ==> u == s,
{
}

/// Accepts an absolute `http` or `https` target with a host, given what the URL
/// parser made of it (scheme and whether a host is present, or the parse error).
pub fn check_parsed_url(url_str: &str, parsed: Result<(String, bool), String>) -> (r: Result<
    String,
    String,
>)
    ensures
        result_view(r) == parsed_url_verdict(
            url_str@,
            match parsed {
                Ok((scheme, host)) => Ok((scheme@, host)),
                Err(e) => Err(e@),
            },
        ),
{
    match parsed {
        Err(e) => Err(String::from_str("Invalid URL: ").concat(e.as_str())),
        Ok((scheme, host)) => {
            if !same_text(&scheme, "http") && !same_text(&scheme, "https") {
                let msg = String::from_str("Unsupported URL scheme: '").concat(
                    scheme.as_str(),
                ).concat("'. Only http:// and https:// are allowed");
                Err(msg)
            } else if !host {
                Err(String::from_str("URL must have a valid host"))
            } else {
                Ok(String::from_str(url_str))
            }
        },
    }
}

/// Checks that `url_str` is a target a request may be sent to: at most 2048
/// characters, an absolute URL, scheme `http` or `https`, and a host.
pub fn validate_url(url_str: &str) -> (r: Result<String, String>)
    ensures
        result_view(r) == url_verdict(url_str@),
{
    let n = url_str.unicode_len();
    if n > MAX_URL_LEN {
        let msg = String::from_str("URL too long: ").concat(
            decimal_string(n as u64).as_str(),
        ).concat(" characters (max 2048)");
        return Err(msg);
    }
    let parsed = parse_url(url_str);
    check_parsed_url(url_str, parsed)
}

} // verus!
