//! Enrichment of HTTP error text with a likely cause, keyed on the status
//! code a backend answered with.

use vstd::prelude::*;
use vstd::string::*;

verus! {

/// What trimming ASCII and Unicode whitespace off both ends of a string
/// yields, as the standard library computes it from the characters alone.
pub uninterp spec fn trimmed(s: Seq<char>) -> Seq<char>;

/// Relies on str::trim: the string without leading and trailing whitespace,
/// a subslice of the input, computed from the characters alone.
#[verifier::external_body]
fn trim_str<'a>(s: &'a str) -> (r: &'a str)
    ensures
        r@ == trimmed(s@),
        r@.len() <= s@.len(),
{
    s.trim()
}

/// The clarifying note this crate attaches to a response with the given
/// HTTP status code; empty when the code suggests nothing in particular.
pub open spec fn spec_clarification(status: u16) -> Seq<char> {
    if status == 429 {
        "This usually means you've hit a rate limit, run out of quota/credits, or do not have access to this resource/model in your current plan."@
    } else if status == 401 {
        "This usually means your API key is invalid or expired."@
    } else if status == 403 {
        "This usually means you do not have permission to access this resource."@
    } else if status == 400 {
        "This might be an error on our side. If the problem persists, please file an issue on GitHub."@
    } else if 500 <= status && status <= 505 {
        "A server error occurred. This is likely a temporary issue with the provider."@
    } else {
        Seq::empty()
    }
}

/// What enriching an HTTP error yields: the original text, then the response
/// body when it has any non-whitespace content, then the clarifying note
/// when the status code carries one.
pub open spec fn spec_enriched(status: u16, original: Seq<char>, body: Option<Seq<char>>) -> Seq<
    char,
> {
    let with_body = match body {
        Some(b) => if trimmed(b).len() > 0 {
            original + "\n\nResponse: "@ + b
        } else {
            original
        },
        None => original,
    };
    if spec_clarification(status).len() > 0 {
        with_body + "\n\nNote: "@ + spec_clarification(status)
    } else {
        with_body
    }
}

/// The clarifying note for the given status code, empty when there is none.
fn clarification(status: u16) -> (r: &'static str)
    ensures
        r@ == spec_clarification(status),
{
    if status == 429 {
        "This usually means you've hit a rate limit, run out of quota/credits, or do not have access to this resource/model in your current plan."
    } else if status == 401 {
        "This usually means your API key is invalid or expired."
    } else if status == 403 {
        "This usually means you do not have permission to access this resource."
    } else if status == 400 {
        "This might be an error on our side. If the problem persists, please file an issue on GitHub."
    } else if 500 <= status && status <= 505 {
        "A server error occurred. This is likely a temporary issue with the provider."
    } else {
        proof {
            reveal_strlit("");
        }
        ""
    }
}

/// Enriches an HTTP error text: appends the response body when it carries
/// any non-whitespace content, and a clarifying note when the status code
/// suggests a likely cause.
pub fn enrich_http_error(status: u16, original: &str, body: Option<&str>) -> (r: String)
    ensures
        r@ == spec_enriched(
            status,
            original@,
            match body {
                Some(b) => Some(b@),
                None => None,
            },
        ),
{
    let mut result = original.to_owned();
    match body {
        Some(b) => {
            let t = trim_str(b);
            if !t.is_empty() {
                result.append("\n\nResponse: ");
                result.append(b);
            }
        },
        None => {},
    }
    let note = clarification(status);
    if !note.is_empty() {
        result.append("\n\nNote: ");
        result.append(note);
    }
    result
}

} // verus!
