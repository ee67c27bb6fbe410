//! The errors this library reports, and how an HTTP failure maps onto them.

use vstd::prelude::*;

use crate::text::{concat2, decimal, push_char, push_decimal, trim, trim_str, truncate, truncated};

verus! {

/// What can go wrong, by the kind of fix it calls for.
#[derive(Debug, Clone, PartialEq, Eq)]
pub enum Error {
    /// The configuration is at fault (a missing or rejected API key, bad questions).
    InvalidConfig(String),
    /// The request was well formed but its content was refused.
    InvalidValue(String),
    /// Transport, protocol or service failure.
    IoError(String),
}

/// The model of an [`Error`]: its kind and its message.
pub enum ErrorView {
    InvalidConfig(Seq<char>),
    InvalidValue(Seq<char>),
    IoError(Seq<char>),
}

impl View for Error {
    type V = ErrorView;

    open spec fn view(&self) -> ErrorView {
        match self {
            Error::InvalidConfig(m) => ErrorView::InvalidConfig(m@),
            Error::InvalidValue(m) => ErrorView::InvalidValue(m@),
            Error::IoError(m) => ErrorView::IoError(m@),
        }
    }
}

/// Longest response body quoted in an error message, in characters.
pub const MAX_BODY_CHARS: usize = 1000;

/// The reason phrase that the `http` crate registers for a status code.
pub uninterp spec fn canonical_reason_of(code: u16) -> Option<Seq<char>>;

/// `http::StatusCode::canonical_reason` for the code `code`. Claimed: the
/// phrase returned is the one the crate's table holds for `code` (named
/// `canonical_reason_of`), and `None` exactly where the table has no entry.
#[verifier::external_body]
fn canonical_reason(code: u16) -> (r: Option<String>)
    requires
        100 <= code <= 999,
    ensures
        r matches Some(p) ==> canonical_reason_of(code) == Some(p@),
        r is None ==> canonical_reason_of(code) is None,
{
    match reqwest::StatusCode::from_u16(code) {
        Ok(status) => match status.canonical_reason() {
            Some(p) => Some(p.to_owned()),
            None => None,
        },
        Err(_) => None,
    }
}

/// How an HTTP status code is displayed: the code, a space and its reason
/// phrase (`<unknown status code>` where none is registered).
pub open spec fn status_text(code: u16) -> Seq<char> {
    decimal(code as nat) + seq![' '] + match canonical_reason_of(code) {
        Some(p) => p,
        None => "<unknown status code>"@,
    }
}

/// The response body as quoted after an error message: nothing for a blank
/// body, else `": "` and the trimmed body cut to `MAX_BODY_CHARS` characters.
pub open spec fn body_detail(body: Seq<char>) -> Seq<char> {
    let t = trim(body);
    if t.len() == 0 {
        Seq::empty()
    } else {
        seq![':', ' '] + truncated(t, MAX_BODY_CHARS as nat)
    }
}

/// The error that a failed response with status `code` and body `body` becomes.
pub open spec fn spec_status_error(code: u16, body: Seq<char>) -> ErrorView {
    if code == 401 {
        ErrorView::InvalidConfig(
            "TypeSafe API key was rejected (401 Unauthorized)"@ + body_detail(body),
        )
    } else if code == 422 {
        ErrorView::InvalidValue(
            "System One rejected the request (422 Unprocessable Entity)"@ + body_detail(body),
        )
    } else {
        ErrorView::IoError(
            "System One request failed ("@ + status_text(code) + seq![')'] + body_detail(body),
        )
    }
}

/// Rate limits (429) and overloads (529) are worth another try.
pub open spec fn spec_is_retryable_status(code: u16) -> bool {
    code == 429 || code == 529
}

/// Whether a response with status `status` is worth retrying.
pub fn is_retryable_status(status: u16) -> (b: bool)
    ensures
        b == spec_is_retryable_status(status),
{
    status == 429 || status == 529
}

/// The displayed form of a status code (`Display` of `http::StatusCode`).
pub fn status_display(code: u16) -> (r: String)
    requires
        100 <= code <= 999,
    ensures
        r@ == status_text(code),
{
    let mut r = String::new();
    push_decimal(&mut r, code as u64);
    push_char(&mut r, ' ');
    match canonical_reason(code) {
        Some(p) => r.append(p.as_str()),
        None => r.append("<unknown status code>"),
    }
    r
}

/// `body_detail` of `body`.
fn detail_of(body: &str) -> (r: String)
    ensures
        r@ == body_detail(body@),
{
    let t = trim_str(body);
    let mut r = String::new();
    if t.as_str().is_empty() {
        proof {
            assert(r@ =~= Seq::<char>::empty());
        }
        r
    } else {
        push_char(&mut r, ':');
        push_char(&mut r, ' ');
        let cut = truncate(t.as_str(), MAX_BODY_CHARS);
        r.append(cut.as_str());
        proof {
            assert(r@ =~= seq![':', ' '] + truncated(trim(body@), MAX_BODY_CHARS as nat));
        }
        r
    }
}

/// The error for a failed response: a rejected key (401) is a configuration
/// error, an invalid request (422) a value error, anything else an I/O error;
/// each message quotes the trimmed body, cut to `MAX_BODY_CHARS` characters.
pub fn status_error(status: u16, body: &str) -> (e: Error)
    requires
        100 <= status <= 999,
    ensures
        e@ == spec_status_error(status, body@),
{
    let detail = detail_of(body);
    if status == 401 {
        let m = concat2("TypeSafe API key was rejected (401 Unauthorized)", detail.as_str());
        Error::InvalidConfig(m)
    } else if status == 422 {
        let m = concat2(
            "System One rejected the request (422 Unprocessable Entity)",
            detail.as_str(),
        );
        Error::InvalidValue(m)
    } else {
        let mut m = concat2("System One request failed (", status_display(status).as_str());
        push_char(&mut m, ')');
        m.append(detail.as_str());
        proof {
            assert(m@ =~= "System One request failed ("@ + status_text(status) + seq![')']
                + body_detail(body@));
        }
        Error::IoError(m)
    }
}

/// A rejected key (401) is a configuration error and an invalid request
/// (422) a value error; every other status is an I/O error whose message
/// quotes the status as `http` displays it (code, space, reason phrase or
/// `<unknown status code>`); each message ends with the quoted body, or with
/// nothing when the body is blank.
pub proof fn lemma_status_error_kinds(code: u16, body: Seq<char>)
    ensures
        code == 401 ==> spec_status_error(code, body) == ErrorView::InvalidConfig(
            "TypeSafe API key was rejected (401 Unauthorized)"@ + body_detail(body),
        ),
        code == 422 ==> spec_status_error(code, body) == ErrorView::InvalidValue(
            "System One rejected the request (422 Unprocessable Entity)"@ + body_detail(body),
        ),
        code != 401 && code != 422 ==> spec_status_error(code, body) == ErrorView::IoError(
            "System One request failed ("@ + decimal(code as nat) + seq![' '] + match canonical_reason_of(code) {
                Some(p) => p,
                None => "<unknown status code>"@,
            } + seq![')'] + body_detail(body),
        ),
        trim(body).len() == 0 ==> body_detail(body).len() == 0,
        trim(body).len() > 0 ==> body_detail(body) == seq![':', ' '] + truncated(
            trim(body),
            1000,
        ),
{
    if code != 401 && code != 422 {
        let p = "System One request failed ("@;
        assert(p + status_text(code) + seq![')'] + body_detail(body) =~= p + decimal(code as nat)
            + seq![' '] + match canonical_reason_of(code) {
            Some(r) => r,
            None => "<unknown status code>"@,
        } + seq![')'] + body_detail(body));
    }
}

} // verus!
