use vstd::prelude::*;
use crate::model_recovery::{mentions_context_window, spec_mentions_context_window};
use crate::text::{
    ascii_lower, ascii_lowercase_chars, chars_of, contains, contains_str, decimal, is_blank,
    push_decimal, str_is_blank, string_from_chars,
};
use crate::tool_validation::owned;

verus! {

/// What kind of failure a provider's HTTP error is.
#[derive(Clone, Copy, Debug, PartialEq, Eq, Structural)]
pub enum ProviderErrorKind {
    ContextWindow,
    RateLimit,
    Auth,
    Server,
    BadRequest,
    Unknown,
}

/// The tag by which `kind` is written in error messages.
pub open spec fn spec_label(kind: ProviderErrorKind) -> Seq<char> {
    match kind {
        ProviderErrorKind::ContextWindow => "context_window"@,
        ProviderErrorKind::RateLimit => "rate_limit"@,
        ProviderErrorKind::Auth => "auth"@,
        ProviderErrorKind::Server => "server"@,
        ProviderErrorKind::BadRequest => "bad_request"@,
        ProviderErrorKind::Unknown => "unknown"@,
    }
}

impl ProviderErrorKind {
    /// The tag by which this kind is written in error messages.
    fn label(self) -> (r: &'static str)
        ensures
            r@ == spec_label(self),
    {
        match self {
            ProviderErrorKind::ContextWindow => "context_window",
            ProviderErrorKind::RateLimit => "rate_limit",
            ProviderErrorKind::Auth => "auth",
            ProviderErrorKind::Server => "server",
            ProviderErrorKind::BadRequest => "bad_request",
            ProviderErrorKind::Unknown => "unknown",
        }
    }
}

/// The kind of a provider error with HTTP `status` and message `detail`:
/// the message's wording decides first, then the status code.
pub open spec fn spec_classify_provider_error(status: u16, detail: Seq<char>) -> ProviderErrorKind {
    let lower = ascii_lower(detail);
    if spec_mentions_context_window(detail) {
        ProviderErrorKind::ContextWindow
    } else if status == 429 || contains(lower, "rate limit"@) {
        ProviderErrorKind::RateLimit
    } else if status == 401 || status == 403 || contains(lower, "invalid api key"@) || contains(
        lower,
        "unauthorized"@,
    ) || contains(lower, "forbidden"@) {
        ProviderErrorKind::Auth
    } else if 500 <= status < 600 {
        ProviderErrorKind::Server
    } else if 400 <= status < 500 {
        ProviderErrorKind::BadRequest
    } else {
        ProviderErrorKind::Unknown
    }
}

/// Classifies a provider error from the number of its HTTP status and its message.
pub fn classify_status_code(status: u16, detail: &str) -> (kind: ProviderErrorKind)
    ensures
        kind == spec_classify_provider_error(status, detail@),
{
    let lower = ascii_lowercase_chars(detail);
    if mentions_context_window(detail) {
        ProviderErrorKind::ContextWindow
    } else if status == 429 || contains_str(&lower, "rate limit") {
        ProviderErrorKind::RateLimit
    } else if status == 401 || status == 403 || contains_str(&lower, "invalid api key")
        || contains_str(&lower, "unauthorized") || contains_str(&lower, "forbidden") {
        ProviderErrorKind::Auth
    } else if 500 <= status && status < 600 {
        ProviderErrorKind::Server
    } else if 400 <= status && status < 500 {
        ProviderErrorKind::BadRequest
    } else {
        ProviderErrorKind::Unknown
    }
}

/// The string found at JSON pointer `pointer` in `body` read as JSON, if
/// `body` is JSON and holds a string there.
pub uninterp spec fn json_pointer_text(body: Seq<char>, pointer: Seq<char>) -> Option<Seq<char>>;

/// Reads `body` with `serde_json::from_str` and returns the string that
/// `Value::pointer` finds at `pointer`, if any. The contract names the result
/// and states nothing of how JSON is read.
#[verifier::external_body]
fn json_text_at(body: &str, pointer: &str) -> (r: Option<String>)
    ensures
        match r {
            Some(s) => json_pointer_text(body@, pointer@) == Some(s@),
            None => json_pointer_text(body@, pointer@) is None,
        },
{
    serde_json::from_str::<serde_json::Value>(body).ok()?.pointer(pointer)?.as_str().map(str::to_owned)
}

/// The provider's own error message in a JSON `body`: `error.message`,
/// else a string `error`, else `message`.
pub open spec fn json_error_message(body: Seq<char>) -> Option<Seq<char>> {
    if json_pointer_text(body, "/error/message"@) is Some {
        json_pointer_text(body, "/error/message"@)
    } else if json_pointer_text(body, "/error"@) is Some {
        json_pointer_text(body, "/error"@)
    } else {
        json_pointer_text(body, "/message"@)
    }
}

/// Longest message kept from a provider body, in characters.
pub open spec fn detail_limit() -> nat {
    800
}

/// The detail reported for a provider `body`: its JSON error message or the
/// body itself, cut to 800 characters, or a placeholder when that is blank.
pub open spec fn spec_error_detail(body: Seq<char>) -> Seq<char> {
    spec_detail_from(body, json_error_message(body))
}

/// The detail reported for a provider `body` whose JSON error message is
/// `message`: the message, or the body when there is none, cut to 800
/// characters, or a placeholder when that is blank.
pub open spec fn spec_detail_from(body: Seq<char>, message: Option<Seq<char>>) -> Seq<char> {
    let source = match message {
        Some(m) => m,
        None => body,
    };
    let text = if source.len() <= detail_limit() { source } else { source.take(detail_limit() as int) };
    if is_blank(text) {
        "<empty response body>"@
    } else {
        text
    }
}

/// The provider's own error message in a JSON `body`.
fn extract_json_error_message(body: &str) -> (r: Option<String>)
    ensures
        match r {
            Some(s) => json_error_message(body@) == Some(s@),
            None => json_error_message(body@) is None,
        },
{
    match json_text_at(body, "/error/message") {
        Some(m) => Some(m),
        None => match json_text_at(body, "/error") {
            Some(m) => Some(m),
            None => json_text_at(body, "/message"),
        },
    }
}

/// The detail reported for a provider `body` whose JSON error message, if
/// any, is `message`.
pub fn detail_from(body: &str, message: Option<String>) -> (r: String)
    ensures
        r@ == spec_detail_from(body@, match message {
            Some(m) => Some(m@),
            None => None,
        }),
{
    let source = match message {
        Some(m) => m,
        None => owned(body),
    };
    let chars = chars_of(source.as_str());
    let end = if chars.len() <= 800 { chars.len() } else { 800 };
    let text = string_from_chars(&chars, 0, end);
    assert(chars.len() <= 800 ==> chars@.subrange(0, end as int) =~= chars@);
    if str_is_blank(text.as_str()) {
        owned("<empty response body>")
    } else {
        text
    }
}

/// The detail reported for a provider `body`.
pub fn error_detail(body: &str) -> (r: String)
    ensures
        r@ == spec_error_detail(body@),
{
    let message = extract_json_error_message(body);
    detail_from(body, message)
}

/// The message for a provider's HTTP error: its kind, status and detail.
pub open spec fn spec_provider_http_error(status: u16, body: Seq<char>) -> Seq<char> {
    let detail = spec_error_detail(body);
    "provider_error="@ + spec_label(spec_classify_provider_error(status, detail)) + ": HTTP "@
        + decimal(status as nat) + ": "@ + detail
}

/// Describes a provider's HTTP error with status number `status` and response `body`.
pub fn http_error_message(status: u16, body: &str) -> (r: String)
    ensures
        r@ == spec_provider_http_error(status, body@),
{
    let detail = error_detail(body);
    let kind = classify_status_code(status, detail.as_str());
    let mut out = owned("provider_error=");
    out.append(kind.label());
    out.append(": HTTP ");
    push_decimal(&mut out, status as u64);
    out.append(": ");
    out.append(detail.as_str());
    out
}

/// The declared type of an HTTP status code, carried opaquely.
#[verifier::external_type_specification]
#[verifier::external_body]
pub struct ExStatusCode(reqwest::StatusCode);

/// The number that `StatusCode::as_u16` gives for `status`.
pub uninterp spec fn status_code_number(status: &reqwest::StatusCode) -> u16;

/// `StatusCode::as_u16`: the number of `status`, which is named; every
/// `StatusCode` holds a number from 100 to 999 (its constructors refuse others).
#[verifier::external_body]
fn status_number(status: &reqwest::StatusCode) -> (r: u16)
    ensures
        r == status_code_number(status),
        100 <= r <= 999,
{
    status.as_u16()
}

/// Classifies a provider error from its HTTP status and message.
pub fn classify_provider_error(status: reqwest::StatusCode, detail: &str) -> (kind: ProviderErrorKind)
    ensures
        kind == spec_classify_provider_error(status_code_number(&status), detail@),
{
    let code = status_number(&status);
    classify_status_code(code, detail)
}

/// Describes a provider's HTTP error with `status` and response `body`.
pub fn provider_http_error(status: reqwest::StatusCode, body: &str) -> (r: String)
    ensures
        r@ == spec_provider_http_error(status_code_number(&status), body@),
{
    let code = status_number(&status);
    http_error_message(code, body)
}

/// A message that reports an exceeded context window is classified as such
/// whatever the status code, and no other message is.
pub proof fn law_context_window_wording_decides(status: u16, detail: Seq<char>)
    ensures
        (spec_classify_provider_error(status, detail) == ProviderErrorKind::ContextWindow)
            <==> spec_mentions_context_window(detail),
{
}

} // verus!
