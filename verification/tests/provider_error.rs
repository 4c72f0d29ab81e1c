use coomi_agent::provider_error::{
    classify_provider_error, classify_status_code, detail_from, error_detail, http_error_message,
    provider_http_error, ProviderErrorKind,
};
use reqwest::StatusCode;

#[test]
fn classifies_context_window_error_from_body() {
    let message = provider_http_error(
        StatusCode::BAD_REQUEST,
        r#"{"error":{"message":"maximum context length exceeded"}}"#,
    );
    assert!(message.contains("provider_error=context_window"));
    assert!(message.contains("maximum context length exceeded"));
}

#[test]
fn classifies_rate_limit_from_status() {
    let message = provider_http_error(StatusCode::TOO_MANY_REQUESTS, "slow down");
    assert!(message.contains("provider_error=rate_limit"));
}

#[test]
fn classifies_auth_from_status() {
    let message = provider_http_error(StatusCode::UNAUTHORIZED, "bad key");
    assert!(message.contains("provider_error=auth"));
}

#[test]
fn classifies_server_error_from_status() {
    let message = provider_http_error(StatusCode::BAD_GATEWAY, "upstream failed");
    assert!(message.contains("provider_error=server"));
}

#[test]
fn full_message_shape() {
    assert_eq!(
        provider_http_error(StatusCode::NOT_FOUND, "not here"),
        "provider_error=bad_request: HTTP 404: not here"
    );
    assert_eq!(
        provider_http_error(StatusCode::FOUND, ""),
        "provider_error=unknown: HTTP 302: <empty response body>"
    );
    assert_eq!(
        http_error_message(503, r#"{"message":"overloaded"}"#),
        "provider_error=server: HTTP 503: overloaded"
    );
}

#[test]
fn detail_prefers_json_messages() {
    assert_eq!(error_detail(r#"{"error":{"message":"nested"}}"#), "nested");
    assert_eq!(error_detail(r#"{"error":"flat"}"#), "flat");
    assert_eq!(error_detail(r#"{"message":"top"}"#), "top");
    assert_eq!(error_detail(r#"{"error":{"code":1}}"#), r#"{"error":{"code":1}}"#);
    assert_eq!(error_detail("  \n"), "<empty response body>");
    assert_eq!(error_detail(&"é".repeat(900)).chars().count(), 800);
}

#[test]
fn wording_decides_before_status() {
    assert_eq!(classify_status_code(500, "Rate limit hit"), ProviderErrorKind::RateLimit);
    assert_eq!(classify_status_code(400, "Invalid API key"), ProviderErrorKind::Auth);
    assert_eq!(classify_status_code(403, "nope"), ProviderErrorKind::Auth);
    assert_eq!(classify_status_code(429, "too many tokens"), ProviderErrorKind::ContextWindow);
    assert_eq!(classify_status_code(200, "fine"), ProviderErrorKind::Unknown);
    assert_eq!(
        classify_provider_error(StatusCode::FORBIDDEN, "nope"),
        ProviderErrorKind::Auth
    );
    assert_eq!(
        classify_provider_error(StatusCode::IM_A_TEAPOT, "short and stout"),
        ProviderErrorKind::BadRequest
    );
}

#[test]
fn detail_from_prefers_the_message_and_cuts_long_text() {
    assert_eq!(detail_from("raw body", Some("msg".to_string())), "msg");
    assert_eq!(detail_from("raw body", None), "raw body");
    assert_eq!(detail_from("raw", Some("  ".to_string())), "<empty response body>");
    assert_eq!(detail_from(&"x".repeat(900), None).len(), 800);
}
