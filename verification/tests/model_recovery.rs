use coomi_agent::json::{JsonMember, JsonValue};
use coomi_agent::model_recovery::{
    classify_response, is_context_window_error, mentions_context_window, retry_instruction,
    RecoveryStreamObserver, ResponseRecovery,
};
use coomi_agent::session::{AgentEvent, ModelResponse};
use coomi_agent::tools::ToolCall;

#[test]
fn continues_when_response_has_text() {
    let response = ModelResponse {
        content: "done".into(),
        ..Default::default()
    };
    assert_eq!(
        classify_response(&response, true),
        ResponseRecovery::Continue
    );
}

#[test]
fn continues_when_response_has_tool_calls() {
    let response = ModelResponse {
        tool_calls: vec![ToolCall {
            id: "1".into(),
            name: "read_file".into(),
            arguments: JsonValue::Object(vec![JsonMember {
                key: "path".into(),
                value: JsonValue::String("README.md".into()),
            }]),
        }],
        ..Default::default()
    };
    assert_eq!(
        classify_response(&response, false),
        ResponseRecovery::Continue
    );
}

#[test]
fn retries_empty_response_without_reasoning() {
    assert_eq!(
        classify_response(&ModelResponse::default(), false),
        ResponseRecovery::RetryEmpty
    );
}

#[test]
fn retries_reasoning_only_response() {
    assert_eq!(
        classify_response(&ModelResponse::default(), true),
        ResponseRecovery::RetryReasoningOnly
    );
}

#[test]
fn retries_whitespace_only_response() {
    let response = ModelResponse {
        content: " \n\t\u{3000}".into(),
        ..Default::default()
    };
    assert_eq!(classify_response(&response, false), ResponseRecovery::RetryEmpty);
}

#[test]
fn detects_common_context_window_errors() {
    let error = anyhow::Error::msg("maximum context length exceeded");
    assert!(is_context_window_error(&error));
}

#[test]
fn detects_context_window_error_in_cause_chain() {
    let error = anyhow::Error::msg("Context_Window_Exceeded").context("request failed");
    assert!(is_context_window_error(&error));
    assert!(!is_context_window_error(&anyhow::Error::msg("connection reset")));
}

#[test]
fn context_window_phrases_ignore_ascii_case() {
    assert!(mentions_context_window("Too Many Tokens in request"));
    assert!(mentions_context_window("MAX CONTEXT reached"));
    assert!(!mentions_context_window("context is fine"));
}

#[test]
fn retry_instruction_texts() {
    assert_eq!(retry_instruction(ResponseRecovery::Continue, 1, 2), None);
    assert_eq!(
        retry_instruction(ResponseRecovery::RetryEmpty, 1, 2).expect("instruction"),
        "The previous assistant response was empty. Retry with either a direct answer or a valid tool call. Attempt 1/2."
    );
    assert_eq!(
        retry_instruction(ResponseRecovery::RetryReasoningOnly, 2, 12).expect("instruction"),
        "The previous assistant response only contained hidden reasoning. Retry with visible answer text or a valid tool call. Attempt 2/12."
    );
}

#[test]
fn observer_remembers_reasoning() {
    let mut observer = RecoveryStreamObserver::new();
    assert!(!observer.saw_reasoning());
    match observer.on_text_delta("hello") {
        AgentEvent::TextDelta(text) => assert_eq!(text, "hello"),
        _ => panic!("expected a text delta"),
    }
    assert!(!observer.saw_reasoning());
    match observer.on_reasoning_delta("thinking") {
        AgentEvent::ReasoningDelta(text) => assert_eq!(text, "thinking"),
        _ => panic!("expected a reasoning delta"),
    }
    assert!(observer.saw_reasoning());
}
