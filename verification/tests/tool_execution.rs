use coomi_agent::json::{JsonMember, JsonValue};
use coomi_agent::session::{AgentEvent, ChatRole, Session};
use coomi_agent::tool_execution::{apply_tool_result, normalize_tool_calls, plan_tool_calls, step_result, ToolStep};
use coomi_agent::tool_policy::trim_tool_result;
use coomi_agent::tool_validation::ToolValidator;
use coomi_agent::tools::{LoopState, Plan, ToolCall, ToolResult, ToolSpec};

fn text(value: &str) -> JsonValue {
    JsonValue::String(value.into())
}

fn object(members: Vec<(&str, JsonValue)>) -> JsonValue {
    JsonValue::Object(
        members
            .into_iter()
            .map(|(key, value)| JsonMember { key: key.into(), value })
            .collect(),
    )
}

fn echo_spec() -> ToolSpec {
    ToolSpec {
        name: "echo".into(),
        description: "echo".into(),
        parameters: object(vec![
            ("type", text("object")),
            ("properties", object(vec![("value", object(vec![("type", text("string"))]))])),
            ("required", JsonValue::Array(vec![text("value")])),
            ("additionalProperties", JsonValue::Bool(false)),
        ]),
    }
}

fn call(id: &str, name: &str, arguments: JsonValue) -> ToolCall {
    ToolCall { id: id.into(), name: name.into(), arguments }
}

#[test]
fn duplicate_calls_are_dropped_keeping_the_first() {
    let calls = vec![
        call("one", "echo", object(vec![("value", text("same"))])),
        call("two", " echo ", object(vec![("value", text("same"))])),
        call("three", "echo", object(vec![("value", text("other"))])),
    ];
    let kept = normalize_tool_calls(calls);
    let ids: Vec<&str> = kept.iter().map(|c| c.id.as_str()).collect();
    assert_eq!(ids, vec!["one", "three"]);
}

#[test]
fn unknown_and_malformed_calls_are_rejected_before_dispatch() {
    let validator = ToolValidator::new(vec![echo_spec()]);
    let calls = vec![
        call("missing", "missing_tool", object(vec![])),
        call("missing-path", "echo", object(vec![])),
        call("bad", "echo", text("not-object")),
        call("ok", "echo", object(vec![("value", text("hi"))])),
    ];
    let plan = plan_tool_calls(&calls, &validator);
    assert!(!plan.parallel);
    let outputs: Vec<Option<String>> = plan
        .steps
        .iter()
        .map(|step| match step {
            ToolStep::Dispatch => None,
            ToolStep::Reject(result) => Some(result.output.clone()),
        })
        .collect();
    assert_eq!(
        outputs[0].as_deref(),
        Some("Invalid tool call: unknown tool `missing_tool`. Available tools: echo. Please retry with corrected arguments.")
    );
    assert!(outputs[1].as_deref().unwrap().contains("missing required argument(s): value"));
    assert!(outputs[2].as_deref().unwrap().contains("arguments must be a JSON object"));
    assert_eq!(outputs[3], None);
}

#[test]
fn read_only_batches_run_in_parallel() {
    let spec = ToolSpec { name: "read_file".into(), description: "read".into(), parameters: object(vec![]) };
    let validator = ToolValidator::new(vec![spec]);
    let calls = vec![
        call("read-0", "read_file", object(vec![("path", text("file-0.txt"))])),
        call("read-1", "read_file", object(vec![("path", text("file-1.txt"))])),
    ];
    let plan = plan_tool_calls(&calls, &validator);
    assert!(plan.parallel);
    assert!(plan.steps.iter().all(|s| matches!(s, ToolStep::Dispatch)));
}

#[test]
fn applying_a_result_records_history_and_reports_events() {
    let mut session = Session::new();
    let c = call("c1", "read_file", object(vec![]));
    let mut result = ToolResult::success("body".into());
    result.plan = Some(Plan { content: "step 1".into() });
    result.loop_state = Some(LoopState { content: "loop".into() });
    result.additional_context = Some("look again".into());
    result.images = vec!["img".into()];
    let events = apply_tool_result(&mut session, &c, result);
    assert_eq!(events.len(), 3);
    assert!(matches!(&events[0], AgentEvent::PlanUpdated(p) if p.content == "step 1"));
    assert!(matches!(&events[1], AgentEvent::LoopUpdated(l) if l.content == "loop"));
    assert!(matches!(&events[2], AgentEvent::ToolFinished { call, result } if call.id == "c1" && result.output == "body"));
    assert_eq!(session.plan.as_ref().unwrap().content, "step 1");
    assert_eq!(session.loop_state.as_ref().unwrap().content, "loop");
    assert_eq!(session.messages.len(), 2);
    assert_eq!(session.messages[0].role, ChatRole::Tool);
    assert_eq!(session.messages[0].content, "success: body");
    assert_eq!(session.messages[0].tool_call_id.as_deref(), Some("c1"));
    assert_eq!(session.messages[0].images, vec!["img".to_string()]);
    assert_eq!(session.messages[1].content, "look again");
    assert!(session.messages[1].internal);
}

#[test]
fn blank_context_is_not_added() {
    let mut session = Session::new();
    let c = call("c2", "echo", object(vec![]));
    let mut result = ToolResult::error("bad".into());
    result.additional_context = Some("   ".into());
    let events = apply_tool_result(&mut session, &c, result);
    assert_eq!(events.len(), 1);
    assert_eq!(session.messages.len(), 1);
    assert_eq!(session.messages[0].content, "error: bad");
    assert!(session.plan.is_none());
}

#[test]
fn large_output_is_trimmed_before_it_reaches_history() {
    let mut session = Session::new();
    let big = call("large", "read_file", object(vec![("path", text("large.txt"))]));
    let result = trim_tool_result(ToolResult::success("x".repeat(49_000)));
    apply_tool_result(&mut session, &big, result);
    assert_eq!(session.messages.len(), 1);
    let content = &session.messages[0].content;
    assert!(content.contains("[tool output truncated]"));
    assert!(content.len() < 49_000);
}

#[test]
fn first_call_of_each_request_is_kept_in_order() {
    let calls = vec![
        call("a", "echo", object(vec![("value", text("1"))])),
        call("b", "echo", object(vec![("value", text("2"))])),
        call("c", "echo ", object(vec![("value", text("1"))])),
        call("d", "other", object(vec![])),
        call("e", "echo", object(vec![("value", text("2"))])),
    ];
    let ids: Vec<String> = normalize_tool_calls(calls).into_iter().map(|c| c.id).collect();
    assert_eq!(ids, vec!["a", "b", "d"]);
}

#[test]
fn rejected_steps_keep_their_error_and_dispatched_results_are_trimmed() {
    let rejected = step_result(ToolStep::Reject(ToolResult::error("bad".into())), None);
    assert!(!rejected.success);
    assert_eq!(rejected.output, "bad");
    let dispatched = step_result(ToolStep::Dispatch, Some(ToolResult::success("y".repeat(49_000))));
    assert!(dispatched.success);
    assert!(dispatched.output.ends_with("\n[tool output truncated]"));
    assert!(dispatched.output.len() < 49_000);
}

#[test]
fn added_context_message_has_no_call_id_or_images() {
    let mut session = Session::new();
    let c = call("id1", "echo", object(vec![("value", text("v"))]));
    let mut result = ToolResult::success("ok".into());
    result.images = vec!["img".into()];
    result.additional_context = Some("note".into());
    apply_tool_result(&mut session, &c, result);
    assert_eq!(session.messages.len(), 2);
    assert_eq!(session.messages[0].tool_call_id.as_deref(), Some("id1"));
    assert_eq!(session.messages[0].images, vec!["img".to_string()]);
    assert!(session.messages[1].tool_call_id.is_none());
    assert!(session.messages[1].images.is_empty());
    assert!(session.messages[1].internal);
}
