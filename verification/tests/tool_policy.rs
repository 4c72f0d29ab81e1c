use coomi_agent::json::{JsonMember, JsonValue};
use coomi_agent::policy::MAX_TOOL_OUTPUT_BYTES;
use coomi_agent::tool_policy::{is_parallel_safe, trim_tool_result};
use coomi_agent::tools::{ToolCall, ToolResult};

fn text(value: &str) -> JsonValue {
    JsonValue::String(value.into())
}

fn object(members: Vec<(&str, JsonValue)>) -> JsonValue {
    JsonValue::Object(
        members
            .into_iter()
            .map(|(key, value)| JsonMember { key: key.into(), value })
            .collect(),
    )
}

#[test]
fn keeps_utf8_boundary_when_trimming() {
    let result = ToolResult::success(format!("{}终", "a".repeat(MAX_TOOL_OUTPUT_BYTES)));
    let result = trim_tool_result(result);
    assert!(result.output.ends_with("[tool output truncated]"));
    assert!(result.output.is_char_boundary(result.output.len()));
}

#[test]
fn classifies_read_only_tools_as_parallel_safe() {
    let call = ToolCall {
        id: "1".into(),
        name: "read_file".into(),
        arguments: object(vec![("path", text("README.md"))]),
    };
    assert!(is_parallel_safe(&call));
}

#[test]
fn keeps_mutating_tools_sequential() {
    let call = ToolCall {
        id: "1".into(),
        name: "write_file".into(),
        arguments: object(vec![("path", text("a")), ("content", text("b"))]),
    };
    assert!(!is_parallel_safe(&call));
}

#[test]
fn short_output_is_unchanged() {
    let result = trim_tool_result(ToolResult::error("oops".into()));
    assert_eq!(result.output, "oops");
    assert!(!result.success);
}

#[test]
fn output_at_the_limit_is_unchanged() {
    let output = "b".repeat(MAX_TOOL_OUTPUT_BYTES);
    let result = trim_tool_result(ToolResult::success(output.clone()));
    assert_eq!(result.output, output);
}

#[test]
fn multibyte_char_straddling_the_limit_is_dropped() {
    let output = format!("{}终x", "a".repeat(MAX_TOOL_OUTPUT_BYTES - 1));
    let result = trim_tool_result(ToolResult::success(output));
    assert_eq!(
        result.output,
        format!("{}\n[tool output truncated]", "a".repeat(MAX_TOOL_OUTPUT_BYTES - 1))
    );
}

#[test]
fn every_listed_read_only_tool_is_parallel_safe() {
    for name in [
        "read_file", "list_dir", "grep_files", "search", "web_search", "fetch", "view_image",
        "show_image", "list_skills", "read_skill", "memory_list", "memory_read", "memory_search",
        "get_loop",
    ] {
        let call = ToolCall { id: "1".into(), name: name.into(), arguments: object(vec![]) };
        assert!(is_parallel_safe(&call), "{name}");
    }
    let call = ToolCall { id: "1".into(), name: " read_file".into(), arguments: object(vec![]) };
    assert!(!is_parallel_safe(&call));
}

#[test]
fn truncated_output_stays_within_limit_and_marker() {
    let marker = "\n[tool output truncated]";
    for extra in [1usize, 2, 3, 1000] {
        let output = "é".repeat(MAX_TOOL_OUTPUT_BYTES / 2 + extra);
        let result = trim_tool_result(ToolResult::success(output.clone()));
        assert!(result.output.len() <= MAX_TOOL_OUTPUT_BYTES + marker.len());
        let kept = result.output.strip_suffix(marker).unwrap();
        assert!(output.starts_with(kept));
        assert!(kept.len() <= MAX_TOOL_OUTPUT_BYTES);
        assert!(kept.len() + 2 > MAX_TOOL_OUTPUT_BYTES);
    }
}
