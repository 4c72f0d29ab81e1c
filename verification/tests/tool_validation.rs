use coomi_agent::json::{JsonMember, JsonNumber, JsonValue};
use coomi_agent::tool_validation::ToolValidator;
use coomi_agent::tools::{ToolCall, ToolSpec};

fn text(value: &str) -> JsonValue {
    JsonValue::String(value.into())
}

fn integer(value: i64) -> JsonValue {
    JsonValue::Number(JsonNumber { text: value.to_string(), integer: true })
}

fn object(members: Vec<(&str, JsonValue)>) -> JsonValue {
    JsonValue::Object(
        members
            .into_iter()
            .map(|(key, value)| JsonMember { key: key.into(), value })
            .collect(),
    )
}

fn read_file_spec() -> ToolSpec {
    ToolSpec {
        name: "read_file".into(),
        description: "read".into(),
        parameters: object(vec![
            ("type", text("object")),
            (
                "properties",
                object(vec![
                    ("limit", object(vec![("type", text("integer"))])),
                    ("path", object(vec![("type", text("string"))])),
                ]),
            ),
            ("required", JsonValue::Array(vec![text("path")])),
            ("additionalProperties", JsonValue::Bool(false)),
        ]),
    }
}

fn validator() -> ToolValidator {
    ToolValidator::new(vec![read_file_spec()])
}

fn call(name: &str, arguments: JsonValue) -> ToolCall {
    ToolCall { id: "1".into(), name: name.into(), arguments }
}

#[test]
fn rejects_unknown_tool_with_available_list() {
    let error = validator()
        .validate(&call("missing", object(vec![])))
        .expect_err("unknown tool");
    assert!(error.contains("unknown tool `missing`"));
    assert!(error.contains("read_file"));
}

#[test]
fn rejects_missing_required_argument() {
    let error = validator()
        .validate(&call("read_file", object(vec![("limit", integer(10))])))
        .expect_err("missing argument");
    assert!(error.contains("missing required argument"));
    assert!(error.contains("path"));
}

#[test]
fn rejects_extra_argument_when_schema_disallows_it() {
    let error = validator()
        .validate(&call(
            "read_file",
            object(vec![("extra", JsonValue::Bool(true)), ("path", text("README.md"))]),
        ))
        .expect_err("extra argument");
    assert!(error.contains("unknown argument"));
    assert!(error.contains("extra"));
}

#[test]
fn rejects_obvious_type_mismatch() {
    let error = validator()
        .validate(&call("read_file", object(vec![("path", integer(10))])))
        .expect_err("type mismatch");
    assert!(error.contains("path must be string"));
}

#[test]
fn accepts_valid_arguments() {
    validator()
        .validate(&call("read_file", object(vec![("limit", integer(20)), ("path", text("README.md"))])))
        .expect("valid call");
}

#[test]
fn exact_error_messages() {
    let v = validator();
    assert_eq!(
        v.validate(&call("  ", object(vec![]))).unwrap_err(),
        "tool call is missing a name"
    );
    assert_eq!(
        v.validate(&call("missing", object(vec![]))).unwrap_err(),
        "unknown tool `missing`. Available tools: read_file"
    );
    assert_eq!(
        v.validate(&call("read_file", text("not-object"))).unwrap_err(),
        "tool arguments must be a JSON object; use {} when no arguments are required"
    );
    assert_eq!(
        v.validate(&call("read_file", object(vec![]))).unwrap_err(),
        "missing required argument(s): path"
    );
    assert_eq!(
        v.validate(&call(
            "read_file",
            object(vec![("a", integer(1)), ("b", integer(2)), ("path", text("x"))])
        ))
        .unwrap_err(),
        "unknown argument(s): a, b"
    );
    let float = JsonValue::Number(JsonNumber { text: "1.5".into(), integer: false });
    assert_eq!(
        v.validate(&call("read_file", object(vec![("limit", float), ("path", integer(3))])))
            .unwrap_err(),
        "limit must be integer, got number; path must be string, got integer"
    );
}

#[test]
fn available_tools_are_sorted_and_later_specs_win() {
    let mut second = read_file_spec();
    second.parameters = object(vec![]);
    let echo = ToolSpec { name: "echo".into(), description: "echo".into(), parameters: object(vec![]) };
    let zeta = ToolSpec { name: "zeta".into(), description: "z".into(), parameters: object(vec![]) };
    let v = ToolValidator::new(vec![zeta, read_file_spec(), echo, second]);
    assert_eq!(
        v.validate(&call("nope", object(vec![]))).unwrap_err(),
        "unknown tool `nope`. Available tools: echo, read_file, zeta"
    );
    // the later read_file spec has no required arguments
    v.validate(&call("read_file", object(vec![]))).expect("later spec wins");
}

#[test]
fn open_schema_allows_extra_arguments_and_unknown_types() {
    let spec = ToolSpec {
        name: "t".into(),
        description: "t".into(),
        parameters: object(vec![(
            "properties",
            object(vec![("x", object(vec![("type", text("mystery"))]))]),
        )]),
    };
    let v = ToolValidator::new(vec![spec]);
    v.validate(&call("t", object(vec![("x", JsonValue::Null), ("y", integer(1))])))
        .expect("open schema");
}
