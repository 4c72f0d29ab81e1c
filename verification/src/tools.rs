use vstd::prelude::*;
use crate::json::{JsonValue, copy_json, json_same};

verus! {

/// A tool invocation requested by the model.
pub struct ToolCall {
    pub id: String,
    pub name: String,
    pub arguments: JsonValue,
}

/// A tool the runtime offers: its name, description and JSON-schema parameters.
pub struct ToolSpec {
    pub name: String,
    pub description: String,
    pub parameters: JsonValue,
}

/// A plan published by a tool.
pub struct Plan {
    pub content: String,
}

/// The state of a running loop published by a tool.
pub struct LoopState {
    pub content: String,
}

/// What a tool call produced.
pub struct ToolResult {
    pub success: bool,
    pub output: String,
    pub images: Vec<String>,
    pub plan: Option<Plan>,
    pub loop_state: Option<LoopState>,
    pub additional_context: Option<String>,
}

impl ToolResult {
    /// A successful result carrying `output` and nothing else.
    pub fn success(output: String) -> (r: ToolResult)
        ensures
            r.success,
            r.output == output,
            r.images@.len() == 0,
            r.plan is None,
            r.loop_state is None,
            r.additional_context is None,
    {
        ToolResult {
            success: true,
            output,
            images: Vec::new(),
            plan: None,
            loop_state: None,
            additional_context: None,
        }
    }

    /// A failed result carrying `output` and nothing else.
    pub fn error(output: String) -> (r: ToolResult)
        ensures
            !r.success,
            r.output == output,
            r.images@.len() == 0,
            r.plan is None,
            r.loop_state is None,
            r.additional_context is None,
    {
        ToolResult {
            success: false,
            output,
            images: Vec::new(),
            plan: None,
            loop_state: None,
            additional_context: None,
        }
    }
}

/// `a` and `b` are the same tool call.
pub open spec fn same_call(a: ToolCall, b: ToolCall) -> bool {
    a.id@ == b.id@ && a.name@ == b.name@ && json_same(a.arguments, b.arguments)
}

/// The optional texts `a` and `b` are the same.
pub open spec fn same_text(a: Option<String>, b: Option<String>) -> bool {
    match (a, b) {
        (Some(x), Some(y)) => x@ == y@,
        (None, None) => true,
        _ => false,
    }
}

/// The optional plans `a` and `b` are the same.
pub open spec fn same_plan(a: Option<Plan>, b: Option<Plan>) -> bool {
    match (a, b) {
        (Some(x), Some(y)) => x.content@ == y.content@,
        (None, None) => true,
        _ => false,
    }
}

/// The optional loop states `a` and `b` are the same.
pub open spec fn same_loop(a: Option<LoopState>, b: Option<LoopState>) -> bool {
    match (a, b) {
        (Some(x), Some(y)) => x.content@ == y.content@,
        (None, None) => true,
        _ => false,
    }
}

/// `a` and `b` are the same tool result.
pub open spec fn same_result(a: ToolResult, b: ToolResult) -> bool {
    &&& a.success == b.success
    &&& a.output@ == b.output@
    &&& a.images@ == b.images@
    &&& same_plan(a.plan, b.plan)
    &&& same_loop(a.loop_state, b.loop_state)
    &&& same_text(a.additional_context, b.additional_context)
}

/// A copy of `call`.
pub fn copy_call(call: &ToolCall) -> (r: ToolCall)
    ensures
        same_call(*call, r),
{
    ToolCall { id: call.id.clone(), name: call.name.clone(), arguments: copy_json(&call.arguments) }
}

/// A copy of `plan`.
pub fn copy_plan(plan: &Option<Plan>) -> (r: Option<Plan>)
    ensures
        same_plan(*plan, r),
{
    match plan {
        Some(p) => Some(Plan { content: p.content.clone() }),
        None => None,
    }
}

/// A copy of `state`.
pub fn copy_loop(state: &Option<LoopState>) -> (r: Option<LoopState>)
    ensures
        same_loop(*state, r),
{
    match state {
        Some(s) => Some(LoopState { content: s.content.clone() }),
        None => None,
    }
}

/// A copy of `text`.
pub fn copy_text(text: &Option<String>) -> (r: Option<String>)
    ensures
        same_text(*text, r),
{
    match text {
        Some(t) => Some(t.clone()),
        None => None,
    }
}

/// A copy of `images`.
pub fn copy_images(images: &Vec<String>) -> (r: Vec<String>)
    ensures
        r@ == images@,
{
    let mut r: Vec<String> = Vec::new();
    let mut i: usize = 0;
    while i < images.len()
        invariant
            i <= images.len(),
            r@ == images@.take(i as int),
        decreases images.len() - i,
    {
        r.push(images[i].clone());
        i += 1;
        assert(r@ =~= images@.take(i as int));
    }
    assert(images@.take(images.len() as int) =~= images@);
    r
}

/// A copy of `result`.
pub fn copy_result(result: &ToolResult) -> (r: ToolResult)
    ensures
        same_result(*result, r),
{
    ToolResult {
        success: result.success,
        output: result.output.clone(),
        images: copy_images(&result.images),
        plan: copy_plan(&result.plan),
        loop_state: copy_loop(&result.loop_state),
        additional_context: copy_text(&result.additional_context),
    }
}

} // verus!
