use vstd::prelude::*;
use crate::tools::{LoopState, Plan, ToolCall, ToolResult};

verus! {

/// Who a chat message comes from.
#[derive(Clone, Copy, Debug, PartialEq, Eq, Structural)]
pub enum ChatRole {
    System,
    User,
    Assistant,
    Tool,
}

/// One message of the conversation history.
pub struct ChatMessage {
    pub role: ChatRole,
    pub content: String,
    pub tool_call_id: Option<String>,
    pub images: Vec<String>,
    /// Added by the agent itself rather than typed by the user.
    pub internal: bool,
}

impl ChatMessage {
    /// The message that reports the outcome of tool call `id`.
    pub fn tool(id: String, content: String) -> (m: ChatMessage)
        ensures
            m.role == ChatRole::Tool,
            m.content == content,
            m.tool_call_id == Some(id),
            m.images@.len() == 0,
            !m.internal,
    {
        ChatMessage {
            role: ChatRole::Tool,
            content,
            tool_call_id: Some(id),
            images: Vec::new(),
            internal: false,
        }
    }

    /// A user-role message the agent adds on its own.
    pub fn internal_user(content: String) -> (m: ChatMessage)
        ensures
            m.role == ChatRole::User,
            m.content == content,
            m.tool_call_id is None,
            m.images@.len() == 0,
            m.internal,
    {
        ChatMessage {
            role: ChatRole::User,
            content,
            tool_call_id: None,
            images: Vec::new(),
            internal: true,
        }
    }
}

/// The state of a conversation that tool results update.
pub struct Session {
    pub messages: Vec<ChatMessage>,
    pub plan: Option<Plan>,
    pub loop_state: Option<LoopState>,
}

impl Session {
    /// A session with no history, plan or loop.
    pub fn new() -> (s: Session)
        ensures
            s.messages@.len() == 0,
            s.plan is None,
            s.loop_state is None,
    {
        Session { messages: Vec::new(), plan: None, loop_state: None }
    }
}

/// What the agent tells its observer.
pub enum AgentEvent {
    TextDelta(String),
    ReasoningDelta(String),
    ToolStarted(ToolCall),
    ToolFinished { call: ToolCall, result: ToolResult },
    PlanUpdated(Plan),
    LoopUpdated(LoopState),
}

/// A reply of the model: its visible text and the tool calls it asks for.
pub struct ModelResponse {
    pub content: String,
    pub tool_calls: Vec<ToolCall>,
}

impl Default for ModelResponse {
    fn default() -> (r: ModelResponse)
        ensures
            r.content@.len() == 0,
            r.tool_calls@.len() == 0,
    {
        ModelResponse { content: String::new(), tool_calls: Vec::new() }
    }
}

} // verus!
