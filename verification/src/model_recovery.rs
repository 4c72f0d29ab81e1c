use vstd::prelude::*;
use crate::session::{AgentEvent, ModelResponse};
use crate::text::{ascii_lower, ascii_lowercase_chars, contains, contains_str, decimal, is_blank, push_decimal, str_is_blank};
use crate::tool_validation::owned;
pub use crate::policy::{EMPTY_RESPONSE_MAX_RETRIES, REASONING_ONLY_MAX_RETRIES};

verus! {

/// The declared type of `anyhow`'s error, carried opaquely.
#[verifier::external_type_specification]
#[verifier::external_body]
pub struct ExAnyhowError(anyhow::Error);

/// Watches a model's output stream: forwards each delta as an event and
/// remembers whether any hidden reasoning went by.
pub struct RecoveryStreamObserver {
    saw_reasoning: bool,
}

impl RecoveryStreamObserver {
    /// Whether reasoning has been seen so far.
    pub closed spec fn spec_saw_reasoning(&self) -> bool {
        self.saw_reasoning
    }

    /// An observer that has seen nothing yet.
    pub fn new() -> (o: Self)
        ensures
            !o.spec_saw_reasoning(),
    {
        RecoveryStreamObserver { saw_reasoning: false }
    }

    /// Whether reasoning has been seen so far.
    pub fn saw_reasoning(&self) -> (r: bool)
        ensures
            r == self.spec_saw_reasoning(),
    {
        self.saw_reasoning
    }

    /// The event that forwards a visible text delta.
    pub fn on_text_delta(&self, delta: &str) -> (e: AgentEvent)
        ensures
            e matches AgentEvent::TextDelta(t) && t@ == delta@,
    {
        AgentEvent::TextDelta(owned(delta))
    }

    /// Notes that reasoning was seen and returns the event that forwards it.
    pub fn on_reasoning_delta(&mut self, delta: &str) -> (e: AgentEvent)
        ensures
            final(self).spec_saw_reasoning(),
            e matches AgentEvent::ReasoningDelta(t) && t@ == delta@,
    {
        self.saw_reasoning = true;
        AgentEvent::ReasoningDelta(owned(delta))
    }
}

/// What to do about a model response.
#[derive(Clone, Copy, Debug, PartialEq, Eq, Structural)]
pub enum ResponseRecovery {
    Continue,
    RetryEmpty,
    RetryReasoningOnly,
}

/// `event` forwards the stream delta `delta`: a reasoning delta when
/// `delta.0` holds, a visible text delta otherwise, with text `delta.1`.
pub open spec fn forwards_delta(delta: (bool, Seq<char>), event: AgentEvent) -> bool {
    if delta.0 {
        event matches AgentEvent::ReasoningDelta(t) && t@ == delta.1
    } else {
        event matches AgentEvent::TextDelta(t) && t@ == delta.1
    }
}

/// Handing `delta` to an observer in state `before` leaves it in state
/// `after` and returns `event`, as `on_reasoning_delta` and `on_text_delta`
/// state: a text delta leaves the observer as it was, a reasoning delta
/// marks reasoning as seen.
pub open spec fn observer_step(
    before: RecoveryStreamObserver,
    delta: (bool, Seq<char>),
    after: RecoveryStreamObserver,
    event: AgentEvent,
) -> bool {
    &&& forwards_delta(delta, event)
    &&& if delta.0 {
        after.spec_saw_reasoning()
    } else {
        after == before
    }
}

/// After the first `k` deltas, reasoning has been seen exactly when one of them was reasoning.
proof fn lemma_observer_prefix(
    states: Seq<RecoveryStreamObserver>,
    deltas: Seq<(bool, Seq<char>)>,
    events: Seq<AgentEvent>,
    k: int,
)
    requires
        states.len() == deltas.len() + 1,
        events.len() == deltas.len(),
        !states[0].spec_saw_reasoning(),
        forall|i: int| 0 <= i < deltas.len() ==> #[trigger] observer_step(states[i], deltas[i], states[i + 1], events[i]),
        0 <= k <= deltas.len(),
    ensures
        states[k].spec_saw_reasoning() <==> exists|i: int| 0 <= i < k && (#[trigger] deltas[i]).0,
    decreases k,
{
    if k > 0 {
        lemma_observer_prefix(states, deltas, events, k - 1);
        assert(observer_step(states[k - 1], deltas[k - 1], states[(k - 1) + 1], events[k - 1]));
        if deltas[k - 1].0 {
            assert(exists|i: int| 0 <= i < k && (#[trigger] deltas[i]).0);
        } else if states[k].spec_saw_reasoning() {
            let i = choose|i: int| 0 <= i < k - 1 && (#[trigger] deltas[i]).0;
            assert(0 <= i < k && deltas[i].0);
        }
    }
}

/// An observer fresh from `new`, handed a sequence of deltas, has seen
/// reasoning exactly when some delta was reasoning, and the events it
/// returned forward the deltas one for one, in order.
pub proof fn law_saw_reasoning_iff_reasoning_delta(
    states: Seq<RecoveryStreamObserver>,
    deltas: Seq<(bool, Seq<char>)>,
    events: Seq<AgentEvent>,
)
    requires
        states.len() == deltas.len() + 1,
        events.len() == deltas.len(),
        !states[0].spec_saw_reasoning(),
        forall|i: int| 0 <= i < deltas.len() ==> #[trigger] observer_step(states[i], deltas[i], states[i + 1], events[i]),
    ensures
        states.last().spec_saw_reasoning() <==> exists|i: int| 0 <= i < deltas.len() && (#[trigger] deltas[i]).0,
        forall|i: int| 0 <= i < deltas.len() ==> forwards_delta(#[trigger] deltas[i], events[i]),
{
    lemma_observer_prefix(states, deltas, events, deltas.len() as int);
    assert forall|i: int| 0 <= i < deltas.len() implies forwards_delta(#[trigger] deltas[i], events[i]) by {
        assert(observer_step(states[i], deltas[i], states[i + 1], events[i]));
    }
}

/// The recovery for a response with `content` and `n_calls` tool calls.
pub open spec fn spec_classify_response(content: Seq<char>, n_calls: nat, saw_reasoning: bool) -> ResponseRecovery {
    if n_calls > 0 || !is_blank(content) {
        ResponseRecovery::Continue
    } else if saw_reasoning {
        ResponseRecovery::RetryReasoningOnly
    } else {
        ResponseRecovery::RetryEmpty
    }
}

/// Decides whether `response` can be used: it can when it has tool calls or
/// visible text; otherwise it is retried, as reasoning-only when reasoning was seen.
pub fn classify_response(response: &ModelResponse, saw_reasoning: bool) -> (r: ResponseRecovery)
    ensures
        r == spec_classify_response(response.content@, response.tool_calls@.len(), saw_reasoning),
{
    if response.tool_calls.len() > 0 || !str_is_blank(response.content.as_str()) {
        return ResponseRecovery::Continue;
    }
    if saw_reasoning {
        ResponseRecovery::RetryReasoningOnly
    } else {
        ResponseRecovery::RetryEmpty
    }
}

/// The instruction sent back to the model for `recovery` on try `attempt` of `max`.
pub open spec fn spec_retry_instruction(recovery: ResponseRecovery, attempt: nat, max: nat) -> Option<Seq<char>> {
    match recovery {
        ResponseRecovery::Continue => None,
        ResponseRecovery::RetryEmpty => Some(
            "The previous assistant response was empty. Retry with either a direct answer or a valid tool call. Attempt "@
                + decimal(attempt) + "/"@ + decimal(max) + "."@,
        ),
        ResponseRecovery::RetryReasoningOnly => Some(
            "The previous assistant response only contained hidden reasoning. Retry with visible answer text or a valid tool call. Attempt "@
                + decimal(attempt) + "/"@ + decimal(max) + "."@,
        ),
    }
}

/// The instruction that asks the model to try again, or `None` when no retry is needed.
pub fn retry_instruction(recovery: ResponseRecovery, attempt: u8, max: u8) -> (r: Option<String>)
    ensures
        match r {
            None => spec_retry_instruction(recovery, attempt as nat, max as nat) is None,
            Some(s) => spec_retry_instruction(recovery, attempt as nat, max as nat) == Some(s@),
        },
{
    let mut out = match recovery {
        ResponseRecovery::Continue => {
            return None;
        },
        ResponseRecovery::RetryEmpty => owned(
            "The previous assistant response was empty. Retry with either a direct answer or a valid tool call. Attempt ",
        ),
        ResponseRecovery::RetryReasoningOnly => owned(
            "The previous assistant response only contained hidden reasoning. Retry with visible answer text or a valid tool call. Attempt ",
        ),
    };
    push_decimal(&mut out, attempt as u64);
    out.append("/");
    push_decimal(&mut out, max as u64);
    out.append(".");
    Some(out)
}

/// Phrases by which providers report an exceeded context window (in lower case).
pub open spec fn context_window_markers() -> Seq<Seq<char>> {
    seq![
        "context_window_exceeded"@,
        "context length"@,
        "maximum context"@,
        "too many tokens"@,
        "context too long"@,
        "max context"@,
    ]
}

/// `text`, once lower-cased, holds one of the context-window phrases.
pub open spec fn spec_mentions_context_window(text: Seq<char>) -> bool {
    exists|i: int|
        0 <= i < context_window_markers().len() && contains(
            ascii_lower(text),
            #[trigger] context_window_markers()[i],
        )
}

/// Whether `text` reports an exceeded context window.
pub fn mentions_context_window(text: &str) -> (r: bool)
    ensures
        r == spec_mentions_context_window(text@),
{
    let lower = ascii_lowercase_chars(text);
    let r = contains_str(&lower, "context_window_exceeded") || contains_str(&lower, "context length")
        || contains_str(&lower, "maximum context") || contains_str(&lower, "too many tokens")
        || contains_str(&lower, "context too long") || contains_str(&lower, "max context");
    proof {
        let m = context_window_markers();
        if r {
            if contains(lower@, "context_window_exceeded"@) { assert(contains(lower@, m[0])); }
            if contains(lower@, "context length"@) { assert(contains(lower@, m[1])); }
            if contains(lower@, "maximum context"@) { assert(contains(lower@, m[2])); }
            if contains(lower@, "too many tokens"@) { assert(contains(lower@, m[3])); }
            if contains(lower@, "context too long"@) { assert(contains(lower@, m[4])); }
            if contains(lower@, "max context"@) { assert(contains(lower@, m[5])); }
        }
    }
    r
}

/// A response that carries a tool call or visible text is always used as it is,
/// whatever reasoning was seen.
pub proof fn law_usable_response_continues(content: Seq<char>, n_calls: nat, saw_reasoning: bool)
    requires
        n_calls > 0 || !is_blank(content),
    ensures
        spec_classify_response(content, n_calls, saw_reasoning) == ResponseRecovery::Continue,
{
}

/// A retry instruction is produced exactly for the recoveries that retry.
pub proof fn law_instruction_iff_retry(recovery: ResponseRecovery, attempt: nat, max: nat)
    ensures
        spec_retry_instruction(recovery, attempt, max) is None <==> recovery == ResponseRecovery::Continue,
{
}

/// Lower-casing is idempotent.
pub proof fn lemma_ascii_lower_idempotent(text: Seq<char>)
    ensures
        ascii_lower(ascii_lower(text)) == ascii_lower(text),
{
    assert(ascii_lower(ascii_lower(text)) =~= ascii_lower(text));
}

/// Detecting a context-window report ignores ASCII letter case.
pub proof fn law_context_window_ignores_case(text: Seq<char>)
    ensures
        spec_mentions_context_window(ascii_lower(text)) == spec_mentions_context_window(text),
{
    lemma_ascii_lower_idempotent(text);
}

/// The text that `anyhow` writes for `error` with `{:#}`: its message
/// followed by those of its causes.
pub uninterp spec fn anyhow_chain_text(error: &anyhow::Error) -> Seq<char>;

/// Formats `error` with `{:#}`, which writes its message and its chain of
/// causes; the contract names that text and states nothing of its wording.
#[verifier::external_body]
fn error_chain_text(error: &anyhow::Error) -> (r: String)
    ensures
        r@ == anyhow_chain_text(error),
{
    format!("{error:#}")
}

/// Whether `error` (with its causes) reports an exceeded context window:
/// whether its chain text, lower-cased, holds one of the context-window phrases.
pub fn is_context_window_error(error: &anyhow::Error) -> (r: bool)
    ensures
        r == spec_mentions_context_window(anyhow_chain_text(error)),
{
    let text = error_chain_text(error);
    mentions_context_window(text.as_str())
}

/// A text reports an exceeded context window exactly when, ignoring ASCII
/// case, it contains one of the phrases "context_window_exceeded", "context
/// length", "maximum context", "too many tokens", "context too long" or "max
/// context".
pub proof fn law_context_window_phrases(text: Seq<char>)
    ensures
        spec_mentions_context_window(text) <==> {
            let lower = ascii_lower(text);
            ||| contains(lower, "context_window_exceeded"@)
            ||| contains(lower, "context length"@)
            ||| contains(lower, "maximum context"@)
            ||| contains(lower, "too many tokens"@)
            ||| contains(lower, "context too long"@)
            ||| contains(lower, "max context"@)
        },
{
    let lower = ascii_lower(text);
    let m = context_window_markers();
    if contains(lower, "context_window_exceeded"@) { assert(contains(lower, m[0])); }
    if contains(lower, "context length"@) { assert(contains(lower, m[1])); }
    if contains(lower, "maximum context"@) { assert(contains(lower, m[2])); }
    if contains(lower, "too many tokens"@) { assert(contains(lower, m[3])); }
    if contains(lower, "context too long"@) { assert(contains(lower, m[4])); }
    if contains(lower, "max context"@) { assert(contains(lower, m[5])); }
}

} // verus!
