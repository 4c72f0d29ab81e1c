use vstd::prelude::*;
use crate::json::{
    json_equal, json_same, lemma_json_same_reflexive, lemma_json_same_symmetric,
    lemma_json_same_transitive,
};
use crate::session::{AgentEvent, ChatMessage, ChatRole, Session};
use crate::text::{is_blank, str_equal, str_is_blank, trim, trimmed};
use crate::policy::MAX_TOOL_OUTPUT_BYTES;
use crate::tool_policy::{is_parallel_safe, is_parallel_safe_name, trim_tool_result, trimmed_output};
use crate::tool_validation::{ToolValidator, owned, spec_validate};
use crate::tools::{
    ToolCall, ToolResult, copy_call, copy_images, copy_loop, copy_plan, copy_result, same_call,
    same_loop, same_plan, same_result,
};

verus! {

/// `a` and `b` ask for the same thing: the same name once trimmed, and the same arguments.
pub open spec fn same_request(a: ToolCall, b: ToolCall) -> bool {
    trim(a.name@) == trim(b.name@) && json_same(a.arguments, b.arguments)
}

/// Some call of `kept` asks for the same thing as `c`.
pub open spec fn requested_in(kept: Seq<ToolCall>, c: ToolCall) -> bool {
    exists|k: int| 0 <= k < kept.len() && same_request(#[trigger] kept[k], c)
}

/// `calls` with every call dropped that asks for the same thing as an earlier kept one.
pub open spec fn dedup_calls(calls: Seq<ToolCall>) -> Seq<ToolCall>
    decreases calls.len(),
{
    if calls.len() == 0 {
        Seq::empty()
    } else {
        let rest = dedup_calls(calls.drop_last());
        if requested_in(rest, calls.last()) {
            rest
        } else {
            rest.push(calls.last())
        }
    }
}

/// Drops the calls that repeat an earlier call, keeping the first of each in order.
pub fn normalize_tool_calls(calls: Vec<ToolCall>) -> (r: Vec<ToolCall>)
    ensures
        r@ == dedup_calls(calls@),
{
    let ghost input = calls@;
    let n = calls.len();
    let mut rest = calls;
    let mut kept: Vec<ToolCall> = Vec::new();
    let mut keys: Vec<String> = Vec::new();
    let mut done: usize = 0;
    while rest.len() > 0
        invariant
            n == input.len(),
            done + rest.len() == n,
            rest@ == input.subrange(done as int, n as int),
            kept@ == dedup_calls(input.take(done as int)),
            keys.len() == kept.len(),
            forall|k: int| 0 <= k < keys.len() ==> (#[trigger] keys@[k])@ == trim(kept@[k].name@),
        decreases rest.len(),
    {
        let call = rest.remove(0);
        assert(call == input[done as int]);
        let key = trimmed(call.name.as_str());
        let mut k: usize = 0;
        let mut seen = false;
        while k < kept.len()
            invariant
                keys.len() == kept.len(),
                k <= kept.len(),
                key@ == trim(call.name@),
                forall|j: int| 0 <= j < keys.len() ==> (#[trigger] keys@[j])@ == trim(kept@[j].name@),
                seen ==> requested_in(kept@, call),
                !seen ==> forall|j: int| 0 <= j < k ==> !same_request(#[trigger] kept@[j], call),
            decreases kept.len() - k,
        {
            if !seen && str_equal(keys[k].as_str(), key.as_str()) && json_equal(
                &kept[k].arguments,
                &call.arguments,
            ) {
                seen = true;
                assert(same_request(kept@[k as int], call));
            }
            k += 1;
        }
        let ghost before = kept@;
        proof {
            assert(input.take(done + 1).drop_last() =~= input.take(done as int));
            assert(input.take(done + 1).last() == call);
        }
        if !seen {
            kept.push(call);
            keys.push(key);
        }
        done += 1;
        assert(rest@ =~= input.subrange(done as int, n as int));
    }
    assert(input.take(n as int) =~= input);
    kept
}

/// What becomes of one call: it goes to the runtime, or is answered at once with an error.
pub enum ToolStep {
    Dispatch,
    Reject(ToolResult),
}

/// How a batch of calls is run: side by side or one after another, and each call's step.
pub struct ToolExecutionPlan {
    pub parallel: bool,
    pub steps: Vec<ToolStep>,
}

/// The text that answers a call rejected with `error`.
pub open spec fn invalid_call_message(error: Seq<char>) -> Seq<char> {
    "Invalid tool call: "@ + error + ". Please retry with corrected arguments."@
}

/// `r` is a failed result carrying `text` and nothing else.
pub open spec fn is_error_result(r: ToolResult, text: Seq<char>) -> bool {
    &&& !r.success
    &&& r.output@ == text
    &&& r.images@.len() == 0
    &&& r.plan is None
    &&& r.loop_state is None
    &&& r.additional_context is None
}

/// `step` is what `call` gets under the tool table `entries`: dispatch when it
/// validates, otherwise an error result that says why.
pub open spec fn step_for(entries: Seq<crate::tools::ToolSpec>, call: ToolCall, step: ToolStep) -> bool {
    match spec_validate(entries, call) {
        Ok(_) => step is Dispatch,
        Err(e) => step matches ToolStep::Reject(r) && is_error_result(r, invalid_call_message(e)),
    }
}

/// Every call of `calls` only reads.
pub open spec fn all_parallel_safe(calls: Seq<ToolCall>) -> bool {
    forall|i: int| 0 <= i < calls.len() ==> is_parallel_safe_name((#[trigger] calls[i]).name@)
}

/// Decides how `calls` are run: side by side when every one only reads, and
/// for each call whether it reaches the runtime or is rejected up front.
pub fn plan_tool_calls(calls: &Vec<ToolCall>, validator: &ToolValidator) -> (p: ToolExecutionPlan)
    ensures
        p.parallel == all_parallel_safe(calls@),
        p.steps@.len() == calls@.len(),
        forall|i: int|
            0 <= i < calls@.len() ==> step_for(validator.entries(), calls@[i], #[trigger] p.steps@[i]),
{
    let mut parallel = true;
    let mut steps: Vec<ToolStep> = Vec::new();
    let mut i: usize = 0;
    while i < calls.len()
        invariant
            i <= calls.len(),
            steps@.len() == i,
            parallel == all_parallel_safe(calls@.take(i as int)),
            forall|j: int|
                0 <= j < i ==> step_for(validator.entries(), calls@[j], #[trigger] steps@[j]),
        decreases calls.len() - i,
    {
        let safe = is_parallel_safe(&calls[i]);
        proof {
            let before = calls@.take(i as int);
            let now = calls@.take(i + 1);
            assert(now =~= before.push(calls@[i as int]));
            if !safe {
                assert(!is_parallel_safe_name(now[i as int].name@));
            }
            if parallel && safe {
                assert forall|j: int| 0 <= j < now.len() implies is_parallel_safe_name(
                    (#[trigger] now[j]).name@,
                ) by {
                    if j < i {
                        assert(now[j] == before[j]);
                    }
                }
            }
            if !parallel {
                let j = choose|j: int|
                    0 <= j < before.len() && !is_parallel_safe_name((#[trigger] before[j]).name@);
                assert(now[j] == before[j]);
            }
        }
        parallel = parallel && safe;
        let step = match validator.validate(&calls[i]) {
            Ok(_) => ToolStep::Dispatch,
            Err(error) => {
                let mut message = owned("Invalid tool call: ");
                message.append(error.as_str());
                message.append(". Please retry with corrected arguments.");
                ToolStep::Reject(ToolResult::error(message))
            },
        };
        steps.push(step);
        i += 1;
    }
    assert(calls@.take(calls.len() as int) =~= calls@);
    ToolExecutionPlan { parallel, steps }
}

/// The result recorded for a call planned as `step`: a rejected call keeps
/// its error result; a dispatched call gets the runtime's result
/// `dispatched`, its output trimmed to the policy's limit.
pub fn step_result(step: ToolStep, dispatched: Option<ToolResult>) -> (r: ToolResult)
    requires
        step is Dispatch ==> dispatched is Some,
    ensures
        match step {
            ToolStep::Reject(e) => r == e,
            ToolStep::Dispatch => {
                let d = dispatched.unwrap();
                &&& r.output@ == trimmed_output(d.output@, MAX_TOOL_OUTPUT_BYTES as nat)
                &&& r.success == d.success
                &&& r.images == d.images
                &&& r.plan == d.plan
                &&& r.loop_state == d.loop_state
                &&& r.additional_context == d.additional_context
            },
        },
{
    match step {
        ToolStep::Reject(error) => error,
        ToolStep::Dispatch => trim_tool_result(dispatched.unwrap()),
    }
}

/// The text recorded in history for a result.
pub open spec fn tool_message_text(result: ToolResult) -> Seq<char> {
    (if result.success {
        "success"@
    } else {
        "error"@
    }) + ": "@ + result.output@
}

/// The events that report applying `result` of `call`, in order: the new
/// plan, the new loop state, then the finished call.
pub open spec fn reported_events(events: Seq<AgentEvent>, call: ToolCall, result: ToolResult) -> bool {
    let p: int = if result.plan is Some { 1 } else { 0 };
    let l: int = if result.loop_state is Some { 1 } else { 0 };
    &&& events.len() == p + l + 1
    &&& (result.plan matches Some(x) ==> events[0] matches AgentEvent::PlanUpdated(y)
        && y.content@ == x.content@)
    &&& (result.loop_state matches Some(x) ==> events[p] matches AgentEvent::LoopUpdated(y)
        && y.content@ == x.content@)
    &&& events[p + l] matches AgentEvent::ToolFinished { call: c, result: r } && same_call(call, c)
        && same_result(result, r)
}

/// The additional context of `result` worth adding to history.
pub open spec fn context_added(result: ToolResult) -> bool {
    result.additional_context matches Some(c) && !is_blank(c@)
}

/// Records `result` of `call` in `session` and returns the events that report it:
/// a published plan or loop state replaces the session's, the outcome is
/// appended to history as a tool message, and non-blank additional context
/// follows as an internal user message.
pub fn apply_tool_result(session: &mut Session, call: &ToolCall, result: ToolResult) -> (events: Vec<AgentEvent>)
    ensures
        result.plan is Some ==> same_plan(final(session).plan, result.plan),
        result.plan is None ==> final(session).plan == old(session).plan,
        result.loop_state is Some ==> same_loop(final(session).loop_state, result.loop_state),
        result.loop_state is None ==> final(session).loop_state == old(session).loop_state,
        final(session).messages@.len() == old(session).messages@.len() + 1 + (if context_added(result) { 1int } else { 0int }),
        final(session).messages@.subrange(0, old(session).messages@.len() as int) == old(session).messages@,
        ({
            let m = final(session).messages@[old(session).messages@.len() as int];
            &&& m.role == ChatRole::Tool
            &&& m.content@ == tool_message_text(result)
            &&& m.tool_call_id matches Some(id) && id@ == call.id@
            &&& m.images@ == result.images@
            &&& !m.internal
        }),
        context_added(result) ==> ({
            let m = final(session).messages@[old(session).messages@.len() as int + 1];
            &&& m.role == ChatRole::User
            &&& result.additional_context matches Some(c) && m.content@ == c@
            &&& m.tool_call_id is None
            &&& m.images@.len() == 0
            &&& m.internal
        }),
        reported_events(events@, *call, result),
{
    let mut events: Vec<AgentEvent> = Vec::new();
    if result.plan.is_some() {
        session.plan = copy_plan(&result.plan);
        match copy_plan(&result.plan) {
            Some(p) => events.push(AgentEvent::PlanUpdated(p)),
            None => {},
        }
    }
    if result.loop_state.is_some() {
        session.loop_state = copy_loop(&result.loop_state);
        match copy_loop(&result.loop_state) {
            Some(l) => events.push(AgentEvent::LoopUpdated(l)),
            None => {},
        }
    }
    events.push(AgentEvent::ToolFinished { call: copy_call(call), result: copy_result(&result) });
    let mut content = if result.success { owned("success") } else { owned("error") };
    content.append(": ");
    content.append(result.output.as_str());
    let mut message = ChatMessage::tool(call.id.clone(), content);
    message.images = copy_images(&result.images);
    let ghost old_messages = session.messages@;
    session.messages.push(message);
    match result.additional_context {
        Some(context) => {
            if !str_is_blank(context.as_str()) {
                session.messages.push(ChatMessage::internal_user(context));
            }
        },
        None => {},
    }
    assert(session.messages@.subrange(0, old_messages.len() as int) =~= old_messages);
    events
}

/// Every call asks for the same thing as itself.
pub proof fn lemma_same_request_reflexive(c: ToolCall)
    ensures
        same_request(c, c),
{
    lemma_json_same_reflexive(c.arguments);
}

/// Deduplication keeps what it has kept: the result for a longer list
/// extends the result for its prefix.
pub proof fn law_dedup_extends_prefix(calls: Seq<ToolCall>, n: int)
    requires
        0 <= n <= calls.len(),
    ensures
        dedup_calls(calls.take(n)).len() <= dedup_calls(calls).len(),
        dedup_calls(calls).take(dedup_calls(calls.take(n)).len() as int) == dedup_calls(calls.take(n)),
    decreases calls.len() - n,
{
    if n == calls.len() {
        assert(calls.take(n) =~= calls);
        assert(dedup_calls(calls).take(dedup_calls(calls).len() as int) =~= dedup_calls(calls));
    } else {
        law_dedup_extends_prefix(calls, n + 1);
        let a = calls.take(n);
        let b = calls.take(n + 1);
        assert(b.drop_last() =~= a);
        let ra = dedup_calls(a);
        let rb = dedup_calls(b);
        let r = dedup_calls(calls);
        assert(rb.take(ra.len() as int) =~= ra);
        assert(r.take(ra.len() as int) =~= rb.take(rb.len() as int).take(ra.len() as int));
    }
}

/// No two calls kept by `normalize_tool_calls` ask for the same thing.
pub proof fn law_dedup_has_no_repeats(calls: Seq<ToolCall>)
    ensures
        forall|i: int, j: int|
            0 <= i < j < dedup_calls(calls).len() ==> !same_request(
                #[trigger] dedup_calls(calls)[i],
                #[trigger] dedup_calls(calls)[j],
            ),
    decreases calls.len(),
{
    if calls.len() > 0 {
        law_dedup_has_no_repeats(calls.drop_last());
        let r = dedup_calls(calls.drop_last());
        let x = calls.last();
        if !requested_in(r, x) {
            let r2 = r.push(x);
            assert forall|i: int, j: int| 0 <= i < j < r2.len() implies !same_request(
                #[trigger] r2[i],
                #[trigger] r2[j],
            ) by {
                if j < r.len() {
                    assert(r2[i] == r[i] && r2[j] == r[j]);
                } else {
                    assert(r2[i] == r[i] && r2[j] == x);
                }
            }
        }
    }
}

/// Every call handed to `normalize_tool_calls` is represented in its
/// result by a kept call that asks for the same thing.
pub proof fn law_dedup_covers_every_call(calls: Seq<ToolCall>)
    ensures
        forall|k: int| 0 <= k < calls.len() ==> requested_in(dedup_calls(calls), #[trigger] calls[k]),
    decreases calls.len(),
{
    if calls.len() > 0 {
        let init = calls.drop_last();
        law_dedup_covers_every_call(init);
        let r = dedup_calls(init);
        let x = calls.last();
        let r2 = dedup_calls(calls);
        assert forall|k: int| 0 <= k < calls.len() implies requested_in(r2, #[trigger] calls[k]) by {
            if k < calls.len() - 1 {
                assert(calls[k] == init[k]);
                assert(requested_in(r, init[k]));
                let w = choose|w: int| 0 <= w < r.len() && same_request(#[trigger] r[w], init[k]);
                if !requested_in(r, x) {
                    assert(r2[w] == r[w]);
                }
            } else {
                if !requested_in(r, x) {
                    lemma_same_request_reflexive(x);
                    assert(r2[r.len() as int] == x);
                }
            }
        }
    }
}

/// Every call kept by `normalize_tool_calls` is one of the calls handed to it.
pub proof fn law_dedup_keeps_only_given_calls(calls: Seq<ToolCall>)
    ensures
        forall|i: int|
            0 <= i < dedup_calls(calls).len() ==> exists|k: int|
                0 <= k < calls.len() && calls[k] == #[trigger] dedup_calls(calls)[i],
    decreases calls.len(),
{
    if calls.len() > 0 {
        let init = calls.drop_last();
        law_dedup_keeps_only_given_calls(init);
        let r = dedup_calls(init);
        let r2 = dedup_calls(calls);
        assert forall|i: int| 0 <= i < r2.len() implies exists|k: int|
            0 <= k < calls.len() && calls[k] == #[trigger] r2[i] by {
            if i < r.len() {
                assert(r2[i] == r[i]);
                let k = choose|k: int| 0 <= k < init.len() && init[k] == #[trigger] r[i];
                assert(calls[k] == init[k]);
            } else {
                assert(calls[calls.len() - 1] == r2[i]);
            }
        }
    }
}

/// Asking for the same thing is symmetric and transitive.
pub proof fn lemma_same_request_equivalence(a: ToolCall, b: ToolCall, c: ToolCall)
    ensures
        same_request(a, b) ==> same_request(b, a),
        same_request(a, b) && same_request(b, c) ==> same_request(a, c),
{
    if same_request(a, b) {
        lemma_json_same_symmetric(a.arguments, b.arguments);
        if same_request(b, c) {
            lemma_json_same_transitive(a.arguments, b.arguments, c.arguments);
        }
    }
}

/// `idx` places each kept call of `kept` at its index in `calls`: indices
/// increase, and each kept call is the first of `calls` to ask for its thing.
pub open spec fn kept_first_at(calls: Seq<ToolCall>, kept: Seq<ToolCall>, idx: Seq<int>) -> bool {
    &&& idx.len() == kept.len()
    &&& forall|i: int| 0 <= i < idx.len() ==> 0 <= #[trigger] idx[i] < calls.len() && calls[idx[i]] == kept[i]
    &&& forall|i: int, j: int| 0 <= i < j < idx.len() ==> #[trigger] idx[i] < #[trigger] idx[j]
    &&& forall|i: int, k: int| 0 <= i < idx.len() && 0 <= k < idx[i] ==> !same_request(#[trigger] calls[k], calls[#[trigger] idx[i]])
}

/// `normalize_tool_calls` keeps the first call of each request, in the
/// order the calls were given.
pub proof fn law_dedup_keeps_first_in_order(calls: Seq<ToolCall>)
    ensures
        exists|idx: Seq<int>| kept_first_at(calls, dedup_calls(calls), idx),
    decreases calls.len(),
{
    if calls.len() == 0 {
        assert(kept_first_at(calls, dedup_calls(calls), Seq::<int>::empty()));
    } else {
        let init = calls.drop_last();
        law_dedup_keeps_first_in_order(init);
        law_dedup_covers_every_call(init);
        let r = dedup_calls(init);
        let x = calls.last();
        let idx0 = choose|idx: Seq<int>| kept_first_at(init, r, idx);
        assert forall|i: int| 0 <= i < idx0.len() implies calls[#[trigger] idx0[i]] == init[idx0[i]] by {}
        if requested_in(r, x) {
            assert(kept_first_at(calls, dedup_calls(calls), idx0)) by {
                assert forall|i: int, k: int| 0 <= i < idx0.len() && 0 <= k < idx0[i] implies !same_request(#[trigger] calls[k], calls[#[trigger] idx0[i]]) by {
                    assert(calls[k] == init[k]);
                }
            }
        } else {
            let n = calls.len() - 1;
            let idx = idx0.push(n);
            let out = dedup_calls(calls);
            assert(out == r.push(x));
            assert forall|k: int| 0 <= k < n implies !same_request(#[trigger] calls[k], x) by {
                assert(calls[k] == init[k]);
                assert(requested_in(r, init[k]));
                let w = choose|w: int| 0 <= w < r.len() && same_request(#[trigger] r[w], init[k]);
                if same_request(calls[k], x) {
                    lemma_same_request_equivalence(r[w], init[k], x);
                    assert(same_request(r[w], x));
                }
            }
            assert forall|i: int, k: int| 0 <= i < idx.len() && 0 <= k < idx[i] implies !same_request(#[trigger] calls[k], calls[#[trigger] idx[i]]) by {
                if i < idx0.len() {
                    assert(idx[i] == idx0[i]);
                    assert(calls[k] == init[k]);
                } else {
                    assert(idx[i] == n);
                }
            }
            assert forall|i: int, j: int| 0 <= i < j < idx.len() implies #[trigger] idx[i] < #[trigger] idx[j] by {
                if j < idx0.len() {
                    assert(idx[i] == idx0[i] && idx[j] == idx0[j]);
                } else {
                    assert(idx[i] == idx0[i]);
                }
            }
            assert(kept_first_at(calls, out, idx));
        }
    }
}

/// Two calls ask for the same thing exactly when their names, trimmed, are
/// equal and their arguments are the same JSON value; calls naming different
/// tools never do.
pub proof fn law_same_request_means_same_name_and_arguments(a: ToolCall, b: ToolCall)
    ensures
        same_request(a, b) <==> (trim(a.name@) == trim(b.name@) && json_same(a.arguments, b.arguments)),
        trim(a.name@) != trim(b.name@) ==> !same_request(a, b),
{
}

/// A call is kept when no earlier call has both its trimmed name and its
/// arguments: in particular every call whose trimmed name is new is kept.
pub proof fn law_new_request_is_kept(calls: Seq<ToolCall>, k: int)
    requires
        0 <= k < calls.len(),
        forall|j: int| 0 <= j < k ==> trim((#[trigger] calls[j]).name@) != trim(calls[k].name@)
            || !json_same(calls[j].arguments, calls[k].arguments),
    ensures
        dedup_calls(calls).contains(calls[k]),
{
    let p = calls.take(k);
    let q = calls.take(k + 1);
    let x = calls[k];
    assert(q.drop_last() =~= p);
    assert(q.last() == x);
    law_dedup_keeps_only_given_calls(p);
    let dp = dedup_calls(p);
    if requested_in(dp, x) {
        let w = choose|w: int| 0 <= w < dp.len() && same_request(#[trigger] dp[w], x);
        let j = choose|j: int| 0 <= j < p.len() && p[j] == #[trigger] dp[w];
        assert(calls[j] == p[j]);
        assert(false);
    }
    let dq = dedup_calls(q);
    assert(dq == dp.push(x));
    law_dedup_extends_prefix(calls, k + 1);
    let d = dedup_calls(calls);
    assert(d[dp.len() as int] == dq[dp.len() as int]);
}

} // verus!
