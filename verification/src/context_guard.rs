use vstd::prelude::*;
use crate::policy::{CONTEXT_CAUTION_PERCENT, CONTEXT_WARNING_PERCENT, CONTEXT_CRITICAL_PERCENT};
use crate::text::{decimal, push_decimal};

verus! {

/// Token accounting of a session's context window.
#[derive(Clone, Copy, Debug, PartialEq, Eq, Structural)]
pub struct ContextStatus {
    pub used_tokens: u64,
    pub context_window: u64,
    pub effective_context_window: u64,
    pub auto_compact_token_limit: u64,
    pub remaining_tokens: u64,
    pub used_percent: u8,
    pub remaining_percent: u8,
    pub auto_compact_scope_tokens: u64,
    pub compaction_count: u64,
}

/// How close a session is to its context limits.
#[derive(Clone, Copy, Debug, PartialEq, Eq, Structural)]
pub enum ContextPressure {
    Normal,
    Caution,
    Warning,
    Critical,
}

impl ContextPressure {
    /// Whether this pressure is worth telling the user about.
    pub fn should_emit(self) -> (r: bool)
        ensures
            r == (self != ContextPressure::Normal),
    {
        !matches!(self, ContextPressure::Normal)
    }
}

/// `value` as a percentage of `total`, capped at 100; 100 when `total` is 0.
/// The product `value * 100` saturates at `u64::MAX`.
pub open spec fn percentage_of(value: nat, total: nat) -> nat {
    if total == 0 {
        100
    } else {
        let scaled = if value * 100 <= u64::MAX { value * 100 } else { u64::MAX as nat };
        if scaled / total <= 100 { scaled / total } else { 100 }
    }
}

/// The limit against which the auto-compact scope is measured (never 0).
pub open spec fn compact_limit(status: ContextStatus) -> nat {
    if status.auto_compact_token_limit >= 1 { status.auto_compact_token_limit as nat } else { 1 }
}

/// Usage of the effective window, in percent.
pub open spec fn effective_percent(status: ContextStatus) -> nat {
    percentage_of(status.used_tokens as nat, status.effective_context_window as nat)
}

/// Usage of the auto-compact scope, in percent.
pub open spec fn compact_percent(status: ContextStatus) -> nat {
    percentage_of(status.auto_compact_scope_tokens as nat, compact_limit(status))
}

/// The larger of the two usage percentages.
pub open spec fn pressure_percent(status: ContextStatus) -> nat {
    if effective_percent(status) >= compact_percent(status) {
        effective_percent(status)
    } else {
        compact_percent(status)
    }
}

/// The pressure level of `status`.
pub open spec fn spec_classify_context_pressure(status: ContextStatus) -> ContextPressure {
    let p = pressure_percent(status);
    if status.used_tokens >= status.effective_context_window
        || status.auto_compact_scope_tokens >= status.auto_compact_token_limit
        || p >= CONTEXT_CRITICAL_PERCENT {
        ContextPressure::Critical
    } else if p >= CONTEXT_WARNING_PERCENT {
        ContextPressure::Warning
    } else if p >= CONTEXT_CAUTION_PERCENT {
        ContextPressure::Caution
    } else {
        ContextPressure::Normal
    }
}

/// The label that opens the pressure message.
pub open spec fn pressure_label(pressure: ContextPressure) -> Seq<char> {
    match pressure {
        ContextPressure::Normal => Seq::empty(),
        ContextPressure::Caution => "Context pressure rising"@,
        ContextPressure::Warning => "Context pressure high"@,
        ContextPressure::Critical => "Context compaction threshold reached"@,
    }
}

/// The pressure message for `status`, when its pressure is worth reporting.
pub open spec fn spec_context_pressure_message(status: ContextStatus) -> Option<Seq<char>> {
    let pressure = spec_classify_context_pressure(status);
    if pressure == ContextPressure::Normal {
        None
    } else {
        Some(pressure_label(pressure) + ": "@ + decimal(status.used_tokens as nat)
            + " used tokens, "@ + decimal(status.remaining_tokens as nat) + " remaining, "@
            + decimal(effective_percent(status)) + "% of effective window, "@
            + decimal(compact_percent(status)) + "% of auto-compact scope."@)
    }
}

/// `value` as a percentage of `total`.
pub fn percentage(value: u64, total: u64) -> (p: u8)
    ensures
        p as nat == percentage_of(value as nat, total as nat),
        p <= 100,
{
    if total == 0 {
        return 100;
    }
    let scaled = match value.checked_mul(100) {
        Some(x) => x,
        None => u64::MAX,
    };
    let q = scaled / total;
    if q <= 100 {
        q as u8
    } else {
        100
    }
}

/// Classifies how close `status` is to its context limits.
pub fn classify_context_pressure(status: &ContextStatus) -> (pressure: ContextPressure)
    ensures
        pressure == spec_classify_context_pressure(*status),
{
    let effective = percentage(status.used_tokens, status.effective_context_window);
    let limit = if status.auto_compact_token_limit >= 1 { status.auto_compact_token_limit } else { 1 };
    let compact = percentage(status.auto_compact_scope_tokens, limit);
    let pressure = if effective >= compact { effective } else { compact };
    if status.used_tokens >= status.effective_context_window
        || status.auto_compact_scope_tokens >= status.auto_compact_token_limit
        || pressure >= CONTEXT_CRITICAL_PERCENT {
        ContextPressure::Critical
    } else if pressure >= CONTEXT_WARNING_PERCENT {
        ContextPressure::Warning
    } else if pressure >= CONTEXT_CAUTION_PERCENT {
        ContextPressure::Caution
    } else {
        ContextPressure::Normal
    }
}

/// The message that reports the pressure of `status`, or `None` when it is normal.
pub fn context_pressure_message(status: &ContextStatus) -> (message: Option<String>)
    ensures
        match message {
            None => spec_context_pressure_message(*status) is None,
            Some(m) => spec_context_pressure_message(*status) == Some(m@),
        },
{
    let pressure = classify_context_pressure(status);
    if !pressure.should_emit() {
        return None;
    }
    let mut out = String::new();
    match pressure {
        ContextPressure::Normal => {
            return None;
        },
        ContextPressure::Caution => out.append("Context pressure rising"),
        ContextPressure::Warning => out.append("Context pressure high"),
        ContextPressure::Critical => out.append("Context compaction threshold reached"),
    }
    out.append(": ");
    push_decimal(&mut out, status.used_tokens);
    out.append(" used tokens, ");
    push_decimal(&mut out, status.remaining_tokens);
    out.append(" remaining, ");
    let effective = percentage(status.used_tokens, status.effective_context_window);
    push_decimal(&mut out, effective as u64);
    out.append("% of effective window, ");
    let limit = if status.auto_compact_token_limit >= 1 { status.auto_compact_token_limit } else { 1 };
    let compact = percentage(status.auto_compact_scope_tokens, limit);
    push_decimal(&mut out, compact as u64);
    out.append("% of auto-compact scope.");
    Some(out)
}

/// The severity order of pressure levels: Normal < Caution < Warning < Critical.
pub open spec fn pressure_rank(pressure: ContextPressure) -> nat {
    match pressure {
        ContextPressure::Normal => 0,
        ContextPressure::Caution => 1,
        ContextPressure::Warning => 2,
        ContextPressure::Critical => 3,
    }
}

/// A percentage never falls when the measured value grows.
pub proof fn lemma_percentage_monotone(a: nat, b: nat, total: nat)
    requires
        a <= b,
    ensures
        percentage_of(a, total) <= percentage_of(b, total),
{
    if total > 0 {
        let sa: nat = if a * 100 <= u64::MAX { a * 100 } else { u64::MAX as nat };
        let sb: nat = if b * 100 <= u64::MAX { b * 100 } else { u64::MAX as nat };
        assert(sa <= sb) by (nonlinear_arith)
            requires
                a <= b,
                sa == (if a * 100 <= u64::MAX { a * 100 } else { u64::MAX as nat }),
                sb == (if b * 100 <= u64::MAX { b * 100 } else { u64::MAX as nat }),
        ;
        vstd::arithmetic::div_mod::lemma_div_is_ordered(sa as int, sb as int, total as int);
    }
}

/// A message is produced exactly when the pressure is above normal.
pub proof fn law_message_iff_pressure(status: ContextStatus)
    ensures
        spec_context_pressure_message(status) is Some
            <==> spec_classify_context_pressure(status) != ContextPressure::Normal,
{
}

/// Using more tokens, all else equal, never lowers the pressure level.
pub proof fn law_pressure_monotone_in_used_tokens(status: ContextStatus, more_used: u64)
    requires
        status.used_tokens <= more_used,
    ensures
        pressure_rank(spec_classify_context_pressure(status))
            <= pressure_rank(spec_classify_context_pressure(ContextStatus { used_tokens: more_used, ..status })),
{
    let bigger = ContextStatus { used_tokens: more_used, ..status };
    lemma_percentage_monotone(status.used_tokens as nat, more_used as nat, status.effective_context_window as nat);
    assert(effective_percent(status) <= effective_percent(bigger));
    assert(compact_percent(status) == compact_percent(bigger));
}

/// Filling more of the auto-compact scope, all else equal, never lowers the pressure level.
pub proof fn law_pressure_monotone_in_compact_scope(status: ContextStatus, more_scoped: u64)
    requires
        status.auto_compact_scope_tokens <= more_scoped,
    ensures
        pressure_rank(spec_classify_context_pressure(status))
            <= pressure_rank(spec_classify_context_pressure(ContextStatus { auto_compact_scope_tokens: more_scoped, ..status })),
{
    let bigger = ContextStatus { auto_compact_scope_tokens: more_scoped, ..status };
    lemma_percentage_monotone(status.auto_compact_scope_tokens as nat, more_scoped as nat, compact_limit(status));
    assert(compact_percent(status) <= compact_percent(bigger));
    assert(effective_percent(status) == effective_percent(bigger));
}

/// `percentage_of(value, total)` is the whole percentage that `value` is of
/// `total`, rounded down and capped at 100 (with `value * 100` capped at
/// `u64::MAX`), and 100 of an empty total.
pub proof fn law_percentage_rounds_down(value: nat, total: nat)
    ensures
        total == 0 ==> percentage_of(value, total) == 100,
        total > 0 ==> ({
            let scaled: int = if value * 100 <= u64::MAX { (value * 100) as int } else { u64::MAX as int };
            let p = percentage_of(value, total) as int;
            &&& p <= 100
            &&& p < 100 ==> p * total <= scaled < (p + 1) * total
            &&& p == 100 ==> scaled >= 100 * total
        }),
{
    if total > 0 {
        let scaled: int = if value * 100 <= u64::MAX { (value * 100) as int } else { u64::MAX as int };
        let t = total as int;
        let q = scaled / t;
        vstd::arithmetic::div_mod::lemma_fundamental_div_mod(scaled, t);
        let r = scaled % t;
        assert(0 <= r < t);
        assert(scaled == t * q + r);
        if q <= 100 {
            assert(q * t <= scaled < (q + 1) * t) by (nonlinear_arith)
                requires
                    scaled == t * q + r,
                    0 <= r < t,
            ;
        } else {
            assert(scaled >= 100 * t) by (nonlinear_arith)
                requires
                    scaled == t * q + r,
                    0 <= r,
                    q > 100,
                    t > 0,
            ;
        }
    }
}

/// The pressure level goes by the larger of the two usages, of the effective
/// window and of the auto-compact scope, whichever it is: critical when
/// either window is used up or the larger usage reaches 98%, otherwise
/// warning from 90%, caution from 80%, and normal below.
pub proof fn law_pressure_follows_larger_usage(status: ContextStatus)
    ensures
        ({
            let e = percentage_of(status.used_tokens as nat, status.effective_context_window as nat);
            let limit: nat = if status.auto_compact_token_limit >= 1 { status.auto_compact_token_limit as nat } else { 1 };
            let c = percentage_of(status.auto_compact_scope_tokens as nat, limit);
            let p = if e >= c { e } else { c };
            let critical = status.used_tokens >= status.effective_context_window
                || status.auto_compact_scope_tokens >= status.auto_compact_token_limit || p >= 98;
            let level = spec_classify_context_pressure(status);
            &&& critical ==> level == ContextPressure::Critical
            &&& !critical && p >= 90 ==> level == ContextPressure::Warning
            &&& !critical && 80 <= p < 90 ==> level == ContextPressure::Caution
            &&& !critical && p < 80 ==> level == ContextPressure::Normal
            &&& !critical && (e >= 90 || c >= 90) ==> level == ContextPressure::Warning
        }),
{
}

} // verus!
