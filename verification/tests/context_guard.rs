use coomi_agent::context_guard::{
    classify_context_pressure, context_pressure_message, percentage, ContextPressure, ContextStatus,
};

fn status(used: u64, effective: u64, scoped: u64, compact_limit: u64) -> ContextStatus {
    ContextStatus {
        used_tokens: used,
        context_window: effective,
        effective_context_window: effective,
        auto_compact_token_limit: compact_limit,
        remaining_tokens: effective.saturating_sub(used),
        used_percent: 0,
        remaining_percent: 0,
        auto_compact_scope_tokens: scoped,
        compaction_count: 0,
    }
}

#[test]
fn classifies_normal_pressure() {
    assert_eq!(
        classify_context_pressure(&status(100, 1_000, 100, 1_000)),
        ContextPressure::Normal
    );
}

#[test]
fn classifies_caution_pressure() {
    assert_eq!(
        classify_context_pressure(&status(810, 1_000, 100, 1_000)),
        ContextPressure::Caution
    );
}

#[test]
fn classifies_warning_pressure_from_compaction_scope() {
    assert_eq!(
        classify_context_pressure(&status(100, 1_000, 910, 1_000)),
        ContextPressure::Warning
    );
}

#[test]
fn classifies_critical_at_compaction_limit() {
    assert_eq!(
        classify_context_pressure(&status(100, 1_000, 1_000, 1_000)),
        ContextPressure::Critical
    );
}

#[test]
fn formats_pressure_message() {
    let message =
        context_pressure_message(&status(900, 1_000, 900, 1_000)).expect("pressure message");
    assert!(message.contains("Context pressure high"));
    assert!(message.contains("900 used tokens"));
}

#[test]
fn formats_full_pressure_message() {
    let message = context_pressure_message(&status(985, 1_000, 10, 1_000)).expect("message");
    assert_eq!(
        message,
        "Context compaction threshold reached: 985 used tokens, 15 remaining, 98% of effective window, 1% of auto-compact scope."
    );
}

#[test]
fn normal_pressure_has_no_message() {
    assert_eq!(context_pressure_message(&status(10, 1_000, 10, 1_000)), None);
}

#[test]
fn critical_when_window_is_used_up() {
    assert_eq!(
        classify_context_pressure(&status(1_000, 1_000, 0, 1_000)),
        ContextPressure::Critical
    );
}

#[test]
fn zero_compact_limit_counts_as_one() {
    assert_eq!(
        classify_context_pressure(&status(0, 1_000, 0, 0)),
        ContextPressure::Critical
    );
}

#[test]
fn percentage_edges() {
    assert_eq!(percentage(5, 0), 100);
    assert_eq!(percentage(1, 3), 33);
    assert_eq!(percentage(5_000, 10), 100);
    assert_eq!(percentage(u64::MAX, u64::MAX), 1);
}

#[test]
fn caution_pressure_should_emit() {
    assert!(ContextPressure::Caution.should_emit());
    assert!(!ContextPressure::Normal.should_emit());
}

fn rank(p: ContextPressure) -> u8 {
    match p {
        ContextPressure::Normal => 0,
        ContextPressure::Caution => 1,
        ContextPressure::Warning => 2,
        ContextPressure::Critical => 3,
    }
}

#[test]
fn pressure_never_falls_as_tokens_grow() {
    let mut last = 0;
    for used in (0..=1_100).step_by(10) {
        let now = rank(classify_context_pressure(&status(used, 1_000, 100, 1_000)));
        assert!(now >= last);
        last = now;
    }
    assert_eq!(last, 3);
    let mut last = 0;
    for scoped in (0..=1_000).step_by(10) {
        let now = rank(classify_context_pressure(&status(100, 1_000, scoped, 1_000)));
        assert!(now >= last);
        last = now;
    }
    assert_eq!(last, 3);
}

#[test]
fn message_exactly_when_pressure_is_raised() {
    for used in (0..=1_100).step_by(50) {
        let s = status(used, 1_000, 0, 1_000);
        assert_eq!(
            context_pressure_message(&s).is_some(),
            classify_context_pressure(&s) != ContextPressure::Normal
        );
    }
}
