use vstd::prelude::*;

verus! {

/// How many times an empty assistant response is retried.
pub const EMPTY_RESPONSE_MAX_RETRIES: u8 = 2;

/// How many times a response holding only hidden reasoning is retried.
pub const REASONING_ONLY_MAX_RETRIES: u8 = 2;

/// Largest tool output, in UTF-8 bytes, that is kept before truncation.
pub const MAX_TOOL_OUTPUT_BYTES: usize = 48_000;

/// Context usage, in percent, from which pressure is reported as rising.
pub const CONTEXT_CAUTION_PERCENT: u8 = 80;

/// Context usage, in percent, from which pressure is reported as high.
pub const CONTEXT_WARNING_PERCENT: u8 = 90;

/// Context usage, in percent, from which the compaction threshold is reached.
pub const CONTEXT_CRITICAL_PERCENT: u8 = 98;

/// Limits that govern the agent's recovery, tool-output and context checks.
#[derive(Clone, Copy, Debug, PartialEq, Eq, Structural)]
pub struct UpgradePolicy {
    pub empty_response_max_retries: u8,
    pub reasoning_only_max_retries: u8,
    pub max_tool_output_bytes: usize,
    pub context_caution_percent: u8,
    pub context_warning_percent: u8,
    pub context_critical_percent: u8,
}

/// The policy the agent runs with, as a value.
pub open spec fn spec_default_upgrade_policy() -> UpgradePolicy {
    UpgradePolicy {
        empty_response_max_retries: EMPTY_RESPONSE_MAX_RETRIES,
        reasoning_only_max_retries: REASONING_ONLY_MAX_RETRIES,
        max_tool_output_bytes: MAX_TOOL_OUTPUT_BYTES,
        context_caution_percent: CONTEXT_CAUTION_PERCENT,
        context_warning_percent: CONTEXT_WARNING_PERCENT,
        context_critical_percent: CONTEXT_CRITICAL_PERCENT,
    }
}

/// The policy the agent runs with.
pub fn default_upgrade_policy() -> (policy: UpgradePolicy)
    ensures
        policy == spec_default_upgrade_policy(),
{
    UpgradePolicy {
        empty_response_max_retries: EMPTY_RESPONSE_MAX_RETRIES,
        reasoning_only_max_retries: REASONING_ONLY_MAX_RETRIES,
        max_tool_output_bytes: MAX_TOOL_OUTPUT_BYTES,
        context_caution_percent: CONTEXT_CAUTION_PERCENT,
        context_warning_percent: CONTEXT_WARNING_PERCENT,
        context_critical_percent: CONTEXT_CRITICAL_PERCENT,
    }
}

impl Default for UpgradePolicy {
    fn default() -> (policy: Self)
        ensures
            policy == spec_default_upgrade_policy(),
    {
        default_upgrade_policy()
    }
}

} // verus!
