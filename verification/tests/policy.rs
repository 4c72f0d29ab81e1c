use coomi_agent::policy::{default_upgrade_policy, UpgradePolicy, MAX_TOOL_OUTPUT_BYTES};

#[test]
fn default_policy_matches_const_policy() {
    assert_eq!(UpgradePolicy::default(), default_upgrade_policy());
}

#[test]
fn default_policy_values() {
    let policy = default_upgrade_policy();
    assert_eq!(policy.empty_response_max_retries, 2);
    assert_eq!(policy.reasoning_only_max_retries, 2);
    assert_eq!(policy.max_tool_output_bytes, 48_000);
    assert_eq!(policy.max_tool_output_bytes, MAX_TOOL_OUTPUT_BYTES);
    assert_eq!(policy.context_caution_percent, 80);
    assert_eq!(policy.context_warning_percent, 90);
    assert_eq!(policy.context_critical_percent, 98);
}
