use std::path::{Path, PathBuf};
use coomi_agent::onboarding::{first_provider, first_provider_id, may_create_first_provider, providers_path, non_empty, prompt_default, read_answer, sanitize_id, PromptError};

#[test]
fn provider_ids_are_sanitized() {
    assert_eq!(sanitize_id("My Provider"), "my-provider");
    assert_eq!(sanitize_id("***"), "default");
}

#[test]
fn sanitize_collapses_white_space_and_trims_dashes() {
    assert_eq!(sanitize_id("  --Open  AI__v2-- "), "open-ai__v2");
    assert_eq!(sanitize_id("a\t\nb"), "a-b");
    assert_eq!(sanitize_id(""), "default");
    assert_eq!(sanitize_id("my-provider"), "my-provider");
}

#[test]
fn prompt_default_uses_default_for_blank_answers() {
    assert_eq!(prompt_default("  ".into(), "default"), "default");
    assert_eq!(prompt_default("mine".into(), "default"), "mine");
}

#[test]
fn non_empty_drops_blank_values() {
    assert_eq!(non_empty(" ".into()), None);
    assert_eq!(non_empty("x".into()), Some("x".to_string()));
}

#[test]
fn reading_an_answer() {
    assert_eq!(read_answer(0, ""), Err(PromptError::Cancelled));
    assert_eq!(read_answer(6, " gpt \n"), Ok("gpt".to_string()));
}

#[test]
fn sanitizing_twice_changes_nothing() {
    for input in ["My Provider", "***", "  -a  b- ", "Ünï Cödé", "x__Y--z", "", "default"] {
        let once = sanitize_id(input);
        assert_eq!(sanitize_id(&once), once);
        assert!(!once.is_empty());
        assert!(!once.starts_with('-') && !once.ends_with('-'));
        assert!(once
            .chars()
            .all(|c| c.is_ascii_lowercase() || c.is_ascii_digit() || c == '-' || c == '_'));
    }
}

#[test]
fn first_provider_is_created_only_when_nothing_is_configured() {
    assert!(may_create_first_provider(true, None));
    assert!(may_create_first_provider(true, Some(0)));
    assert!(!may_create_first_provider(true, Some(2)));
    assert!(!may_create_first_provider(false, None));
}

#[test]
fn registry_lives_under_config() {
    assert_eq!(
        providers_path(Path::new("/home/u")),
        PathBuf::from("/home/u/config/providers.json")
    );
}

#[test]
fn first_provider_fills_defaults_from_the_answers() {
    let p = first_provider(
        "My Provider".into(),
        "".into(),
        " ".into(),
        "".into(),
        "gpt-x".into(),
        "  ".into(),
        "".into(),
    );
    assert_eq!(p.id, "my-provider");
    assert_eq!(p.display, "my-provider");
    assert_eq!(p.provider_type, "openai_compatible");
    assert_eq!(p.tool_protocol.as_deref(), Some("openai_compatible"));
    assert_eq!(p.base_url, "https://api.openai.com/v1");
    assert_eq!(p.model, "gpt-x");
    assert_eq!(p.fast_model, None);
    assert_eq!(p.api_key, "");
    let q = first_provider(
        "".into(),
        "Mine".into(),
        "anthropic".into(),
        "http://x".into(),
        "m".into(),
        "fast".into(),
        "k".into(),
    );
    assert_eq!(q.id, "default");
    assert_eq!(q.display, "Mine");
    assert_eq!(q.tool_protocol.as_deref(), Some("anthropic"));
    assert_eq!(q.fast_model.as_deref(), Some("fast"));
    assert_eq!(first_provider_id("***".into()), "default");
}
