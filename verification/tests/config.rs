use ipet::config::{LlmSettings, LlmSettingsInput, LlmSettingsStatus};

fn defaults() -> LlmSettings {
    LlmSettings::default()
}

fn input_from(s: &LlmSettings, api_key: Option<String>, clear_api_key: bool) -> LlmSettingsInput {
    LlmSettingsInput {
        api_key,
        clear_api_key,
        base_url: s.base_url.clone(),
        model: s.model.clone(),
        temperature_bits: s.temperature_bits,
        max_context_messages: s.max_context_messages,
        system_prompt: s.system_prompt.clone(),
        auto_system_check_enabled: false,
        auto_system_check_interval_minutes: 10,
        notify_on_reply: false,
        notify_on_system_alert: false,
        track_app_usage: true,
        app_usage_idle_minutes: 5,
    }
}

#[test]
fn default_validates_ok() {
    defaults().validate_public_fields().expect("defaults must validate");
}

#[test]
fn normalized_base_url_strips_trailing_slash_and_whitespace() {
    let mut s = defaults();
    s.base_url = "  https://api.example.com/v1///   ".to_string();
    assert_eq!(s.normalized_base_url(), "https://api.example.com/v1");
}

#[test]
fn validate_rejects_blank_base_url() {
    let mut s = defaults();
    s.base_url = "   /".to_string();
    let err = s.validate_public_fields().unwrap_err();
    assert!(err.contains("Base URL"), "unexpected error: {err}");
}

#[test]
fn validate_rejects_blank_model() {
    let mut s = defaults();
    s.model = "   ".to_string();
    assert!(s.validate_public_fields().is_err());
}

#[test]
fn validate_rejects_out_of_range_temperature() {
    let mut s = defaults();
    s.temperature_bits = (-0.1f32).to_bits();
    assert!(s.validate_public_fields().is_err());
    s.temperature_bits = 2.5f32.to_bits();
    assert!(s.validate_public_fields().is_err());
}

#[test]
fn validate_rejects_out_of_range_context() {
    let mut s = defaults();
    s.max_context_messages = 2;
    assert!(s.validate_public_fields().is_err());
    s.max_context_messages = 200;
    assert!(s.validate_public_fields().is_err());
}

#[test]
fn validate_rejects_out_of_range_auto_check_interval() {
    let mut s = defaults();
    s.auto_system_check_interval_minutes = 0;
    assert!(s.validate_public_fields().is_err());
    s.auto_system_check_interval_minutes = 9999;
    assert!(s.validate_public_fields().is_err());
}

#[test]
fn validate_rejects_out_of_range_idle_minutes() {
    let mut s = defaults();
    s.app_usage_idle_minutes = 0;
    assert!(s.validate_public_fields().is_ok(), "0 disables idle filter");
    s.app_usage_idle_minutes = 241;
    assert!(s.validate_public_fields().is_err());
}

#[test]
fn defaults_track_app_usage_enabled() {
    let s = defaults();
    assert!(s.track_app_usage, "usage tracking defaults on");
    assert_eq!(s.app_usage_idle_minutes, 5);
}

#[test]
fn merge_input_clears_api_key_when_requested() {
    let mut s = defaults();
    s.api_key = Some("secret".into());
    let input = input_from(&s, Some("ignored".into()), true);
    input.merge_into(&mut s);
    assert!(s.api_key.is_none(), "clear_api_key should win over a provided key");
}

#[test]
fn merge_input_keeps_existing_key_when_blank_provided() {
    let mut s = defaults();
    s.api_key = Some("keepme".into());
    let input = input_from(&s, Some("   ".into()), false);
    input.merge_into(&mut s);
    assert_eq!(s.api_key.as_deref(), Some("keepme"));
}

#[test]
fn settings_status_reports_api_key_presence_without_leaking_value() {
    let mut s = defaults();
    s.api_key = Some("sk-secret".into());
    let status = LlmSettingsStatus::from_settings(&s, "/tmp/x.sqlite".to_string());
    assert!(status.has_api_key);

    s.api_key = Some("   ".into());
    let status = LlmSettingsStatus::from_settings(&s, "/tmp/x.sqlite".to_string());
    assert!(!status.has_api_key, "blank-only api_key should be reported as absent");

    s.api_key = None;
    let status = LlmSettingsStatus::from_settings(&s, "/tmp/x.sqlite".to_string());
    assert!(!status.has_api_key);
}

#[test]
fn merge_replaces_key_with_trimmed_new_one_and_normalizes_fields() {
    let mut s = defaults();
    s.api_key = Some("old".into());
    let mut input = input_from(&s, Some("  sk-new  ".into()), false);
    input.base_url = " https://example.com/api// ".to_string();
    input.model = "  m1 ".to_string();
    input.merge_into(&mut s);
    assert_eq!(s.api_key.as_deref(), Some("sk-new"));
    assert_eq!(s.base_url, "https://example.com/api");
    assert_eq!(s.model, "m1");
}

#[test]
fn blank_system_prompt_is_refilled_with_default() {
    let mut s = defaults();
    let default_prompt = s.system_prompt.clone();
    s.system_prompt = "  \n ".to_string();
    s.fill_blank_system_prompt();
    assert_eq!(s.system_prompt, default_prompt);
    s.system_prompt = "custom".to_string();
    s.fill_blank_system_prompt();
    assert_eq!(s.system_prompt, "custom");
}

#[test]
fn temperature_bounds_are_inclusive() {
    let mut s = defaults();
    s.temperature_bits = 2.0f32.to_bits();
    assert!(s.validate_public_fields().is_ok());
    s.temperature_bits = 0.0f32.to_bits();
    assert!(s.validate_public_fields().is_ok());
    s.temperature_bits = (-0.0f32).to_bits();
    assert!(s.validate_public_fields().is_ok());
    s.temperature_bits = f32::NAN.to_bits();
    assert!(s.validate_public_fields().is_err());
}

#[test]
fn default_helpers_match_defaults() {
    assert_eq!(ipet::config::default_auto_system_check_interval_minutes(), 10);
    assert!(ipet::config::default_track_app_usage());
    assert_eq!(ipet::config::default_app_usage_idle_minutes(), 5);
    let s = defaults();
    assert_eq!(s.auto_system_check_interval_minutes, 10);
    assert_eq!(s.max_context_messages, 18);
    assert_eq!(s.temperature_bits, 0.7f32.to_bits());
}
