use volumetrik::monitor::ThresholdType;
use volumetrik::settings::{Settings, DEFAULT_CHECK_INTERVAL_MINUTES, DEFAULT_MAX_USED_BYTES};
use volumetrik::strings::{str_eq, str_starts_with, u64_to_string};

#[test]
fn default_settings_shape() {
    let s = Settings::default();
    assert_eq!(s.language, "en");
    assert!(!s.monitoring.enabled);
    assert_eq!(s.monitoring.check_interval_minutes, DEFAULT_CHECK_INTERVAL_MINUTES);
    assert_eq!(s.monitoring.paths.len(), 1);
    assert_eq!(s.monitoring.paths[0].path, "/");
    assert_eq!(s.monitoring.paths[0].threshold_type, ThresholdType::MaxUsed);
    assert_eq!(s.monitoring.paths[0].threshold_value, DEFAULT_MAX_USED_BYTES);
    assert!(!s.alerts.enabled);
    assert!(s.alerts.telegram_bot_token.is_none());
    assert!(s.alerts.webhook_url.is_none());
    assert!(s.alerts.ntfy_url.is_none());
}

#[test]
fn default_threshold_is_100_gib() {
    assert_eq!(DEFAULT_MAX_USED_BYTES, 107374182400);
}

#[test]
fn decimal_rendering() {
    assert_eq!(u64_to_string(0), "0");
    assert_eq!(u64_to_string(7), "7");
    assert_eq!(u64_to_string(10), "10");
    assert_eq!(u64_to_string(90210), "90210");
    assert_eq!(u64_to_string(u64::MAX), "18446744073709551615");
}

#[test]
fn string_helpers() {
    assert!(str_eq("abc", "abc"));
    assert!(!str_eq("abc", "abd"));
    assert!(!str_eq("abc", "ab"));
    assert!(str_starts_with("/host/data", "/host/"));
    assert!(!str_starts_with("/hos", "/host/"));
    assert!(str_starts_with("anything", ""));
}
