//! The application settings the engine reads: the monitoring
//! configuration and the alert-service configuration. Persisting them,
//! and the presentation layout that only the front-end reads, belong to
//! the configuration collaborator.

use vstd::prelude::*;
use vstd::string::*;

use crate::alerts::AlertConfig;
use crate::monitor::{MonitoredPath, MonitoringConfig, ThresholdType};

verus! {

/// Usage ceiling of the default monitored path: 100 GiB.
pub const DEFAULT_MAX_USED_BYTES: u64 = 100 * 1024 * 1024 * 1024;

/// Check interval of the default configuration, in minutes.
pub const DEFAULT_CHECK_INTERVAL_MINUTES: u64 = 60;

/// The settings the engine consults: interface language, monitoring
/// configuration, and alert delivery configuration.
pub struct Settings {
    pub language: String,
    pub monitoring: MonitoringConfig,
    pub alerts: AlertConfig,
}

impl Default for Settings {
    /// The out-of-the-box configuration: monitoring and alerting are off,
    /// and one example entry watches the filesystem root against a usage
    /// ceiling, checked hourly once enabled.
    fn default() -> (r: Self)
        ensures
            r.language@ == "en"@,
            !r.monitoring.enabled,
            r.monitoring.paths@.len() == 1,
            r.monitoring.paths@[0].path@ == "/"@,
            r.monitoring.paths@[0].threshold_type == ThresholdType::MaxUsed,
            r.monitoring.paths@[0].threshold_value == DEFAULT_MAX_USED_BYTES,
            r.monitoring.check_interval_minutes == DEFAULT_CHECK_INTERVAL_MINUTES,
            !r.alerts.enabled,
            r.alerts.telegram_bot_token is None,
            r.alerts.telegram_chat_id is None,
            r.alerts.webhook_url is None,
            r.alerts.custom_message is None,
            r.alerts.pushover_user_key is None,
            r.alerts.pushover_api_token is None,
            r.alerts.gotify_url is None,
            r.alerts.gotify_token is None,
            r.alerts.slack_webhook_url is None,
            r.alerts.discord_webhook_url is None,
            r.alerts.teams_webhook_url is None,
            r.alerts.ntfy_url is None,
            r.alerts.ntfy_token is None,
    {
        let mut paths: Vec<MonitoredPath> = Vec::new();
        paths.push(
            MonitoredPath {
                path: String::from_str("/"),
                threshold_type: ThresholdType::MaxUsed,
                threshold_value: DEFAULT_MAX_USED_BYTES,
            },
        );
        Settings {
            language: String::from_str("en"),
            monitoring: MonitoringConfig {
                enabled: false,
                paths,
                check_interval_minutes: DEFAULT_CHECK_INTERVAL_MINUTES,
            },
            alerts: AlertConfig {
                enabled: false,
                telegram_bot_token: None,
                telegram_chat_id: None,
                webhook_url: None,
                custom_message: None,
                pushover_user_key: None,
                pushover_api_token: None,
                gotify_url: None,
                gotify_token: None,
                slack_webhook_url: None,
                discord_webhook_url: None,
                teams_webhook_url: None,
                ntfy_url: None,
                ntfy_token: None,
            },
        }
    }
}

} // verus!
