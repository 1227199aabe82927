use volumetrik::alerts::{plan_alerts, AlertConfig, Delivery};

fn empty_config(enabled: bool) -> AlertConfig {
    AlertConfig {
        enabled,
        telegram_bot_token: None,
        telegram_chat_id: None,
        webhook_url: None,
        custom_message: None,
        pushover_user_key: None,
        pushover_api_token: None,
        gotify_url: None,
        gotify_token: None,
        slack_webhook_url: None,
        discord_webhook_url: None,
        teams_webhook_url: None,
        ntfy_url: None,
        ntfy_token: None,
    }
}

#[test]
fn disabled_config_sends_nothing() {
    let mut c = empty_config(false);
    c.slack_webhook_url = Some("https://hooks.slack.example/x".to_string());
    assert_eq!(plan_alerts(&c, "msg").len(), 0);
}

#[test]
fn enabled_but_unconfigured_sends_nothing() {
    let c = empty_config(true);
    assert_eq!(plan_alerts(&c, "msg").len(), 0);
}

#[test]
fn telegram_url_is_built_from_token() {
    let mut c = empty_config(true);
    c.telegram_bot_token = Some("SECRET-REDACTED".to_string());
    c.telegram_chat_id = Some("42".to_string());
    let plan = plan_alerts(&c, "disk full");
    assert_eq!(plan.len(), 1);
    match &plan[0] {
        Delivery::Telegram { url, chat_id, text } => {
            assert_eq!(url, "https://api.telegram.org/botSECRET-REDACTED/sendMessage");
            assert_eq!(chat_id, "42");
            assert_eq!(text, "disk full");
        }
        _ => panic!("expected a telegram delivery"),
    }
}

#[test]
fn telegram_needs_both_fields_nonempty() {
    let mut c = empty_config(true);
    c.telegram_bot_token = Some("tok".to_string());
    c.telegram_chat_id = Some(String::new());
    assert_eq!(plan_alerts(&c, "m").len(), 0);
    c.telegram_chat_id = None;
    assert_eq!(plan_alerts(&c, "m").len(), 0);
}

#[test]
fn gotify_url_trims_trailing_slashes() {
    let mut c = empty_config(true);
    c.gotify_url = Some("https://gotify.example//".to_string());
    c.gotify_token = Some("tk".to_string());
    let plan = plan_alerts(&c, "warn");
    assert_eq!(plan.len(), 1);
    match &plan[0] {
        Delivery::Gotify { url, message } => {
            assert_eq!(url, "https://gotify.example/message?token=tk");
            assert_eq!(message, "warn");
        }
        _ => panic!("expected a gotify delivery"),
    }
}

#[test]
fn ntfy_bearer_only_with_token() {
    let mut c = empty_config(true);
    c.ntfy_url = Some("https://ntfy.example/topic".to_string());
    let plan = plan_alerts(&c, "hello");
    assert_eq!(plan.len(), 1);
    match &plan[0] {
        Delivery::Ntfy { url, body, bearer } => {
            assert_eq!(url, "https://ntfy.example/topic");
            assert_eq!(body, "hello");
            assert!(bearer.is_none());
        }
        _ => panic!("expected an ntfy delivery"),
    }

    c.ntfy_token = Some("SECRET-REDACTED".to_string());
    let plan2 = plan_alerts(&c, "hello");
    match &plan2[0] {
        Delivery::Ntfy { bearer, .. } => {
            assert_eq!(bearer.as_deref(), Some("SECRET-REDACTED"));
        }
        _ => panic!("expected an ntfy delivery"),
    }
}

#[test]
fn services_come_in_fixed_order() {
    let mut c = empty_config(true);
    c.webhook_url = Some("https://hook.example/a".to_string());
    c.slack_webhook_url = Some("https://slack.example/b".to_string());
    c.discord_webhook_url = Some("https://discord.example/c".to_string());
    let plan = plan_alerts(&c, "m");
    assert_eq!(plan.len(), 3);
    assert!(matches!(plan[0], Delivery::Webhook { .. }));
    assert!(matches!(plan[1], Delivery::Slack { .. }));
    assert!(matches!(plan[2], Delivery::Discord { .. }));
}

#[test]
fn pushover_and_teams() {
    let mut c = empty_config(true);
    c.pushover_user_key = Some("user".to_string());
    c.pushover_api_token = Some("token".to_string());
    c.teams_webhook_url = Some("https://teams.example/w".to_string());
    let plan = plan_alerts(&c, "m");
    assert_eq!(plan.len(), 2);
    match &plan[0] {
        Delivery::Pushover { token, user, message } => {
            assert_eq!(token, "token");
            assert_eq!(user, "user");
            assert_eq!(message, "m");
        }
        _ => panic!("expected a pushover delivery"),
    }
    assert!(matches!(plan[1], Delivery::Teams { .. }));
}
