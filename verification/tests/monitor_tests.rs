use volumetrik::monitor::{
    default_alert_message, evaluate_path, measurement_source, monitor_cycle, monitor_state,
    render_template, sleep_seconds, AlertEvent, MeasurementSource, MonitorState, MonitoredPath,
    ThresholdType, IDLE_RECHECK_SECONDS,
};

const GIB: u64 = 1024 * 1024 * 1024;

fn max_used(path: &str, threshold: u64) -> MonitoredPath {
    MonitoredPath {
        path: path.to_string(),
        threshold_type: ThresholdType::MaxUsed,
        threshold_value: threshold,
    }
}

fn min_remaining(path: &str, threshold: u64) -> MonitoredPath {
    MonitoredPath {
        path: path.to_string(),
        threshold_type: ThresholdType::MinRemaining,
        threshold_value: threshold,
    }
}

#[test]
fn threshold_cycle_emits_once_while_held() {
    let paths = vec![max_used("/data", 10 * GIB)];

    // 12 GiB used against a 10 GiB ceiling: exactly one event
    let over = vec![Some(12 * GIB)];
    let events: Vec<AlertEvent> = monitor_cycle(&paths, &over, None);
    assert_eq!(events.len(), 1);
    assert_eq!(events[0].path, "/data");
    assert_eq!(events[0].kind, ThresholdType::MaxUsed);
    assert_eq!(events[0].current_value, 12 * GIB);
    assert_eq!(events[0].threshold_value, 10 * GIB);

    // usage back under the ceiling: no events
    let under = vec![Some(8 * GIB)];
    let calm = monitor_cycle(&paths, &under, None);
    assert_eq!(calm.len(), 0);
}

#[test]
fn exact_threshold_does_not_alert() {
    let p = max_used("/data", 100);
    assert!(evaluate_path(&p, Some(100), None).is_none());
    assert!(evaluate_path(&p, Some(101), None).is_some());
}

#[test]
fn min_remaining_alerts_below_floor() {
    let p = min_remaining("/backups", 5 * GIB);
    let e = evaluate_path(&p, Some(2 * GIB), None).unwrap();
    assert_eq!(e.kind, ThresholdType::MinRemaining);
    assert_eq!(e.current_value, 2 * GIB);
    assert!(evaluate_path(&p, Some(5 * GIB), None).is_none());
    assert!(evaluate_path(&p, Some(9 * GIB), None).is_none());
}

#[test]
fn missing_measurement_is_skipped() {
    // an unresolved volume or failed scan must not raise a false alert
    let p = min_remaining("/backups", 5 * GIB);
    assert!(evaluate_path(&p, None, None).is_none());

    let paths = vec![max_used("/a", 1), min_remaining("/b", 100), max_used("/c", 1)];
    let meas = vec![Some(5), None, Some(7)];
    let events = monitor_cycle(&paths, &meas, None);
    assert_eq!(events.len(), 2);
    assert_eq!(events[0].path, "/a");
    assert_eq!(events[1].path, "/c");
}

#[test]
fn default_message_wording() {
    let m = default_alert_message(ThresholdType::MaxUsed, "/data", 12, 10);
    assert_eq!(
        m,
        "Volumetrik alert: /data uses 12 bytes, above the configured maximum of 10 bytes"
    );
    let m2 = default_alert_message(ThresholdType::MinRemaining, "/data", 3, 10);
    assert_eq!(
        m2,
        "Volumetrik alert: volume of /data has 3 bytes free, below the configured minimum of 10 bytes"
    );
}

#[test]
fn event_carries_default_message() {
    let p = max_used("/data", 10);
    let e = evaluate_path(&p, Some(12), None).unwrap();
    assert_eq!(
        e.rendered_message,
        "Volumetrik alert: /data uses 12 bytes, above the configured maximum of 10 bytes"
    );
}

#[test]
fn template_overrides_default() {
    let rendered = render_template("{path}: {current} of {threshold}", "/x", 7, 5);
    assert_eq!(rendered, "/x: 7 of 5");

    // every occurrence is replaced, unknown braces pass through
    let twice = render_template("{path}{path} {nope} {current}", "/p", 1, 2);
    assert_eq!(twice, "/p/p {nope} 1");

    let p = max_used("/srv", 5);
    let e = evaluate_path(&p, Some(7), Some("usage on {path} hit {current}")).unwrap();
    assert_eq!(e.rendered_message, "usage on /srv hit 7");
}

#[test]
fn measurement_sources() {
    assert_eq!(measurement_source(ThresholdType::MaxUsed), MeasurementSource::ScanUsage);
    assert_eq!(
        measurement_source(ThresholdType::MinRemaining),
        MeasurementSource::VolumeAvailable
    );
}

#[test]
fn state_follows_enabled_flag() {
    assert_eq!(monitor_state(true), MonitorState::Active);
    assert_eq!(monitor_state(false), MonitorState::Idle);
}

#[test]
fn sleep_durations() {
    assert_eq!(sleep_seconds(MonitorState::Idle, 60), IDLE_RECHECK_SECONDS);
    assert_eq!(sleep_seconds(MonitorState::Active, 60), 3600);
    assert_eq!(sleep_seconds(MonitorState::Active, 1), 60);
    // the interval saturates instead of overflowing
    assert_eq!(sleep_seconds(MonitorState::Active, u64::MAX), u64::MAX);
}
