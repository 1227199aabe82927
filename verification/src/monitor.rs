//! The threshold monitor's decision core: which configured paths are in
//! violation, what alert events a cycle emits, and how long to sleep
//! between cycles. The surrounding loop performs the measurements (scans
//! and volume refreshes) and hands their results in as plain values.

use vstd::prelude::*;
use vstd::string::*;

use crate::strings::{dec_str, is_prefix_of, push_char, starts_with_at, u64_to_string};

verus! {

/// Which direction a monitored condition is checked: a usage ceiling or a
/// free-space floor.
#[derive(Clone, Copy, Debug, PartialEq, Eq, Structural)]
pub enum ThresholdType {
    MaxUsed,
    MinRemaining,
}

/// One configured path to watch, with its threshold in bytes.
pub struct MonitoredPath {
    pub path: String,
    pub threshold_type: ThresholdType,
    pub threshold_value: u64,
}

impl Clone for MonitoredPath {
    /// A field-for-field copy.
    fn clone(&self) -> (r: Self)
        ensures
            r == *self,
    {
        MonitoredPath {
            path: self.path.clone(),
            threshold_type: self.threshold_type,
            threshold_value: self.threshold_value,
        }
    }
}

/// The monitor's configuration, re-read once per cycle.
pub struct MonitoringConfig {
    pub enabled: bool,
    pub paths: Vec<MonitoredPath>,
    pub check_interval_minutes: u64,
}

/// One alert: a monitored path was found in violation this cycle.
pub struct AlertEvent {
    pub path: String,
    pub kind: ThresholdType,
    pub current_value: u64,
    pub threshold_value: u64,
    pub rendered_message: String,
}

/// A measured value of `value` violates a threshold of `threshold`:
/// above the ceiling for a usage check, below the floor for a free-space
/// check.
pub open spec fn violated(kind: ThresholdType, threshold: u64, value: u64) -> bool {
    match kind {
        ThresholdType::MaxUsed => value > threshold,
        ThresholdType::MinRemaining => value < threshold,
    }
}

/// The measurement for `p` exists and violates its threshold. An absent
/// measurement (failed scan, unresolved volume) is indeterminate and
/// never alerts.
pub open spec fn is_violation(p: MonitoredPath, m: Option<u64>) -> bool {
    match m {
        Some(v) => violated(p.threshold_type, p.threshold_value, v),
        None => false,
    }
}

/// The measured value, where one exists.
pub open spec fn meas_value(m: Option<u64>) -> u64 {
    match m {
        Some(v) => v,
        None => 0,
    }
}

/// The default human-readable alert text.
pub open spec fn default_message(
    kind: ThresholdType,
    path: Seq<char>,
    current: int,
    threshold: int,
) -> Seq<char> {
    match kind {
        ThresholdType::MaxUsed => "Volumetrik alert: "@ + path + " uses "@ + dec_str(current)
            + " bytes, above the configured maximum of "@ + dec_str(threshold) + " bytes"@,
        ThresholdType::MinRemaining => "Volumetrik alert: volume of "@ + path + " has "@
            + dec_str(current) + " bytes free, below the configured minimum of "@ + dec_str(
            threshold,
        ) + " bytes"@,
    }
}

/// Renders the default alert text.
pub fn default_alert_message(
    kind: ThresholdType,
    path: &str,
    current: u64,
    threshold: u64,
) -> (r: String)
    ensures
        r@ == default_message(kind, path@, current as int, threshold as int),
{
    let cur_s = u64_to_string(current);
    let thr_s = u64_to_string(threshold);
    match kind {
        ThresholdType::MaxUsed => {
            let mut s = String::from_str("Volumetrik alert: ");
            s.append(path);
            s.append(" uses ");
            s.append(cur_s.as_str());
            s.append(" bytes, above the configured maximum of ");
            s.append(thr_s.as_str());
            s.append(" bytes");
            s
        },
        ThresholdType::MinRemaining => {
            let mut s = String::from_str("Volumetrik alert: volume of ");
            s.append(path);
            s.append(" has ");
            s.append(cur_s.as_str());
            s.append(" bytes free, below the configured minimum of ");
            s.append(thr_s.as_str());
            s.append(" bytes");
            s
        },
    }
}

/// A caller-supplied message template, rendered: every occurrence of
/// `{path}`, `{current}` and `{threshold}` is replaced with the
/// corresponding value, all other characters pass through.
pub open spec fn render_from(
    t: Seq<char>,
    path: Seq<char>,
    cur: Seq<char>,
    thr: Seq<char>,
) -> Seq<char>
    decreases t.len(),
{
    if t.len() == 0 {
        Seq::<char>::empty()
    } else if t.len() >= 6 && is_prefix_of("{path}"@, t) {
        path + render_from(t.subrange(6, t.len() as int), path, cur, thr)
    } else if t.len() >= 9 && is_prefix_of("{current}"@, t) {
        cur + render_from(t.subrange(9, t.len() as int), path, cur, thr)
    } else if t.len() >= 11 && is_prefix_of("{threshold}"@, t) {
        thr + render_from(t.subrange(11, t.len() as int), path, cur, thr)
    } else {
        seq![t[0]] + render_from(t.subrange(1, t.len() as int), path, cur, thr)
    }
}

/// Renders a message template against one alert's values.
pub fn render_template(t: &str, path: &str, current: u64, threshold: u64) -> (r: String)
    ensures
        r@ == render_from(t@, path@, dec_str(current as int), dec_str(threshold as int)),
{
    let cur_s = u64_to_string(current);
    let thr_s = u64_to_string(threshold);
    let len = t.unicode_len();
    let mut out = String::new();
    let mut i: usize = 0;
    proof {
        reveal_strlit("{path}");
        reveal_strlit("{current}");
        reveal_strlit("{threshold}");
        assert(t@.subrange(0, len as int) =~= t@);
        assert(Seq::<char>::empty() + render_from(t@, path@, cur_s@, thr_s@) =~= render_from(
            t@,
            path@,
            cur_s@,
            thr_s@,
        ));
    }
    #[verifier::loop_isolation(false)]
    while i < len
        invariant
            i <= len,
            render_from(t@, path@, cur_s@, thr_s@) == out@ + render_from(
                t@.subrange(i as int, len as int),
                path@,
                cur_s@,
                thr_s@,
            ),
        decreases len - i,
    {
        let ghost suffix = t@.subrange(i as int, len as int);
        if starts_with_at(t, "{path}", i) {
            out.append(path);
            proof {
                assert(suffix.subrange(6, suffix.len() as int) =~= t@.subrange(
                    i + 6,
                    len as int,
                ));
            }
            i = i + 6;
        } else if starts_with_at(t, "{current}", i) {
            out.append(cur_s.as_str());
            proof {
                assert(suffix.subrange(9, suffix.len() as int) =~= t@.subrange(
                    i + 9,
                    len as int,
                ));
            }
            i = i + 9;
        } else if starts_with_at(t, "{threshold}", i) {
            out.append(thr_s.as_str());
            proof {
                assert(suffix.subrange(11, suffix.len() as int) =~= t@.subrange(
                    i + 11,
                    len as int,
                ));
            }
            i = i + 11;
        } else {
            let c = t.get_char(i);
            push_char(&mut out, c);
            proof {
                assert(suffix[0] == c);
                assert(suffix.subrange(1, suffix.len() as int) =~= t@.subrange(
                    i + 1,
                    len as int,
                ));
            }
            i = i + 1;
        }
    }
    proof {
        assert(t@.subrange(len as int, len as int) =~= Seq::<char>::empty());
        assert(out@ + Seq::<char>::empty() =~= out@);
    }
    out
}

/// The view of an optional template.
pub open spec fn template_view(t: Option<&str>) -> Option<Seq<char>> {
    match t {
        Some(s) => Some(s@),
        None => None,
    }
}

/// The message an alert for `p` carries: the rendered template when one
/// is configured, the default text otherwise.
pub open spec fn expected_message(
    tmpl: Option<Seq<char>>,
    kind: ThresholdType,
    path: Seq<char>,
    current: int,
    threshold: int,
) -> Seq<char> {
    match tmpl {
        Some(t) => render_from(t, path, dec_str(current), dec_str(threshold)),
        None => default_message(kind, path, current, threshold),
    }
}

/// Every field of the event reports the violation it was raised for.
pub open spec fn event_ok(
    p: MonitoredPath,
    v: u64,
    tmpl: Option<Seq<char>>,
    e: AlertEvent,
) -> bool {
    &&& e.path@ == p.path@
    &&& e.kind == p.threshold_type
    &&& e.current_value == v
    &&& e.threshold_value == p.threshold_value
    &&& e.rendered_message@ == expected_message(
        tmpl,
        p.threshold_type,
        p.path@,
        v as int,
        p.threshold_value as int,
    )
}

/// Evaluates one monitored path against its measurement: an alert event
/// exactly when the measurement exists and violates the threshold.
pub fn evaluate_path(p: &MonitoredPath, measured: Option<u64>, template: Option<&str>) -> (r:
    Option<AlertEvent>)
    ensures
        match r {
            Some(e) => is_violation(*p, measured) && event_ok(
                *p,
                meas_value(measured),
                template_view(template),
                e,
            ),
            None => !is_violation(*p, measured),
        },
{
    match measured {
        None => None,
        Some(v) => {
            let hit = match p.threshold_type {
                ThresholdType::MaxUsed => v > p.threshold_value,
                ThresholdType::MinRemaining => v < p.threshold_value,
            };
            if hit {
                let msg = match template {
                    Some(t) => render_template(t, p.path.as_str(), v, p.threshold_value),
                    None => default_alert_message(
                        p.threshold_type,
                        p.path.as_str(),
                        v,
                        p.threshold_value,
                    ),
                };
                Some(
                    AlertEvent {
                        path: p.path.clone(),
                        kind: p.threshold_type,
                        current_value: v,
                        threshold_value: p.threshold_value,
                        rendered_message: msg,
                    },
                )
            } else {
                None
            }
        },
    }
}

/// `events` is exactly the alert list a cycle produces for the paths from
/// index `i` on: one event per violating path, in configuration order,
/// nothing else.
pub open spec fn cycle_events_ok(
    paths: Seq<MonitoredPath>,
    meas: Seq<Option<u64>>,
    tmpl: Option<Seq<char>>,
    i: int,
    events: Seq<AlertEvent>,
) -> bool
    decreases paths.len() - i,
{
    if i < 0 || i >= paths.len() {
        events.len() == 0
    } else if is_violation(paths[i], meas[i]) {
        &&& events.len() > 0
        &&& event_ok(paths[i], meas_value(meas[i]), tmpl, events[0])
        &&& cycle_events_ok(paths, meas, tmpl, i + 1, events.subrange(1, events.len() as int))
    } else {
        cycle_events_ok(paths, meas, tmpl, i + 1, events)
    }
}

/// Number of violating paths from index `i` on.
pub open spec fn viol_count(paths: Seq<MonitoredPath>, meas: Seq<Option<u64>>, i: int) -> int
    decreases paths.len() - i,
{
    if i < 0 || i >= paths.len() {
        0
    } else {
        (if is_violation(paths[i], meas[i]) {
            1int
        } else {
            0int
        }) + viol_count(paths, meas, i + 1)
    }
}

/// A cycle emits exactly one event per violating path: the event list's
/// length equals the number of violations.
pub proof fn lemma_cycle_event_count(
    paths: Seq<MonitoredPath>,
    meas: Seq<Option<u64>>,
    tmpl: Option<Seq<char>>,
    i: int,
    events: Seq<AlertEvent>,
)
    requires
        cycle_events_ok(paths, meas, tmpl, i, events),
    ensures
        events.len() == viol_count(paths, meas, i),
    decreases paths.len() - i,
{
    if i < 0 || i >= paths.len() {
    } else if is_violation(paths[i], meas[i]) {
        lemma_cycle_event_count(
            paths,
            meas,
            tmpl,
            i + 1,
            events.subrange(1, events.len() as int),
        );
    } else {
        lemma_cycle_event_count(paths, meas, tmpl, i + 1, events);
    }
}

/// Evaluates the paths from index `i` on.
fn cycle_from(
    paths: &Vec<MonitoredPath>,
    measurements: &Vec<Option<u64>>,
    template: Option<&str>,
    i: usize,
) -> (r: Vec<AlertEvent>)
    requires
        i <= paths@.len(),
        measurements@.len() == paths@.len(),
    ensures
        cycle_events_ok(paths@, measurements@, template_view(template), i as int, r@),
    decreases paths@.len() - i,
{
    if i == paths.len() {
        Vec::new()
    } else {
        let here = evaluate_path(&paths[i], measurements[i], template);
        let mut rest = cycle_from(paths, measurements, template, i + 1);
        match here {
            Some(e) => {
                let mut out: Vec<AlertEvent> = Vec::new();
                out.push(e);
                let ghost rest_view = rest@;
                out.append(&mut rest);
                proof {
                    assert(out@.subrange(1, out@.len() as int) =~= rest_view);
                }
                out
            },
            None => rest,
        }
    }
}

/// One monitor cycle over the configured paths: each path's measurement
/// is compared against its threshold and the violating ones produce alert
/// events, in configuration order. A path whose measurement is absent is
/// skipped: one bad path never stops evaluation of the others.
pub fn monitor_cycle(
    paths: &Vec<MonitoredPath>,
    measurements: &Vec<Option<u64>>,
    template: Option<&str>,
) -> (r: Vec<AlertEvent>)
    requires
        measurements@.len() == paths@.len(),
    ensures
        cycle_events_ok(paths@, measurements@, template_view(template), 0, r@),
        r@.len() == viol_count(paths@, measurements@, 0),
{
    let r = cycle_from(paths, measurements, template, 0);
    proof {
        lemma_cycle_event_count(paths@, measurements@, template_view(template), 0, r@);
    }
    r
}

/// Where a monitored path's measurement comes from.
#[derive(Clone, Copy, Debug, PartialEq, Eq, Structural)]
pub enum MeasurementSource {
    /// Scan the path and take its aggregate used bytes.
    ScanUsage,
    /// Resolve the path's volume and take its available bytes.
    VolumeAvailable,
}

/// Which collaborator measures a threshold kind: a usage ceiling is
/// checked against a scan, a free-space floor against the resolved
/// volume.
pub fn measurement_source(kind: ThresholdType) -> (r: MeasurementSource)
    ensures
        r == (match kind {
            ThresholdType::MaxUsed => MeasurementSource::ScanUsage,
            ThresholdType::MinRemaining => MeasurementSource::VolumeAvailable,
        }),
{
    match kind {
        ThresholdType::MaxUsed => MeasurementSource::ScanUsage,
        ThresholdType::MinRemaining => MeasurementSource::VolumeAvailable,
    }
}

/// How long the idle monitor waits before re-checking the enabled flag.
pub const IDLE_RECHECK_SECONDS: u64 = 10;

/// The monitor's two states: disabled (re-check the flag shortly) or
/// enabled (evaluate every cycle, then sleep the configured interval).
#[derive(Clone, Copy, Debug, PartialEq, Eq, Structural)]
pub enum MonitorState {
    Idle,
    Active,
}

/// The state the monitor is in for a cycle, read fresh from the enabled
/// flag at the start of every loop iteration.
pub fn monitor_state(enabled: bool) -> (r: MonitorState)
    ensures
        r == (if enabled {
            MonitorState::Active
        } else {
            MonitorState::Idle
        }),
{
    if enabled {
        MonitorState::Active
    } else {
        MonitorState::Idle
    }
}

/// Seconds the loop sleeps after a cycle in the given state: a short
/// fixed interval while idle, the configured interval (saturating at the
/// integer limit) while active.
pub fn sleep_seconds(state: MonitorState, check_interval_minutes: u64) -> (r: u64)
    ensures
        state is Idle ==> r == IDLE_RECHECK_SECONDS,
        state is Active ==> r as int == (if 60 * (check_interval_minutes as int) > u64::MAX as int {
            u64::MAX as int
        } else {
            60 * (check_interval_minutes as int)
        }),
{
    match state {
        MonitorState::Idle => IDLE_RECHECK_SECONDS,
        MonitorState::Active => {
            if check_interval_minutes > u64::MAX / 60 {
                u64::MAX
            } else {
                check_interval_minutes * 60
            }
        },
    }
}

} // verus!
