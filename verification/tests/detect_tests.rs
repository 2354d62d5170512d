use ups_monitor::detect::{AlertEvent, TransitionDetector};
use ups_monitor::notify::{alert_toast, server_recovered_toast, server_unreachable_toast, ToastTimeout, Urgency};
use ups_monitor::status::{PowerState, UpsStatus};

fn status(id: &str, st: PowerState, pct: Option<u8>, rt: Option<u32>) -> UpsStatus {
    UpsStatus {
        id: id.into(),
        status: st,
        battery_pct: pct,
        runtime_secs: rt,
        load_pct: None,
        last_updated: 0,
    }
}

#[test]
fn fires_once_on_online_to_onbattery() {
    let mut d = TransitionDetector::new(20);
    assert!(d.observe(&status("a", PowerState::Online, Some(100), Some(3600))).is_empty());
    let ev = d.observe(&status("a", PowerState::OnBattery, Some(90), Some(3000)));
    assert_eq!(ev, vec![AlertEvent::WentOnBattery { id: "a".into() }]);
    // Staying on battery fires nothing further.
    assert!(d.observe(&status("a", PowerState::OnBattery, Some(85), Some(2800))).is_empty());
}

#[test]
fn fires_recovery_on_return_to_online() {
    let mut d = TransitionDetector::new(20);
    d.observe(&status("a", PowerState::Online, Some(100), None));
    d.observe(&status("a", PowerState::OnBattery, Some(90), None));
    let ev = d.observe(&status("a", PowerState::Online, Some(92), None));
    assert_eq!(ev, vec![AlertEvent::Recovered { id: "a".into() }]);
}

#[test]
fn low_battery_fires_once_per_crossing_and_rearms() {
    let mut d = TransitionDetector::new(20);
    d.observe(&status("a", PowerState::Online, Some(100), None));
    d.observe(&status("a", PowerState::OnBattery, Some(50), Some(1800)));
    // Cross below 20.
    let ev = d.observe(&status("a", PowerState::OnBattery, Some(19), Some(900)));
    assert_eq!(
        ev,
        vec![AlertEvent::LowBattery { id: "a".into(), pct: 19, runtime_secs: Some(900) }]
    );
    // Staying below threshold does not re-fire.
    assert!(d.observe(&status("a", PowerState::OnBattery, Some(15), Some(700))).is_empty());
    // Rising above threshold re-arms (no event), then dropping fires again.
    assert!(d.observe(&status("a", PowerState::OnBattery, Some(25), Some(1100))).is_empty());
    let ev2 = d.observe(&status("a", PowerState::OnBattery, Some(10), Some(400)));
    assert!(matches!(ev2.as_slice(), [AlertEvent::LowBattery { .. }]));
}

#[test]
fn going_online_rearms_low_battery_for_next_outage() {
    let mut d = TransitionDetector::new(20);
    d.observe(&status("a", PowerState::Online, Some(100), None));
    // First outage: goes on battery already below threshold.
    let ev = d.observe(&status("a", PowerState::OnBattery, Some(15), Some(600)));
    assert!(matches!(
        ev.as_slice(),
        [AlertEvent::WentOnBattery { .. }, AlertEvent::LowBattery { .. }]
    ));
    // Recovery fires Recovered and re-arms low-battery.
    let ev = d.observe(&status("a", PowerState::Online, Some(60), None));
    assert_eq!(ev, vec![AlertEvent::Recovered { id: "a".into() }]);
    // Next outage below threshold fires LowBattery again.
    let ev = d.observe(&status("a", PowerState::OnBattery, Some(12), Some(500)));
    assert!(matches!(
        ev.as_slice(),
        [AlertEvent::WentOnBattery { .. }, AlertEvent::LowBattery { .. }]
    ));
}

#[test]
fn unknown_status_does_not_fire_power_events() {
    let mut d = TransitionDetector::new(20);
    d.observe(&status("a", PowerState::Online, Some(100), None));
    assert!(d.observe(&status("a", PowerState::Unknown, None, None)).is_empty());
}

#[test]
fn repeated_snapshot_is_silent() {
    let mut d = TransitionDetector::new(20);
    d.observe(&status("a", PowerState::Online, Some(100), None));
    let s = status("a", PowerState::OnBattery, Some(10), Some(300));
    assert_eq!(d.observe(&s).len(), 2);
    assert!(d.observe(&s).is_empty());
}

#[test]
fn units_are_tracked_independently() {
    let mut d = TransitionDetector::new(20);
    d.observe(&status("a", PowerState::Online, Some(100), None));
    d.observe(&status("b", PowerState::OnBattery, Some(100), None));
    assert!(d.observe(&status("b", PowerState::OnBattery, Some(90), None)).is_empty());
    assert_eq!(
        d.observe(&status("a", PowerState::OnBattery, Some(90), None)),
        vec![AlertEvent::WentOnBattery { id: "a".into() }]
    );
}

#[test]
fn first_sighting_on_battery_below_threshold_only_fires_low_battery() {
    let mut d = TransitionDetector::new(20);
    let ev = d.observe(&status("a", PowerState::OnBattery, Some(5), None));
    assert_eq!(ev, vec![AlertEvent::LowBattery { id: "a".into(), pct: 5, runtime_secs: None }]);
}

#[test]
fn toast_texts_for_alerts() {
    let t = alert_toast(&AlertEvent::WentOnBattery { id: "rack1-a".into() });
    assert_eq!(t.summary, "UPS On Battery");
    assert_eq!(t.body, "rack1-a has switched to battery power.");
    assert_eq!(t.urgency, Urgency::Critical);
    assert_eq!(t.timeout, ToastTimeout::Never);

    let t = alert_toast(&AlertEvent::LowBattery { id: "rack1-a".into(), pct: 15, runtime_secs: Some(725) });
    assert_eq!(t.summary, "SHUT DOWN NOW — UPS Critical");
    assert_eq!(t.body, "rack1-a is at 15% battery (~12 min left). Shut down connected equipment now.");

    let t = alert_toast(&AlertEvent::LowBattery { id: "b".into(), pct: 3, runtime_secs: None });
    assert_eq!(t.body, "b is at 3% battery. Shut down connected equipment now.");

    let t = alert_toast(&AlertEvent::Recovered { id: "b".into() });
    assert_eq!(t.summary, "UPS Back to Normal");
    assert_eq!(t.body, "b is back on mains power.");
    assert_eq!(t.urgency, Urgency::Normal);
    assert_eq!(t.timeout, ToastTimeout::Milliseconds(6000));
}

#[test]
fn toast_texts_for_connectivity() {
    let t = server_unreachable_toast();
    assert_eq!(t.summary, "UPS Monitor — Server Unreachable");
    assert_eq!(t.body, "Cannot reach the UPS server. UPS state may be stale.");
    assert_eq!(t.timeout, ToastTimeout::Never);
    let t = server_recovered_toast();
    assert_eq!(t.summary, "UPS Monitor — Server Reachable Again");
    assert_eq!(t.body, "Reconnected to the UPS server.");
    assert_eq!(t.timeout, ToastTimeout::Milliseconds(5000));
}
