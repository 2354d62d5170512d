use ups_monitor::client_config::{AlertsSection, Config, PollingSection, ServerSection};
use ups_monitor::client_poller::{PollTracker, PollerControl};
use ups_monitor::client_state::{
    apply_failure, apply_success, apply_success_at, by_id, tray_state, tray_tooltip, ClientState,
    Connectivity, TrayState,
};
use ups_monitor::health::{health_tooltip, overall_health, Health};
use ups_monitor::logbuf::{BufferWriter, LogBuffer, MAX_LINES};
use ups_monitor::mock::{build_mock_units, mock_fail_ids, MockUps};
use ups_monitor::server_config::{default_bind_ip, default_port, ServerConfig, UpsEntry};
use ups_monitor::server_poller::{apply_simulation, apply_simulation_at, new_handles, register, stop_poller};
use ups_monitor::settings::{dialog_cancellable, no_server_note, startup_dialog};
use ups_monitor::server_state::{ensure_entry, ensure_entry_at, new_shared_state, remove, rename, snapshot, update};
use ups_monitor::status::{PowerState, UpsStatus};
use vstd::hash_set::StringHashSet;

fn status(id: &str, st: PowerState, pct: Option<u8>) -> UpsStatus {
    UpsStatus { id: id.into(), status: st, battery_pct: pct, runtime_secs: None, load_pct: None, last_updated: 1 }
}

fn entry(id: &str) -> UpsEntry {
    UpsEntry { id: id.into(), serial: format!("S-{id}") }
}

#[test]
fn server_state_starts_unknown_and_snapshots_sorted() {
    let ups = vec![entry("rack2"), entry("rack1-b"), entry("rack1-a")];
    let mut t = new_shared_state(&ups);
    let snap = snapshot(&t);
    let ids: Vec<&str> = snap.iter().map(|s| s.id.as_str()).collect();
    assert_eq!(ids, vec!["rack1-a", "rack1-b", "rack2"]);
    assert!(snap.iter().all(|s| s.status == PowerState::Unknown && s.battery_pct.is_none()));

    update(&mut t, status("rack1-b", PowerState::OnBattery, Some(80)));
    update(&mut t, status("aux", PowerState::Online, Some(100)));
    let snap = snapshot(&t);
    let ids: Vec<&str> = snap.iter().map(|s| s.id.as_str()).collect();
    assert_eq!(ids, vec!["aux", "rack1-a", "rack1-b", "rack2"]);
    assert_eq!(snap[2].status, PowerState::OnBattery);
    assert_eq!(snap[2].battery_pct, Some(80));
}

#[test]
fn duplicate_ids_keep_one_entry() {
    let ups = vec![entry("a"), entry("a")];
    let t = new_shared_state(&ups);
    assert_eq!(snapshot(&t).len(), 1);
}

#[test]
fn simulation_drains_from_stored_values() {
    let ups = vec![entry("a")];
    let mut t = new_shared_state(&ups);
    let s = apply_simulation_at(&t, true, status("a", PowerState::Online, Some(97)), 42);
    assert_eq!(s.status, PowerState::OnBattery);
    assert_eq!(s.battery_pct, Some(100));
    assert_eq!(s.runtime_secs, Some(1800));
    assert_eq!(s.last_updated, 42);
    update(&mut t, s);
    let s2 = apply_simulation_at(&t, true, status("a", PowerState::Online, Some(97)), 43);
    assert_eq!(s2.battery_pct, Some(99));
    assert_eq!(s2.runtime_secs, Some(1740));
    let unchanged = apply_simulation(&t, false, status("a", PowerState::Online, Some(97)));
    assert_eq!(unchanged.status, PowerState::Online);
    assert_eq!(unchanged.battery_pct, Some(97));
    assert_eq!(unchanged.last_updated, 1);
}

#[test]
fn simulation_floors() {
    let ups = vec![entry("a")];
    let mut t = new_shared_state(&ups);
    update(&mut t, UpsStatus { runtime_secs: Some(320), ..status("a", PowerState::OnBattery, Some(6)) });
    let s = apply_simulation_at(&t, true, status("a", PowerState::Online, None), 0);
    assert_eq!(s.battery_pct, Some(5));
    assert_eq!(s.runtime_secs, Some(300));
    update(&mut t, s);
    let s = apply_simulation_at(&t, true, status("a", PowerState::Online, None), 0);
    assert_eq!(s.battery_pct, Some(100));
    assert_eq!(s.runtime_secs, Some(1800));
}

#[test]
fn poller_handles_register_and_stop() {
    let mut h = new_handles::<u32>();
    register(&mut h, "a", 1);
    register(&mut h, "b", 2);
    register(&mut h, "a", 3);
    assert_eq!(stop_poller(&mut h, "a"), Some(3));
    assert_eq!(stop_poller(&mut h, "a"), None);
    assert_eq!(stop_poller(&mut h, "b"), Some(2));
}

#[test]
fn server_health_and_tooltip() {
    assert_eq!(overall_health(&[]), Health::AllOnline);
    let v = vec![status("a", PowerState::Online, None), status("b", PowerState::OnBattery, None)];
    assert_eq!(overall_health(&v), Health::AnyOnBattery);
    let w = vec![status("a", PowerState::OnBattery, None), status("b", PowerState::Unknown, None)];
    assert_eq!(overall_health(&w), Health::AnyUnknown);
    assert_eq!(health_tooltip(Health::AnyUnknown), "UPS Monitor — a UPS is unreachable");
    assert_eq!(health_tooltip(Health::AllOnline), "UPS Monitor — all online");
}

#[test]
fn client_state_transitions_and_tray() {
    let mut cs = ClientState::default();
    assert_eq!(cs.connectivity, Connectivity::Unreachable);
    assert_eq!(tray_state(&cs), TrayState::Unreachable);
    apply_success_at(&mut cs, vec![status("a", PowerState::Online, None)], 99);
    assert_eq!(cs.connectivity, Connectivity::Connected);
    assert_eq!(cs.last_success, Some(99));
    assert_eq!(tray_state(&cs), TrayState::Healthy);
    apply_success(&mut cs, vec![status("a", PowerState::OnBattery, None)]);
    assert_eq!(tray_state(&cs), TrayState::OnBattery);
    assert!(cs.last_success.is_some());
    apply_failure(&mut cs, false);
    assert_eq!(cs.connectivity, Connectivity::Connected);
    apply_failure(&mut cs, true);
    assert_eq!(cs.connectivity, Connectivity::Unreachable);
    assert_eq!(tray_state(&cs), TrayState::Unreachable);
    assert_eq!(tray_tooltip(TrayState::Unreachable), "UPS Monitor — server unreachable");
}

#[test]
fn by_id_keeps_last_entry() {
    let mut cs = ClientState::default();
    apply_success_at(
        &mut cs,
        vec![status("a", PowerState::Online, Some(1)), status("a", PowerState::OnBattery, Some(2))],
        0,
    );
    let m = by_id(&cs);
    assert_eq!(m.get("a").map(|s| s.battery_pct), Some(Some(2)));
}

#[test]
fn unreachable_after_two_missed_polls_then_recovery() {
    let mut t = PollTracker::new(2);
    let o = t.record(false);
    assert!(!o.server_unreachable);
    let o = t.record(false);
    assert!(o.server_unreachable);
    let o = t.record(false);
    assert!(!o.server_unreachable && !o.server_recovered);
    let o = t.record(true);
    assert!(o.server_recovered && !o.server_unreachable);
    let o = t.record(true);
    assert!(!o.server_recovered);
}

#[test]
fn poller_control_hands_back_previous_flag() {
    let with = client_cfg("10.0.0.9");
    let without = client_cfg("");
    let mut c = PollerControl::<u8>::new();
    assert_eq!(c.stop_current(), None);
    assert_eq!(c.restart(&with, 1), (None, true));
    assert_eq!(c.restart(&with, 2), (Some(1), true));
    assert_eq!(c.stop_current(), Some(2));
    assert_eq!(c.stop_current(), None);
    assert_eq!(c.restart(&with, 3), (None, true));
    assert_eq!(c.restart(&without, 4), (Some(3), false));
    assert_eq!(c.stop_current(), None);
}

fn client_cfg(address: &str) -> Config {
    Config {
        server: ServerSection { address: address.into(), port: 8420 },
        polling: PollingSection::default(),
        alerts: AlertsSection::default(),
    }
}



#[test]
fn configs_have_documented_defaults_and_url() {
    let s = ServerConfig::default();
    assert_eq!(s.bind_ip, "0.0.0.0");
    assert_eq!(s.port, 8420);
    assert_eq!(default_bind_ip(), "0.0.0.0");
    assert_eq!(default_port(), 8420);
    let p = PollingSection::default();
    assert_eq!(p.interval_secs, 5);
    assert_eq!(p.unreachable_after_missed, 2);
    assert_eq!(AlertsSection::default().low_battery_threshold_pct, 20);
    let cfg = Config {
        server: ServerSection { address: "192.168.1.50".into(), port: 8420 },
        polling: p,
        alerts: AlertsSection::default(),
    };
    assert_eq!(cfg.base_url(), "http://192.168.1.50:8420");
}

#[test]
fn log_buffer_keeps_newest_lines() {
    let mut b = LogBuffer::new();
    for i in 0..(MAX_LINES + 5) {
        b.push(&format!("line {i}"));
    }
    let snap = b.snapshot();
    assert_eq!(snap.len(), MAX_LINES);
    assert_eq!(snap[0], "line 5");
    assert_eq!(snap[MAX_LINES - 1], format!("line {}", MAX_LINES + 4));
}

#[test]
fn buffer_writer_splits_lines_and_skips_empty_ones() {
    let mut b = LogBuffer::new();
    let mut w = BufferWriter;
    let n = w.write(&mut b, b"first\r\n\nsecond\nthird\r");
    assert_eq!(n, 21);
    assert_eq!(b.snapshot(), vec!["first".to_string(), "second".to_string(), "third\r".to_string()]);
    w.write(&mut b, &[0x66, 0xFF, 0x0A]);
    assert_eq!(b.snapshot()[3], "f\u{FFFD}");
}

#[test]
fn mock_units_drain_and_recharge() {
    let mut failing = StringHashSet::new();
    failing.insert("b".to_string());
    let units = build_mock_units(&vec!["a".to_string(), "b".to_string()], &failing);
    assert_eq!(units.len(), 2);
    let mut a = MockUps::new("a", false);
    let s = a.tick_with(2, 1, 10);
    assert_eq!(s.status, PowerState::Online);
    assert_eq!(s.battery_pct, Some(100));
    assert_eq!(s.load_pct, Some(36));
    let mut b = MockUps::new("b", true);
    let s = b.tick_with(3, -2, 11);
    assert_eq!(s.status, PowerState::OnBattery);
    assert_eq!(s.battery_pct, Some(97));
    assert_eq!(s.runtime_secs, Some(3480));
    assert_eq!(s.load_pct, Some(33));
    let s = b.tick();
    assert!(matches!(s.battery_pct, Some(94..=96)));
    let mut f = units.into_iter().nth(1).unwrap();
    assert_eq!(f.tick().status, PowerState::OnBattery);
}

#[test]
fn mock_fail_list_is_split_at_commas_and_trimmed() {
    let set = mock_fail_ids(Some(" rack1-a, rack2 ,,rack1-a"));
    assert_eq!(set.len(), 3);
    assert!(set.contains("rack1-a"));
    assert!(set.contains("rack2"));
    assert!(set.contains(""));
    assert!(!set.contains(" rack2 "));
    assert!(mock_fail_ids(None).is_empty());
    let units = build_mock_units(&vec!["rack2".to_string(), "rack3".to_string()], &set);
    assert_eq!(units.len(), 2);
}

#[test]
fn server_state_rename_remove_and_ensure_entry() {
    let mut t = new_shared_state(&vec![entry("b"), entry("a")]);
    update(&mut t, status("a", PowerState::OnBattery, Some(42)));
    rename(&mut t, "a", "z");
    let snap = snapshot(&t);
    let ids: Vec<&str> = snap.iter().map(|s| s.id.as_str()).collect();
    assert_eq!(ids, vec!["b", "z"]);
    assert_eq!(snap[1].status, PowerState::OnBattery);
    assert_eq!(snap[1].battery_pct, Some(42));
    rename(&mut t, "missing", "y");
    assert_eq!(snapshot(&t).len(), 2);

    remove(&mut t, "b");
    remove(&mut t, "b");
    let snap = snapshot(&t);
    assert_eq!(snap.len(), 1);
    assert_eq!(snap[0].id, "z");

    ensure_entry_at(&mut t, "c", 7);
    ensure_entry(&mut t, "z");
    let snap = snapshot(&t);
    assert_eq!(snap.len(), 2);
    assert_eq!(snap[0].id, "c");
    assert_eq!(snap[0].status, PowerState::Unknown);
    assert_eq!(snap[0].last_updated, 7);
    assert_eq!(snap[1].battery_pct, Some(42));
}

#[test]
fn unconfigured_server_opens_the_dialog_and_starts_no_poller() {
    let without = client_cfg("");
    assert!(!without.has_server());
    let d = startup_dialog(&without).unwrap();
    assert_eq!(d.address, "");
    assert_eq!(d.port, "8420");
    assert!(!dialog_cancellable(&without));
    assert_eq!(
        no_server_note(&without),
        Some("No server configured yet — set one up in Server settings.".to_string())
    );
    let with = client_cfg("ups-host");
    assert!(with.has_server());
    assert!(startup_dialog(&with).is_none());
    assert!(dialog_cancellable(&with));
    assert_eq!(no_server_note(&with), None);
}

#[test]
fn log_text_is_split_into_lines() {
    let mut b = LogBuffer::new();
    b.push_text("a\r\n\nb\nc");
    assert_eq!(b.snapshot(), vec!["a".to_string(), "b".to_string(), "c".to_string()]);
}
