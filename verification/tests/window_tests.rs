use ups_monitor::admin::RenameDecision;
use ups_monitor::dialogs::{unit_added_at, AddDialog, RenameDialog};
use ups_monitor::server_config::UpsEntry;
use ups_monitor::server_poller::{new_handles, register, stop_poller};
use ups_monitor::server_state::{new_shared_state, snapshot};
use ups_monitor::display::{simulation_button_label, simulation_note};
use ups_monitor::hid::DiscoveredUps;
use ups_monitor::settings::ServerDialog;
use ups_monitor::window::{handle_window_event, initial_window, WindowAction, WindowEvent, WindowState};

fn unit(serial: &str, product: &str) -> DiscoveredUps {
    DiscoveredUps { path: format!("/dev/{serial}"), serial: serial.into(), product: product.into() }
}

#[test]
fn closing_minimizes_to_tray_once_and_tray_menu_restores() {
    let mut w = initial_window();
    assert_eq!(w, WindowState { visible: true, close_handled: false, show_console: false });
    assert_eq!(handle_window_event(&mut w, WindowEvent::ToggleConsole), WindowAction::Restore);
    assert!(w.show_console);
    assert_eq!(handle_window_event(&mut w, WindowEvent::CloseRequested), WindowAction::MinimizeToTray);
    assert_eq!(w, WindowState { visible: false, close_handled: true, show_console: false });
    assert_eq!(handle_window_event(&mut w, WindowEvent::CloseRequested), WindowAction::Nothing);
    assert_eq!(handle_window_event(&mut w, WindowEvent::Show), WindowAction::Restore);
    assert_eq!(w, WindowState { visible: true, close_handled: false, show_console: false });
    assert_eq!(handle_window_event(&mut w, WindowEvent::CloseRequested), WindowAction::MinimizeToTray);
}

#[test]
fn simulation_button_texts() {
    assert_eq!(simulation_button_label(false), "Simulate UPS on Battery");
    assert_eq!(simulation_button_label(true), "■ Stop simulation (ON BATTERY)");
    assert_eq!(simulation_note(true), Some("Simulation active: all units report OnBattery".to_string()));
    assert_eq!(simulation_note(false), None);
}

#[test]
fn add_dialog_scan_edit_and_commit() {
    let mut d = AddDialog::new();
    assert!(!d.open);
    d.open_dialog();
    assert!(d.open && !d.scanned && d.discovered.is_empty() && d.error.is_none());

    let found = vec![unit("S1", "Smart-UPS 1500"), unit("S2", " Back-UPS "), unit("S3", "")];
    d.scan_finished(Ok(found), &vec!["S1".to_string()]);
    assert!(d.scanned);
    assert_eq!(d.discovered.len(), 2);
    assert_eq!(d.discovered[0].serial, "S2");
    assert_eq!(d.id_text(&unit("S2", " Back-UPS ")), "back-ups");
    assert_eq!(d.id_text(&unit("S3", "")), "ups-S3");

    d.edit_id("S2", "  rack1-a ");
    assert_eq!(d.id_text(&unit("S2", " Back-UPS ")), "  rack1-a ");
    let existing = vec!["rack2".to_string()];
    assert!(d.commit_add(&existing, "S2", "   ").is_none());
    assert_eq!(d.error.as_deref(), Some("Id cannot be empty."));
    assert!(d.commit_add(&existing, "S2", "rack2").is_none());
    assert_eq!(d.error.as_deref(), Some("Id \"rack2\" is already in use."));
    let e = d.commit_add(&existing, "S2", "  rack1-a ").unwrap();
    assert_eq!((e.id.as_str(), e.serial.as_str()), ("rack1-a", "S2"));
    d.save_failed("disk full");
    assert_eq!(d.error.as_deref(), Some("Failed to save config: disk full"));
    d.added("S2");
    assert!(d.error.is_none());
    assert_eq!(d.discovered.len(), 1);
    assert_eq!(d.discovered[0].serial, "S3");
    assert_eq!(d.id_text(&unit("S2", "Other")), "other");

    d.scan_finished(Err("no backend".to_string()), &vec![]);
    assert_eq!(d.error.as_deref(), Some("HID scan failed: no backend"));
    assert!(d.discovered.is_empty());
}

#[test]
fn rename_dialog_commit() {
    let existing = vec!["a".to_string(), "b".to_string()];
    let mut r = RenameDialog::open("a");
    assert_eq!(r.buffer, "a");
    assert!(matches!(r.commit(&existing), RenameDecision::Unchanged));
    r.buffer = "b".to_string();
    assert!(matches!(r.commit(&existing), RenameDecision::Rejected(_)));
    assert_eq!(r.error.as_deref(), Some("Id \"b\" is already in use."));
    r.buffer = " c ".to_string();
    assert!(matches!(r.commit(&existing), RenameDecision::Renamed(n) if n == "c"));
    r.save_failed("read-only");
    assert_eq!(r.error.as_deref(), Some("Failed to save config: read-only"));
}

#[test]
fn server_dialog_commit_and_save_failure() {
    let mut d = ServerDialog { address: "  ".into(), port: "8420".into(), error: None };
    assert_eq!(d.commit(), None);
    assert_eq!(d.error.as_deref(), Some("Address cannot be empty."));
    d.address = " 10.0.0.5 ".into();
    d.port = "70000".into();
    assert_eq!(d.commit(), None);
    assert_eq!(d.error.as_deref(), Some("Port must be a number between 1 and 65535."));
    d.port = " +8421 ".into();
    assert_eq!(d.commit(), Some(("10.0.0.5".to_string(), 8421)));
    d.save_failed("denied");
    assert_eq!(d.error.as_deref(), Some("Failed to save config: denied"));
}

#[test]
fn server_dialog_port_text_parses_back() {
    use_port(8420);
    use_port(1);
    use_port(65535);
}

fn use_port(port: u16) {
    let cfg = ups_monitor::client_config::Config {
        server: ups_monitor::client_config::ServerSection { address: "ups-host".into(), port },
        polling: ups_monitor::client_config::PollingSection { interval_secs: 5, unreachable_after_missed: 2 },
        alerts: ups_monitor::client_config::AlertsSection { low_battery_threshold_pct: 20 },
    };
    let d = ServerDialog::from_config(&cfg);
    assert_eq!(d.port.trim().parse::<u16>(), Ok(port));
    assert_eq!(d.address, "ups-host");
    assert!(d.error.is_none());
}

#[test]
fn adding_a_unit_updates_config_state_pollers_and_dialog() {
    let mut ups = vec![UpsEntry { id: "a".into(), serial: "S1".into() }];
    let mut d = AddDialog::new();
    d.open_dialog();
    d.scan_finished(Ok(vec![unit("S2", "Back-UPS"), unit("S3", "x")]), &vec!["S1".to_string()]);
    assert!(!d.commit_add_to(&mut ups, "S2", " a "));
    assert_eq!(ups.len(), 1);
    assert_eq!(d.error.as_deref(), Some("Id \"a\" is already in use."));
    assert!(d.commit_add_to(&mut ups, "S2", " b "));
    assert_eq!((ups[1].id.as_str(), ups[1].serial.as_str()), ("b", "S2"));

    let mut table = new_shared_state(&vec![UpsEntry { id: "a".into(), serial: "S1".into() }]);
    let mut handles = new_handles::<u8>();
    register(&mut handles, "a", 1);
    unit_added_at(&mut table, &mut handles, &mut d, &ups[1], 2, 77);
    let snap = snapshot(&table);
    assert_eq!(snap.len(), 2);
    assert_eq!(snap[1].id, "b");
    assert_eq!(snap[1].last_updated, 77);
    assert_eq!(stop_poller(&mut handles, "b"), Some(2));
    assert_eq!(stop_poller(&mut handles, "a"), Some(1));
    assert!(d.error.is_none());
    assert_eq!(d.discovered.len(), 1);
    assert_eq!(d.discovered[0].serial, "S3");
}
