use ups_monitor::admin::{
    dash_non_alphanumeric, existing_ids, remove_entries, rename_decision, rename_entry, suggest_id,
    unconfigured,
    validate_new_id, RenameDecision,
};
use ups_monitor::aumid::{ensure_registered, is_registered, try_register, Registration, APP_ID};
use ups_monitor::hid::DiscoveredUps;
use ups_monitor::probe::usage_name;
use ups_monitor::server_config::UpsEntry;
use ups_monitor::settings::{parse_port, validate_server_settings, ServerDialog};
use ups_monitor::client_config::{AlertsSection, Config, PollingSection, ServerSection};
use ups_monitor::status::{PowerState, UpsStatus};
use ups_monitor::text::{decimal_string, str_less, trim_str};

#[test]
fn power_state_labels() {
    assert_eq!(PowerState::Online.label(), "Online");
    assert_eq!(PowerState::OnBattery.label(), "On Battery");
    assert_eq!(PowerState::Unknown.label(), "Unknown");
    let u = UpsStatus::unknown_at("x", 5);
    assert_eq!(u.status, PowerState::Unknown);
    assert_eq!(u.last_updated, 5);
}

#[test]
fn text_helpers() {
    assert_eq!(trim_str("  a b \t\n"), "a b");
    assert_eq!(trim_str("\u{3000}x\u{a0}"), "x");
    assert_eq!(decimal_string(0), "0");
    assert_eq!(decimal_string(65535), "65535");
    assert!(str_less("rack1-a", "rack1-b"));
    assert!(str_less("rack", "rack1"));
    assert!(!str_less("b", "a"));
    assert!(!str_less("a", "a"));
}

#[test]
fn usage_names() {
    assert_eq!(usage_name(0x8500D0), "0x8500d0 (ACPresent)");
    assert_eq!(usage_name(0x840035), "0x840035 (PercentLoad)");
    assert_eq!(usage_name(0x42), "0x000042");
    assert_eq!(usage_name(0xFF00_0001), "0xff000001");
}

fn disc(serial: &str, product: &str) -> DiscoveredUps {
    DiscoveredUps { path: "p".into(), serial: serial.into(), product: product.into() }
}

#[test]
fn suggested_ids() {
    assert_eq!(suggest_id(&disc("AS1234567890", " Smart-UPS 1500 ")), "smart-ups-1500");
    assert_eq!(suggest_id(&disc("AS1234567890", "  ")), "ups-7890");
    assert_eq!(suggest_id(&disc("AB", "")), "ups-AB");
}

#[test]
fn new_id_validation() {
    let existing = vec!["rack1-a".to_string()];
    assert_eq!(validate_new_id(&existing, "  rack1-b "), Ok("rack1-b".to_string()));
    assert_eq!(validate_new_id(&existing, "   "), Err("Id cannot be empty.".to_string()));
    assert_eq!(
        validate_new_id(&existing, "rack1-a"),
        Err("Id \"rack1-a\" is already in use.".to_string())
    );
}

#[test]
fn rename_validation() {
    let existing = vec!["a".to_string(), "b".to_string()];
    assert!(matches!(rename_decision(&existing, "a", " a "), RenameDecision::Unchanged));
    assert!(matches!(rename_decision(&existing, "a", ""), RenameDecision::Rejected(m) if m == "Id cannot be empty."));
    assert!(matches!(rename_decision(&existing, "a", "b"), RenameDecision::Rejected(m) if m == "Id \"b\" is already in use."));
    assert!(matches!(rename_decision(&existing, "a", "c"), RenameDecision::Renamed(n) if n == "c"));
}

#[test]
fn config_edits() {
    let mut ups = vec![
        UpsEntry { id: "a".into(), serial: "S1".into() },
        UpsEntry { id: "b".into(), serial: "S2".into() },
    ];
    assert_eq!(rename_entry(&mut ups, "b", "c"), "S2");
    assert_eq!(rename_entry(&mut ups, "zz", "y"), "");
    assert_eq!(existing_ids(&ups), vec!["a".to_string(), "c".to_string()]);
    remove_entries(&mut ups, "a");
    assert_eq!(ups.len(), 1);
    assert_eq!(ups[0].id, "c");
    let found = vec![disc("S2", "x"), disc("S9", "y")];
    let fresh = unconfigured(&found, &vec!["S2".to_string()]);
    assert_eq!(fresh.len(), 1);
    assert_eq!(fresh[0].serial, "S9");
}

#[test]
fn server_settings_validation() {
    assert_eq!(parse_port("8420"), Some(8420));
    assert_eq!(parse_port("+80"), Some(80));
    assert_eq!(parse_port("0"), Some(0));
    assert_eq!(parse_port("65536"), None);
    assert_eq!(parse_port("+"), None);
    assert_eq!(parse_port("-1"), None);
    assert_eq!(parse_port(""), None);
    assert_eq!(parse_port("12a"), None);
    assert_eq!(
        validate_server_settings(" 10.0.0.2 ", " 8421 "),
        Ok(("10.0.0.2".to_string(), 8421))
    );
    assert_eq!(validate_server_settings("  ", "1"), Err("Address cannot be empty.".to_string()));
    assert_eq!(
        validate_server_settings("192.168.1.50", "0"),
        Err("Port must be a number between 1 and 65535.".to_string())
    );
    assert_eq!(validate_server_settings("h", "1"), Ok(("h".to_string(), 1)));
    assert_eq!(
        validate_server_settings("h", "x"),
        Err("Port must be a number between 1 and 65535.".to_string())
    );
    let cfg = Config {
        server: ServerSection { address: "h".into(), port: 8420 },
        polling: PollingSection::default(),
        alerts: AlertsSection::default(),
    };
    let d = ServerDialog::from_config(&cfg);
    assert_eq!(d.address, "h");
    assert_eq!(d.port, "8420");
    assert!(d.error.is_none());
}

#[test]
fn registration_succeeds_here() {
    assert_eq!(APP_ID, "UpsMonitor.Client");
    assert!(try_register().is_ok());
    let mut r = Registration::new();
    assert!(!is_registered(&r));
    ensure_registered(&mut r);
    assert!(is_registered(&r));
}

#[test]
fn accepted_adds_and_renames_keep_ids_unique() {
    let mut ups = vec![UpsEntry { id: "a".into(), serial: "S1".into() }];
    let id = validate_new_id(&existing_ids(&ups), " b ").unwrap();
    ups.push(UpsEntry { id, serial: "S2".into() });
    assert!(validate_new_id(&existing_ids(&ups), "b").is_err());
    match rename_decision(&existing_ids(&ups), "a", "c") {
        RenameDecision::Renamed(n) => {
            rename_entry(&mut ups, "a", &n);
        }
        _ => panic!("rename to a free id is allowed"),
    }
    assert!(matches!(rename_decision(&existing_ids(&ups), "c", "b"), RenameDecision::Rejected(_)));
    let ids = existing_ids(&ups);
    assert_eq!(ids, vec!["c".to_string(), "b".to_string()]);
    remove_entries(&mut ups, "c");
    assert_eq!(existing_ids(&ups), vec!["b".to_string()]);
}

#[test]
fn non_alphanumerics_become_dashes() {
    assert_eq!(dash_non_alphanumeric("smart ups_1500"), "smart-ups-1500");
    assert_eq!(dash_non_alphanumeric("été 2"), "été-2");
    assert_eq!(dash_non_alphanumeric(""), "");
}
