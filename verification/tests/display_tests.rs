use ups_monitor::client_state::{tray_state, ClientState, Connectivity};
use ups_monitor::health::Health;
use ups_monitor::display::{
    battery_runtime_line, connectivity_line, health_color, state_icon, tray_color, updated_line, Glyph,
    TrayColor,
};
use ups_monitor::hid::{feature_payload, feature_request};
use ups_monitor::hid_desc::FieldLoc;
use ups_monitor::probe::{
    field_line, hex_dump_lines, smart_command_frame, smart_reply_from_text, smart_reply_text,
    SMART_CMD_REPORT,
};
use ups_monitor::status::{PowerState, UpsStatus};
use ups_monitor::text::trim_nul_white_str;

fn card(pct: Option<u8>, runtime: Option<u32>, at: i64) -> UpsStatus {
    UpsStatus {
        id: "rack1-a".into(),
        status: PowerState::Online,
        battery_pct: pct,
        runtime_secs: runtime,
        load_pct: None,
        last_updated: at,
    }
}

#[test]
fn card_line_shows_battery_and_whole_minutes() {
    assert_eq!(battery_runtime_line(&card(Some(85), Some(1859), 0)), "Battery: 85%   Runtime: 30 min");
    assert_eq!(battery_runtime_line(&card(None, None, 0)), "Battery: —   Runtime: —");
    assert_eq!(battery_runtime_line(&card(Some(0), Some(59), 0)), "Battery: 0%   Runtime: 0 min");
}

#[test]
fn updated_line_is_utc_clock_time() {
    assert_eq!(updated_line(&card(None, None, 0)), "Updated 00:00:00");
    assert_eq!(updated_line(&card(None, None, 3_723_000)), "Updated 01:02:03");
    assert_eq!(updated_line(&card(None, None, 86_399_999)), "Updated 23:59:59");
    assert_eq!(updated_line(&card(None, None, 86_400_000 * 365 + 45_296_789)), "Updated 12:34:56");
    // Before the epoch: counts back from the previous midnight.
    assert_eq!(updated_line(&card(None, None, -1)), "Updated 23:59:59");
    assert_eq!(updated_line(&card(None, None, i64::MIN)).len(), "Updated 00:00:00".len());
}

#[test]
fn connectivity_line_names_last_success() {
    let mut cs = ClientState::default();
    assert_eq!(connectivity_line(&cs), "Unreachable");
    cs.last_success = Some(3_723_000);
    assert_eq!(connectivity_line(&cs), "Unreachable — last seen 01:02:03");
    cs.connectivity = Connectivity::Connected;
    assert_eq!(connectivity_line(&cs), "Connected to server");
}

#[test]
fn hex_dump_has_sixteen_bytes_per_line() {
    let bytes: Vec<u8> = (0u8..17).collect();
    let lines = hex_dump_lines(&bytes);
    assert_eq!(lines.len(), 2);
    assert_eq!(lines[0], "00 01 02 03 04 05 06 07 08 09 0a 0b 0c 0d 0e 0f");
    assert_eq!(lines[1], "10");
    assert!(hex_dump_lines(&[]).is_empty());
    assert_eq!(hex_dump_lines(&[0x05, 0x84, 0xff]), vec!["05 84 ff".to_string()]);
}

#[test]
fn field_line_shows_usage_position_and_raw_value() {
    let f = FieldLoc { bit_offset: 2, bit_size: 8, usage: 0x850066 };
    assert_eq!(field_line(&f, Some(85)), "    0x850066 (RemainingCapacity) @ bit 2, 8 bits  raw=Some(85)");
    let g = FieldLoc { bit_offset: 40, bit_size: 16, usage: 0xff860001 };
    assert_eq!(field_line(&g, None), "    0xff860001 @ bit 40, 16 bits  raw=None");
}

#[test]
fn smart_query_frame_and_reply() {
    let frame = smart_command_frame(b'P');
    assert_eq!(frame.len(), 64);
    assert_eq!(frame[0], SMART_CMD_REPORT);
    assert_eq!(frame[0], 0x90);
    assert_eq!(frame[1], b'P');
    assert!(frame[2..].iter().all(|b| *b == 0));

    assert_eq!(smart_reply_text(b"\0 042.0\r\n\0\0", 2), Some("042.0 (after 3 polls)".to_string()));
    assert_eq!(smart_reply_text(&[0u8; 63], 0), None);
    assert_eq!(smart_reply_text(&[0x41, 0xFF], 0), Some("A\u{FFFD} (after 1 polls)".to_string()));
    assert_eq!(smart_reply_from_text(" \t\0", 5), None);
    assert_eq!(smart_reply_from_text("OK", 19), Some("OK (after 20 polls)".to_string()));
}

#[test]
fn trimming_nul_and_whitespace() {
    assert_eq!(trim_nul_white_str("\0\0 a\0b \n\0"), "a\0b");
    assert_eq!(trim_nul_white_str("\0"), "");
}

#[test]
fn feature_report_buffers() {
    let req = feature_request(3);
    assert_eq!(req.len(), 64);
    assert_eq!(req[0], 3);
    assert!(req[1..].iter().all(|b| *b == 0));
    assert_eq!(feature_payload(&[1, 2, 3, 4], 3), vec![2, 3]);
    assert_eq!(feature_payload(&[1, 2, 3, 4], 10), vec![2, 3, 4]);
    assert_eq!(feature_payload(&[1, 2, 3, 4], 1), Vec::<u8>::new());
}

#[test]
fn card_icons_by_state() {
    assert_eq!(state_icon(PowerState::Online), (Glyph::Power, (0x4c, 0xaf, 0x50)));
    assert_eq!(state_icon(PowerState::OnBattery), (Glyph::PowerOff, (0xff, 0x98, 0x00)));
    assert_eq!(state_icon(PowerState::Unknown), (Glyph::Help, (160, 160, 160)));
}

#[test]
fn tray_colors() {
    assert_eq!(health_color(Health::AllOnline), TrayColor::Green);
    assert_eq!(health_color(Health::AnyOnBattery), TrayColor::Orange);
    assert_eq!(health_color(Health::AnyUnknown), TrayColor::Red);
    let mut cs = ClientState::default();
    assert_eq!(tray_color(tray_state(&cs)), TrayColor::Red);
    cs.connectivity = Connectivity::Connected;
    assert_eq!(tray_color(tray_state(&cs)), TrayColor::Green);
    cs.statuses.push(card(Some(50), None, 0));
    cs.statuses[0].status = PowerState::OnBattery;
    assert_eq!(tray_color(tray_state(&cs)), TrayColor::Orange);
}
