use ups_monitor::hid::{
    derive_status, enumerate_ups, locate, open_by_serial, status_from_payloads, status_from_readings,
    HidDeviceInfo,
    USAGE_AC_PRESENT, USAGE_DISCHARGING, USAGE_REMAINING_CAPACITY, USAGE_RUNTIME_TO_EMPTY,
};
use ups_monitor::hid_desc::{self, expand_usages, extract, sign_extend, FieldLoc};
use ups_monitor::status::PowerState;

#[test]
fn online_when_ac_present_and_not_discharging() {
    assert_eq!(derive_status(Some(true), Some(false)), PowerState::Online);
    assert_eq!(derive_status(Some(true), None), PowerState::Online);
}

#[test]
fn on_battery_when_discharging() {
    assert_eq!(derive_status(Some(true), Some(true)), PowerState::OnBattery);
    assert_eq!(derive_status(None, Some(true)), PowerState::OnBattery);
}

#[test]
fn on_battery_when_ac_absent() {
    assert_eq!(derive_status(Some(false), Some(false)), PowerState::OnBattery);
    assert_eq!(derive_status(Some(false), None), PowerState::OnBattery);
}

#[test]
fn unknown_when_no_data() {
    assert_eq!(derive_status(None, None), PowerState::Unknown);
}

fn minimal_descriptor() -> Vec<u8> {
    vec![
        0x05, 0x84, // Usage Page (Power Device)
        0x09, 0x04, // Usage (UPS)
        0xA1, 0x01, // Collection (Application)
        0x85, 0x01, //   Report ID (1)
        0x05, 0x85, //   Usage Page (Battery System)
        0x09, 0xD0, //   Usage (ACPresent)
        0x09, 0xD6, //   Usage (Discharging)
        0x15, 0x00, //   Logical Minimum (0)
        0x25, 0x01, //   Logical Maximum (1)
        0x75, 0x01, //   Report Size (1)
        0x95, 0x02, //   Report Count (2)
        0xB1, 0x02, //   Feature (Data,Var,Abs)
        0x09, 0x66, //   Usage (RemainingCapacity)
        0x25, 0x64, //   Logical Maximum (100)
        0x75, 0x08, //   Report Size (8)
        0x95, 0x01, //   Report Count (1)
        0xB1, 0x02, //   Feature (Data,Var,Abs)
        0xC0, // End Collection
    ]
}

#[test]
fn parses_minimal_apc_style_descriptor() {
    let desc = minimal_descriptor();
    let layouts = hid_desc::parse_feature_layouts(&desc);
    assert_eq!(layouts.len(), 1);
    let l = &layouts[0];
    assert_eq!(l.report_id, 1);
    // ACPresent at bit 0, Discharging at bit 1, RemainingCapacity at bit 2.
    assert_eq!(l.fields[0].usage, USAGE_AC_PRESENT);
    assert_eq!(l.fields[0].bit_offset, 0);
    assert_eq!(l.fields[0].bit_size, 1);
    assert_eq!(l.fields[1].usage, USAGE_DISCHARGING);
    assert_eq!(l.fields[1].bit_offset, 1);
    assert_eq!(l.fields[2].usage, USAGE_REMAINING_CAPACITY);
    assert_eq!(l.fields[2].bit_offset, 2);
    assert_eq!(l.fields[2].bit_size, 8);

    // Payload: bits 0..1 = 0b10 (discharging), capacity 85 at bit 2.
    let payload = [0b0101_0110u8, 0b0000_0101];
    assert_eq!(hid_desc::extract(&payload, &l.fields[0]), Some(0));
    assert_eq!(hid_desc::extract(&payload, &l.fields[1]), Some(1));
    assert_eq!(hid_desc::extract(&payload, &l.fields[2]), Some(85));
}

#[test]
fn sign_extend_negative() {
    assert_eq!(sign_extend(0xFF, 8), -1);
    assert_eq!(sign_extend(0x7F, 8), 127);
    assert_eq!(sign_extend(0xFFFF, 16), -1);
}

#[test]
fn extract_bits() {
    let loc = FieldLoc { bit_offset: 8, bit_size: 8, usage: 0 };
    assert_eq!(extract(&[0xAA, 0x05], &loc), Some(5));
    let loc1 = FieldLoc { bit_offset: 1, bit_size: 1, usage: 0 };
    assert_eq!(extract(&[0b10], &loc1), Some(1));
}

#[test]
fn extract_out_of_bounds_is_none() {
    let loc = FieldLoc { bit_offset: 12, bit_size: 8, usage: 0 };
    assert_eq!(extract(&[0xAA, 0x05], &loc), None);
    assert_eq!(extract(&[0xAA, 0x05, 0x0F], &loc), Some(0xF0));
}

#[test]
fn extract_full_width_field() {
    let loc = FieldLoc { bit_offset: 0, bit_size: 64, usage: 0 };
    let payload = [1u8, 2, 3, 4, 5, 6, 7, 8];
    assert_eq!(extract(&payload, &loc), Some(0x0807060504030201));
}

#[test]
fn sign_extend_full_and_zero_width() {
    assert_eq!(sign_extend(0xFFFF_FFFF_FFFF_FFFF, 64), -1);
    assert_eq!(sign_extend(0x80, 0), 128);
    assert_eq!(sign_extend(0x80, 8), -128);
    assert_eq!(sign_extend(0x1FF, 8), -1);
}

#[test]
fn expand_usages_range_then_list_then_padding() {
    let v = expand_usages(0x85, &[0x850066], Some(0xD0), Some(0xD1), 5);
    assert_eq!(v, vec![Some(0x8500D0), Some(0x8500D1), Some(0x850066), None, None]);
    let w = expand_usages(0x85, &[0x850066, 0x850068], None, Some(3), 1);
    assert_eq!(w, vec![Some(0x850066)]);
}

#[test]
fn array_items_are_padding_and_report_zero_is_kept() {
    let desc = vec![
        0x05, 0x85, // Usage Page (Battery System)
        0x75, 0x08, // Report Size (8)
        0x95, 0x01, // Report Count (1)
        0x09, 0x66, // Usage (RemainingCapacity)
        0xB1, 0x02, // Feature (Var) without any Report ID: report 0
        0x85, 0x02, // Report ID (2)
        0x95, 0x02, // Report Count (2)
        0x09, 0x66, // Usage
        0xB1, 0x00, // Feature (Array): padding
        0x09, 0x68, // Usage (RunTimeToEmpty)
        0x95, 0x01, // Report Count (1)
        0xB1, 0x02, // Feature (Var)
    ];
    let layouts = hid_desc::parse_feature_layouts(&desc);
    assert_eq!(layouts.len(), 2);
    assert_eq!(layouts[0].report_id, 0);
    assert_eq!(layouts[0].fields.len(), 1);
    assert_eq!(layouts[0].fields[0].usage, USAGE_REMAINING_CAPACITY);
    assert_eq!(layouts[1].report_id, 2);
    assert_eq!(layouts[1].fields.len(), 1);
    assert_eq!(layouts[1].fields[0].usage, USAGE_RUNTIME_TO_EMPTY);
    assert_eq!(layouts[1].fields[0].bit_offset, 16);
}

#[test]
fn descriptor_without_report_ids_gives_report_zero() {
    let desc = [0x05, 0x85, 0x09, 0x66, 0x75, 0x08, 0x95, 0x01, 0xB1, 0x02];
    let r = hid_desc::parse_feature_layouts(&desc);
    assert_eq!(r.len(), 1);
    assert_eq!(r[0].report_id, 0);
    assert_eq!(r[0].fields.len(), 1);
    assert_eq!(r[0].fields[0].usage, 0x850066);
    assert_eq!(r[0].fields[0].bit_offset, 0);
    assert_eq!(r[0].fields[0].bit_size, 8);
}

#[test]
fn long_items_and_truncated_items_end_cleanly() {
    let desc = vec![0xFE, 0x01, 0x00, 0xAA, 0x85, 0x03, 0x75, 0x08, 0x95, 0x01, 0x05, 0x85, 0x09, 0x66, 0xB1, 0x02, 0x27];
    let layouts = hid_desc::parse_feature_layouts(&desc);
    assert_eq!(layouts.len(), 1);
    assert_eq!(layouts[0].report_id, 3);
    assert_eq!(layouts[0].fields[0].usage, USAGE_REMAINING_CAPACITY);
    assert!(hid_desc::parse_feature_layouts(&[0xFE, 0x05]).is_empty());
}

#[test]
fn locate_finds_first_occurrences() {
    let layouts = hid_desc::parse_feature_layouts(&minimal_descriptor());
    let located = locate(&layouts);
    assert_eq!(located.ac_present.map(|(r, f)| (r, f.bit_offset)), Some((1, 0)));
    assert_eq!(located.discharging.map(|(r, f)| (r, f.bit_offset)), Some((1, 1)));
    assert_eq!(located.remaining_capacity.map(|(r, f)| (r, f.bit_offset)), Some((1, 2)));
    assert!(located.runtime_to_empty.is_none());
}

#[test]
fn status_from_readings_caps_and_flags() {
    let s = status_from_readings("rack1-a", Some(1), Some(0), Some(250), Some(0x1_0000_0005), 7);
    assert_eq!(s.id, "rack1-a");
    assert_eq!(s.status, PowerState::Online);
    assert_eq!(s.battery_pct, Some(100));
    assert_eq!(s.runtime_secs, Some(5));
    assert_eq!(s.last_updated, 7);
    let t = status_from_readings("b", None, Some(3), Some(42), None, 0);
    assert_eq!(t.status, PowerState::OnBattery);
    assert_eq!(t.battery_pct, Some(42));
    assert_eq!(t.runtime_secs, None);
}

fn device(vendor: u16, page: u16, serial: Option<&str>, product: Option<&str>) -> HidDeviceInfo {
    HidDeviceInfo {
        path: format!("/dev/hidraw-{vendor:x}-{page:x}"),
        vendor_id: vendor,
        usage_page: page,
        serial_number: serial.map(|s| s.to_string()),
        product_string: product.map(|s| s.to_string()),
    }
}

#[test]
fn enumerate_filters_apc_power_devices_and_trims_serials() {
    let devs = vec![
        device(0x051D, 0x84, Some("AS123  "), Some("Smart-UPS 1500")),
        device(0x046D, 0x84, Some("X"), None),
        device(0x051D, 0x01, Some("Y"), None),
        device(0x051D, 0x84, None, None),
    ];
    let found = enumerate_ups(&devs);
    assert_eq!(found.len(), 2);
    assert_eq!(found[0].serial, "AS123");
    assert_eq!(found[0].product, "Smart-UPS 1500");
    assert_eq!(found[1].serial, "");
    assert_eq!(found[1].product, "");
    assert_eq!(open_by_serial(&devs, " AS123"), Some(0));
    assert_eq!(open_by_serial(&devs, "Y"), None);
}

#[test]
fn interleaved_reports_give_one_layout_each() {
    let desc: Vec<u8> = vec![
        0x85, 0x01, // Report ID (1)
        0x05, 0x85, // Usage Page (Battery System)
        0x09, 0xD0, // Usage (ACPresent)
        0x75, 0x01, // Report Size (1)
        0x95, 0x01, // Report Count (1)
        0xB1, 0x02, // Feature (Data,Var,Abs)
        0x85, 0x02, // Report ID (2)
        0x09, 0x66, // Usage (RemainingCapacity)
        0x75, 0x08, // Report Size (8)
        0xB1, 0x02, // Feature (Data,Var,Abs)
        0x85, 0x01, // Report ID (1) again
        0x09, 0xD6, // Usage (Discharging)
        0x75, 0x01, // Report Size (1)
        0xB1, 0x02, // Feature (Data,Var,Abs)
    ];
    let layouts = hid_desc::parse_feature_layouts(&desc);
    assert_eq!(layouts.len(), 2);
    assert_eq!(layouts[0].report_id, 1);
    assert_eq!(layouts[1].report_id, 2);
    assert_eq!(layouts[0].fields.len(), 2);
    assert_eq!(layouts[0].fields[1].usage, 0x8500D6);
    assert_eq!(layouts[0].fields[1].bit_offset, 1);
    assert_eq!(layouts[1].fields[0].bit_offset, 0);
}

fn layout_summary(desc: &[u8]) -> Vec<(u8, Vec<(u128, usize, u32)>)> {
    hid_desc::parse_feature_layouts(desc)
        .iter()
        .map(|l| (l.report_id, l.fields.iter().map(|f| (f.bit_offset, f.bit_size, f.usage)).collect()))
        .collect()
}

#[test]
fn leading_long_item_is_skipped() {
    let rest = minimal_descriptor();
    let mut desc = vec![0xFE, 0x02, 0x10, 0xAA, 0xBB];
    desc.extend_from_slice(&rest);
    assert_eq!(layout_summary(&desc), layout_summary(&rest));
    assert_eq!(layout_summary(&desc).len(), 1);
}

#[test]
fn item_cut_off_at_the_end_is_ignored() {
    let d = minimal_descriptor();
    for tail in [vec![0x75u8], vec![0x27, 0x01, 0x02], vec![0xFE], vec![0xFE, 0x09, 0x00, 0x01]] {
        let mut desc = d.clone();
        desc.extend_from_slice(&tail);
        assert_eq!(layout_summary(&desc), layout_summary(&d));
    }
}

#[test]
fn status_from_payloads_reads_each_located_field() {
    let layouts = hid_desc::parse_feature_layouts(&minimal_descriptor());
    let located = locate(&layouts);
    // Report 1: discharging (bit 1) set, capacity 85 from bit 2.
    let payloads = vec![(1u8, vec![0b0101_0110u8, 0b0000_0101])];
    let s = status_from_payloads("rack1-a", &located, &payloads, 9);
    assert_eq!(s.id, "rack1-a");
    assert_eq!(s.status, PowerState::OnBattery);
    assert_eq!(s.battery_pct, Some(85));
    assert_eq!(s.runtime_secs, None);
    assert_eq!(s.last_updated, 9);
    // Report not read: everything is absent.
    let s = status_from_payloads("rack1-a", &located, &vec![(2u8, vec![0xFF])], 9);
    assert_eq!(s.status, PowerState::Unknown);
    assert_eq!(s.battery_pct, None);
    // Payload too short for the capacity field.
    let s = status_from_payloads("rack1-a", &located, &vec![(1u8, vec![0b0000_0001])], 9);
    assert_eq!(s.status, PowerState::Online);
    assert_eq!(s.battery_pct, None);
}
