//! UPS enumeration and status derivation for APC units (USB HID Power
//! Device class).
//!
//! The device's HID report descriptor is parsed into feature-report layouts
//! (`hid_desc`), and the standard Power Device usages are looked up:
//!
//!   0x8500D0 ACPresent          -> mains OK
//!   0x8500D6 Discharging        -> running on battery
//!   0x850066 RemainingCapacity  -> battery %
//!   0x850068 RunTimeToEmpty     -> runtime seconds (while discharging)
//!
//! Everything here works on plain values; reading descriptors and feature
//! reports from the device is done by the caller.

use vstd::prelude::*;
use crate::hid_desc::{extract, field_in_bounds, field_value, FieldLoc, ReportLayout};
use crate::status::{PowerState, UpsStatus, UpsStatusView};
use crate::text::{trim, trim_str};

verus! {

/// USB HID Power Device usage page.
pub const UPS_USAGE_PAGE: u16 = 0x84;

/// Battery System usage page.
pub const BATTERY_USAGE_PAGE: u16 = 0x85;

/// APC vendor id.
pub const APC_VENDOR_ID: u16 = 0x051D;

/// ACPresent: (Battery System page << 16) | 0xD0.
pub const USAGE_AC_PRESENT: u32 = 0x8500D0;

/// Discharging: (Battery System page << 16) | 0xD6.
pub const USAGE_DISCHARGING: u32 = 0x8500D6;

/// RemainingCapacity: (Battery System page << 16) | 0x66.
pub const USAGE_REMAINING_CAPACITY: u32 = 0x850066;

/// RunTimeToEmpty: (Battery System page << 16) | 0x68.
pub const USAGE_RUNTIME_TO_EMPTY: u32 = 0x850068;

/// What enumeration reports of one HID interface.
#[derive(Debug)]
pub struct HidDeviceInfo {
    /// OS device path.
    pub path: String,
    pub vendor_id: u16,
    pub usage_page: u16,
    pub serial_number: Option<String>,
    pub product_string: Option<String>,
}

/// The mathematical content of a `HidDeviceInfo`.
pub struct HidDeviceInfoView {
    pub path: Seq<char>,
    pub vendor_id: u16,
    pub usage_page: u16,
    pub serial_number: Option<Seq<char>>,
    pub product_string: Option<Seq<char>>,
}

/// The characters of an optional string; none when it is absent.
pub open spec fn opt_chars(s: Option<String>) -> Option<Seq<char>> {
    match s {
        Some(t) => Some(t@),
        None => None,
    }
}

/// The characters of an optional string, or the empty string.
pub open spec fn chars_or_empty(s: Option<Seq<char>>) -> Seq<char> {
    match s {
        Some(t) => t,
        None => Seq::empty(),
    }
}

impl View for HidDeviceInfo {
    type V = HidDeviceInfoView;

    open spec fn view(&self) -> HidDeviceInfoView {
        HidDeviceInfoView {
            path: self.path@,
            vendor_id: self.vendor_id,
            usage_page: self.usage_page,
            serial_number: opt_chars(self.serial_number),
            product_string: opt_chars(self.product_string),
        }
    }
}

/// A discovered UPS device (not yet opened).
#[derive(Debug)]
pub struct DiscoveredUps {
    /// OS device path.
    pub path: String,
    pub serial: String,
    pub product: String,
}

/// The mathematical content of a `DiscoveredUps`.
pub struct DiscoveredUpsView {
    pub path: Seq<char>,
    pub serial: Seq<char>,
    pub product: Seq<char>,
}

impl View for DiscoveredUps {
    type V = DiscoveredUpsView;

    open spec fn view(&self) -> DiscoveredUpsView {
        DiscoveredUpsView { path: self.path@, serial: self.serial@, product: self.product@ }
    }
}

impl Clone for DiscoveredUps {
    fn clone(&self) -> (r: Self)
        ensures
            r@ == self@,
    {
        DiscoveredUps {
            path: self.path.clone(),
            serial: self.serial.clone(),
            product: self.product.clone(),
        }
    }
}

/// An APC unit on the Power Device usage page.
pub open spec fn is_apc_ups(d: HidDeviceInfoView) -> bool {
    d.vendor_id == APC_VENDOR_ID && d.usage_page == UPS_USAGE_PAGE
}

/// How a device is listed: its path, its serial with surrounding whitespace
/// removed (APC pads serials with spaces), and its product name.
pub open spec fn discovered(d: HidDeviceInfoView) -> DiscoveredUpsView {
    DiscoveredUpsView {
        path: d.path,
        serial: trim(chars_or_empty(d.serial_number)),
        product: chars_or_empty(d.product_string),
    }
}

/// The APC UPS units among `ds`, in enumeration order.
pub open spec fn discover_all(ds: Seq<HidDeviceInfoView>) -> Seq<DiscoveredUpsView>
    decreases ds.len(),
{
    if ds.len() == 0 {
        Seq::empty()
    } else {
        let prev = discover_all(ds.drop_last());
        if is_apc_ups(ds.last()) {
            prev.push(discovered(ds.last()))
        } else {
            prev
        }
    }
}

/// The device's serial with surrounding whitespace removed.
fn trimmed_serial(d: &HidDeviceInfo) -> (r: String)
    ensures
        r@ == trim(chars_or_empty(d@.serial_number)),
{
    match &d.serial_number {
        Some(s) => trim_str(s.as_str()),
        None => {
            let r = String::new();
            assert(r@ =~= trim(Seq::empty()));
            r
        },
    }
}

/// Enumerate connected APC UPS units (usage page 0x84, vendor 0x051D).
pub fn enumerate_ups(devices: &Vec<HidDeviceInfo>) -> (r: Vec<DiscoveredUps>)
    ensures
        r@.map_values(|u: DiscoveredUps| u@) == discover_all(devices@.map_values(
            |d: HidDeviceInfo| d@,
        )),
{
    let ghost views = devices@.map_values(|d: HidDeviceInfo| d@);
    let mut out: Vec<DiscoveredUps> = Vec::new();
    let mut k: usize = 0;
    while k < devices.len()
        invariant
            k <= devices.len(),
            views == devices@.map_values(|d: HidDeviceInfo| d@),
            out@.map_values(|u: DiscoveredUps| u@) == discover_all(views.take(k as int)),
        decreases devices.len() - k,
    {
        let d = &devices[k];
        proof {
            assert(views.take(k + 1).drop_last() =~= views.take(k as int));
            assert(views.take(k + 1).last() == d@);
        }
        if d.vendor_id == APC_VENDOR_ID && d.usage_page == UPS_USAGE_PAGE {
            let product = match &d.product_string {
                Some(p) => p.clone(),
                None => String::new(),
            };
            let u = DiscoveredUps { path: d.path.clone(), serial: trimmed_serial(d), product };
            let ghost before = out@;
            out.push(u);
            assert(out@.map_values(|u: DiscoveredUps| u@) =~= before.map_values(
                |u: DiscoveredUps| u@,
            ).push(discovered(d@)));
        }
        k = k + 1;
    }
    assert(views.take(devices.len() as int) =~= views);
    out
}

/// Whether a device is the APC UPS with serial `wanted` (whitespace around
/// either serial is ignored).
pub open spec fn matches_serial(d: HidDeviceInfoView, wanted: Seq<char>) -> bool {
    is_apc_ups(d) && trim(chars_or_empty(d.serial_number)) == trim(wanted)
}

/// The position, among `devices`, of the first APC UPS whose serial is
/// `serial`; `None` if it is not connected right now. The caller opens the
/// device at that position.
pub fn open_by_serial(devices: &Vec<HidDeviceInfo>, serial: &str) -> (r: Option<usize>)
    ensures
        match r {
            Some(k) => k < devices@.len() && matches_serial(devices@[k as int]@, serial@) && forall|
                j: int,
            | 0 <= j < k ==> !matches_serial(#[trigger] devices@[j]@, serial@),
            None => forall|j: int|
                0 <= j < devices@.len() ==> !matches_serial(#[trigger] devices@[j]@, serial@),
        },
{
    let wanted = trim_str(serial);
    let mut k: usize = 0;
    while k < devices.len()
        invariant
            k <= devices.len(),
            wanted@ == trim(serial@),
            forall|j: int| 0 <= j < k ==> !matches_serial(#[trigger] devices@[j]@, serial@),
        decreases devices.len() - k,
    {
        let d = &devices[k];
        if d.vendor_id == APC_VENDOR_ID && d.usage_page == UPS_USAGE_PAGE {
            let s = trimmed_serial(d);
            if s == wanted {
                return Some(k);
            }
        }
        k = k + 1;
    }
    None
}

/// Where each usage of interest was found: its report id and field.
#[derive(Debug, Clone, Copy)]
pub struct Located {
    pub ac_present: Option<(u8, FieldLoc)>,
    pub discharging: Option<(u8, FieldLoc)>,
    pub remaining_capacity: Option<(u8, FieldLoc)>,
    pub runtime_to_empty: Option<(u8, FieldLoc)>,
}

/// Every field of every layout, tagged with its report id, in order.
pub open spec fn all_fields(ls: Seq<(u8, Seq<FieldLoc>)>) -> Seq<(u8, FieldLoc)>
    decreases ls.len(),
{
    if ls.len() == 0 {
        Seq::empty()
    } else {
        all_fields(ls.drop_last()) + ls.last().1.map_values(|f: FieldLoc| (ls.last().0, f))
    }
}

/// The first field with usage `u`, with its report id.
pub open spec fn first_with_usage(fs: Seq<(u8, FieldLoc)>, u: u32) -> Option<(u8, FieldLoc)>
    decreases fs.len(),
{
    if fs.len() == 0 {
        None
    } else {
        let prev = first_with_usage(fs.drop_last(), u);
        if prev.is_some() {
            prev
        } else if fs.last().1.usage == u {
            Some(fs.last())
        } else {
            None
        }
    }
}

/// `slot` is the earliest field of `fs` that carries usage `u` (no field
/// before it carries `u`), or `None` when no field carries `u`.
pub open spec fn earliest_with_usage(fs: Seq<(u8, FieldLoc)>, u: u32, slot: Option<(u8, FieldLoc)>) -> bool {
    match slot {
        Some(x) => exists|k: int|
            0 <= k < fs.len() && #[trigger] fs[k] == x && x.1.usage == u && forall|j: int|
                0 <= j < k ==> (#[trigger] fs[j]).1.usage != u,
        None => forall|j: int| 0 <= j < fs.len() ==> (#[trigger] fs[j]).1.usage != u,
    }
}

/// The field found for a usage is the earliest one carrying it, in report
/// order then field order; when none carries it, none is found.
pub proof fn lemma_first_with_usage_is_earliest(fs: Seq<(u8, FieldLoc)>, u: u32)
    ensures
        earliest_with_usage(fs, u, first_with_usage(fs, u)),
    decreases fs.len(),
{
    if fs.len() > 0 {
        let pre = fs.drop_last();
        lemma_first_with_usage_is_earliest(pre, u);
        let prev = first_with_usage(pre, u);
        match prev {
            Some(x) => {
                let k = choose|k: int|
                    0 <= k < pre.len() && #[trigger] pre[k] == x && x.1.usage == u && forall|j: int|
                        0 <= j < k ==> (#[trigger] pre[j]).1.usage != u;
                assert(fs[k] == pre[k]);
                assert forall|j: int| 0 <= j < k implies (#[trigger] fs[j]).1.usage != u by {
                    assert(fs[j] == pre[j]);
                }
            },
            None => {
                assert forall|j: int| 0 <= j < fs.len() - 1 implies (#[trigger] fs[j]).1.usage != u by {
                    assert(fs[j] == pre[j]);
                }
                if fs.last().1.usage == u {
                    assert(fs[fs.len() - 1] == fs.last());
                }
            },
        }
    }
}

/// Where the four usages of interest are first found in `ls`.
pub open spec fn located(ls: Seq<(u8, Seq<FieldLoc>)>) -> Located {
    let fs = all_fields(ls);
    Located {
        ac_present: first_with_usage(fs, USAGE_AC_PRESENT),
        discharging: first_with_usage(fs, USAGE_DISCHARGING),
        remaining_capacity: first_with_usage(fs, USAGE_REMAINING_CAPACITY),
        runtime_to_empty: first_with_usage(fs, USAGE_RUNTIME_TO_EMPTY),
    }
}

/// The new first match after one more field.
fn keep_first(slot: Option<(u8, FieldLoc)>, rid: u8, f: FieldLoc, u: u32) -> (r: Option<
    (u8, FieldLoc),
>)
    ensures
        r == (if slot.is_some() {
            slot
        } else if f.usage == u {
            Some((rid, f))
        } else {
            None::<(u8, FieldLoc)>
        }),
{
    if slot.is_some() {
        slot
    } else if f.usage == u {
        Some((rid, f))
    } else {
        None
    }
}

/// Find, for each usage of interest, the first field (in report order, then
/// field order) that carries it.
pub fn locate(layouts: &[ReportLayout]) -> (r: Located)
    ensures
        r == located(layouts@.map_values(|l: ReportLayout| l@)),
        earliest_with_usage(
            all_fields(layouts@.map_values(|l: ReportLayout| l@)),
            USAGE_AC_PRESENT,
            r.ac_present,
        ),
        earliest_with_usage(
            all_fields(layouts@.map_values(|l: ReportLayout| l@)),
            USAGE_DISCHARGING,
            r.discharging,
        ),
        earliest_with_usage(
            all_fields(layouts@.map_values(|l: ReportLayout| l@)),
            USAGE_REMAINING_CAPACITY,
            r.remaining_capacity,
        ),
        earliest_with_usage(
            all_fields(layouts@.map_values(|l: ReportLayout| l@)),
            USAGE_RUNTIME_TO_EMPTY,
            r.runtime_to_empty,
        ),
{
    proof {
        let fs = all_fields(layouts@.map_values(|l: ReportLayout| l@));
        lemma_first_with_usage_is_earliest(fs, USAGE_AC_PRESENT);
        lemma_first_with_usage_is_earliest(fs, USAGE_DISCHARGING);
        lemma_first_with_usage_is_earliest(fs, USAGE_REMAINING_CAPACITY);
        lemma_first_with_usage_is_earliest(fs, USAGE_RUNTIME_TO_EMPTY);
    }
    let ghost ls = layouts@.map_values(|l: ReportLayout| l@);
    let mut out = Located {
        ac_present: None,
        discharging: None,
        remaining_capacity: None,
        runtime_to_empty: None,
    };
    let mut i: usize = 0;
    while i < layouts.len()
        invariant
            i <= layouts@.len(),
            ls == layouts@.map_values(|l: ReportLayout| l@),
            out == located(ls.take(i as int)),
        decreases layouts@.len() - i,
    {
        let l = &layouts[i];
        let ghost prefix = all_fields(ls.take(i as int));
        proof {
            assert(ls.take(i + 1).drop_last() =~= ls.take(i as int));
            assert(ls.take(i + 1).last() == l@);
        }
        let mut j: usize = 0;
        while j < l.fields.len()
            invariant
                j <= l.fields@.len(),
                out == located_fields(
                    prefix + l.fields@.take(j as int).map_values(|f: FieldLoc| (l.report_id, f)),
                ),
            decreases l.fields@.len() - j,
        {
            let f = l.fields[j];
            proof {
                let a = prefix + l.fields@.take(j + 1).map_values(
                    |f: FieldLoc| (l.report_id, f),
                );
                let b = prefix + l.fields@.take(j as int).map_values(
                    |f: FieldLoc| (l.report_id, f),
                );
                assert(a.drop_last() =~= b);
                assert(a.last() == (l.report_id, f));
            }
            out = Located {
                ac_present: keep_first(out.ac_present, l.report_id, f, USAGE_AC_PRESENT),
                discharging: keep_first(out.discharging, l.report_id, f, USAGE_DISCHARGING),
                remaining_capacity: keep_first(
                    out.remaining_capacity,
                    l.report_id,
                    f,
                    USAGE_REMAINING_CAPACITY,
                ),
                runtime_to_empty: keep_first(
                    out.runtime_to_empty,
                    l.report_id,
                    f,
                    USAGE_RUNTIME_TO_EMPTY,
                ),
            };
            j = j + 1;
        }
        proof {
            assert(l.fields@.take(l.fields@.len() as int) =~= l.fields@);
            assert(all_fields(ls.take(i + 1)) =~= prefix + l.fields@.map_values(
                |f: FieldLoc| (l.report_id, f),
            ));
        }
        i = i + 1;
    }
    assert(ls.take(layouts@.len() as int) =~= ls);
    out
}

/// `located` over an already flattened field list.
pub open spec fn located_fields(fs: Seq<(u8, FieldLoc)>) -> Located {
    Located {
        ac_present: first_with_usage(fs, USAGE_AC_PRESENT),
        discharging: first_with_usage(fs, USAGE_DISCHARGING),
        remaining_capacity: first_with_usage(fs, USAGE_REMAINING_CAPACITY),
        runtime_to_empty: first_with_usage(fs, USAGE_RUNTIME_TO_EMPTY),
    }
}

/// The power state that the ACPresent / Discharging flags indicate:
/// discharging or mains absent means on battery; mains present (or not
/// discharging, when mains is unknown) means online; no data means unknown.
pub open spec fn power_state_of(ac_present: Option<bool>, discharging: Option<bool>) -> PowerState {
    match (ac_present, discharging) {
        (_, Some(true)) => PowerState::OnBattery,
        (Some(false), _) => PowerState::OnBattery,
        (Some(true), _) => PowerState::Online,
        (None, Some(false)) => PowerState::Online,
        (None, None) => PowerState::Unknown,
    }
}

/// Derive `PowerState` from ACPresent / Discharging flags.
pub fn derive_status(ac_present: Option<bool>, discharging: Option<bool>) -> (r: PowerState)
    ensures
        r == power_state_of(ac_present, discharging),
        discharging == Some(true) ==> r == PowerState::OnBattery,
        ac_present == Some(false) ==> r == PowerState::OnBattery,
        ac_present == Some(true) && discharging != Some(true) ==> r == PowerState::Online,
        ac_present is None && discharging == Some(false) ==> r == PowerState::Online,
        ac_present is None && discharging is None ==> r == PowerState::Unknown,
{
    match (ac_present, discharging) {
        (_, Some(true)) => PowerState::OnBattery,
        (Some(false), _) => PowerState::OnBattery,
        (Some(true), _) => PowerState::Online,
        (None, Some(false)) => PowerState::Online,
        (None, None) => PowerState::Unknown,
    }
}

/// A raw flag reading read as a boolean: nonzero is set.
pub open spec fn flag_of(v: Option<u64>) -> Option<bool> {
    match v {
        Some(x) => Some(x != 0),
        None => None,
    }
}

/// The snapshot built from the raw readings of the four usages.
pub open spec fn status_from(
    id: Seq<char>,
    ac_present: Option<u64>,
    discharging: Option<u64>,
    remaining_capacity: Option<u64>,
    runtime_to_empty: Option<u64>,
    now: i64,
) -> UpsStatusView {
    UpsStatusView {
        id,
        status: power_state_of(flag_of(ac_present), flag_of(discharging)),
        battery_pct: match remaining_capacity {
            Some(v) => Some((if v < 100 {
                v
            } else {
                100
            }) as u8),
            None => None,
        },
        runtime_secs: match runtime_to_empty {
            Some(v) => Some(v as u32),
            None => None,
        },
        load_pct: None,
        last_updated: now,
    }
}

/// How a snapshot follows from the raw readings (nonzero is a set flag):
/// a set Discharging flag means on battery whatever ACPresent reads, as
/// does a clear ACPresent flag; a set ACPresent flag without a set
/// Discharging flag means online, as does a clear Discharging flag when
/// ACPresent was not read; with neither flag read the state is unknown.
/// The charge is capped at 100 and the runtime is taken as read.
pub proof fn lemma_status_from_rule(
    id: Seq<char>,
    ac_present: Option<u64>,
    discharging: Option<u64>,
    remaining_capacity: Option<u64>,
    runtime_to_empty: Option<u64>,
    now: i64,
)
    ensures
        ({
            let s = status_from(id, ac_present, discharging, remaining_capacity, runtime_to_empty, now);
            &&& (discharging is Some && discharging.unwrap() != 0) ==> s.status == PowerState::OnBattery
            &&& (ac_present is Some && ac_present.unwrap() == 0) ==> s.status == PowerState::OnBattery
            &&& (ac_present is Some && ac_present.unwrap() != 0 && !(discharging is Some
                && discharging.unwrap() != 0)) ==> s.status == PowerState::Online
            &&& (ac_present is None && discharging is Some && discharging.unwrap() == 0) ==> s.status
                == PowerState::Online
            &&& (ac_present is None && discharging is None) ==> s.status == PowerState::Unknown
            &&& s.battery_pct == (match remaining_capacity {
                Some(v) => Some((if v < 100 { v } else { 100 }) as u8),
                None => None,
            })
            &&& s.runtime_secs == (match runtime_to_empty {
                Some(v) => Some(v as u32),
                None => None,
            })
            &&& s.id == id
            &&& s.last_updated == now
        }),
{
}

/// The buffer handed to a feature-report read: 64 bytes, the report id
/// first and zeros after it.
pub fn feature_request(report_id: u8) -> (r: Vec<u8>)
    ensures
        r@.len() == 64,
        r@[0] == report_id,
        forall|i: int| 1 <= i < 64 ==> r@[i] == 0,
{
    let mut out: Vec<u8> = Vec::new();
    out.push(report_id);
    while out.len() < 64
        invariant
            1 <= out@.len() <= 64,
            out@[0] == report_id,
            forall|i: int| 1 <= i < out@.len() ==> out@[i] == 0,
        decreases 64 - out@.len(),
    {
        out.push(0);
    }
    out
}

/// The payload of a feature report read into `buf` (report id first) when
/// the device reported `n` bytes: the bytes after the report id, up to `n`
/// or the end of the buffer.
pub fn feature_payload(buf: &[u8], n: usize) -> (r: Vec<u8>)
    requires
        buf@.len() >= 1,
        n >= 1,
    ensures
        r@ == buf@.subrange(1, if n < buf@.len() { n as int } else { buf@.len() as int }),
{
    let end = if n < buf.len() {
        n
    } else {
        buf.len()
    };
    let mut out: Vec<u8> = Vec::new();
    let mut i: usize = 1;
    while i < end
        invariant
            1 <= i <= end <= buf@.len(),
            out@ == buf@.subrange(1, i as int),
        decreases end - i,
    {
        out.push(buf[i]);
        i = i + 1;
        assert(out@ =~= buf@.subrange(1, i as int));
    }
    out
}

/// Build one status snapshot from the raw field readings (each `None` when
/// the usage is absent or its report could not be read): the power state
/// from the ACPresent / Discharging flags, the battery percentage capped at
/// 100, and the runtime in seconds.
pub fn status_from_readings(
    id: &str,
    ac_present: Option<u64>,
    discharging: Option<u64>,
    remaining_capacity: Option<u64>,
    runtime_to_empty: Option<u64>,
    now: i64,
) -> (r: UpsStatus)
    ensures
        r@ == status_from(
            id@,
            ac_present,
            discharging,
            remaining_capacity,
            runtime_to_empty,
            now,
        ),
        (discharging is Some && discharging.unwrap() != 0) ==> r@.status == PowerState::OnBattery,
        (ac_present is Some && ac_present.unwrap() == 0) ==> r@.status == PowerState::OnBattery,
        (ac_present is Some && ac_present.unwrap() != 0 && !(discharging is Some
            && discharging.unwrap() != 0)) ==> r@.status == PowerState::Online,
        (ac_present is None && discharging is Some && discharging.unwrap() == 0) ==> r@.status
            == PowerState::Online,
        (ac_present is None && discharging is None) ==> r@.status == PowerState::Unknown,
        r@.battery_pct == (match remaining_capacity {
            Some(v) => Some((if v < 100 { v } else { 100 }) as u8),
            None => None,
        }),
        r@.runtime_secs == (match runtime_to_empty {
            Some(v) => Some(v as u32),
            None => None,
        }),
        r@.id == id@,
        r@.last_updated == now,
{
    proof {
        lemma_status_from_rule(id@, ac_present, discharging, remaining_capacity, runtime_to_empty, now);
    }
    let ac = match ac_present {
        Some(v) => Some(v != 0),
        None => None,
    };
    let dis = match discharging {
        Some(v) => Some(v != 0),
        None => None,
    };
    let status = derive_status(ac, dis);
    let battery_pct = match remaining_capacity {
        Some(v) => Some((if v < 100 {
            v
        } else {
            100
        }) as u8),
        None => None,
    };
    let runtime_secs = match runtime_to_empty {
        Some(v) => Some(v as u32),
        None => None,
    };
    UpsStatus {
        id: String::from_str(id),
        status,
        battery_pct,
        runtime_secs,
        load_pct: None,
        last_updated: now,
    }
}

/// The payloads of the feature reports that were read, as report id and
/// bytes (without the id); a report whose read failed is missing.
pub open spec fn payload_views(payloads: Seq<(u8, Vec<u8>)>) -> Seq<(u8, Seq<u8>)> {
    payloads.map_values(|e: (u8, Vec<u8>)| (e.0, e.1@))
}

/// The payload read for report `rid`: the first one listed for it.
pub open spec fn payload_for(payloads: Seq<(u8, Seq<u8>)>, rid: u8) -> Option<Seq<u8>>
    decreases payloads.len(),
{
    if payloads.len() == 0 {
        None
    } else if payloads[0].0 == rid {
        Some(payloads[0].1)
    } else {
        payload_for(payloads.drop_first(), rid)
    }
}

/// The raw reading of a located field: its value in the payload of its
/// report, or `None` when the field was not found, its report was not
/// read, or the payload is too short for it.
pub open spec fn reading_of(slot: Option<(u8, FieldLoc)>, payloads: Seq<(u8, Seq<u8>)>) -> Option<u64> {
    match slot {
        None => None,
        Some((rid, loc)) => match payload_for(payloads, rid) {
            None => None,
            Some(p) => if field_in_bounds(p.len(), loc) {
                Some(field_value(p, loc) as u64)
            } else {
                None
            },
        },
    }
}

/// A located field whose value can be taken from the payloads: a field
/// that lies within its payload spans at most 64 bits from its first byte
/// (wider fields make the reading panic).
pub open spec fn readable(slot: Option<(u8, FieldLoc)>, payloads: Seq<(u8, Seq<u8>)>) -> bool {
    match slot {
        None => true,
        Some((rid, loc)) => match payload_for(payloads, rid) {
            None => true,
            Some(p) => field_in_bounds(p.len(), loc) ==> loc.bit_offset % 8 + loc.bit_size <= 64,
        },
    }
}

fn find_payload<'a>(payloads: &'a Vec<(u8, Vec<u8>)>, rid: u8) -> (r: Option<&'a Vec<u8>>)
    ensures
        match r {
            Some(p) => payload_for(payload_views(payloads@), rid) == Some(p@),
            None => payload_for(payload_views(payloads@), rid) is None,
        },
{
    let ghost pv = payload_views(payloads@);
    let mut k: usize = 0;
    assert(pv.skip(0) =~= pv);
    while k < payloads.len()
        invariant
            k <= payloads@.len(),
            pv == payload_views(payloads@),
            payload_for(pv, rid) == payload_for(pv.skip(k as int), rid),
        decreases payloads@.len() - k,
    {
        proof {
            assert(pv.skip(k as int)[0] == pv[k as int]);
            assert(pv.skip(k as int).drop_first() =~= pv.skip(k + 1));
        }
        if payloads[k].0 == rid {
            return Some(&payloads[k].1);
        }
        k = k + 1;
    }
    assert(pv.skip(k as int).len() == 0);
    None
}

/// The raw reading of one located field from the payloads read.
pub fn read_field(slot: Option<(u8, FieldLoc)>, payloads: &Vec<(u8, Vec<u8>)>) -> (r: Option<u64>)
    requires
        readable(slot, payload_views(payloads@)),
    ensures
        r == reading_of(slot, payload_views(payloads@)),
{
    match slot {
        None => None,
        Some((rid, loc)) => match find_payload(payloads, rid) {
            None => None,
            Some(p) => {
                let v = extract(p.as_slice(), &loc);
                proof {
                    if v is Some {
                        assert(v.unwrap() as nat == field_value(p@, loc));
                    }
                }
                v
            },
        },
    }
}

/// One status snapshot from the located fields and the payloads of the
/// feature reports read: ACPresent and Discharging give the power state,
/// RemainingCapacity the battery percentage (capped at 100) and
/// RunTimeToEmpty the runtime; a field that cannot be read counts as
/// absent.
pub fn status_from_payloads(id: &str, located: &Located, payloads: &Vec<(u8, Vec<u8>)>, now: i64) -> (r:
    UpsStatus)
    requires
        readable(located.ac_present, payload_views(payloads@)),
        readable(located.discharging, payload_views(payloads@)),
        readable(located.remaining_capacity, payload_views(payloads@)),
        readable(located.runtime_to_empty, payload_views(payloads@)),
    ensures
        r@ == status_from(
            id@,
            reading_of(located.ac_present, payload_views(payloads@)),
            reading_of(located.discharging, payload_views(payloads@)),
            reading_of(located.remaining_capacity, payload_views(payloads@)),
            reading_of(located.runtime_to_empty, payload_views(payloads@)),
            now,
        ),
{
    let ac = read_field(located.ac_present, payloads);
    let dis = read_field(located.discharging, payloads);
    let cap = read_field(located.remaining_capacity, payloads);
    let rt = read_field(located.runtime_to_empty, payloads);
    status_from_readings(id, ac, dis, cap, rt, now)
}

} // verus!
