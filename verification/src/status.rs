//! The shared status model: the power state of one UPS and a snapshot of it,
//! as the server serves it and the client consumes it.

use vstd::prelude::*;
use vstd::string::*;

verus! {

/// High-level power status of a single UPS.
#[derive(Clone, Copy, Debug, PartialEq, Eq, Structural)]
pub enum PowerState {
    /// Mains power present, running normally.
    Online,
    /// Running on battery (mains lost / discharging).
    OnBattery,
    /// Status could not be determined (read error, device missing, etc.).
    Unknown,
}

/// The human-readable name of a power state.
pub open spec fn power_state_label(s: PowerState) -> Seq<char> {
    match s {
        PowerState::Online => "Online"@,
        PowerState::OnBattery => "On Battery"@,
        PowerState::Unknown => "Unknown"@,
    }
}

impl PowerState {
    /// The text shown for this state: "Online", "On Battery" or "Unknown".
    pub fn label(&self) -> (r: String)
        ensures
            r@ == power_state_label(*self),
    {
        match self {
            PowerState::Online => String::from_str("Online"),
            PowerState::OnBattery => String::from_str("On Battery"),
            PowerState::Unknown => String::from_str("Unknown"),
        }
    }
}

/// The current time as milliseconds since the Unix epoch
/// (`chrono::Utc::now().timestamp_millis()`). The result depends on the
/// clock, so nothing is stated of it. `Utc::now` panics when the system
/// clock reads before 1970, which depends on the machine, not on any
/// argument.
#[verifier::external_body]
pub(crate) fn now_millis() -> i64 {
    chrono::Utc::now().timestamp_millis()
}

/// Snapshot of one UPS at a point in time.
#[derive(Debug)]
pub struct UpsStatus {
    /// Human-readable id from the server config, e.g. `rack1-a`.
    pub id: String,
    pub status: PowerState,
    /// Battery charge percentage, if the UPS reports it.
    pub battery_pct: Option<u8>,
    /// Estimated runtime remaining, if the UPS reports it.
    pub runtime_secs: Option<u32>,
    /// Output load percentage, if known.
    pub load_pct: Option<u8>,
    /// When this snapshot was produced, in milliseconds since the Unix epoch.
    pub last_updated: i64,
}

/// The mathematical content of a `UpsStatus`.
pub struct UpsStatusView {
    pub id: Seq<char>,
    pub status: PowerState,
    pub battery_pct: Option<u8>,
    pub runtime_secs: Option<u32>,
    pub load_pct: Option<u8>,
    pub last_updated: i64,
}

impl View for UpsStatus {
    type V = UpsStatusView;

    open spec fn view(&self) -> UpsStatusView {
        UpsStatusView {
            id: self.id@,
            status: self.status,
            battery_pct: self.battery_pct,
            runtime_secs: self.runtime_secs,
            load_pct: self.load_pct,
            last_updated: self.last_updated,
        }
    }
}

/// A status for `id` about which nothing is known, stamped `now`.
pub open spec fn unknown_status(id: Seq<char>, now: i64) -> UpsStatusView {
    UpsStatusView {
        id,
        status: PowerState::Unknown,
        battery_pct: None,
        runtime_secs: None,
        load_pct: None,
        last_updated: now,
    }
}

impl Clone for UpsStatus {
    fn clone(&self) -> (r: Self)
        ensures
            r@ == self@,
    {
        UpsStatus {
            id: self.id.clone(),
            status: self.status,
            battery_pct: self.battery_pct,
            runtime_secs: self.runtime_secs,
            load_pct: self.load_pct,
            last_updated: self.last_updated,
        }
    }
}

impl UpsStatus {
    /// A snapshot of `id` in the `Unknown` state with no readings, stamped
    /// with the given time.
    pub fn unknown_at(id: &str, now: i64) -> (r: Self)
        ensures
            r@ == unknown_status(id@, now),
    {
        UpsStatus {
            id: String::from_str(id),
            status: PowerState::Unknown,
            battery_pct: None,
            runtime_secs: None,
            load_pct: None,
            last_updated: now,
        }
    }

    /// A snapshot of `id` in the `Unknown` state with no readings, stamped
    /// with the current time.
    pub fn unknown(id: &str) -> (r: Self)
        ensures
            r@ == unknown_status(id@, r.last_updated),
    {
        Self::unknown_at(id, now_millis())
    }
}

} // verus!
