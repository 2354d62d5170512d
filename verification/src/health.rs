//! Overall health of the UPS units the server watches, which drives the
//! server's tray icon and tooltip.

use vstd::prelude::*;
use crate::status::{PowerState, UpsStatus};

verus! {

/// Green when all online, amber if any on battery, red if any unknown.
#[derive(Debug, Clone, Copy, PartialEq, Eq, Structural)]
pub enum Health {
    AllOnline,
    AnyOnBattery,
    AnyUnknown,
}

/// Whether some status in `s` has the given power state.
pub open spec fn any_in_state(s: Seq<UpsStatus>, p: PowerState) -> bool {
    exists|k: int| 0 <= k < s.len() && #[trigger] s[k].status == p
}

/// Whether some status has the given power state.
fn any_with(statuses: &[UpsStatus], p: PowerState) -> (r: bool)
    ensures
        r == any_in_state(statuses@, p),
{
    let mut k: usize = 0;
    while k < statuses.len()
        invariant
            k <= statuses@.len(),
            forall|j: int| 0 <= j < k ==> (#[trigger] statuses@[j]).status != p,
        decreases statuses@.len() - k,
    {
        if statuses[k].status == p {
            return true;
        }
        k = k + 1;
    }
    false
}

/// Overall health: any unknown unit dominates, then any unit on battery.
pub fn overall_health(statuses: &[UpsStatus]) -> (r: Health)
    ensures
        r == (if any_in_state(statuses@, PowerState::Unknown) {
            Health::AnyUnknown
        } else if any_in_state(statuses@, PowerState::OnBattery) {
            Health::AnyOnBattery
        } else {
            Health::AllOnline
        }),
{
    if any_with(statuses, PowerState::Unknown) {
        Health::AnyUnknown
    } else if any_with(statuses, PowerState::OnBattery) {
        Health::AnyOnBattery
    } else {
        Health::AllOnline
    }
}

/// The server tray tooltip for a health state.
pub open spec fn health_tooltip_text(h: Health) -> Seq<char> {
    match h {
        Health::AllOnline => "UPS Monitor — all online"@,
        Health::AnyOnBattery => "UPS Monitor — a UPS is on battery"@,
        Health::AnyUnknown => "UPS Monitor — a UPS is unreachable"@,
    }
}

/// The server tray tooltip for a health state.
pub fn health_tooltip(h: Health) -> (r: String)
    ensures
        r@ == health_tooltip_text(h),
{
    match h {
        Health::AllOnline => String::from_str("UPS Monitor — all online"),
        Health::AnyOnBattery => String::from_str("UPS Monitor — a UPS is on battery"),
        Health::AnyUnknown => String::from_str("UPS Monitor — a UPS is unreachable"),
    }
}

} // verus!
