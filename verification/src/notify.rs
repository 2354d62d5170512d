//! The toast notifications the client shows: their title, text, urgency and
//! how long they stay. Showing them is done by the caller.

use vstd::prelude::*;
use crate::detect::AlertEvent;
use crate::text::{decimal, push_decimal, push_str};

verus! {

/// How urgent a toast is.
#[derive(Debug, Clone, Copy, PartialEq, Eq, Structural)]
pub enum Urgency {
    Normal,
    Critical,
}

/// How long a toast stays on screen.
#[derive(Debug, Clone, Copy, PartialEq, Eq, Structural)]
pub enum ToastTimeout {
    /// Until dismissed.
    Never,
    Milliseconds(u32),
}

/// One toast notification.
#[derive(Debug)]
pub struct Toast {
    pub summary: String,
    pub body: String,
    pub urgency: Urgency,
    pub timeout: ToastTimeout,
}

/// The remaining-runtime note of the critical alert, in whole minutes.
pub open spec fn runtime_note(runtime_secs: Option<u32>) -> Seq<char> {
    match runtime_secs {
        Some(r) => " (~"@ + decimal((r / 60) as nat) + " min left)"@,
        None => Seq::empty(),
    }
}

/// The toast for one alert event: Tier 1 and Tier 2 stay until dismissed at
/// critical urgency, Tier 2 naming the battery percentage and runtime; the
/// recovery toast is quiet and leaves after six seconds.
pub fn alert_toast(event: &AlertEvent) -> (r: Toast)
    ensures
        match event {
            AlertEvent::WentOnBattery { id } => {
                &&& r.summary@ == "UPS On Battery"@
                &&& r.body@ == id@ + " has switched to battery power."@
                &&& r.urgency == Urgency::Critical
                &&& r.timeout == ToastTimeout::Never
            },
            AlertEvent::LowBattery { id, pct, runtime_secs } => {
                &&& r.summary@ == "SHUT DOWN NOW — UPS Critical"@
                &&& r.body@ == id@ + " is at "@ + decimal(*pct as nat) + "% battery"@ + runtime_note(
                    *runtime_secs,
                ) + ". Shut down connected equipment now."@
                &&& r.urgency == Urgency::Critical
                &&& r.timeout == ToastTimeout::Never
            },
            AlertEvent::Recovered { id } => {
                &&& r.summary@ == "UPS Back to Normal"@
                &&& r.body@ == id@ + " is back on mains power."@
                &&& r.urgency == Urgency::Normal
                &&& r.timeout == ToastTimeout::Milliseconds(6000)
            },
        },
{
    match event {
        AlertEvent::WentOnBattery { id } => {
            let mut body = id.clone();
            push_str(&mut body, " has switched to battery power.");
            Toast {
                summary: String::from_str("UPS On Battery"),
                body,
                urgency: Urgency::Critical,
                timeout: ToastTimeout::Never,
            }
        },
        AlertEvent::LowBattery { id, pct, runtime_secs } => {
            let mut body = id.clone();
            push_str(&mut body, " is at ");
            push_decimal(&mut body, *pct as u128);
            push_str(&mut body, "% battery");
            match runtime_secs {
                Some(r) => {
                    push_str(&mut body, " (~");
                    push_decimal(&mut body, (*r / 60) as u128);
                    push_str(&mut body, " min left)");
                },
                None => {},
            }
            push_str(&mut body, ". Shut down connected equipment now.");
            proof {
                let note = runtime_note(*runtime_secs);
                assert(body@ =~= id@ + " is at "@ + decimal(*pct as nat) + "% battery"@ + note
                    + ". Shut down connected equipment now."@);
            }
            Toast {
                summary: String::from_str("SHUT DOWN NOW — UPS Critical"),
                body,
                urgency: Urgency::Critical,
                timeout: ToastTimeout::Never,
            }
        },
        AlertEvent::Recovered { id } => {
            let mut body = id.clone();
            push_str(&mut body, " is back on mains power.");
            Toast {
                summary: String::from_str("UPS Back to Normal"),
                body,
                urgency: Urgency::Normal,
                timeout: ToastTimeout::Milliseconds(6000),
            }
        },
    }
}

/// The toast announcing that the server cannot be reached: critical, stays
/// until dismissed.
pub fn server_unreachable_toast() -> (r: Toast)
    ensures
        r.summary@ == "UPS Monitor — Server Unreachable"@,
        r.body@ == "Cannot reach the UPS server. UPS state may be stale."@,
        r.urgency == Urgency::Critical,
        r.timeout == ToastTimeout::Never,
{
    Toast {
        summary: String::from_str("UPS Monitor — Server Unreachable"),
        body: String::from_str("Cannot reach the UPS server. UPS state may be stale."),
        urgency: Urgency::Critical,
        timeout: ToastTimeout::Never,
    }
}

/// The toast announcing that the server answers again: quiet, leaves after
/// five seconds.
pub fn server_recovered_toast() -> (r: Toast)
    ensures
        r.summary@ == "UPS Monitor — Server Reachable Again"@,
        r.body@ == "Reconnected to the UPS server."@,
        r.urgency == Urgency::Normal,
        r.timeout == ToastTimeout::Milliseconds(5000),
{
    Toast {
        summary: String::from_str("UPS Monitor — Server Reachable Again"),
        body: String::from_str("Reconnected to the UPS server."),
        urgency: Urgency::Normal,
        timeout: ToastTimeout::Milliseconds(5000),
    }
}

} // verus!
