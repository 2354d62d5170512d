//! The text lines of the status windows: a UPS card's battery and runtime
//! line, its "Updated" time, and the client's connectivity line. Times are
//! shown as UTC wall-clock time, `HH:MM:SS`.

use vstd::prelude::*;
use vstd::arithmetic::div_mod::lemma_mod_multiples_vanish;
use crate::client_state::{ClientState, Connectivity, TrayState};
use crate::health::Health;
use crate::status::{PowerState, UpsStatus};
use crate::text::{
    decimal, digits_value, is_decimal_digit, lemma_decimal_reads_back, push_char, push_decimal,
    push_str, zero_pad,
};

verus! {

/// Milliseconds in a day.
pub const DAY_MILLIS: u64 = 86_400_000;

/// `n` in decimal, at least two digits wide.
pub open spec fn two_digits(n: nat) -> Seq<char> {
    zero_pad(decimal(n), 2)
}

/// The UTC wall-clock time `HH:MM:SS` of an instant given in milliseconds
/// since the Unix epoch (instants before the epoch count back from the
/// previous midnight).
pub open spec fn clock_text(ms: int) -> Seq<char> {
    let secs = (ms % (DAY_MILLIS as int)) / 1000;
    two_digits((secs / 3600) as nat) + ":"@ + two_digits(((secs % 3600) / 60) as nat) + ":"@
        + two_digits((secs % 60) as nat)
}

/// A percentage or a runtime as a card shows it, `—` when unknown.
pub open spec fn battery_text(pct: Option<u8>) -> Seq<char> {
    match pct {
        Some(p) => decimal(p as nat) + "%"@,
        None => "—"@,
    }
}

/// A runtime as a card shows it: whole minutes, `—` when unknown.
pub open spec fn runtime_text(secs: Option<u32>) -> Seq<char> {
    match secs {
        Some(r) => decimal((r / 60) as nat) + " min"@,
        None => "—"@,
    }
}

/// The battery and runtime line of a UPS card.
pub open spec fn battery_runtime_text(pct: Option<u8>, secs: Option<u32>) -> Seq<char> {
    "Battery: "@ + battery_text(pct) + "   Runtime: "@ + runtime_text(secs)
}

/// A card's runtime is shown in whole minutes: after the battery part and
/// `   Runtime: ` the line holds a run of decimal digits that reads as
/// `secs / 60`, then ` min`, however long the runtime is; an unknown
/// runtime is shown as `—`.
pub proof fn lemma_runtime_in_whole_minutes(pct: Option<u8>, secs: Option<u32>)
    ensures
        ({
            let head = "Battery: "@ + battery_text(pct) + "   Runtime: "@;
            let line = battery_runtime_text(pct, secs);
            match secs {
                Some(r) => {
                    let unit = " min"@;
                    let digits = line.subrange(head.len() as int, line.len() - unit.len());
                    &&& line.len() > head.len() + unit.len()
                    &&& line.subrange(0, head.len() as int) == head
                    &&& line.subrange(line.len() - unit.len(), line.len() as int) == unit
                    &&& forall|i: int|
                        0 <= i < digits.len() ==> is_decimal_digit(#[trigger] digits[i])
                    &&& digits_value(digits) == r / 60
                },
                None => line == head + "—"@,
            }
        }),
{
    let head = "Battery: "@ + battery_text(pct) + "   Runtime: "@;
    let line = battery_runtime_text(pct, secs);
    if let Some(r) = secs {
        let unit = " min"@;
        let d = decimal((r / 60) as nat);
        lemma_decimal_reads_back((r / 60) as nat);
        assert(line =~= head + d + unit);
        assert(line.subrange(0, head.len() as int) =~= head);
        assert(line.subrange(line.len() - unit.len(), line.len() as int) =~= unit);
        assert(line.subrange(head.len() as int, line.len() - unit.len()) =~= d);
    }
}

/// The client's connectivity line.
pub open spec fn connectivity_text(c: Connectivity, last_success: Option<i64>) -> Seq<char> {
    match c {
        Connectivity::Connected => "Connected to server"@,
        Connectivity::Unreachable => match last_success {
            Some(t) => "Unreachable — last seen "@ + clock_text(t as int),
            None => "Unreachable"@,
        },
    }
}

/// Appends `n < 100` in decimal, padded to two digits.
fn push_two_digits(out: &mut String, n: u64)
    requires
        n < 100,
    ensures
        final(out)@ == old(out)@ + two_digits(n as nat),
{
    proof {
        reveal_with_fuel(decimal, 2);
    }
    if n < 10 {
        push_char(out, '0');
        push_decimal(out, n as u128);
        assert(zero_pad(decimal(n as nat), 2) =~= seq!['0'] + decimal(n as nat));
        assert(final(out)@ =~= old(out)@ + two_digits(n as nat)) by {
            assert(out@ =~= old(out)@.push('0') + decimal(n as nat));
        }
    } else {
        push_decimal(out, n as u128);
        assert(decimal(n as nat).len() == 2);
    }
}

/// Appends the UTC wall-clock time `HH:MM:SS` of `ms` (milliseconds since
/// the Unix epoch).
pub fn push_clock(out: &mut String, ms: i64)
    ensures
        final(out)@ == old(out)@ + clock_text(ms as int),
{
    // A whole number of days added to `ms` keeps its time of day and makes
    // it non-negative.
    let shift: i128 = 106_751_991_168i128 * 86_400_000i128;
    let shifted: i128 = ms as i128 + shift;
    let day_ms: i128 = shifted % 86_400_000i128;
    proof {
        lemma_mod_multiples_vanish(106_751_991_168, ms as int, DAY_MILLIS as int);
        assert(day_ms == (ms as int) % (DAY_MILLIS as int));
    }
    let secs: u64 = (day_ms / 1000) as u64;
    let ghost start = out@;
    push_two_digits(out, secs / 3600);
    push_char(out, ':');
    push_two_digits(out, (secs % 3600) / 60);
    push_char(out, ':');
    push_two_digits(out, secs % 60);
    proof {
        reveal_strlit(":");
    }
    assert(out@ =~= start + clock_text(ms as int));
}

/// The battery and runtime line of a UPS card, e.g.
/// `Battery: 85%   Runtime: 30 min`.
pub fn battery_runtime_line(s: &UpsStatus) -> (r: String)
    ensures
        r@ == battery_runtime_text(s.battery_pct, s.runtime_secs),
{
    let mut out = String::from_str("Battery: ");
    match s.battery_pct {
        Some(p) => {
            push_decimal(&mut out, p as u128);
            push_str(&mut out, "%");
        },
        None => push_str(&mut out, "—"),
    }
    push_str(&mut out, "   Runtime: ");
    match s.runtime_secs {
        Some(r) => {
            push_decimal(&mut out, (r / 60) as u128);
            push_str(&mut out, " min");
        },
        None => push_str(&mut out, "—"),
    }
    assert(out@ =~= battery_runtime_text(s.battery_pct, s.runtime_secs));
    out
}

/// The "Updated" line of a UPS card: `Updated HH:MM:SS` (UTC).
pub fn updated_line(s: &UpsStatus) -> (r: String)
    ensures
        r@ == "Updated "@ + clock_text(s.last_updated as int),
{
    let mut out = String::from_str("Updated ");
    push_clock(&mut out, s.last_updated);
    out
}

/// The client's connectivity line: `Connected to server`, or
/// `Unreachable` followed by the time of the last successful poll when
/// there was one.
pub fn connectivity_line(cs: &ClientState) -> (r: String)
    ensures
        r@ == connectivity_text(cs.connectivity, cs.last_success),
{
    match cs.connectivity {
        Connectivity::Connected => String::from_str("Connected to server"),
        Connectivity::Unreachable => match cs.last_success {
            Some(t) => {
                let mut out = String::from_str("Unreachable — last seen ");
                push_clock(&mut out, t);
                out
            },
            None => String::from_str("Unreachable"),
        },
    }
}

/// The server window's simulation button: it starts the "simulate on
/// battery" override, or stops it while it runs.
pub fn simulation_button_label(simulating: bool) -> (r: String)
    ensures
        r@ == (if simulating {
            "■ Stop simulation (ON BATTERY)"@
        } else {
            "Simulate UPS on Battery"@
        }),
{
    if simulating {
        String::from_str("■ Stop simulation (ON BATTERY)")
    } else {
        String::from_str("Simulate UPS on Battery")
    }
}

/// The warning shown under the simulation button while the override runs.
pub fn simulation_note(simulating: bool) -> (r: Option<String>)
    ensures
        match r {
            Some(n) => simulating && n@ == "Simulation active: all units report OnBattery"@,
            None => !simulating,
        },
{
    if simulating {
        Some(String::from_str("Simulation active: all units report OnBattery"))
    } else {
        None
    }
}

/// The symbol drawn on a UPS card.
#[derive(Debug, Clone, Copy, PartialEq, Eq, Structural)]
pub enum Glyph {
    Power,
    PowerOff,
    Help,
}

/// A card's symbol and its colour (red, green, blue) for a power state:
/// green "power" when online, amber "power off" on battery, grey "help"
/// when unknown.
pub fn state_icon(s: PowerState) -> (r: (Glyph, (u8, u8, u8)))
    ensures
        r == (match s {
            PowerState::Online => (Glyph::Power, (0x4cu8, 0xafu8, 0x50u8)),
            PowerState::OnBattery => (Glyph::PowerOff, (0xffu8, 0x98u8, 0x00u8)),
            PowerState::Unknown => (Glyph::Help, (160u8, 160u8, 160u8)),
        }),
{
    match s {
        PowerState::Online => (Glyph::Power, (0x4c, 0xaf, 0x50)),
        PowerState::OnBattery => (Glyph::PowerOff, (0xff, 0x98, 0x00)),
        PowerState::Unknown => (Glyph::Help, (160, 160, 160)),
    }
}

/// The colour of a tray icon.
#[derive(Debug, Clone, Copy, PartialEq, Eq, Structural)]
pub enum TrayColor {
    Green,
    Orange,
    Red,
}

/// The server's tray icon: green when all units are online, orange when
/// one is on battery, red when one cannot be read.
pub fn health_color(h: Health) -> (r: TrayColor)
    ensures
        r == (match h {
            Health::AllOnline => TrayColor::Green,
            Health::AnyOnBattery => TrayColor::Orange,
            Health::AnyUnknown => TrayColor::Red,
        }),
{
    match h {
        Health::AllOnline => TrayColor::Green,
        Health::AnyOnBattery => TrayColor::Orange,
        Health::AnyUnknown => TrayColor::Red,
    }
}

/// The client's tray icon: green when connected and all online, orange
/// when a unit is on battery, red when the server is unreachable.
pub fn tray_color(t: TrayState) -> (r: TrayColor)
    ensures
        r == (match t {
            TrayState::Healthy => TrayColor::Green,
            TrayState::OnBattery => TrayColor::Orange,
            TrayState::Unreachable => TrayColor::Red,
        }),
{
    match t {
        TrayState::Healthy => TrayColor::Green,
        TrayState::OnBattery => TrayColor::Orange,
        TrayState::Unreachable => TrayColor::Red,
    }
}

} // verus!
