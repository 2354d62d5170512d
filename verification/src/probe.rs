//! What the diagnostics probe prints and sends: usage names, hex dumps of
//! report descriptors, field lines, and the frames and replies of APC's
//! legacy "smart protocol" status queries.

use vstd::prelude::*;
use crate::hid::{
    USAGE_AC_PRESENT, USAGE_DISCHARGING, USAGE_REMAINING_CAPACITY, USAGE_RUNTIME_TO_EMPTY,
};
use crate::hid_desc::FieldLoc;
use crate::logbuf::{decode_lossy, utf8_lossy};
use crate::text::{
    decimal, hex, push_char, push_decimal, push_hex_padded, push_str, trim_nul_white,
    trim_nul_white_str, zero_pad,
};

verus! {

/// The name of a Power Device / Battery System usage this project knows.
pub open spec fn known_usage_name(u: u32) -> Option<Seq<char>> {
    if u == 0x8500D0 {
        Some("ACPresent"@)
    } else if u == 0x8500D6 {
        Some("Discharging"@)
    } else if u == 0x8500DB {
        Some("Charging"@)
    } else if u == 0x850066 {
        Some("RemainingCapacity"@)
    } else if u == 0x850068 {
        Some("RunTimeToEmpty"@)
    } else if u == 0x850085 {
        Some("BatteryPresent"@)
    } else if u == 0x840035 {
        Some("PercentLoad"@)
    } else if u == 0x840030 {
        Some("Voltage"@)
    } else {
        None
    }
}

/// Each usage this project knows has its own Power Device / Battery System
/// name, and no other usage has that name: ACPresent, Discharging,
/// RemainingCapacity and RunTimeToEmpty are the usages the status is read
/// from, Charging is `0x8500DB`, BatteryPresent `0x850085`, PercentLoad
/// `0x840035` and Voltage `0x840030`.
pub proof fn lemma_usage_names(u: u32)
    ensures
        known_usage_name(u) == Some("ACPresent"@) <==> u == USAGE_AC_PRESENT,
        known_usage_name(u) == Some("Discharging"@) <==> u == USAGE_DISCHARGING,
        known_usage_name(u) == Some("Charging"@) <==> u == 0x8500DB,
        known_usage_name(u) == Some("RemainingCapacity"@) <==> u == USAGE_REMAINING_CAPACITY,
        known_usage_name(u) == Some("RunTimeToEmpty"@) <==> u == USAGE_RUNTIME_TO_EMPTY,
        known_usage_name(u) == Some("BatteryPresent"@) <==> u == 0x850085,
        known_usage_name(u) == Some("PercentLoad"@) <==> u == 0x840035,
        known_usage_name(u) == Some("Voltage"@) <==> u == 0x840030,
{
    reveal_strlit("ACPresent");
    reveal_strlit("Discharging");
    reveal_strlit("Charging");
    reveal_strlit("RemainingCapacity");
    reveal_strlit("RunTimeToEmpty");
    reveal_strlit("BatteryPresent");
    reveal_strlit("PercentLoad");
    reveal_strlit("Voltage");
    assert("ACPresent"@.len() == 9);
    assert("Discharging"@.len() == 11);
    assert("Charging"@.len() == 8);
    assert("RemainingCapacity"@.len() == 17);
    assert("RunTimeToEmpty"@.len() == 14);
    assert("BatteryPresent"@.len() == 14);
    assert("PercentLoad"@.len() == 11);
    assert("Voltage"@.len() == 7);
    assert("Discharging"@[0] != "PercentLoad"@[0]);
    assert("RunTimeToEmpty"@[0] != "BatteryPresent"@[0]);
}

fn known_name(u: u32) -> (r: Option<&'static str>)
    ensures
        match r {
            Some(n) => known_usage_name(u) == Some(n@),
            None => known_usage_name(u) is None,
        },
{
    if u == 0x8500D0 {
        Some("ACPresent")
    } else if u == 0x8500D6 {
        Some("Discharging")
    } else if u == 0x8500DB {
        Some("Charging")
    } else if u == 0x850066 {
        Some("RemainingCapacity")
    } else if u == 0x850068 {
        Some("RunTimeToEmpty")
    } else if u == 0x850085 {
        Some("BatteryPresent")
    } else if u == 0x840035 {
        Some("PercentLoad")
    } else if u == 0x840030 {
        Some("Voltage")
    } else {
        None
    }
}

/// How a usage is printed: `0x` and at least six lowercase hex digits,
/// followed by the usage's name in parentheses when it is a known one.
pub open spec fn usage_label(u: u32) -> Seq<char> {
    let code = "0x"@ + zero_pad(hex(u as nat), 6);
    match known_usage_name(u) {
        Some(n) => code + " ("@ + n + ")"@,
        None => code,
    }
}

/// A usage id as the probe prints it, e.g. `0x8500d0 (ACPresent)`.
pub fn usage_name(u: u32) -> (r: String)
    ensures
        r@ == usage_label(u),
{
    let known = known_name(u);
    let mut s = String::from_str("0x");
    push_hex_padded(&mut s, u as u64, 6);
    match known {
        Some(n) => {
            push_str(&mut s, " (");
            push_str(&mut s, n);
            push_str(&mut s, ")");
            s
        },
        None => s,
    }
}

/// A byte as two lowercase hex digits.
pub open spec fn hex_byte(b: u8) -> Seq<char> {
    zero_pad(hex(b as nat), 2)
}

/// Bytes as two-digit hex numbers separated by single spaces.
pub open spec fn hex_words(bs: Seq<u8>) -> Seq<char>
    decreases bs.len(),
{
    if bs.len() == 0 {
        Seq::empty()
    } else if bs.len() == 1 {
        hex_byte(bs[0])
    } else {
        hex_words(bs.drop_last()) + " "@ + hex_byte(bs.last())
    }
}

/// How many bytes one line of a hex dump shows.
pub const DUMP_WIDTH: usize = 16;

/// A hex dump: one line per `DUMP_WIDTH` bytes (the last line may be
/// shorter).
pub open spec fn hex_dump(bs: Seq<u8>) -> Seq<Seq<char>> {
    Seq::new(
        ((bs.len() + 15) / 16) as nat,
        |i: int| hex_words(bs.subrange(16 * i, if 16 * i + 16 < bs.len() { 16 * i + 16 } else { bs.len() as int })),
    )
}

fn hex_line(bs: &[u8], lo: usize, hi: usize) -> (r: String)
    requires
        lo < hi <= bs@.len(),
    ensures
        r@ == hex_words(bs@.subrange(lo as int, hi as int)),
{
    let mut out = String::new();
    push_hex_padded(&mut out, bs[lo] as u64, 2);
    let mut k: usize = lo + 1;
    assert(bs@.subrange(lo as int, k as int) =~= seq![bs@[lo as int]]);
    assert(out@ =~= hex_words(bs@.subrange(lo as int, k as int)));
    while k < hi
        invariant
            lo < k <= hi <= bs@.len(),
            out@ == hex_words(bs@.subrange(lo as int, k as int)),
        decreases hi - k,
    {
        push_char(&mut out, ' ');
        push_hex_padded(&mut out, bs[k] as u64, 2);
        proof {
            reveal_strlit(" ");
            let next = bs@.subrange(lo as int, k + 1);
            assert(next.drop_last() =~= bs@.subrange(lo as int, k as int));
            assert(next.last() == bs@[k as int]);
        }
        k = k + 1;
        assert(out@ =~= hex_words(bs@.subrange(lo as int, k as int)));
    }
    out
}

/// The hex dump of a report descriptor, `DUMP_WIDTH` bytes per line.
pub fn hex_dump_lines(bs: &[u8]) -> (r: Vec<String>)
    ensures
        r@.len() == hex_dump(bs@).len(),
        forall|i: int| 0 <= i < r@.len() ==> #[trigger] r@[i]@ == hex_dump(bs@)[i],
{
    let n = bs.len();
    let mut lines: Vec<String> = Vec::new();
    let mut lo: usize = 0;
    while lo < n
        invariant
            n == bs@.len(),
            lo <= n,
            lo < n ==> lo == 16 * lines@.len(),
            lo == n ==> lines@.len() == (n + 15) / 16,
            forall|i: int|
                0 <= i < lines@.len() ==> #[trigger] lines@[i]@ == hex_words(
                    bs@.subrange(16 * i, if 16 * i + 16 < n { 16 * i + 16 } else { n as int }),
                ),
        decreases n - lo,
    {
        let hi = if n - lo > DUMP_WIDTH {
            lo + DUMP_WIDTH
        } else {
            n
        };
        let line = hex_line(bs, lo, hi);
        lines.push(line);
        lo = hi;
    }
    lines
}

/// The probe's line for one field: its usage, position, size and the raw
/// value read (Rust's `Debug` form of the `Option`).
pub open spec fn field_text(f: FieldLoc, raw: Option<u64>) -> Seq<char> {
    "    "@ + usage_label(f.usage) + " @ bit "@ + decimal(f.bit_offset as nat) + ", "@ + decimal(
        f.bit_size as nat,
    ) + " bits  raw="@ + match raw {
        Some(v) => "Some("@ + decimal(v as nat) + ")"@,
        None => "None"@,
    }
}

/// The probe's line for one field, e.g.
/// `    0x8500d0 (ACPresent) @ bit 0, 1 bits  raw=Some(1)`.
pub fn field_line(f: &FieldLoc, raw: Option<u64>) -> (r: String)
    ensures
        r@ == field_text(*f, raw),
{
    let mut out = String::from_str("    ");
    let name = usage_name(f.usage);
    push_str(&mut out, name.as_str());
    push_str(&mut out, " @ bit ");
    push_decimal(&mut out, f.bit_offset);
    push_str(&mut out, ", ");
    push_decimal(&mut out, f.bit_size as u128);
    push_str(&mut out, " bits  raw=");
    match raw {
        Some(v) => {
            push_str(&mut out, "Some(");
            push_decimal(&mut out, v as u128);
            push_str(&mut out, ")");
        },
        None => push_str(&mut out, "None"),
    }
    assert(out@ =~= field_text(*f, raw));
    out
}

/// Output report that carries one smart-protocol command byte to the UPS.
pub const SMART_CMD_REPORT: u8 = 0x90;

/// Feature report from which the smart-protocol reply is read back.
pub const SMART_REPLY_REPORT: u8 = 0x96;

/// How many times the probe reads the reply before giving up.
pub const SMART_REPLY_POLLS: u32 = 20;

/// The 64-byte output report carrying the query letter `cmd`.
pub fn smart_command_frame(cmd: u8) -> (r: Vec<u8>)
    ensures
        r@.len() == 64,
        r@[0] == SMART_CMD_REPORT,
        r@[1] == cmd,
        forall|i: int| 2 <= i < 64 ==> r@[i] == 0,
{
    let mut out: Vec<u8> = Vec::new();
    out.push(SMART_CMD_REPORT);
    out.push(cmd);
    while out.len() < 64
        invariant
            2 <= out@.len() <= 64,
            out@[0] == SMART_CMD_REPORT,
            out@[1] == cmd,
            forall|i: int| 2 <= i < out@.len() ==> out@[i] == 0,
        decreases 64 - out@.len(),
    {
        out.push(0);
    }
    out
}

/// What a smart-protocol reply read on poll number `attempt` (counting from
/// zero) yields: nothing while the text, without NULs and whitespace at its
/// ends, is empty (the UPS has not answered yet); else that text and the
/// number of polls it took.
pub open spec fn smart_reply(text: Seq<char>, attempt: nat) -> Option<Seq<char>> {
    let t = trim_nul_white(text);
    if t.len() == 0 {
        None
    } else {
        Some(t + " (after "@ + decimal(attempt + 1) + " polls)"@)
    }
}

/// The reply to a smart-protocol query from the decoded reply text.
pub fn smart_reply_from_text(text: &str, attempt: u32) -> (r: Option<String>)
    ensures
        match r {
            Some(s) => smart_reply(text@, attempt as nat) == Some(s@),
            None => smart_reply(text@, attempt as nat) is None,
        },
{
    let t = trim_nul_white_str(text);
    if t.as_str().unicode_len() == 0 {
        None
    } else {
        let mut out = t;
        push_str(&mut out, " (after ");
        push_decimal(&mut out, attempt as u128 + 1);
        push_str(&mut out, " polls)");
        Some(out)
    }
}

/// The reply to a smart-protocol query from the reply report's payload,
/// decoded as UTF-8 with invalid sequences replaced.
pub fn smart_reply_text(payload: &[u8], attempt: u32) -> (r: Option<String>)
    ensures
        match r {
            Some(s) => smart_reply(utf8_lossy(payload@), attempt as nat) == Some(s@),
            None => smart_reply(utf8_lossy(payload@), attempt as nat) is None,
        },
{
    let text = decode_lossy(payload);
    smart_reply_from_text(text.as_str(), attempt)
}

} // verus!
