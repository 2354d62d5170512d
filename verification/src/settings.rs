//! The client's "Server settings" dialog: its fields as loaded from the
//! configuration, and the validation of what the user entered. The dialog
//! itself is drawn by the caller.

use vstd::prelude::*;
use crate::client_config::Config;
use crate::dialogs::save_failed_message;
use crate::text::{
    chars_of, decimal, decimal_string, digit_char, push_str, trim, trim_end_by, trim_start_by,
    trim_str,
};

verus! {

/// The dialog's fields. The port is kept as text while being edited, so an
/// in-progress edit (e.g. an empty field) is not clobbered.
#[derive(Debug)]
pub struct ServerDialog {
    pub address: String,
    pub port: String,
    pub error: Option<String>,
}

impl ServerDialog {
    /// The dialog filled in from the current configuration.
    pub fn from_config(cfg: &Config) -> (r: Self)
        ensures
            r.address@ == cfg.server.address@,
            r.port@ == decimal(cfg.server.port as nat),
            parse_u16(trim(r.port@)) == Some(cfg.server.port),
            r.error is None,
    {
        proof {
            lemma_decimal_parses_back(cfg.server.port as nat);
        }
        ServerDialog {
            address: cfg.server.address.clone(),
            port: decimal_string(cfg.server.port as u64),
            error: None,
        }
    }
}

/// Whether `c` is an ASCII decimal digit.
pub open spec fn is_digit(c: char) -> bool {
    '0' <= c <= '9'
}

/// The value of a string of decimal digits.
pub open spec fn digits_value(s: Seq<char>) -> nat
    decreases s.len(),
{
    if s.len() == 0 {
        0
    } else {
        digits_value(s.drop_last()) * 10 + ((s.last() as u32) - ('0' as u32)) as nat
    }
}

/// Whether every character of `s` is an ASCII digit.
pub open spec fn all_digits(s: Seq<char>) -> bool {
    forall|i: int| 0 <= i < s.len() ==> is_digit(#[trigger] s[i])
}

/// What `str::parse::<u16>` accepts: an optional `+`, then one or more
/// ASCII digits whose value is at most 65535.
pub open spec fn parse_u16(s: Seq<char>) -> Option<u16> {
    let body = if s.len() > 0 && s[0] == '+' {
        s.drop_first()
    } else {
        s
    };
    if body.len() > 0 && all_digits(body) && digits_value(body) <= 65535 {
        Some(digits_value(body) as u16)
    } else {
        None
    }
}

/// The decimal rendering of `n` is a non-empty string of digits whose value
/// is `n`.
proof fn lemma_decimal_digits(n: nat)
    ensures
        decimal(n).len() > 0,
        all_digits(decimal(n)),
        digits_value(decimal(n)) == n,
    decreases n,
{
    let d = decimal(n);
    if n < 10 {
        assert(d == seq![digit_char(n)]);
        assert((digit_char(n) as u32) == ('0' as u32) + n);
        assert(d.drop_last() =~= Seq::<char>::empty());
        assert(digits_value(d.drop_last()) == 0);
        assert(d.last() == digit_char(n));
        assert(digits_value(d) == digits_value(d.drop_last()) * 10 + ((d.last() as u32) - ('0' as u32)) as nat);
    } else {
        lemma_decimal_digits(n / 10);
        let p = decimal(n / 10);
        assert(d == p.push(digit_char(n % 10)));
        assert((digit_char(n % 10) as u32) == ('0' as u32) + n % 10);
        assert(d.drop_last() =~= p);
        assert((n / 10) * 10 + n % 10 == n) by (nonlinear_arith);
        assert(digits_value(d) == digits_value(p) * 10 + n % 10);
        assert forall|i: int| 0 <= i < d.len() implies is_digit(#[trigger] d[i]) by {
            if i < p.len() {
                assert(d[i] == p[i]);
            }
        }
    }
}

/// Parsing the decimal rendering of a port, trimmed, gives the port back.
proof fn lemma_decimal_parses_back(n: nat)
    requires
        n <= 65535,
    ensures
        parse_u16(trim(decimal(n))) == Some(n as u16),
{
    lemma_decimal_digits(n);
    let d = decimal(n);
    assert(is_digit(d[0]));
    assert(is_digit(d.last()));
    assert(trim_start_by(d, false) == d);
    assert(trim_end_by(d, false) == d);
}

proof fn lemma_digits_value_monotone(s: Seq<char>, k: int)
    requires
        0 <= k <= s.len(),
        forall|i: int| 0 <= i < s.len() ==> is_digit(#[trigger] s[i]),
    ensures
        digits_value(s.take(k)) <= digits_value(s),
    decreases s.len() - k,
{
    if k < s.len() {
        let t = s.take(k + 1);
        assert(t.drop_last() =~= s.take(k));
        lemma_digits_value_monotone(s, k + 1);
    } else {
        assert(s.take(k) =~= s);
    }
}

/// Parse a port number the way `str::parse::<u16>` does.
pub fn parse_port(s: &str) -> (r: Option<u16>)
    ensures
        r == parse_u16(s@),
{
    let cs = chars_of(s);
    let start: usize = if cs.len() > 0 && cs[0] == '+' {
        1
    } else {
        0
    };
    let ghost body = if s@.len() > 0 && s@[0] == '+' {
        s@.drop_first()
    } else {
        s@
    };
    assert(body =~= cs@.skip(start as int));
    if start >= cs.len() {
        return None;
    }
    let mut value: u64 = 0;
    let mut k: usize = start;
    while k < cs.len()
        invariant
            start <= k <= cs@.len(),
            start < cs@.len(),
            body == cs@.skip(start as int),
            cs@ == s@,
            body == (if s@.len() > 0 && s@[0] == '+' {
                s@.drop_first()
            } else {
                s@
            }),
            forall|i: int| 0 <= i < k - start ==> is_digit(#[trigger] body[i]),
            value == digits_value(body.take(k - start)),
            value <= 65535,
        decreases cs@.len() - k,
    {
        let c = cs[k];
        if !('0' <= c && c <= '9') {
            assert(!is_digit(body[k - start]));
            assert(!all_digits(body));
            return None;
        }
        proof {
            assert(body.take(k - start + 1).drop_last() =~= body.take(k - start));
        }
        let d: u64 = (c as u32 - '0' as u32) as u64;
        value = value * 10 + d;
        k = k + 1;
        assert(value == digits_value(body.take(k - start)));
        if value > 65535 {
            proof {
                if all_digits(body) {
                    lemma_digits_value_monotone(body, k - start);
                }
            }
            return None;
        }
    }
    assert(body.take(body.len() as int) =~= body);
    Some(value as u16)
}

/// What saving the dialog comes to: the trimmed address must be non-empty
/// and the trimmed port must be a number from 1 to 65535; otherwise the
/// message to show.
pub open spec fn settings_outcome(address: Seq<char>, port: Seq<char>) -> Result<
    (Seq<char>, u16),
    Seq<char>,
> {
    if trim(address).len() == 0 {
        Err("Address cannot be empty."@)
    } else if parse_u16(trim(port)) is None || parse_u16(trim(port)) == Some(0u16) {
        Err("Port must be a number between 1 and 65535."@)
    } else {
        Ok((trim(address), parse_u16(trim(port)).unwrap()))
    }
}

/// Validate the entered server address and port.
pub fn validate_server_settings(address: &str, port: &str) -> (r: Result<(String, u16), String>)
    ensures
        match r {
            Ok((a, p)) => settings_outcome(address@, port@) == Ok::<(Seq<char>, u16), Seq<char>>(
                (a@, p),
            ),
            Err(m) => settings_outcome(address@, port@) == Err::<(Seq<char>, u16), Seq<char>>(m@),
        },
{
    let a = trim_str(address);
    if a.as_str().is_empty() {
        return Err(String::from_str("Address cannot be empty."));
    }
    let p = trim_str(port);
    match parse_port(p.as_str()) {
        Some(n) => if n == 0 {
            Err(String::from_str("Port must be a number between 1 and 65535."))
        } else {
            Ok((a, n))
        },
        None => Err(String::from_str("Port must be a number between 1 and 65535.")),
    }
}

impl ServerDialog {
    /// "Save" pressed: the validated address and port, to be saved and
    /// polled; a refusal is shown in the dialog instead.
    pub fn commit(&mut self) -> (r: Option<(String, u16)>)
        ensures
            match settings_outcome(old(self).address@, old(self).port@) {
                Ok((a, p)) => final(self).error == old(self).error && (r matches Some((ra, rp))
                    && ra@ == a && rp == p),
                Err(m) => r is None && (final(self).error matches Some(e) && e@ == m),
            },
            final(self).address@ == old(self).address@,
            final(self).port@ == old(self).port@,
    {
        match validate_server_settings(self.address.as_str(), self.port.as_str()) {
            Ok(v) => Some(v),
            Err(m) => {
                self.error = Some(m);
                None
            },
        }
    }

    /// Saving the config failed: the dialog shows why.
    pub fn save_failed(&mut self, e: &str)
        ensures
            final(self).error matches Some(m) && m@ == save_failed_message(e@),
            final(self).address@ == old(self).address@,
            final(self).port@ == old(self).port@,
    {
        let mut m = String::from_str("Failed to save config: ");
        push_str(&mut m, e);
        self.error = Some(m);
    }
}

/// The server dialog shown at start-up: open, filled in from the
/// configuration, exactly when no server is configured yet.
pub fn startup_dialog(cfg: &Config) -> (r: Option<ServerDialog>)
    ensures
        match r {
            Some(d) => !cfg.server_configured() && d.address@ == cfg.server.address@ && d.port@
                == decimal(cfg.server.port as nat) && d.error is None,
            None => cfg.server_configured(),
        },
{
    if cfg.has_server() {
        None
    } else {
        Some(ServerDialog::from_config(cfg))
    }
}

/// Whether the server dialog may be cancelled: only once a server is
/// configured (before that it must be completed).
pub fn dialog_cancellable(cfg: &Config) -> (r: bool)
    ensures
        r == cfg.server_configured(),
{
    cfg.has_server()
}

/// The note shown in the client window while no server is configured.
pub fn no_server_note(cfg: &Config) -> (r: Option<String>)
    ensures
        match r {
            Some(n) => !cfg.server_configured() && n@
                == "No server configured yet — set one up in Server settings."@,
            None => cfg.server_configured(),
        },
{
    if cfg.has_server() {
        None
    } else {
        Some(String::from_str("No server configured yet — set one up in Server settings."))
    }
}

} // verus!
