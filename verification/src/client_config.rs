//! Client configuration: the server to poll, how often, and the
//! low-battery alert threshold. Reading `config.toml` is done by the caller.

use vstd::prelude::*;
use crate::text::{decimal, push_decimal, push_str};

verus! {

/// The server to poll.
#[derive(Debug)]
pub struct ServerSection {
    pub address: String,
    pub port: u16,
}

/// Polling cadence and the connectivity rule.
#[derive(Debug, Clone, Copy)]
pub struct PollingSection {
    pub interval_secs: u64,
    /// Consecutive failed polls before the server is considered unreachable.
    pub unreachable_after_missed: u32,
}

/// Alert settings.
#[derive(Debug, Clone, Copy)]
pub struct AlertsSection {
    pub low_battery_threshold_pct: u8,
}

/// The server port used when the config gives none.
pub fn default_port() -> (r: u16)
    ensures
        r == 8420,
{
    8420
}

/// The poll interval, in seconds, used when the config gives none.
pub fn default_interval() -> (r: u64)
    ensures
        r == 5,
{
    5
}

/// How many missed polls make the server unreachable, when the config gives
/// no number.
pub fn default_missed() -> (r: u32)
    ensures
        r == 2,
{
    2
}

/// The low-battery threshold used when the config gives none.
pub fn default_threshold() -> (r: u8)
    ensures
        r == 20,
{
    20
}

impl Default for PollingSection {
    fn default() -> (r: Self)
        ensures
            r.interval_secs == 5,
            r.unreachable_after_missed == 2,
    {
        PollingSection {
            interval_secs: default_interval(),
            unreachable_after_missed: default_missed(),
        }
    }
}

impl Default for AlertsSection {
    fn default() -> (r: Self)
        ensures
            r.low_battery_threshold_pct == 20,
    {
        AlertsSection { low_battery_threshold_pct: default_threshold() }
    }
}

/// The whole client configuration.
#[derive(Debug)]
pub struct Config {
    pub server: ServerSection,
    pub polling: PollingSection,
    pub alerts: AlertsSection,
}

/// The server's base URL: `http://<address>:<port>`.
pub open spec fn base_url_of(address: Seq<char>, port: u16) -> Seq<char> {
    "http://"@ + address + ":"@ + decimal(port as nat)
}

impl Config {
    /// Whether a server is configured: an empty address means none is (the
    /// client then waits for one to be entered in the settings dialog).
    pub open spec fn server_configured(&self) -> bool {
        self.server.address@.len() > 0
    }

    /// Whether a server is configured.
    pub fn has_server(&self) -> (r: bool)
        ensures
            r == self.server_configured(),
    {
        !self.server.address.as_str().is_empty()
    }

    /// The server's base URL, `http://<address>:<port>`.
    pub fn base_url(&self) -> (r: String)
        ensures
            r@ == base_url_of(self.server.address@, self.server.port),
    {
        let mut s = String::from_str("http://");
        push_str(&mut s, self.server.address.as_str());
        push_str(&mut s, ":");
        push_decimal(&mut s, self.server.port as u128);
        s
    }
}

} // verus!
