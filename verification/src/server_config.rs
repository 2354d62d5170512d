//! Server configuration: where the API listens and which UPS serial maps to
//! which human-readable id. Reading `config.toml` is done by the caller.

use vstd::prelude::*;

verus! {

/// Where the HTTP API listens.
#[derive(Debug)]
pub struct ServerConfig {
    pub bind_ip: String,
    pub port: u16,
}

/// The listen address used when the config gives none.
pub fn default_bind_ip() -> (r: String)
    ensures
        r@ == "0.0.0.0"@,
{
    String::from_str("0.0.0.0")
}

/// The API port used when the config gives none.
pub fn default_port() -> (r: u16)
    ensures
        r == 8420,
{
    8420
}

impl Default for ServerConfig {
    fn default() -> (r: Self)
        ensures
            r.bind_ip@ == "0.0.0.0"@,
            r.port == 8420,
    {
        ServerConfig { bind_ip: default_bind_ip(), port: default_port() }
    }
}

/// One configured UPS.
#[derive(Debug)]
pub struct UpsEntry {
    /// Human-readable id exposed to clients, e.g. `rack1-a`.
    pub id: String,
    /// USB serial number used to match the physical UPS (ignored in mock
    /// mode).
    pub serial: String,
}

impl View for UpsEntry {
    /// The id and the serial.
    type V = (Seq<char>, Seq<char>);

    open spec fn view(&self) -> (Seq<char>, Seq<char>) {
        (self.id@, self.serial@)
    }
}

impl Clone for UpsEntry {
    fn clone(&self) -> (r: Self)
        ensures
            r@ == self@,
    {
        UpsEntry { id: self.id.clone(), serial: self.serial.clone() }
    }
}

/// The whole server configuration.
#[derive(Debug)]
pub struct Config {
    pub server: ServerConfig,
    pub ups: Vec<UpsEntry>,
}

} // verus!
