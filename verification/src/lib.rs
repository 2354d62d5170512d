//! Verified core of a small UPS monitoring system: HID report-descriptor
//! parsing, UPS power-state derivation, status tables, alert detection for
//! clients, connectivity tracking, the state of the status windows and
//! their dialogs, and the text shown to users.

pub mod admin;
pub mod aumid;
pub mod bytes;
pub mod client_config;
pub mod client_poller;
pub mod client_state;
pub mod detect;
pub mod dialogs;
pub mod display;
pub mod health;
pub mod hid;
pub mod hid_desc;
pub mod logbuf;
pub mod mock;
pub mod notify;
pub mod probe;
pub mod server_config;
pub mod server_poller;
pub mod server_state;
pub mod settings;
pub mod status;
pub mod text;
pub mod window;
