# ups_monitor

Watches APC UPS units over USB HID and warns other PCs when the power goes
out. The server polls the units and serves their status as JSON
(`GET /status`); clients poll the server and raise desktop alerts: one when
a UPS goes on battery, one (critical) when its charge crosses below the
low-battery threshold, a quiet one when mains power returns, and others when
the server becomes unreachable or reachable again.

## Layout

- `src/` — the library, verified with Verus: HID report-descriptor parsing
  and field extraction (`hid_desc`), device filtering and status derivation
  (`hid`), the server's status table (`server_state`) and poller bookkeeping
  (`server_poller`), the mock units (`mock`), the client's alert detector
  (`detect`), connectivity tracking (`client_poller`, `client_state`), toast
  contents (`notify`), the log ring buffer (`logbuf`), configuration
  defaults, the decisions behind the status windows — close-to-tray
  (`window`), the Add UPS / Rename / Server settings dialogs (`dialogs`,
  `admin`, `settings`) — and the text they show (`display`, `health`,
  `probe`). No window is drawn here: `app/` has no GUI.
- `app/` — the program around it: `server` (HID polling threads and the
  HTTP API), `client` (the polling loop and desktop notifications),
  `probe` (a diagnostic dump of what the parser sees on connected units)
  and `admin` (scan, add, rename and delete configured units from the
  command line, through the dialogs' logic, saving `config.toml`).
- `tests/` — tests of the library on concrete values.
