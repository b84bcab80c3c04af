# netmon

A Windows tray monitor for three network links: abroad through a local
Clash proxy, the office network over OpenVPN, and direct domestic access.
It probes each link every few seconds, colours a ring icon by the result,
shows a status panel, and serves a read-only status endpoint on the
loopback address.

## Layout

- `src/` is the library, verified with Verus. It holds the logic: the JSON
  reader and writer, the configuration model and its defaults, the decision
  rules of each channel (thresholds, history, target order, the automatic
  choice of internal targets), the report formatters, the endpoint's
  routing and token check, the panel's geometry and texts, and the laws
  that hold of them (`laws.rs`, `roundtrip.rs`, `saving.rs`).
  Latencies are kept in thousandths of a millisecond and durations in
  milliseconds, as integers. A number read from JSON is rounded to the
  nearest thousandth of its unit, and one beyond what an `i64` holds stays
  at the largest it can hold.
- `app/` is the program around it: the Win32, WinHTTP, IP Helper and
  GDI+ calls, the windows and the message loop, the threads that run the
  probes, file and socket I/O. It asks the library what to probe and hands
  it back what came of it.
- `tests/` runs the library on concrete values.
