# quicksilver

The runtime services of the Quicksilver JavaScript engine as a verified
library: the event loop with its promise model and timers, the
mark-and-sweep heap, durable objects with transactions, the actor system
with supervision, the time-travel debugger with its recording format,
console and request routing, source maps, diagnostics rendering, edge
request handling, effects, and the FFI bridge's types with the conversion
of values between JSON and the native side.

- `src/` is the library. Every function there carries a contract that Verus
  proves; the few calls into `std`, `serde_json` and `rustc-hash` sit behind
  small trusted wrappers whose doc comments say what they promise.
  Where the library depends on what such a call computes (what
  `serde_json` reads out of a text), its contracts speak of a name for
  that result.
- `tests/` runs the library on concrete values.
- `app/` is the thin layer around it that Verus does not see: recording
  files, durable-object state files and source-map files on disk, the
  interactive console on stdin/stdout, the debug server on TCP, and the
  places where numbers are shown, read or scaled as floating point.
