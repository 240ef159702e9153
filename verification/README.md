# web_blocker

A focus timer that sits in the system tray while a local proxy blocks
distracting sites, and a session log of focused time and breaks.

- `src/` is the verified library (Verus):
  - `tray.rs`: the timer behind the tray title (counting, pausing, the menu),
    the `HH:MM:SS` title, the tray icon's pixels, the proxy status words;
  - `session/`: session data and durations, the report and JSON formats,
    the local session (breaks, snapshots, event log), and the global session
    operations;
  - `timestamp.rs`, `ident.rs`, `text.rs`: timestamps and spans with the
    clock and calendar text from chrono, UUIDs from uuid, decimal text.
- `app/` is the program around it: the tray window, the proxy process, the
  ticking thread, the lock around the global session and the log files.
- `tests/` run the library on concrete values.
