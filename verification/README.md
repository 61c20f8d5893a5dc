# CodexTray

A Windows tray panel for Codex: account quota, token activity, hook statistics and update
status. The logic of the application is a library verified with Verus; the desktop shell
around it is ordinary Rust.

## Layout

- `src/` — the verified library (`codextray`):
  - `json.rs` — JSON documents and their mathematical model.
  - `text.rs`, `calendar.rs` — text and calendar days (through chrono).
  - `cli.rs` — reading the Codex CLI app-server answers: quota windows, reset credits, usage,
    accounts, JSON-RPC responses and the search for the CLI. Where a window's percentage left
    is read is decided here; the floating-point arithmetic that turns those numbers into a whole
    percentage is in `app/percent.rs`.
  - `hook_command.rs`, `hooks_config.rs`, `hook_trust.rs` — the hook command, editing
    `hooks.json` (installing, removing, migrating the old layout) and checking what Codex
    reports about the hooks.
  - `hook_stats.rs` — what is kept of a hook event, the daily workflow statistics and the
    retention window.
  - `token_usage.rs` — session-log token events, daily totals, streaks and the heat map.
  - `dashboard.rs`, `tray_status.rs`, `shell.rs` — the dashboard state and snapshot, the tray
    icon and tooltip, the quota widget geometry and the refresh schedule.
  - `settings.rs`, `startup_diagnostics.rs`, `models.rs` — settings, start with Windows,
    updates, diagnostics and the shared data types.
- `tests/` — tests of the library.
- `app/` — the Tauri application: windows, tray, commands, files, registry, processes and the
  serializable copies of the library's data.
