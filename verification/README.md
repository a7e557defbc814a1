# launchkeeper

Launchkeeper manages scheduled tasks and long-running services on top of
macOS launchd, through a command-line tool (`launchkeeper`) and a menu-bar
app. This crate is its decision logic, written in Verus and proved against
its contracts.

## Layout

- `src/` — the verified library.
  - `model` — triggers, runs, tasks, adoption plans: the vocabulary.
  - `trigger_args` — `--every`/`--daily`/`--weekly`/`--monthly` parsing.
  - `commands` — the window's views of tasks and runs, the status dot,
    uptime, the log window, the editor form.
  - `notify` — which scans post a failure notification (with its laws).
  - `tray`, `scan` — the menu-bar state, menu and the background scan.
  - `i18n`, `fmt`, `text` — strings in two languages, tables, durations.
  - `cli` — the command-line tool's own rules: `set` edits, log tails,
    runner lookup, `status` rows, confirmations.
  - `paths`, `env`, `state` — Unix path components, environment maps,
    where the runner comes from.
  - `about`, `ai`, `docs`, `json`, `completions`, `error`, `settings` —
    the smaller shapes and rules around them.
- `tests/` — tests run against the compiled library.
- `app/` — the command-line binary: argument parsing, the store and
  launchd, printing.
