# codex_usage

The logic of a small desktop panel that shows how much of its Codex allowance
a user has spent, as a Verus-verified library.

- `src/` — the verified library: where the Codex CLI's `auth.json` is looked
  for and which one is used (`auth`), the usage request's credentials, status
  steps and token refresh (`remote`), the summary of the usage report
  (`usage`), the package runners that start `ccusage` and their search path
  (`runners`, and `paths` with the platform's separator), reading `ccusage`'s output (`json_text`, `daykey`),
  the local token summary over today, yesterday, 7 and 30 days and the models
  (`local_usage`, `calendar`), and the tray click rule (`tray`).
- `tests/` — tests of the library.
- `app/` — the desktop shell: file and network I/O, child processes, the
  clock, floating-point figures (percentages, dollar costs, window geometry)
  and the Tauri window, tray and commands (built on macOS and Windows only).
