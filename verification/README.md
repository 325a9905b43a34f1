# win_timer

A small console for the local Windows Task Scheduler: list tasks, create
them (once, daily, or every N minutes), run, stop, enable, disable and delete
them. The work is done by PowerShell scripts that this crate builds.

- `src/` is the verified library (Verus):
  - `text.rs`: Unicode whitespace and trimming, PowerShell single-quoted
    literals (with the proof that a quoted value reads back as itself),
    decimal rendering;
  - `tasks.rs`: the task model, start-time normalization, the list, create,
    verb and delete scripts, and the reading of PowerShell's answers;
  - `server.rs`: the backend's decisions: list scope, the task-list cache
    with its generation counter, and splitting a task location.
- `app/` is the HTTP backend (axum): it runs PowerShell, decodes JSON and
  serves the routes, calling the library for every decision.
- `tests/` runs the library on concrete values.

The crate has no task-edit route and no execution-history view.
