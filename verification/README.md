# work_log

The verified core of a daily work-log desktop app. A day is one Markdown document with
three task lists (must-do, other, pending) of nested checklist items; unfinished work is
carried over to the next day; the log lives in a git repository.

## Layout

- `src/` — the library, verified with Verus.
  - `text.rs`: whitespace, trimming, line splitting, substring search.
  - `task.rs`, `carry_laws.rs`: task trees and the carry-over of unfinished tasks.
  - `render.rs`, `render_laws.rs`: writing a day as Markdown.
  - `parse.rs`, `outline.rs`: reading a day back from Markdown, building the trees.
  - `roundtrip.rs`, `reading_laws.rs`: what reading gives back of what was written.
  - `entry.rs`: new days, and normalizing what is saved.
  - `date.rs`: dates, the previous day, and where a day's files are kept.
  - `json.rs`: the stored editing state in its three JSON formats.
  - `float_text.rs`: floating-point numbers in plain decimal, as serde's errors write them.
  - `git.rs`: the steps of a commit-and-push, and reading git's output.
  - `settings.rs`: the app settings and the workspace layout.
- `tests/` — tests of the library.
- `app/` — the Tauri shell: commands, file and process I/O, serde copies of the types.
