# TaskBoard

A terminal board for Obsidian-style markdown tasks (`- [ ] ...` lines with
emoji metadata: 📅 due, 🛫 scheduled, ⏳ start, 🔁 recurrence, ✅ done,
priorities 🔺⏫🔼🔽⏬, `#tags`), with saved views written in the Obsidian Tasks
query language, a text filter, and a modal task editor.

## Layout

- `src/` is the library, verified with Verus:
  - `task/` — the task model and its markdown form (`mod.rs`), the line
    parser (`parser.rs`), dates (`date.rs`), the query language
    (`query.rs`, `select.rs`), orders and sorting (`order.rs`, `path.rs`,
    `sort.rs`), and the proof that a written task line reads back as the
    same task (`reread.rs`).
  - `ui/` — the app state and what each key does to it (`mod.rs`, `modal.rs`,
    `filter.rs`, `view_manager.rs`), the texts of the task list and status
    bar (`task_list.rs`), what the list shows after an update (`shown.rs`),
    and the text fields (`editor.rs`).
  - `config.rs`, `view.rs`, `vault.rs`, `text.rs` — settings, views, which
    vault entries are scanned, and text helpers.
- `app/` is the program around it: reading and writing files, the settings
  file (TOML), watching the vault, drawing with ratatui and the key loop.
  Each key goes to the library, which returns the new state and an `Effect`
  that says what to write.
- `tests/` runs the library on concrete values.
