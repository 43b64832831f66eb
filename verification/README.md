# luminousity

The core of Luminousity, a small modal terminal text editor, written in Verus:
the buffer edits that each key makes, the recent-file history, the
configuration defaults and the screen layout are verified against their
contracts.

- `src/text.rs` — character-level helpers: tab expansion, truncation,
  padding, trimming, splitting a text into lines and joining lines back.
- `src/paths.rs` — the configuration and history paths, `~` expansion.
- `src/config.rs` — the settings and how a configuration file overrides them.
- `src/history.rs` — the recent-file history and its JSON form.
- `src/editor.rs` — the editor state, normal and insert mode keys.
- `src/files.rs` — opening and saving a buffer, reopening recent files.
- `src/screen.rs` — the frame drawn on the terminal.
- `src/picker.rs`, `src/prompt.rs` — the recent-file picker and the save prompt.
- `src/laws.rs` — properties that relate several operations.
- `app/main.rs` — the terminal program: key reading, drawing, file I/O.
