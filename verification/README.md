# skills

A terminal UI for managing personal knowledge snippets (prompts, notes, role
definitions, references), kept as plain text files under `~/skills/`, one
directory per category and one file per entry, named by the entry.

- `src/` is the library, verified with Verus: the app's state machine
  (`app.rs`), the markdown renderer (`md.rs`), directory listings and their
  order (`data.rs`), text utilities (`text.rs`), key presses (`key.rs`), the
  text editor of the add flow (`editor.rs`, backed by `tui-textarea`), the
  clipboard sequence (`clipboard.rs`) and the toast's place (`ui.rs`).
- `app/` is the program: the terminal, drawing with `ratatui`, key events
  from `crossterm`, and the files on disk. It carries out the storage work
  that the app asks for (`App::action`) and hands back the outcome
  (`App::resume`).
