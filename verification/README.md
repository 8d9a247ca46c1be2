# ttytips

A terminal notebook of command-line tips. Notes are Markdown files kept in
workspaces (directories) under a root directory; the tree shows folders, notes
and their headers, with search by name or by tag, a preview of the selected
section, quick notes into an inbox, and plain-text export.

- `src/` is the library, with its contracts and proofs: text handling (`text`), the tree
  and its searches (`engine`), building the tree from directory entries and
  parsing notes (`database`), the settings file (`config`), key bindings
  (`keys`), what the screen shows (`ui`), the texts written into notes
  (`notes`), and the session state machine (`session`).
- `app/` is the program: terminal set-up, reading and writing files, running
  the editor, and drawing with `ratatui`.
- `tests/` runs the library on concrete values.
