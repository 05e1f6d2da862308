# lyrux_core

The logic of a code editor and file panel for a Linux terminal host, written
in Verus and proved against its contracts.

- `src/text.rs`, `src/paths.rs`, `src/order.rs`: characters, paths and a
  stable ranking, with the facts the rest builds on.
- `src/editor/`: what typing, Enter and key bindings do to the text, comment
  toggling, line moves, save clean-up, `.editorconfig` fallbacks and overrides, file
  classification, quick open ranking, find in files, the find bar, sticky
  headers, the status bar, tab dirtiness, recent and closed tabs, settings,
  the settings panel's choices, the editor style sheet and colour schemes.
- `src/file_panel/`: the file tree (listing, expanding, collapsing,
  refreshing after the disk changed), the `.gitignore` walk's decisions, git status, the per-workspace panel
  state, file operation planning, the clipboard and the watcher's batching.
- `src/update_checker.rs`: version comparison, installer selection, update
  summaries, digests and HTTP error messages.
- `app/`: the disk, network and process work around the library.
- `tests/`: executable tests of the library.
