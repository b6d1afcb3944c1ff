# bifur_core

The engine of BIFUR, a dual-pane file manager with an embedded terminal,
written in Verus. Every function in `src/` carries a contract; Verus
proves each of them except a few small wrappers around std and outside
crates (`str::to_lowercase`, `char::from_u32`, collecting characters into a
`String`, `std::path::MAIN_SEPARATOR`, `mime_guess` and `regex`), whose
contracts are trusted and say in their doc comments what they claim.

## Layout

- `src/fs_model.rs`: directory entries, their display order, one pane's
  navigation (select, enter, up, refresh, stale-snapshot rejection) and the
  batch-rename preview.
- `src/dual_pane.rs`: the two panes, the active one, terminal focus, and
  what a key press means.
- `src/pane_refresh.rs`: coalescing watcher bursts and applying background
  listings to the right pane.
- `src/preview.rs`: preview classification by guessed MIME type and the
  bounded text preview.
- `src/paths.rs`: path components, parents, file names, stems and
  extensions, by Unix rules or, on Windows, by Windows rules (both
  separators, drive prefixes).
- `src/input_policy.rs`: which keystrokes reach the terminal, and as what.
- `src/terminal/`: the screen model and byte parser (`parser.rs`), scroll
  regions and line operations, key encodings, the change-directory command
  for each shell, session decisions, styled runs for drawing rows, and the
  laws of the screen and of scroll regions.
- `src/text.rs`: small verified string helpers.
- `src/*_laws.rs`, `src/terminal/*_laws.rs`: properties that span several
  operations, stated as proof functions.
- `app/`: the frontend: filesystem and PTY I/O, file watching, the key loop
  and text rendering, and serializable copies of the library's records.
- `tests/`: executable tests of the library.
