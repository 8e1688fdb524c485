# prism

The core of the Prism launcher for Windows, written in Verus: every rule the
launcher applies is an executable Rust function whose behaviour is stated in
`requires` / `ensures` and proved.

## Layout

- `src/text.rs`, `src/sorting.rs`: the character-level text model and the
  stable ordering every ranked list uses.
- `src/query/`: the palette's first query phase — scoring, the typed action
  catalog, intent phrases, open windows, recent commands and applications.
- `src/catalog/`: the file index — candidate ranking and picking, NTFS
  change-journal decoding and folding, parent-path resolution, volume
  records and their merging, the directory walk's rules, the watcher's
  decisions (notification parsing, event queue, reconnect pacing, shards),
  path browsing and the quick-access folders, and the database's plans
  (candidate queries, schema upgrades, whether a journal batch applies and
  which nodes a delete removes).
- `src/shell/`: desktop-shell behaviour — what a taskbar scroll adjusts, the
  volume OSD's geometry and pixels, the Explorer hook's decisions, palette
  placement and presentation state, taskbar presentation and alignment,
  power actions, the persisted state and its migration, the Start icon file,
  custom icon uploads, the Start-menu provider journal, the shortcut switch
  and drag and drop.
- `tests/`: tests of the library, run with the outside crates linked.
- `app/`: a command-line program around the library: it indexes a directory
  into a SQLite catalog, answers searches, browses paths, lists the quick
  access folders, remembers accepted intent phrases, and loads and saves the
  launcher state. It reads and writes
  files and the database; the decisions are the library's.

The desktop integration itself (the Tauri window, Win32 hooks, audio
sessions, the registry) needs Windows and is not part of this crate; the
library holds its decisions as functions and step machines that such a shell
drives.
