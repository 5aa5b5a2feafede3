# clipboard_history

The verified core of a Windows clipboard manager: it records what is copied,
keeps a searchable history with pinned entries and folders, and can put an
entry back on the clipboard.

## Layout

- `src/` — the library, verified with Verus.
  - `models.rs` — entries, folders, settings and content types.
  - `store/` — the history database held in memory: entries, folders, folder
    links and settings, with the query semantics of the tables (`queries`,
    `listing`, `search`, `folders`, `folder_listing`, `changes`, `links`,
    `settings`, `migrations`, `load`, `repair`) and the properties that span several
    operations (`laws`).
  - `dedup.rs` — the engine that tells the program's own clipboard writes apart
    (sequence number, content hash, debounce window).
  - `listener.rs` — the decisions of the clipboard watcher.
  - `text.rs` — UTF-16 clipboard text in and out.
  - `bitmap.rs`, `picture.rs` — clipboard bitmaps to and from RGBA pixels and
    PNG files.
  - `commands.rs`, `settings.rs` — the requests of the user interface.
  - `focus.rs`, `tray.rs` — focus restoring and the tray menu.
- `tests/` — tests of the library on concrete values.
- `app/` — the program around the library: the Win32 clipboard, the SQLite
  file, the log file, the watcher thread and the Tauri window, tray and
  commands.
