# pastoid

The verified core of Pastoid, a clipboard manager: the clipboard history and
its rules, proved with Verus.

- `src/` — the library; every function has a contract that Verus proves,
  except four small trusted wrappers whose contracts Verus takes on trust:
  reading the system clock, the time since the epoch, chrono's conversion
  to milliseconds, and `String::from_iter`:
  - `models` — entries, settings and their defaults, the application state,
    which settings a save changes;
  - `storage` — truncation of the history (pinned entries stay, then the
    newest), the stable newest-first order, loading stored data, file paths,
    the log rotation plan, and their laws;
  - `repository` — the in-memory history: add with de-duplication, delete,
    update, import, history view, bound changes, and the snapshot handed out
    for saving; with the laws that relate these operations;
  - `clipboard` — what a clipboard read records, and the watcher's back-off;
  - `shortcut` — shortcut names per platform, and the steps of changing the
    shortcut with its roll-back;
  - `tray` — the tray menu: its layout, labels, identifiers and actions;
  - `paste` — the keystrokes that paste into the application in front;
  - `text` — string replacement and character helpers.
- `app/` — the desktop shell around the library (Tauri windows, tray,
  shortcut registration, clipboard and keyboard access, files, logging).
- `tests/` — tests of the library.
