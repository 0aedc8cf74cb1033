# yanklog core

The core of yanklog, a private clipboard history for Linux, written in Verus.

- `src/` is the verified library: settings and their privacy filters, previews,
  profiles and their paths, clipboard change detection, database keys, the
  encrypted backup format, update version handling and installer calls, and
  the small rules of the desktop app (quoting, autostart entries, the quick
  picker's selection, the tray icon's rounded rectangles). Calls into argon2,
  chacha20poly1305, rand, hex, chrono and dirs stand behind trusted items whose
  doc comments say what is assumed of them.
- `tests/` runs the library with the real outside crates.
- `app/` is the desktop program and the input/output around the library: the
  SQLCipher history database, settings and backup files, the system clipboard,
  downloads and the installer process, the UniFFI store, and the GTK interface.
