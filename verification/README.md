# maisou

The verified core of Maisou, a local file search for the desktop: file-name
search with `name:`, `ext:` and plain-text filters, full-text content search
with snippets, an in-memory index kept up to date from file-system events,
and the resource guard that suspends content indexing on a weak battery or a
hot CPU.

- `src/` is the library, written and proved with Verus. Each public function
  states what it returns in its contract; the laws of the library (merging
  keeps file-name hits first and lists each path once, an update leaves one
  record per path, suspension keeps file-name updates, and so on) are public
  proof functions or clauses of those contracts.
- `tests/` runs the library on concrete values.
- `app/` is the Tauri application around it: window commands, the global
  shortcut, the file system walk, the SQLite FTS5 content store, the macOS
  probes and the FSEvents stream. The configuration files are read at run
  time from `MAISOU_CONFIG_DIR` (default `config`).
