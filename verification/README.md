# openhawk

OpenHawk is a local-first agent operating system: it runs AI agents as
processes, snapshots their working directories, passes messages between
them, guards what they may touch, keeps their secrets encrypted and shows
them in a terminal dashboard.

This crate is its kernel logic, written in Verus and proved against its
contracts:

- `src/` — the verified library. Each module states what its functions
  return over mathematical models (`Seq`, `Map`, spec functions) and proves
  it; public proof functions state the laws that relate several operations
  (a decryption undoes an encryption, a stored value is read back, a plan
  orders every dependency before its dependent, and so on). Calls into
  outside crates (SHA-256, hex, AES-GCM, Argon2, serde_json, glob, rusqlite's
  error text) go through small trusted wrappers whose contracts say what
  the crates' documentation promises.
- `tests/` — tests on concrete values, run against the compiled library.
- `app/` — the `hawk` program: command-line parsing, the SQLite database,
  files, processes and signals, the system keychain, the companion tools
  and the terminal UI. It does the I/O and asks the library for every
  decision.
