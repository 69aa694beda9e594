# workbench_gui

The computing core of a desktop client for Islandora Workbench, written in Verus. Every
function in `src/` carries a contract. Verus proves each one, except the small wrappers marked
`#[verifier::external_body]` that call std and the outside crates (serde_yaml, base64, semver,
regex, dirs, anyhow): their contracts are trusted, and each wrapper's doc comment says what it
claims of the call.

- `src/` — the verified library: the setting catalogue and its search, the YAML value model
  and the per-shape editors, the settings store and its persisted form, the run workflow and
  its decisions, the task-chain tree, the server check, the update check, and the texts the
  windows show.
- `tests/` — tests that run the library, with its outside crates linked.
- `app/` — the program around it: settings on disk (SQLite, JSON), the background writer,
  the network calls, and starting other programs.
