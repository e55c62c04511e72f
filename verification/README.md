# multi_cursor

The logic of Multi Cursor, a macOS tool that keeps several isolated sets of
Cursor folders ("environments") and several saved logins ("accounts"), and
swaps them into the places where Cursor looks for them. The library is
written in Verus; its functions carry contracts that Verus proves.

- `src/text.rs` — character-level string operations (trim, search,
  ASCII-case comparison, decimal conversion, path joining) with their
  specifications.
- `src/paths.rs` — the on-disk layout, the configuration model and its
  views, and the facts that pool folders never collide with each other or
  with the live folders.
- `src/folders.rs` — the plans that move folders: switching the live
  environment, the one-time move from the legacy layout, and filling each
  environment's pool; a model of folders as a map from path to contents,
  with the proofs that a switch swaps the contents, that the legacy move
  runs once, and that every environment gets its pool folders.
- `src/auth.rs` — login snapshots: which rows a snapshot writes to
  `state.vscdb`, how a snapshot is assembled from the rows read back (and
  the proof that reading after writing gives the snapshot back), and the
  account identity derived from it.
- `src/commands.rs` — the checks and configuration changes of every
  command: environments, accounts, switching, capturing logins.
- `src/capture.rs` — the login-capture pass as a whole: what any run of
  its steps keeps (environments, account ids and their order, settled
  accounts, the selection when nothing is recorded).
- `src/copy_progress.rs` — which entries a copy skips, progress arithmetic
  (with the proof that a copy's event stream stays in its slice, never goes
  back and ends at its end), the stages of trashing, and the messages of
  copying and trashing.
- `src/updates.rs` — version parsing and comparison for update checks.
- `src/cursor.rs`, `src/about.rs` — small pieces around the Cursor process
  and the About text.
- `app/` — the file, database, process and network work that runs the
  library's decisions.
- `tests/` — tests of the library on concrete values.
