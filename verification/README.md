# codex_local_sync

A tool for the Codex homes on one machine: it finds them, lists their sessions by
model provider, replicates sessions into the provider in use (restore, migrate, keep
replicas up to date), cleans up archived and child sessions, switches a home's provider
with a transaction that can be resumed or rolled back, copies sessions between homes,
manages a managed block of rules in `AGENTS.md` and the image tool's entry in
`config.toml`, and stops and restarts the ChatGPT desktop client around these operations.

## Layout

- `src/` — the library, verified with Verus. Each operation's decisions are functions
  from plain values to plain values with exact contracts; the long operations are step
  functions (state and outcome in, next action out) that the caller drives: provider
  switches, replicas, session syncs with backup and rollback, and stopping and starting
  the desktop client, cleanups and saves. Rollout lines are edited as values of the
  library's JSON model (`rollout`), and the session index and global state are decided
  and laid out by the library (`home_state`). `config.toml` is read and edited as text by
  the library (`toml_doc`): it reads the facts its decisions need through `toml_edit`,
  decides the changes (`config_edit`) and applies them one by one, so every text it
  writes is stated in terms of the editor's operations. The caller reads and writes the
  files, and parses JSON and TOML into the library's value model where a whole file is
  needed as values. Laws that span functions are public proof functions named `law_*`.
- `tests/` — tests of the library on concrete values.
- `app/` — the command-line program around the library: it reads and writes files, the
  tool's SQLite database, the processes of the machine and the Codex app server, and
  performs the actions the library's step functions ask for.

Outside crates are called from the library only through wrappers whose contracts are
stated next to them (reading and editing TOML documents, SHA-256 digests, hexadecimal
encoding, RFC 3339 times, JSON string encoding, UTF-8 decoding, lower-casing, path
comparison).

A switch to a relay provider also fills in `disable_response_storage = true` and
`service_tier = "flex"` at the top of `config.toml` where the file sets neither; a value
the file already holds is kept.
