# majnet

The logic of the MajNet command-line client and of the control plane's
reconciler and bot, written in Verus: every function in `src/` carries a
`requires`/`ensures` contract that Verus proves, and the properties that span
several calls are stated as public proof functions named `law_…`.

## Layout

- `src/` — the verified library.
  - `config`, `resolve`, `client`, `output`, `identity`, `commands`, `console`,
    `read`, `release`, `shell`: the CLI's decisions — contexts and how one is
    resolved, which project/app/class a command means, when production asks
    first, whether a response is believed, how tables are laid out, the SQL
    console, following the event log, the terminal session.
  - `run`, `images`, `metrics`, `snapshot`, `tarball`, `authz`: the
    reconciler's — database client invocations and how their output is read,
    captured output, which images may be reclaimed and in what order, the host
    probe, snapshot tarballs, and who may call its restart, terminal and SQL endpoints.
  - `project`, `platform`, `manifest`, `envclass`, `cloudflare`: the platform's
    data and the bot's rules — member changes, manifest edits, node
    enrollment, the zone that owns a host, the DNS record a host needs.
  - `text`, `strset`, `keyed`: strings as character sequences, and sets and
    maps kept as sorted lists.
- `app/` — the program around the library: argument parsing (clap), HTTP
  (reqwest), the terminal WebSocket, Docker (bollard), SQLite (rusqlite), JSON
  and YAML (serde), and the few computations done in floating point.
- `tests/` — the tests, run against the compiled library.

Calls into outside crates that the library makes (serde_json, tar/flate2 and a
few std functions) go through small trusted wrappers whose contracts name or
state what the outside code returns; everything built on them is verified.
