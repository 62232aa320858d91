# rustzen_core

Shared building blocks of the Rustzen services, written in Verus: the
behaviour of each function is stated in its `requires` / `ensures` and proved.

## Layout

- `src/` — the verified library.
  - `text`, `numparse`, `paths`: character-level helpers, `str::parse` for
    integers, path joining, normalization and components.
  - `api`, `error`, `hash`: response envelopes, HTTP errors, pagination, the
    core error type, FNV-1a.
  - `config`, `env_file`: runtime directory layout, typed environment values,
    `app.env` parsing and rendering.
  - `role_policy`: the built-in owner / admin / viewer capability policy.
  - `deploy_artifact`: executable markers, architecture detection, Ed25519
    deploy signatures, web dist zip validation and content hashing.
  - `platform`: `/opt/<product>` service layout and systemd unit rendering.
  - `sqlite`, `sqlite_maintenance`, `sqlite_query`: pool settings, tuning
    profiles, database URLs, maintenance plans and query filters.
  - `logging`: logging settings, log file paths, daily log dates and cleanup
    decisions.
  - `filesystem`, `cli`: walk statistics, CLI output settings, toggles and
    config file discovery.
- `tests/` — executable tests of the library.
- `app/` — the I/O around the library: SQLite pools, tracing subscribers, the
  daily log writer, filesystem walks, printing, environment variables, zip
  extraction, and serde forms of the library's data.

Calls into outside crates (`sha2`, `ed25519-dalek`, `zip`, `chrono`,
`serde_json`, `tracing-subscriber`) sit behind small trusted wrappers whose contracts are written
next to them.
