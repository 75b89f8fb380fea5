# keepass_sync

Local-first synchronization for KeePass-compatible `.kdbx` vaults, with the sync logic
verified in Verus. KeePassXC (or an Android client) owns password editing and semantic merge;
this project owns revision-aware transport, locking, manifests, backups and conflict
surfacing.

## Layout

- `src/` — the verified library:
  - `sync.rs`: the sync decision (`decide_sync`), the work it calls for (`plan_sync`) and the
    laws of the protocol (publish only over an unchanged remote, pull only over an unchanged
    local database, preserve divergent copies, converge after every other run);
  - `revision.rs`: `sha256:<hex>` revisions, their parser and the digest of database bytes;
  - `manifest.rs`, `local_state.rs`: the manifest of the canonical database and a device's
    remembered base revision;
  - `remote.rs`: the filesystem remote's checks between filesystem steps and the names of the
    files it writes;
  - `http.rs`: request targets, percent-decoding, authorization and routing of the sync server;
  - `keepassxc.rs`: which `keepassxc-cli` to run, the arguments of a merge, its outcome;
  - `cli.rs`: command-line flags and commands, percent-encoding and the client's checks;
  - `text.rs`: character-level helpers; `outside.rs`: std and outside types carried opaquely.
- `app/` — the `keepass-sync` program: filesystem, process, network and JSON work around the
  library.
- `tests/` — tests of the library.
