# phaneros

Content-addressed folder synchronisation: a vault folder is scanned into a
tree of nodes and blobs named by their BLAKE3 digests, and kept in step
with a remote store by moving only what the other side lacks.

- `src/` — the library, verified with Verus: tree stores, transfer
  planning and reconciliation, file chunking, ignore rules, configuration,
  the daemon's drive bookkeeping, the event-stream parser, and the text
  the command line and desktop app show.
- `tests/` — tests of the library on concrete values.
- `app/` — the input/output shell around it: configuration files, vault
  folders on disk, the desktop views as JSON, the login agent.
