# hcom

hcom lets agents on one or more devices send each other messages that are kept until they are
answered. This crate is the part of it that decides: what becomes of a message, what another device
may change, which commands run for whom, and what a worker in a sandbox can reach.

## Layout

- `src/` is the library. It is written in Verus; every function in it is verified against its
  contract.
  - `store`, `lifecycle`, `receipts`, `senders`: messages, their deliveries, and the log. A message is
    committed with its deliveries or not at all.
  - `message`, `render`: the commands on messages.
  - `relay`, `imports`, `sync`, `cleanup`, `devices`: what arrives from other devices.
  - `initial`, `schema`, `repair`, `migrate`: the tables of the database, and how an older database is
    brought up to them without loss.
  - `broker`, `sandbox`, `podman`, `workers`: commands for sandboxed workers, and the sandboxes.
  - `identity`, `pi`, `plugin`, `pidtrack`, `registry`: who is calling, the hooks of the Pi plugin, the
    plugin, the processes that were launched, and the instances that they are registered as.
  - `evolution`, `commits`, `progress`, `replication`, `invariants`: what holds of all this together,
    as proved statements.
  - `text`, `space`, `names`, `paths`, `json`, `columns`, `rows`, `search`, `times`: what the rest is built on.
- `tests/` runs the library on concrete values, and the schema on a real SQLite database.
- `app/` is the program around the library: SQLite, files, sockets, processes, and the command line.

## What is trusted

The contracts of these calls are stated, not proved: `String::push` and `str::to_uppercase` of the
standard library, `sha2::Sha256::digest`, `uuid::Uuid::parse_str` and the text of a `uuid::Uuid`, and
two ways in which `chrono` reads an instant.
