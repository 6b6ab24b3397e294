# surrealdb_iroh

Peer-to-peer replication of database changes over [iroh](https://iroh.computer/). The
rules of replication are a library written in [Verus](https://github.com/verus-lang/verus):
every function states what it does in `requires` and `ensures` clauses, and Verus proves
that it does so.

## Layout

- `src/` is the verified library.
  - `change`, `codec`, `sync`: changes, their binary form, and the log that peers share
  - `protocol`: frames and the two sides of a sync session
  - `persist`: log files, their index, compaction and recovery
  - `snapshot`, `compress`: snapshots of a database in chunks, and compression
  - `batch`, `notify`, `pool`, `discovery`, `replicator`, `reputation`, `retry`: batching,
    subscriptions, pooled connections, known peers and tickets, the life of a replicator,
    reputations, and retries
  - `common`, `assoc`, `peer`, `error`, `config`, `hook`, `telemetry`: what the others use
  - `ext`: what is assumed of other crates and of the standard library. Every contract
    that is not proved stands there, with the function it speaks of.
- `tests/` runs the library on concrete values.
- `app/` is ordinary Rust around the library: connections, files, tasks, channels, JSON,
  and scores, which are floating-point numbers.

## How the parts meet

The library does no input or output. A session, a store or a batcher is a value that the
program steps: it hands in what happened, and does what it is told. Times are handed in
too; functions whose names end in `_at` take a reading of a clock.

Laws that relate several functions are public proof functions, such as
`protocol::pages_make_up_the_whole`, `persist::store::reading_gives_the_stored_changes`,
`snapshot::import_undoes_export` and `sync::restore_undoes_snapshot`.
