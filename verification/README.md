# ConnectForge

A partitioned, segmented commit log with a connector SDK on top of it: source
connectors poll an external system and append records to a topic; sink
connectors deliver committed records outward, at least once or at most once,
with offset checkpoints and a dead-letter queue.

- `src/` is the library, verified with Verus: the record and topic types, the
  in-memory and the durable store, the broker engine, the connector runtimes,
  the checkpoint stores, and what the API shows. What waits, locks, or does I/O
  is a state machine here: it says what to do next and is told how it went.
- `app/` is the node around it: the command line, the GraphQL server, the files,
  the locks, and the timers.
- `tests/` run the library on concrete values.

Laws that hold of the whole library are public proof functions named `law_…`.
Four modules consist of them:

- `src/delivery.rs`: what a sink guarantees over a whole round;
- `src/disk.rs`: what the files of a partition hold;
- `src/recovery.rs`: why a durable store comes back as it was;
- `src/mirror.rs`: why the in-memory store mirrors the durable one.

What is taken on trust is marked `external_body`: the calls into `chrono`,
`dashmap`, `serde_json`, and `String::from_utf8_lossy`.
