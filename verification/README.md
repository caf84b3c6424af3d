# p2panda

Decisions behind append-only logs which are ingested, ordered, acknowledged and synchronised between
nodes, verified with Verus.

- `src/ingest/` – what happens to an incoming operation: the out-of-order buffer (`ring`, `ooo`), the
  ingestion of a single operation with retries (`operation`) and the stream processor (`processor`).
- `src/sync/` – which sync sessions of a topic are started, closed, retried or replaced
  (`topic_manager`, `logs`), and the handle onto a topic (`handle`).
- `src/streams/acked.rs` – batched acknowledgement of processed operations.
- `src/store/` – configuring and opening a SQLite database, serialisation of transactions.
- `src/retry.rs` – when a store error is worth another attempt.
- `src/collections.rs`, `src/types.rs`, `src/text.rs`, `src/time.rs`, `src/shared.rs`,
  `src/ordered.rs`, `src/buffer.rs`, `src/endpoint.rs` – what the rest is made of.

Everything which needs a database, a network or a clock is a state machine: it names the next action,
takes what came of it and goes on from there. `app/` holds the drivers which perform these actions.
Properties which span several functions are proof functions whose names start with `law_`.

What is taken on trust is in `src/ordered.rs` (the insertion-ordered map of the `indexmap` crate) and
`src/shared.rs` (cloning an `Arc`).
