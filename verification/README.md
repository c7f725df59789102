# ce-pubsub

Managed publish/subscribe over a peer-to-peer mesh, with a verified core: a durable, replayable
topic log, server-tracked subscriptions with acks, leases and dead letters, idempotent remote
publish, attribute filters and capability-gated access.

## Layout

- `src/` is the library, written in Verus. Every function has a contract over mathematical models
  (sequences, sets and maps of plain values), and Verus proves each body against it.
- `app/` is the program around it: the command line, the transport to the local node, the JSON
  forms of the library's types, and the capability system. What it decides itself is where dead
  letters go: to the durable dead-letter topic where this process owns it, and else to its live
  stream.
- `tests/` runs the library on concrete values.

## What is proved

- **The log** (`log`): cursors stay contiguous, absolute and strictly increasing under appends and
  pruning; a snapshot plus the tail of the mutations is the full replay.
- **Replay** (`replay`): pages follow each other without gap or repetition, and a replica counts as
  converged only where it reached the owner's high-water cursor.
- **Subscriptions** (`subscription`, `subscription_laws`): a lease hands out, in order, exactly the
  first redeliverable messages; an acknowledged or dead-lettered message is never handed out again;
  an expired lease is redelivered with its attempt counted; acks may come in any order; no message is
  dropped but by an ack, a dead letter or retention.
- **The owner** (`ingest`, `control`): a retry returns the first cursor and appends nothing, within
  the time and the number of keys that are remembered; a gated topic performs nothing unauthorized;
  what is broadcast is what is stored.
- **De-duplication** (`dedup`): caches stay within their capacity and evict only their oldest entry.
- **Filters, names, tokens** (`filter`, `message`, `caps`): a filter in the compact form parses to its
  clauses; mesh names never collide; narrowing a scope never widens access.

## What is trusted

`hexcodec` holds the four calls whose contracts are believed: `hex::encode`, `hex::decode`, the text
of `hex::FromHexError`, and `String::from_utf8_lossy`.

## Counters

Cursors and delivery attempts are machine integers. Where the next one would not fit, the functions
that need it say so in `requires`, and `can_apply`, `try_plan_lease` and `try_control_action` tell
beforehand.
