# chronicle_data_api

The storage service of the Chronicle toolchain: session recordings, their
per-speaker PCM chunks in object storage, transcript segments, beats and
scenes, metadata blobs, and a WebSocket stream of events.

- `src/` is the verified library, with contracts proved by Verus:
  identifiers and their validation, configuration rules and defaults, the
  session state machine and resume window, request checks, upload header
  parsing and object keys, bulk de-duplication and patching of segments,
  beats and scenes, the conditional shallow merge of metadata, the
  per-subscriber WebSocket state machine (filters, drop-oldest queue,
  drop-burst and heartbeat handling) with laws over whole runs of a
  connection, error responses, counters, gauges and histogram counts and
  their text format, the in-memory object store, S3 status handling, PCM
  mixing and the WAV container.
- `app/` is the program around it, and holds what the library cannot:
  - reading the environment, the axum router and the WebSocket loop with
    its timers;
  - Postgres work, including what the database decides itself: the
    per-speaker sequence numbers of chunks, the uniqueness behind upload
    and bulk idempotency, and the cascade and audio wipe transactions;
  - S3 requests (the library judges each answer and keeps the count of a
    batch delete);
  - floating point: the time-range arithmetic of audio mixing, choosing a
    latency histogram bucket from seconds, and printing bounds and sums.
- `tests/` exercises the library on concrete values.

## Collections

Three collections of the service are kept as vectors with an invariant:

- the in-memory object store (`storage::MemStore`), keyed by `String`, is a
  vector of key/bytes pairs with no key twice;
- the counter and gauge registry (`metrics::Metrics`), ordered by name, is
  a vector of name/value pairs sorted by name (`NameTable`);
- WebSocket subscriptions (`ws::filter::SubscriptionSet`) are a vector
  with no subscription twice.

vstd specifies `HashMap` and `HashSet` only for key types it declares
well-behaved for hashing (integers, `bool` and boxes of them), and
`BTreeMap` only for keys whose order it specifies (integers and tuples of
them). For `String` keys, or a struct of the library, both would rest on
an assumption that the verifier cannot check, so the library holds the
entries itself and proves each operation against a `Map` or `Set` view.
