# distributed-log-processor

A TCP log-ingestion engine: clients send newline-delimited JSON ledger
messages, worker shards aggregate them per account, and a reporter logs
throughput and latency.

- `src/` is the verified library (Verus):
  - `message.rs`: entry types, log entries (amounts in hundredths), account statistics.
  - `ledger.rs`: what aggregation means over whole batches, and its laws.
  - `aggregator.rs`, `aggregator_mutex.rs`: aggregation into a `DashMap` and into a `HashMap`.
  - `worker.rs`: routing of accounts to worker shards.
  - `metrics.rs`: message and latency counters, reporting windows.
  - `server.rs`: the connection handler's decisions.
  - `load_gen.rs`: the load generator's messages and client tally.
- `app/` holds the program: sockets, channels, threads, JSON decoding, logging.
  Started under the name `load_gen` it runs the load generator.
- `tests/` exercises the library.
