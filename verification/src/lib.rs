//! Verified core of a log-ingestion engine: the per-account aggregation of
//! ledger messages, the routing of accounts to worker shards, throughput
//! metrics, and the decisions taken by connection handlers and load clients.
pub mod message;
pub mod ledger;
pub mod aggregator_mutex;
pub mod aggregator;
pub mod metrics;
pub mod worker;
pub mod load_gen;
pub mod server;
