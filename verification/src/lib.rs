pub mod clock;
pub mod hash_utils;
pub mod merkle;
pub mod types;
pub mod fraud_proofs;
pub mod emergency;
pub mod util;
pub mod dex;
pub mod governance;
pub mod batching;
pub mod table;
pub mod simulation;
pub mod parallel_executor;
pub mod oracle;
pub mod network_monitor;
pub mod checkpoint;
pub mod bridge;
pub mod compression;
pub mod snapshot;
pub mod validator;
pub mod sequencer;
pub mod tracing;
pub mod query_engine;
pub mod contracts;
pub mod meta_tx;
pub mod tx_pool;
pub mod fees;
pub mod mempool;
pub mod replay_protection;
pub mod events;
pub mod cache;
pub mod rate_limit;
pub mod admin;
pub mod data_availability;
pub mod metrics;
pub mod profiler;
pub mod websocket;
pub mod client;
