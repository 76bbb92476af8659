//! Incremental harvester core: a resilient fetch client with retry, rate-limit
//! cooldown and read-through caching; a time-windowed cursor pagination engine
//! over snowflake-identified messages; a bounded-concurrency orchestrator's
//! aggregation rules; and the key-value cache bookkeeping around them.

pub mod client;
pub mod digits;
pub mod errors;
pub mod htmlnav;
pub mod kvstore;
pub mod links;
pub mod logfmt;
pub mod message;
pub mod orchestrator;
pub mod pagination;
pub mod playlist;
pub mod retry;
pub mod snowflake;
pub mod source;
pub mod textutil;
pub mod timewin;
