//! A persistent, log-structured key/value store library.
//!
//! String keys and values live in an append-only textual log of records,
//! with an in-memory index from each live key to the offset of the record
//! holding its current value; compaction rewrites the log to one record per
//! live key.  The same record format carries requests and responses between
//! a client and a server, and a sidecar document pins a store directory to
//! the engine that writes it.

pub mod client;
pub mod codec;
pub mod config;
pub mod engines;
pub mod error;
pub mod server;
pub mod strings;
pub mod thread_pool;
pub mod util;

pub use config::EngineType;
pub use engines::kvs::{KvStore, SharedKvStore};
pub use engines::sled::SledKvsEngine;
pub use engines::KvsEngine;
pub use error::KvsError;
pub use server::Server;
pub use thread_pool::{NaiveThreadPool, ThreadPool};
pub use util::{Command, Response};
