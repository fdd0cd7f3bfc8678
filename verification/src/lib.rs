//! Core of a lightweight publish/subscribe message relay.
//!
//! The broker accepts published messages over a request/response edge,
//! fans them out to live subscriber sessions, queues durable writes for a
//! single batching worker, runs a retention sweep over the stored rows,
//! and answers dashboard queries through a TTL-bounded read cache.
//! Everything here is plain state-machine logic: the surrounding process
//! supplies the clock, the wire, and the embedded relational store.

use vstd::prelude::*;

pub mod batcher;
pub mod broker;
pub mod cache;
pub mod dashboard;
pub mod jsontext;
pub mod models;
pub mod registry;
pub mod router;
pub mod session;
pub mod store;

verus! {

/// Largest number of message rows a retention pass leaves behind.
pub const MAX_MESSAGES: usize = 10000;

/// Largest number of consumption rows a retention pass leaves behind.
pub const MAX_CONSUMPTIONS: usize = 10000;

/// Oldest age, in milliseconds, a stored row may reach before a retention
/// pass removes it.
pub const MAX_AGE_MS: u64 = 86_400_000;

/// Minutes between two retention sweeps.
pub const PURGE_INTERVAL_MINUTES: u64 = 30;

/// Commands the write batcher buffers before it forces a flush.
pub const BATCH_CAPACITY: usize = 500;

/// Milliseconds between two batcher ticks.
pub const BATCH_TICK_MS: u64 = 20;

/// Milliseconds a cached dashboard query result stays fresh.
pub const CACHE_TTL_MS: u64 = 2000;

/// Capacity of the event bus and of each per-topic room channel.
pub const CHANNEL_CAPACITY: usize = 1000;

/// Rows a recent-traffic query returns at most.
pub const QUERY_LIMIT: usize = 100;

} // verus!
