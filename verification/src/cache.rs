//! A TTL-bounded memo for the three dashboard queries. Each slot holds at
//! most one result and the time it was filled; a read within the TTL
//! returns the held value, anything else falls through to the live query.
//! There is no single-flight guarantee: racing misses each run the query
//! and the last writer wins.

use crate::models::{ConsumptionInfo, GraphState, MessageInfo};
use crate::CACHE_TTL_MS;
use vstd::prelude::*;

verus! {

/// One memo slot: a value and the time it was filled.
pub struct CacheSlot<T> {
    filled: Option<T>,
    filled_at: u64,
}

impl<T> CacheSlot<T> {
    /// The held value, if any.
    pub closed spec fn slot_value(&self) -> Option<T> {
        self.filled
    }

    /// When the held value was filled.
    pub closed spec fn slot_time(&self) -> u64 {
        self.filled_at
    }

    /// A filled slot is fresh at `now` while less than `ttl` has passed
    /// since it was filled.
    pub open spec fn fresh(&self, now: u64, ttl: u64) -> bool {
        &&& self.slot_value() is Some
        &&& self.slot_time() <= now
        &&& now - self.slot_time() < ttl
    }

    /// An empty slot.
    pub fn empty() -> (r: CacheSlot<T>)
        ensures
            r.slot_value() is None,
    {
        CacheSlot { filled: None, filled_at: 0 }
    }

    /// The held value, when it is fresh at `now`.
    pub fn lookup(&self, now: u64, ttl: u64) -> (r: Option<&T>)
        ensures
            match r {
                Some(v) => self.fresh(now, ttl) && self.slot_value() == Some(*v),
                None => !self.fresh(now, ttl),
            },
    {
        match &self.filled {
            Some(v) => {
                if self.filled_at <= now && now - self.filled_at < ttl {
                    Some(v)
                } else {
                    None
                }
            },
            None => None,
        }
    }

    /// Overwrite the slot; the last writer wins.
    pub fn store_value(&mut self, value: T, now: u64)
        ensures
            final(self).slot_value() == Some(value),
            final(self).slot_time() == now,
    {
        self.filled = Some(value);
        self.filled_at = now;
    }
}

/// The read cache: one slot per dashboard query, and the TTL they share.
pub struct QueryCache {
    pub messages: CacheSlot<Vec<MessageInfo>>,
    pub consumptions: CacheSlot<Vec<ConsumptionInfo>>,
    pub graph_state: CacheSlot<GraphState>,
    pub ttl: u64,
}

impl QueryCache {
    /// A cache with all slots empty and the given TTL in milliseconds.
    pub fn new(ttl_ms: u64) -> (r: QueryCache)
        ensures
            r.messages.slot_value() is None,
            r.consumptions.slot_value() is None,
            r.graph_state.slot_value() is None,
            r.ttl == ttl_ms,
    {
        QueryCache {
            messages: CacheSlot::empty(),
            consumptions: CacheSlot::empty(),
            graph_state: CacheSlot::empty(),
            ttl: ttl_ms,
        }
    }

    /// The cache the relay starts with.
    pub fn with_default_ttl() -> (r: QueryCache)
        ensures
            r.messages.slot_value() is None,
            r.consumptions.slot_value() is None,
            r.graph_state.slot_value() is None,
            r.ttl == CACHE_TTL_MS,
    {
        Self::new(CACHE_TTL_MS)
    }
}

} // verus!
