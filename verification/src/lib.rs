//! Event ingestion and cache-consistency engine for a federated social graph.
//!
//! A set of independently operated homeservers emits append-only change
//! events.  This library projects those events into a denormalized,
//! read-optimized cache that mirrors a durable graph store.  The graph store
//! is the system of record; the cache only exists to make read-heavy queries
//! (counts, relationship checks, tag search, follow lookups) fast.
//!
//! The crate is organised leaf-first:
//! - [`text`] and [`kv`]: string helpers and the keyed record table
//!   underlying every cache index family;
//! - [`lists`], [`sets`], [`scores`], [`search`]: the cache-consistency
//!   index layer — deduplicated lists, membership sets, score rankings, and
//!   the rename-safe user search index — gathered into [`store`];
//! - [`events`], [`retry`], [`handlers`], [`processor`], [`runner`]: the
//!   ingestion engine — the line grammar, the retry queue, the per-kind
//!   cache transitions, the per-homeserver processor, and the
//!   default-plus-pool scheduler;
//! - [`relationship`], [`tags`], [`views`], [`api`]: the batched read side;
//! - [`replay`]: the laws of at-least-once delivery.
//!
//! All remote I/O (the homeserver feed, the cache store connection, the graph
//! store connection) lives outside this crate; the library receives plain
//! values and states exactly how every operation changes the modelled state.

pub mod text;
pub mod kv;
pub mod lists;
pub mod sets;
pub mod scores;
pub mod records;
pub mod search;
pub mod store;
pub mod events;
pub mod retry;
pub mod handlers;
pub mod processor;
pub mod runner;
pub mod relationship;
pub mod tags;
pub mod views;
pub mod replay;
pub mod config;
pub mod media;
pub mod n4j;
pub mod api;
