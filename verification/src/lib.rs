//! Core of a structured overlay network runtime: a hierarchical
//! distance-vector routing table with path-vector loop avoidance, a fair
//! task switcher, the router-sync exchange, the packet router, and the
//! sans-I/O controller / data planes that compose them.
//!
//! The engine performs no I/O: a host delivers inputs (`on_event`),
//! advances time (`on_tick`) and drains outputs (`pop_output`).

pub mod addr;
pub mod controller;
pub mod dataplane;
pub mod dest;
pub mod dht_kv;
pub mod features;
pub mod header;
pub mod history;
pub mod metric;
pub mod neighbours;
pub mod router;
pub mod router_sync;
pub mod switcher;
pub mod sync_codec;
pub mod table;
