//! Queue service of a distributed render farm: renders decompose into
//! frame-by-slice jobs handed to workers on demand, progress pointers and
//! completion counters drive a lifecycle state machine, and the remaining
//! work feeds an autoscaler.

pub mod config;
pub mod entity;
pub mod events;
pub mod laws;
pub mod load_balance;
pub mod repository;
pub mod service;
pub mod store;
