//! A verified control plane core for a small multi-tenant instance manager.
//!
//! The library owns the declarative `State` (users, instances, nodes), the
//! quota-enforcing admission operations, the IP allocator and placement
//! scheduler, the reconciliation decision logic for the two backends, and the
//! durable on-disk encoding of the state. Everything here is verified; the
//! surrounding process (HTTP transport, backend clients, file handles) lives
//! outside and only hands plain values in and out.

pub mod admission;
pub mod auth;
pub mod catalog;
pub mod codec;
pub mod collector;
pub mod dto;
pub mod errors;
pub mod laws;
pub mod model;
pub mod random;
pub mod reconcile;
pub mod scheduler;
pub mod store;
pub mod text;
