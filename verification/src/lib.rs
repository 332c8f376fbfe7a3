//! Session pool and query dispatch for a small relational store.
//!
//! The crate owns the decisions of a backend that answers four fixed queries
//! against a pool of database sessions: which session serves which caller,
//! which ids a request samples, how fetched rows are gathered, and how a batch
//! update is assembled and committed. Everything that touches the network is
//! left to the caller, which performs the commands this crate hands out and
//! reports back what happened.

pub mod affinity;
pub mod connection;
pub mod error;
pub mod fetch;
pub mod gather;
pub mod model;
pub mod policy;
pub mod pool;
pub mod presentation;
pub mod round_robin;
pub mod sampling;
pub mod startup;
pub mod statements;
pub mod store;
pub mod tickets;
pub mod transaction;
pub mod update;
