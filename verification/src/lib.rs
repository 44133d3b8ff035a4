//! ConnectForge: a partitioned commit log with a connector SDK on top of it.
//!
//! Everything in this crate is plain computation over plain values. Waiting,
//! locking, files and the network belong to the program around it, which asks
//! the state machines here what to do next and reports back what happened.

pub mod checkpoint;
pub mod config;
pub mod connector;
pub mod connectors;
pub mod delivery;
pub mod disk;
pub mod dlq;
pub mod engine;
pub mod error;
pub mod event;
pub mod filepart;
pub mod filestore;
pub mod frame;
pub mod generator;
pub mod invalid;
pub mod layout;
pub mod memstore;
pub mod mirror;
pub mod model;
pub mod namemap;
pub mod pipeline;
pub mod ports;
pub mod record;
pub mod recovery;
pub mod registry;
pub mod retry;
pub mod schema;
pub mod segment;
pub mod sink;
pub mod source;
pub mod stats;
pub mod tally;
pub mod text;
pub mod timestamp;
pub mod topic;
pub mod units;
