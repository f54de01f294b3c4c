//! Consensus and peer-to-peer core of a blockchain full node.
//!
//! The crate provides the pure, verifiable heart of the node: the Unity
//! reward and difficulty engine, the framed wire codec, the peer registry
//! with its capacity and consistency invariants, the frame dispatcher with
//! the handshake and active-nodes exchanges, the header-sync handler, the
//! connection-lifecycle decisions, a small fixed-point number type, and an
//! in-memory key-value store.  Socket handling, timers and thread plumbing
//! live outside the library and talk to it through plain values.

pub mod codec;
pub mod fixed_point;
pub mod handler;
pub mod mockdb;
pub mod node;
pub mod registry;
pub mod runtime;
pub mod sync;
pub mod unity;
