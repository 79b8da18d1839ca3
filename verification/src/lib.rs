//! Event distribution and lifecycle orchestration for an embedded
//! payment-channel node.
//!
//! The node reports events one at a time. [`node_processor::NodeProcessor`]
//! decides when the node may be asked for the next one and holds each
//! event until it was fanned out and acknowledged.
//! [`node_events::NodeEvents`] keeps the registry of subscribers and fans
//! an event out to all of them. [`broker`] decides which events leave the
//! process and writes their messages. The node, the broker connection and
//! all waiting belong to the driver around this library.

pub mod broker;
pub mod config;
pub mod error;
pub mod event;
pub mod node_events;
pub mod node_processor;
pub mod payment_hash;
