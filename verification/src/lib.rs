//! Blockchain with network participants and a lookup service.
//!
//! The chain holds blocks of events; participants sign events, miners group
//! them into blocks, and a lookup service tells participants where to find
//! each other.

pub mod accounts;
pub mod blockchain;
pub mod config;
pub mod crypto;
pub mod events;
pub mod framing;
pub mod input;
pub mod lookup;
pub mod messages;
pub mod outbox;
pub mod participants;
pub mod permits;
pub mod pool;
