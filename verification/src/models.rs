//! The ledger's rules: hashing and validity, mining, and the exchange
//! between nodes.

pub mod blockchain;
pub mod client;
pub mod mining;
pub mod network;
pub mod node;
pub mod push;
