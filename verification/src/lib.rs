//! A minimal peer-to-peer ledger: canonical hashing and validity rules for
//! transactions and blocks, proof-of-work search, and the rules by which a
//! node reconciles its chain and pool with what its peers send.
//!
//! The rules are stated over mathematical views of the data and proved of
//! the code. SHA-256, RSA signatures and hex coding are done by outside
//! code, whose results enter the rules by name or by stated contract.

pub mod blockchain_network;
pub mod crypto;
pub mod encoding;
pub mod models;
pub mod node;
