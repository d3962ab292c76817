//! A verified proof-of-work ledger node core: blocks, chain validation,
//! fork choice, and the gossip synchronisation protocol that keeps a set
//! of peers converging on the longest valid chain.

pub mod blocks;
pub mod clock;
pub mod codec;
pub mod encryption;
pub mod hashing;
pub mod json;
pub mod p2p;
pub mod text;
