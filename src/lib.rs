//! A small proof-of-work blockchain: signed transfers, blocks sealed by a
//! nonce search, a shared arena that admits exactly one winning solution per
//! round, and a chain whose blocks are linked by their hashes.
pub mod block;
pub mod blockchain;
pub mod crypto;
pub mod mining;
pub mod text;
pub mod transaction;
pub mod wallet;
