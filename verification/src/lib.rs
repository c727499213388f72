//! Client-side core of a blockchain light node.
//!
//! The crate models the on-wire binary representation of blocks and headers
//! as a self-describing value tree with a strict decode contract, the typed
//! block/header data model decoded through that contract, the network message
//! framing used to request chain data, and the pure decision logic of the
//! epoch-by-epoch chain synchronization engine.

pub mod cbor;
pub mod types;
pub mod genesis;
pub mod normal;
pub mod block;
pub mod packet;
pub mod sync;
pub mod bip44;
pub mod coin;
