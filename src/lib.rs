//! Bitswap 1.2.0 responder and DHT content advertiser, verified with Verus.

pub mod varint;
pub mod cid;
pub mod queue;
pub mod schema;
pub mod block_provider;
pub mod bitswap;
pub mod handler;
pub mod dht;
pub mod behaviour;
pub mod frame;
