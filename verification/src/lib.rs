//! Chain-event synchronization and reactive liquidation for a perpetuals
//! backend: an ordered byte-keyed ledger of positions and notes, the
//! controller that replays block ranges before going live, and the
//! decision engine that liquidates insolvent positions under a nonce
//! sequencer and a bounded admission gate.

pub mod byte_order;
pub mod byte_map;
pub mod hex_codec;
pub mod digest;
pub mod decimal;
pub mod models;
pub mod pagination;
pub mod ledger;
pub mod database;
pub mod ledger_laws;
pub mod keys;
pub mod indexer;
pub mod sync;
pub mod nonce;
pub mod tracker;
pub mod liquidation;
pub mod config;
