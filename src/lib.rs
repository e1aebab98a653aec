//! World Chess Champion Number: ingestion of game archives, propagation of
//! champion numbers through decisive games, and expansion of witness chains.

pub mod archive;
pub mod bignat;
pub mod chain;
pub mod codec;
pub mod filter;
pub mod laws;
pub mod model;
pub mod store;
pub mod text;
