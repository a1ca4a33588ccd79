//! Relay core for one-shot file transfers between a sender and a receiver:
//! a keyed store with expiry, the block hand-off rules, and the signaling
//! room registry. Every function here is verified against its contract.

pub mod assets;
pub mod db;
pub mod entity;
pub mod handler;
mod keyed;
pub mod memdb;
pub mod nanoid;
pub mod signaling;
pub mod text;
