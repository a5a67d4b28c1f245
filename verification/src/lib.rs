//! A Maelstrom node toolkit: message model, request routing, the outgoing RPC
//! outbox, and the node programs built on it.

pub mod broadcast;
pub mod echo;
pub mod json;
pub mod message;
pub mod node;
pub mod unique_ids;
