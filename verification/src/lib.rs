//! A verified core for a fan-out chat hub: a registry of display names with
//! broadcast bookkeeping, and the JSON protocol codec the hub speaks.

pub mod client;
pub mod codec;
pub mod hub;
pub mod message;
pub mod text;
