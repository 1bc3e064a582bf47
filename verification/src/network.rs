//! The node: peers, routing table, packets, endpoint and protocol engine.

pub mod addr;
pub mod error;
pub mod framework;
pub mod packet;
pub mod peer;
pub mod peer_info;
pub mod routing;
pub mod wire;

#[allow(clippy::module_inception)]
mod network;
pub use network::{Network, MTU};
