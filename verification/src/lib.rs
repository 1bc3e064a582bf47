//! A node of a prefix-routing overlay in the style of Pastry.
//!
//! Every node owns a 64-bit identifier, read as sixteen hexadecimal digits.
//! A key is routed to the node whose identifier is closest to it: each hop
//! either shares a longer prefix of digits with the key or lies closer to it
//! on the ring of identifiers.
//!
//! * [`id`] holds the identifiers: digits, wrap-around distance, order, and
//!   their hexadecimal text.
//! * [`network::routing`] holds the routing table and the routing decision.
//! * [`network::packet`] holds the packets and their form on the wire.
//! * [`network::framework`] holds the protocol engine: what a node does when a
//!   packet arrives, and how a new node gets its routing table.
//!
//! The library does no input or output: it takes the octets that were
//! received and says what is to be sent.

pub mod id;
pub mod network;
