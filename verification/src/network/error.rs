//! The errors of a node.

use vstd::prelude::*;

verus! {

/// What can go wrong in a node.
#[derive(Debug, Clone, Copy, PartialEq, Eq, Structural)]
pub enum NetworkError {
    /// Octets that were received are no packet.
    Decode,
    /// A packet does not fit into one datagram.
    Encode,
    /// A key was to be routed before the node had a routing table.
    TableNotInitialised,
    /// The hop count of a join would exceed its eight bits.
    HopCountOverflow,
    /// The node was started while running, or stopped while not running.
    Lifecycle,
}

} // verus!
