//! What is known of a peer beyond its identifier and address.

use vstd::prelude::*;

verus! {

/// What a node knows about a peer beyond its identifier and address.
#[derive(Debug, Clone, Copy, PartialEq, Eq, Hash)]
pub struct PeerInfo {
    /// An index of the physical distance to the peer, where one is known.
    pub physical_distance_index: Option<u64>,
}

impl Default for PeerInfo {
    /// Nothing is known about a peer at first.
    fn default() -> (r: Self)
        ensures
            r.physical_distance_index is None,
    {
        Self { physical_distance_index: None }
    }
}

} // verus!
