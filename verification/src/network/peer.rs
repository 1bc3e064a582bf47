//! Peers: the nodes of the overlay as others see them.

use crate::id::octets::{wrapping_difference, zero_octets};
use crate::id::{key_hash, Id};
use crate::network::addr::Addr;
use crate::network::peer_info::PeerInfo;
use vstd::prelude::*;

verus! {

/// A node of the overlay as others see it: its identifier, its transport
/// address, and what is known about it.
#[derive(Clone, Copy, PartialEq, Eq, Hash, Debug)]
pub struct Peer {
    pub id: Id,
    pub addr: Addr,
    pub info: PeerInfo,
}

impl Peer {
    /// The peer at `addr`, of which nothing more is known; its identifier is
    /// the hash of the address.
    pub open spec fn at(addr: Addr) -> Peer {
        Peer {
            id: Id::of_key(addr.octets()),
            addr,
            info: PeerInfo { physical_distance_index: None },
        }
    }

    /// The peer at `addr`; its identifier is the hash of the address.
    pub fn new(addr: Addr) -> (r: Self)
        ensures
            r == Peer::at(addr),
            r.id.value() == key_hash(addr.octets()),
    {
        let id = Id::from_key(addr);
        Self { id, addr, info: PeerInfo::default() }
    }

    /// The peer with the given identifier and address.
    pub fn raw(id: Id, addr: Addr) -> (r: Self)
        ensures
            r.id == id,
            r.addr == addr,
            r.info.physical_distance_index is None,
    {
        Self { id, addr, info: PeerInfo::default() }
    }

    /// The identifier of the peer.
    pub fn id(&self) -> (r: Id)
        ensures
            r == self.id,
    {
        self.id
    }

    /// The transport address of the peer.
    pub fn addr(&self) -> (r: Addr)
        ensures
            r == self.addr,
    {
        self.addr
    }

    /// The wrap-around difference between the peer's identifier and `other`.
    pub fn distance(&self, other: &Id) -> (r: Id)
        ensures
            r.value() == wrapping_difference(self.id.value(), other.value()),
            self.id@ == other@ ==> r@ == zero_octets(),
    {
        self.id.distance(other)
    }
}

} // verus!
