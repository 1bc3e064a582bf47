//! A row of the routing table.

use crate::network::peer::Peer;
use vstd::prelude::*;

verus! {

/// `n` slots that are all empty.
pub open spec fn empty_slots(n: nat) -> Seq<Option<Peer>> {
    Seq::new(n, |i: int| None::<Peer>)
}

/// A row of the routing table: sixteen slots, each empty or holding a peer.
#[derive(Debug, Clone, Copy, PartialEq, Eq, Hash)]
pub struct RoutingTableRow {
    peers: [Option<Peer>; 16],
}

impl View for RoutingTableRow {
    type V = Seq<Option<Peer>>;

    /// The sixteen slots of the row, by digit.
    closed spec fn view(&self) -> Seq<Option<Peer>> {
        self.peers@
    }
}

impl RoutingTableRow {
    /// The row whose slots are the first sixteen entries of `s`.
    pub closed spec fn from_slots(s: Seq<Option<Peer>>) -> Self {
        RoutingTableRow { peers: [s[0], s[1], s[2], s[3], s[4], s[5], s[6], s[7], s[8], s[9], s[10], s[11], s[12], s[13], s[14], s[15]] }
    }

    /// A row has sixteen slots.
    pub proof fn lemma_len(&self)
        ensures
            self@.len() == 16,
    {
    }

    /// Sixteen slots make the row that holds them.
    pub proof fn lemma_from_slots(s: Seq<Option<Peer>>)
        requires
            s.len() == 16,
        ensures
            Self::from_slots(s)@ == s,
    {
        assert(Self::from_slots(s)@ =~= s);
    }

    /// Every row is made of its slots.
    pub proof fn lemma_from_own_slots(&self)
        ensures
            Self::from_slots(self@) == *self,
    {
        assert(Self::from_slots(self@).peers =~= self.peers);
    }

    /// The row whose slots are all empty.
    pub fn empty() -> (r: Self)
        ensures
            r@ == empty_slots(16),
    {
        let r = Self { peers: [None; 16] };
        assert(r@ =~= empty_slots(16));
        r
    }

    /// The slot for the digit `index`.
    pub fn get(&self, index: u8) -> (r: &Option<Peer>)
        requires
            index < 16,
        ensures
            *r == self@[index as int],
    {
        &self.peers[index as usize]
    }

    /// Replaces the slot for the digit `index`.
    pub fn set(&mut self, index: u8, peer: Option<Peer>)
        requires
            index < 16,
        ensures
            final(self)@ == old(self)@.update(index as int, peer),
    {
        self.peers[index as usize] = peer;
    }
}

} // verus!
