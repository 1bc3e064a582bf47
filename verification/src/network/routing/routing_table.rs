//! The routing table and the routing decision.

use crate::id::octets::wrapping_difference;
use crate::id::Id;
use crate::network::peer::Peer;
use crate::network::routing::routing_table_row::{empty_slots, RoutingTableRow};
use vstd::prelude::*;

verus! {

/// Number of leaves on either side of the node.
pub const HALF_LEAVES: usize = 4;

/// Number of rows of the routing table.
pub const ROWS: usize = 8;

/// How far `from` lies from `target`, going round the key space.
pub open spec fn gap(from: Id, target: Id) -> int {
    wrapping_difference(from.value(), target.value())
}

/// The first empty slot of `leaves` at or after `lo` and before `hi`, or `hi`
/// where there is none.
pub open spec fn first_empty(leaves: Seq<Option<Peer>>, lo: int, hi: int) -> int
    decreases hi - lo,
{
    if lo >= hi {
        hi
    } else if leaves[lo] is None {
        lo
    } else {
        first_empty(leaves, lo + 1, hi)
    }
}

/// The first empty slot lies in the part that was asked for, is empty, and
/// has no empty slot of that part before it.
pub proof fn lemma_first_empty(leaves: Seq<Option<Peer>>, lo: int, hi: int)
    requires
        lo <= hi,
    ensures
        lo <= first_empty(leaves, lo, hi) <= hi,
        first_empty(leaves, lo, hi) < hi ==> leaves[first_empty(leaves, lo, hi)] is None,
        forall|j: int| lo <= j < first_empty(leaves, lo, hi) ==> leaves[j] is Some,
    decreases hi - lo,
{
    if lo < hi && leaves[lo] is Some {
        lemma_first_empty(leaves, lo + 1, hi);
    }
}

/// The leaves after `leaf` is put into the first empty slot between `lo` and
/// `hi`; where that part is full the leaf is dropped.
pub open spec fn place_leaf(leaves: Seq<Option<Peer>>, leaf: Peer, lo: int, hi: int) -> Seq<
    Option<Peer>,
> {
    let k = first_empty(leaves, lo, hi);
    if k < hi {
        leaves.update(k, Some(leaf))
    } else {
        leaves
    }
}

/// The leaves after one peer is offered: a peer below the node goes to the
/// first half, one above it to the second, and the node itself nowhere.
pub open spec fn insert_leaf(leaves: Seq<Option<Peer>>, node_id: Id, leaf: Peer) -> Seq<
    Option<Peer>,
> {
    if leaf.id.value() < node_id.value() {
        place_leaf(leaves, leaf, 0, 4)
    } else if leaf.id.value() > node_id.value() {
        place_leaf(leaves, leaf, 4, 8)
    } else {
        leaves
    }
}

/// The leaves after the peers of `offered` are offered one after the other.
pub open spec fn insert_leaves(leaves: Seq<Option<Peer>>, node_id: Id, offered: Seq<Peer>) -> Seq<
    Option<Peer>,
>
    decreases offered.len(),
{
    if offered.len() == 0 {
        leaves
    } else {
        insert_leaf(insert_leaves(leaves, node_id, offered.drop_last()), node_id, offered.last())
    }
}

/// The peers of the occupied slots, in slot order.
pub open spec fn present_peers(slots: Seq<Option<Peer>>) -> Seq<Peer>
    decreases slots.len(),
{
    if slots.len() == 0 {
        Seq::empty()
    } else {
        match slots.last() {
            Some(p) => present_peers(slots.drop_last()).push(p),
            None => present_peers(slots.drop_last()),
        }
    }
}

/// The leaf among the first `n` slots that is closest to `target` and closer
/// than `node_id` is; of several equally close ones the first. `None` where
/// no leaf is closer than the node.
pub open spec fn closest_leaf(leaves: Seq<Option<Peer>>, node_id: Id, target: Id, n: int) -> Option<
    Peer,
>
    decreases n,
{
    if n <= 0 {
        None
    } else {
        let before = closest_leaf(leaves, node_id, target, n - 1);
        let bound = match before {
            Some(p) => gap(p.id, target),
            None => gap(node_id, target),
        };
        match leaves[n - 1] {
            Some(leaf) => if gap(leaf.id, target) < bound {
                Some(leaf)
            } else {
                before
            },
            None => before,
        }
    }
}

/// The peer behind an optional reference.
pub open spec fn copied(found: Option<&Peer>) -> Option<Peer> {
    match found {
        Some(p) => Some(*p),
        None => None,
    }
}

/// The state of a routing table as contracts see it.
pub struct RoutingTableView {
    /// The identifier of the node that owns the table.
    pub node_id: Id,
    /// The eight rows, each of sixteen slots.
    pub rows: Seq<Seq<Option<Peer>>>,
    /// The eight leaf slots: four below the node, then four above it.
    pub leaves: Seq<Option<Peer>>,
}

impl RoutingTableView {
    /// Eight rows of sixteen slots, and eight leaf slots.
    pub open spec fn shaped(&self) -> bool {
        &&& self.rows.len() == 8
        &&& forall|i: int| 0 <= i < 8 ==> (#[trigger] self.rows[i]).len() == 16
        &&& self.leaves.len() == 8
    }

    /// In every row, the slot of the node's own digit is empty.
    pub open spec fn rows_clear_of_node(&self) -> bool {
        forall|i: int| 0 <= i < 8 ==> (#[trigger] self.rows[i])[self.node_id.digit(i)] is None
    }

    /// The first four leaves lie below the node, the last four above it.
    pub open spec fn leaves_partitioned(&self) -> bool {
        forall|k: int|
            0 <= k < 8 ==> match #[trigger] self.leaves[k] {
                Some(leaf) => if k < 4 {
                    leaf.id.value() < self.node_id.value()
                } else {
                    leaf.id.value() > self.node_id.value()
                },
                None => true,
            }
    }

    /// What holds of every routing table.
    pub open spec fn wf(&self) -> bool {
        &&& self.shaped()
        &&& self.rows_clear_of_node()
        &&& self.leaves_partitioned()
    }

    /// The table of the node `node_id` with every row and every leaf empty.
    pub open spec fn empty(node_id: Id) -> RoutingTableView {
        RoutingTableView {
            node_id,
            rows: Seq::new(8, |i: int| empty_slots(16)),
            leaves: empty_slots(8),
        }
    }

    /// The table after `row` is installed at `index` and its slot for the
    /// node's own digit is emptied; an index of 8 or more changes nothing.
    pub open spec fn install_row(&self, row: Seq<Option<Peer>>, index: int) -> RoutingTableView {
        if 0 <= index < 8 {
            RoutingTableView {
                rows: self.rows.update(index, row.update(self.node_id.digit(index), None)),
                ..*self
            }
        } else {
            *self
        }
    }

    /// The table after the peers of `offered` are offered as leaves, one
    /// after the other.
    pub open spec fn offer_leaves(&self, offered: Seq<Peer>) -> RoutingTableView {
        RoutingTableView { leaves: insert_leaves(self.leaves, self.node_id, offered), ..*self }
    }

    /// The slots of the row at `index`, or sixteen empty slots for an index
    /// of 8 or more.
    pub open spec fn row_or_empty(&self, index: int) -> Seq<Option<Peer>> {
        if 0 <= index < 8 {
            self.rows[index]
        } else {
            empty_slots(16)
        }
    }

    /// The peer that the walk over the rows finds from row `i` on: rows whose
    /// digit of `target` is the node's own are passed over, and the first
    /// other row decides with the slot of the target's digit.
    pub open spec fn long_jump(&self, target: Id, i: int) -> Option<Peer>
        decreases 8 - i,
    {
        if i >= 8 {
            None
        } else if target.digit(i) == self.node_id.digit(i) {
            self.long_jump(target, i + 1)
        } else {
            self.rows[i][target.digit(i)]
        }
    }

    /// The leaf that is closest to `target` and closer than the node.
    pub open spec fn short_jump(&self, target: Id) -> Option<Peer> {
        closest_leaf(self.leaves, self.node_id, target, 8)
    }

    /// The next hop towards `target`: the peer of the long jump where there
    /// is one, else the leaf of the short jump; `None` where the node itself
    /// is the closest known.
    pub open spec fn route(&self, target: Id) -> Option<Peer> {
        match self.long_jump(target, 0) {
            Some(p) => Some(p),
            None => self.short_jump(target),
        }
    }
}

/// What a node knows of the overlay: its own identifier, eight rows of peers
/// by shared prefix, and four leaves on either side of it.
#[derive(Debug, Clone, Copy, PartialEq, Eq, Hash)]
pub struct RoutingTable {
    node_id: Id,
    leaves: [Option<Peer>; 8],
    table_rows: [RoutingTableRow; 8],
}

impl View for RoutingTable {
    type V = RoutingTableView;

    closed spec fn view(&self) -> RoutingTableView {
        RoutingTableView {
            node_id: self.node_id,
            rows: Seq::new(8, |i: int| self.table_rows@[i]@),
            leaves: self.leaves@,
        }
    }
}

impl RoutingTable {
    /// Every table in memory is well formed.
    #[verifier::type_invariant]
    closed spec fn inv(&self) -> bool {
        self@.wf()
    }

    /// Recalls that the table is well formed, as every table is: in every
    /// row the slot of the node's own digit is empty, the first four leaves
    /// lie below the node and the last four above it.
    pub fn recall_well_formed(&self)
        ensures
            self@.wf(),
    {
        proof {
            use_type_invariant(self);
        }
    }

    /// The table of the node `node_id` with every row and every leaf empty.
    pub fn empty(node_id: Id) -> (r: Self)
        ensures
            r@ == RoutingTableView::empty(node_id),
            r@.wf(),
    {
        let r = Self { node_id, leaves: [None; 8], table_rows: [RoutingTableRow::empty(); 8] };
        assert(r@.rows =~= Seq::new(8, |i: int| empty_slots(16)));
        assert(r@.leaves =~= empty_slots(8));
        r
    }

    /// The identifier of the node that owns the table.
    pub fn node_id(&self) -> (r: Id)
        ensures
            r == self@.node_id,
    {
        self.node_id
    }

    /// Installs `row` at `index` and empties its slot for the node's own
    /// digit. An index of 8 or more changes nothing.
    pub fn set_row(&mut self, row: RoutingTableRow, index: usize)
        ensures
            final(self)@ == old(self)@.install_row(row@, index as int),
            final(self)@.wf(),
            index < 8 ==> final(self)@.rows[index as int][final(self)@.node_id.digit(
                index as int,
            )] is None,
    {
        proof {
            use_type_invariant(&*self);
            row.lemma_len();
        }
        if index < ROWS {
            let mut installed = row;
            installed.set(self.node_id.get_digit(index), None);
            let mut rows: [RoutingTableRow; 8] = self.table_rows;
            rows[index] = installed;
            proof {
                installed.lemma_len();
                let next = RoutingTable {
                    node_id: self.node_id,
                    leaves: self.leaves,
                    table_rows: rows,
                };
                assert(next@.rows =~= self@.install_row(row@, index as int).rows);
                assert(next@.wf());
            }
            self.table_rows = rows;
        }
    }

    /// A copy of the row at `index`, or an empty row for an index of 8 or
    /// more.
    pub fn row(&self, index: usize) -> (r: RoutingTableRow)
        ensures
            r@ == self@.row_or_empty(index as int),
    {
        if index < ROWS {
            self.table_rows[index]
        } else {
            RoutingTableRow::empty()
        }
    }

    /// Puts `leaf` into the first empty leaf slot between `lo` and `hi`, or
    /// drops it where there is none.
    fn place(&mut self, leaf: Peer, lo: usize, hi: usize)
        requires
            lo <= hi <= 8,
            (lo == 0 && hi == 4 && leaf.id.value() < old(self)@.node_id.value()) || (lo == 4 && hi
                == 8 && leaf.id.value() > old(self)@.node_id.value()),
        ensures
            final(self)@.node_id == old(self)@.node_id,
            final(self)@.rows == old(self)@.rows,
            final(self)@.leaves == place_leaf(old(self)@.leaves, leaf, lo as int, hi as int),
    {
        let mut k: usize = lo;
        while k < hi
            invariant
                lo <= k <= hi <= 8,
                *self == *old(self),
                (lo == 0 && hi == 4 && leaf.id.value() < self@.node_id.value()) || (lo == 4 && hi
                    == 8 && leaf.id.value() > self@.node_id.value()),
                first_empty(self@.leaves, lo as int, hi as int) == first_empty(
                    self@.leaves,
                    k as int,
                    hi as int,
                ),
            decreases hi - k,
        {
            if self.leaves[k].is_none() {
                let mut leaves: [Option<Peer>; 8] = self.leaves;
                leaves[k] = Some(leaf);
                proof {
                    use_type_invariant(&*self);
                    let next = RoutingTable {
                        node_id: self.node_id,
                        leaves,
                        table_rows: self.table_rows,
                    };
                    assert(next@.rows =~= self@.rows);
                    assert(next@.wf());
                }
                self.leaves = leaves;
                return ;
            }
            k = k + 1;
        }
    }

    /// Offers the peers of `leaves` one after the other: a peer below the
    /// node goes to the first empty slot of the first half, one above it to
    /// the first empty slot of the second half. A peer with the node's
    /// identifier, or one whose half is full, is dropped.
    pub fn add_leaves(&mut self, leaves: Vec<Peer>)
        ensures
            final(self)@ == old(self)@.offer_leaves(leaves@),
            final(self)@.wf(),
    {
        proof {
            use_type_invariant(&*self);
        }
        let mut i: usize = 0;
        while i < leaves.len()
            invariant
                i <= leaves.len(),
                self@.wf(),
                self@.node_id == old(self)@.node_id,
                self@.rows == old(self)@.rows,
                self@.leaves == insert_leaves(
                    old(self)@.leaves,
                    old(self)@.node_id,
                    leaves@.take(i as int),
                ),
            decreases leaves.len() - i,
        {
            let leaf: Peer = leaves[i];
            proof {
                assert(leaves@.take(i as int + 1).drop_last() =~= leaves@.take(i as int));
            }
            proof {
                lemma_first_empty(self@.leaves, 0, 4);
                lemma_first_empty(self@.leaves, 4, 8);
            }
            if leaf.id < self.node_id {
                self.place(leaf, 0, HALF_LEAVES);
            } else if leaf.id > self.node_id {
                self.place(leaf, HALF_LEAVES, 2 * HALF_LEAVES);
            }
            i = i + 1;
        }
        assert(leaves@.take(leaves.len() as int) =~= leaves@);
    }

    /// The leaves that are present, in slot order.
    pub fn leaves_to_vec(&self) -> (r: Vec<Peer>)
        ensures
            r@ == present_peers(self@.leaves),
    {
        let mut out: Vec<Peer> = Vec::new();
        let mut k: usize = 0;
        while k < 8
            invariant
                k <= 8,
                out@ == present_peers(self@.leaves.take(k as int)),
            decreases 8 - k,
        {
            proof {
                assert(self@.leaves.take(k as int + 1).drop_last() =~= self@.leaves.take(k as int));
            }
            match &self.leaves[k] {
                Some(leaf) => {
                    out.push(*leaf);
                },
                None => {},
            }
            k = k + 1;
        }
        assert(self@.leaves.take(8) =~= self@.leaves);
        out
    }

    /// The next hop towards `target`, or `None` where this node is the
    /// closest one known.
    pub fn route(&self, target: &Id) -> (r: Option<&Peer>)
        ensures
            copied(r) == self@.route(*target),
    {
        let mut i: usize = 0;
        while i < 8
            invariant
                i <= 8,
                self@.long_jump(*target, 0) == self@.long_jump(*target, i as int),
            ensures
                self@.long_jump(*target, 0) is None,
            decreases 8 - i,
        {
            let digit: u8 = target.get_digit(i);
            if digit != self.node_id.get_digit(i) {
                match self.table_rows[i].get(digit) {
                    Some(peer) => {
                        return Some(peer);
                    },
                    None => {
                        break ;
                    },
                }
            }
            i = i + 1;
        }
        let mut closest_peer: Option<&Peer> = None;
        let mut closest_distance: Id = self.node_id.distance(target);
        let mut k: usize = 0;
        while k < 8
            invariant
                k <= 8,
                copied(closest_peer) == closest_leaf(
                    self@.leaves,
                    self@.node_id,
                    *target,
                    k as int,
                ),
                closest_distance.value() == match closest_peer {
                    Some(p) => gap(p.id, *target),
                    None => gap(self@.node_id, *target),
                },
            decreases 8 - k,
        {
            match &self.leaves[k] {
                Some(leaf) => {
                    let distance: Id = leaf.distance(target);
                    if distance < closest_distance {
                        closest_distance = distance;
                        closest_peer = Some(leaf);
                    }
                },
                None => {},
            }
            k = k + 1;
        }
        closest_peer
    }
}

} // verus!
