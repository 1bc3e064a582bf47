//! What routing by the table achieves: every hop makes progress, and routing
//! ends where no known peer is closer to the target.

use crate::id::Id;
use crate::network::peer::Peer;
use crate::network::routing::routing_table::{closest_leaf, gap, RoutingTableView};
use vstd::prelude::*;

verus! {

/// How many digits `a` and `b` share from digit `i` on, before the first that
/// differs.
pub open spec fn common_digits(a: Id, b: Id, i: int) -> nat
    decreases 16 - i,
{
    if i >= 16 || a.digit(i) != b.digit(i) {
        0
    } else {
        1 + common_digits(a, b, i + 1)
    }
}

/// The length of the prefix of digits that `a` and `b` share.
pub open spec fn shared_prefix_len(a: Id, b: Id) -> nat {
    common_digits(a, b, 0)
}

/// Whether `peer` is one that slot `j` of row `i` is there for: it shares the
/// first `i` digits with the node, and its digit `i` is `j`.
pub open spec fn in_place(node_id: Id, i: int, j: int, peer: Peer) -> bool {
    &&& forall|d: int| 0 <= d < i ==> peer.id.digit(d) == node_id.digit(d)
    &&& peer.id.digit(i) == j
}

/// Digits that agree from `i` up to `n` are shared digits.
pub proof fn lemma_common_digits_at_least(a: Id, b: Id, i: int, n: int)
    requires
        0 <= i <= n <= 16,
        forall|d: int| i <= d < n ==> a.digit(d) == b.digit(d),
    ensures
        common_digits(a, b, i) >= n - i,
    decreases n - i,
{
    if i < n {
        lemma_common_digits_at_least(a, b, i + 1, n);
    }
}

/// Digits that agree from `i` up to `n` and differ at `n` are exactly the
/// shared digits.
pub proof fn lemma_common_digits_exact(a: Id, b: Id, i: int, n: int)
    requires
        0 <= i <= n < 16,
        forall|d: int| i <= d < n ==> a.digit(d) == b.digit(d),
        a.digit(n) != b.digit(n),
    ensures
        common_digits(a, b, i) == n - i,
    decreases n - i,
{
    if i < n {
        lemma_common_digits_exact(a, b, i + 1, n);
    }
}

/// What the closest leaf is: a leaf that is closer to the target than the
/// node and no farther than any other leaf; there is none exactly where no
/// leaf is closer than the node.
pub proof fn lemma_closest_leaf(leaves: Seq<Option<Peer>>, node_id: Id, target: Id, n: int)
    requires
        0 <= n <= leaves.len(),
    ensures
        match closest_leaf(leaves, node_id, target, n) {
            Some(p) => {
                &&& gap(p.id, target) < gap(node_id, target)
                &&& exists|k: int| 0 <= k < n && leaves[k] == Some(p)
                &&& forall|j: int|
                    0 <= j < n ==> match #[trigger] leaves[j] {
                        Some(leaf) => gap(p.id, target) <= gap(leaf.id, target),
                        None => true,
                    }
            },
            None => forall|j: int|
                0 <= j < n ==> match #[trigger] leaves[j] {
                    Some(leaf) => gap(leaf.id, target) >= gap(node_id, target),
                    None => true,
                },
        },
    decreases n,
{
    if n > 0 {
        lemma_closest_leaf(leaves, node_id, target, n - 1);
        let before = closest_leaf(leaves, node_id, target, n - 1);
        match closest_leaf(leaves, node_id, target, n) {
            Some(p) => {
                if before == Some(p) {
                    let k = choose|k: int| 0 <= k < n - 1 && leaves[k] == Some(p);
                    assert(0 <= k < n && leaves[k] == Some(p));
                } else {
                    assert(leaves[n - 1] == Some(p));
                }
            },
            None => {},
        }
    }
}

impl RoutingTableView {
    /// The row at which the walk over the rows from row `i` on stops: the
    /// first whose digit of `target` is not the node's own, or 8.
    pub open spec fn stop_row(&self, target: Id, i: int) -> int
        decreases 8 - i,
    {
        if i >= 8 {
            8
        } else if target.digit(i) == self.node_id.digit(i) {
            self.stop_row(target, i + 1)
        } else {
            i
        }
    }

    /// Every occupied slot holds a peer that its row and slot are there for.
    pub open spec fn rows_in_place(&self) -> bool {
        forall|i: int, j: int|
            0 <= i < 8 && 0 <= j < 16 ==> match #[trigger] self.rows[i][j] {
                Some(p) => in_place(self.node_id, i, j, p),
                None => true,
            }
    }

    /// The slot that the long jump reads for `target` is empty, or holds a
    /// peer that the slot is there for, or one that is closer to the target
    /// than the node.
    pub open spec fn long_jump_sound(&self, target: Id) -> bool {
        let i = self.stop_row(target, 0);
        i < 8 ==> match self.rows[i][target.digit(i)] {
            Some(p) => in_place(self.node_id, i, target.digit(i), p) || gap(p.id, target) < gap(
                self.node_id,
                target,
            ),
            None => true,
        }
    }

    /// The walk stops at a row from `i` on, passes only rows whose digit of
    /// the target is the node's own, and finds what the slot of the target's
    /// digit in the row where it stops holds.
    pub proof fn lemma_stop_row(&self, target: Id, i: int)
        requires
            0 <= i <= 8,
        ensures
            i <= self.stop_row(target, i) <= 8,
            forall|d: int|
                i <= d < self.stop_row(target, i) ==> target.digit(d) == self.node_id.digit(d),
            self.stop_row(target, i) < 8 ==> target.digit(self.stop_row(target, i))
                != self.node_id.digit(self.stop_row(target, i)),
            self.long_jump(target, i) == if self.stop_row(target, i) < 8 {
                self.rows[self.stop_row(target, i)][target.digit(self.stop_row(target, i))]
            } else {
                None
            },
        decreases 8 - i,
    {
        if i < 8 && target.digit(i) == self.node_id.digit(i) {
            self.lemma_stop_row(target, i + 1);
        }
    }

    /// Installing a row whose peers are in place at `index` keeps every peer
    /// of the table in place.
    pub proof fn lemma_install_row_in_place(&self, row: Seq<Option<Peer>>, index: int)
        requires
            self.shaped(),
            self.rows_in_place(),
            row.len() == 16,
            forall|j: int|
                0 <= j < 16 ==> match #[trigger] row[j] {
                    Some(p) => in_place(self.node_id, index, j, p),
                    None => true,
                },
        ensures
            self.install_row(row, index).rows_in_place(),
    {
        let after = self.install_row(row, index);
        if 0 <= index < 8 {
            self.node_id.lemma_digits_rebuild_octet(index / 2);
            assert forall|i: int, j: int| 0 <= i < 8 && 0 <= j < 16 implies match #[trigger] after.rows[i][j] {
                Some(p) => in_place(after.node_id, i, j, p),
                None => true,
            } by {
                if i == index {
                    if j != self.node_id.digit(index) {
                        assert(after.rows[i][j] == row[j]);
                    }
                } else {
                    assert(after.rows[i][j] == self.rows[i][j]);
                }
            }
        }
    }

    /// In a well-formed table whose peers are all in place, no peer of row
    /// `i` has the node's own digit `i`, and so no peer of a row or of the
    /// leaves has the node's identifier.
    pub proof fn lemma_no_peer_is_the_node(&self)
        requires
            self.wf(),
            self.rows_in_place(),
        ensures
            forall|i: int, j: int|
                0 <= i < 8 && 0 <= j < 16 ==> match #[trigger] self.rows[i][j] {
                    Some(p) => p.id.digit(i) != self.node_id.digit(i) && p.id != self.node_id,
                    None => true,
                },
            forall|k: int|
                0 <= k < 8 ==> match #[trigger] self.leaves[k] {
                    Some(leaf) => leaf.id != self.node_id,
                    None => true,
                },
    {
        assert forall|i: int, j: int| 0 <= i < 8 && 0 <= j < 16 implies match #[trigger] self.rows[i][j] {
            Some(p) => p.id.digit(i) != self.node_id.digit(i) && p.id != self.node_id,
            None => true,
        } by {
            if self.rows[i][j] is Some {
                let p = self.rows[i][j].unwrap();
                assert(in_place(self.node_id, i, j, p));
                assert(self.rows[i][self.node_id.digit(i)] is None);
            }
        }
    }

    /// A table whose slots all hold peers that they are there for reads a
    /// sound slot for every target.
    pub proof fn lemma_rows_in_place_sound(&self, target: Id)
        requires
            self.rows_in_place(),
        ensures
            self.long_jump_sound(target),
    {
        self.lemma_stop_row(target, 0);
        let i = self.stop_row(target, 0);
        if i < 8 {
            target.lemma_digits_rebuild_octet(i / 2);
            assert(0 <= target.digit(i) < 16);
            assert(self.rows[i][target.digit(i)] is Some ==> in_place(
                self.node_id,
                i,
                target.digit(i),
                self.rows[i][target.digit(i)].unwrap(),
            ));
        }
    }

    /// Every next hop makes progress: it shares a longer prefix with the
    /// target than the node does, or it is closer to the target than the
    /// node is.
    pub proof fn lemma_route_progress(&self, target: Id)
        requires
            self.shaped(),
            self.long_jump_sound(target),
        ensures
            match self.route(target) {
                Some(p) => shared_prefix_len(p.id, target) > shared_prefix_len(
                    self.node_id,
                    target,
                ) || gap(p.id, target) < gap(self.node_id, target),
                None => true,
            },
    {
        self.lemma_stop_row(target, 0);
        let i = self.stop_row(target, 0);
        match self.long_jump(target, 0) {
            Some(p) => {
                lemma_common_digits_exact(self.node_id, target, 0, i);
                if in_place(self.node_id, i, target.digit(i), p) {
                    lemma_common_digits_at_least(p.id, target, 0, i + 1);
                }
            },
            None => {
                lemma_closest_leaf(self.leaves, self.node_id, target, 8);
            },
        }
    }

    /// With no peer in any row, routing ends at this node exactly where no
    /// leaf is closer to the target than the node is.
    pub proof fn lemma_terminal(&self, target: Id)
        requires
            self.shaped(),
            forall|i: int, j: int| 0 <= i < 8 && 0 <= j < 16 ==> self.rows[i][j] is None,
        ensures
            self.route(target) is None <==> forall|k: int|
                0 <= k < 8 ==> match #[trigger] self.leaves[k] {
                    Some(leaf) => !(gap(leaf.id, target) < gap(self.node_id, target)),
                    None => true,
                },
    {
        self.lemma_stop_row(target, 0);
        let i = self.stop_row(target, 0);
        if i < 8 {
            target.lemma_digits_rebuild_octet(i / 2);
            assert(self.rows[i][target.digit(i)] is None);
        }
        lemma_closest_leaf(self.leaves, self.node_id, target, 8);
        match self.route(target) {
            Some(p) => {
                let k = choose|k: int| 0 <= k < 8 && self.leaves[k] == Some(p);
                assert(self.leaves[k] is Some);
            },
            None => {},
        }
    }

    /// The node itself is routed nowhere: it is the closest node to its own
    /// identifier.
    pub proof fn lemma_route_to_self(&self)
        ensures
            self.route(self.node_id) is None,
    {
        self.lemma_stop_row(self.node_id, 0);
        self.lemma_no_leaf_before_self(8);
    }

    /// No leaf among the first `n` is closer to the node's identifier than
    /// the node.
    proof fn lemma_no_leaf_before_self(&self, n: int)
        requires
            0 <= n,
        ensures
            closest_leaf(self.leaves, self.node_id, self.node_id, n) is None,
        decreases n,
    {
        if n > 0 {
            self.lemma_no_leaf_before_self(n - 1);
        }
    }

    /// A table without peers routes every target nowhere.
    pub proof fn lemma_empty_routes_nowhere(node_id: Id, target: Id)
        ensures
            RoutingTableView::empty(node_id).route(target) is None,
    {
        let table = RoutingTableView::empty(node_id);
        table.lemma_terminal(target);
    }
}

} // verus!
