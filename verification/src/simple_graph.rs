use vstd::prelude::*;

verus! {

use vstd::pervasive::cloned;

/// Opaque struct which represents a node in the graph.
///
/// A node handle wraps the dense index of the node's slot. Handles are
/// stable for the lifetime of the container: the same handle always
/// addresses the same logical slot, even after that slot is emptied.
#[derive(Debug, Clone, Copy, PartialEq, Eq, Structural)]
pub struct NodeID(usize);

/// Opaque struct which represents an edge in the graph.
///
/// An edge handle wraps the ordered pair `(source, destination)` of node
/// indices addressing one cell of the adjacency matrix.
#[derive(Debug, Clone, Copy, PartialEq, Eq, Structural)]
pub struct EdgeID(usize, usize);

impl NodeID {
    /// The node-slot index this handle addresses.
    pub closed spec fn index(self) -> int {
        self.0 as int
    }
}

impl EdgeID {
    /// The source-node index of the matrix cell this handle addresses.
    pub closed spec fn src(self) -> int {
        self.0 as int
    }

    /// The destination-node index of the matrix cell this handle addresses.
    pub closed spec fn dst(self) -> int {
        self.1 as int
    }
}

/// Two node handles are equal exactly when they address the same slot.
pub proof fn lemma_node_id_eq(x: NodeID, y: NodeID)
    ensures
        (x == y) <==> (x.index() == y.index()),
{
}

/// Two edge handles are equal exactly when they address the same matrix
/// cell, i.e. agree on both source and destination index.
pub proof fn lemma_edge_id_eq(x: EdgeID, y: EdgeID)
    ensures
        (x == y) <==> (x.src() == y.src() && x.dst() == y.dst()),
{
}

/// A simple directed graph implementation.
///
/// - Nodes are represented with `Vec<Option<N>>`: a slot holds a payload
///   or is empty (tombstoned after removal, index never reused).
///
/// - Edges are represented with `Vec<Vec<Option<E>>>`: a sparse adjacency
///   matrix where cell `(a, b)` holds the payload, if any, of the directed
///   edge from node `a` to node `b`. Rows grow on demand and are never
///   shrunk or compacted.
///
/// - All IDs are opaque data structures issued by the container itself.
#[derive(Clone, Debug)]
pub struct SimpleGraph<N, E> {
    nodes: Vec<Option<N>>,
    edges: Vec<Vec<Option<E>>>,
}

impl<N, E> SimpleGraph<N, E> {
    /// How many node slots have ever been created (occupied or emptied).
    pub closed spec fn node_count(self) -> nat {
        self.nodes@.len()
    }

    /// The contents of node slot `i`: the payload if the slot is occupied,
    /// `None` if the slot is empty or was never created.
    pub closed spec fn node_at(self, i: int) -> Option<N> {
        if 0 <= i < self.nodes@.len() {
            self.nodes@[i]
        } else {
            None
        }
    }

    /// The contents of matrix cell `(a, b)`: the payload of the edge from
    /// node `a` to node `b`, or `None` if there is no such edge. A cell
    /// the matrix has not physically grown to yet is empty.
    pub closed spec fn edge_at(self, a: int, b: int) -> Option<E> {
        if 0 <= a < self.edges@.len() && 0 <= b < self.edges@[a]@.len() {
            self.edges@[a]@[b]
        } else {
            None
        }
    }

    /// Both containers hold exactly the same node slots.
    pub open spec fn same_nodes(pre: Self, post: Self) -> bool {
        &&& post.node_count() == pre.node_count()
        &&& forall|i: int| post.node_at(i) == pre.node_at(i)
    }

    /// Both containers hold exactly the same edge cells.
    pub open spec fn same_edges(pre: Self, post: Self) -> bool {
        forall|a: int, b: int| post.edge_at(a, b) == pre.edge_at(a, b)
    }

    /// `post` is `pre` with a fresh occupied node slot holding `data`,
    /// addressed by `id`; everything else is untouched.
    pub open spec fn node_added(pre: Self, post: Self, data: N, id: NodeID) -> bool {
        &&& id.index() == pre.node_count()
        &&& post.node_count() == pre.node_count() + 1
        &&& post.node_at(id.index()) == Some(data)
        &&& forall|i: int| i != id.index() ==> post.node_at(i) == pre.node_at(i)
        &&& Self::same_edges(pre, post)
    }

    /// `post` is `pre` with `data` written into matrix cell `(a, b)`,
    /// overwriting whatever was there; every other cell and every node
    /// slot is untouched.
    pub open spec fn edge_written(pre: Self, post: Self, a: int, b: int, data: E) -> bool {
        &&& post.edge_at(a, b) == Some(data)
        &&& forall|i: int, j: int| !(i == a && j == b) ==> post.edge_at(i, j) == pre.edge_at(i, j)
        &&& Self::same_nodes(pre, post)
    }

    /// `post` is `pre` with node slot `idx` emptied; everything else is
    /// untouched.
    pub open spec fn node_removed(pre: Self, post: Self, idx: int) -> bool {
        &&& post.node_at(idx) is None
        &&& post.node_count() == pre.node_count()
        &&& forall|i: int| i != idx ==> post.node_at(i) == pre.node_at(i)
        &&& Self::same_edges(pre, post)
    }

    /// `post` is `pre` with matrix cell `(a, b)` emptied; everything else
    /// is untouched.
    pub open spec fn edge_removed(pre: Self, post: Self, a: int, b: int) -> bool {
        &&& post.edge_at(a, b) is None
        &&& forall|i: int, j: int| !(i == a && j == b) ==> post.edge_at(i, j) == pre.edge_at(i, j)
        &&& Self::same_nodes(pre, post)
    }

    /// No edge cell mentions node index `idx` as source or destination.
    pub open spec fn no_incident_edges(self, idx: int) -> bool {
        &&& forall|j: int| self.edge_at(idx, j) is None
        &&& forall|i: int| self.edge_at(i, idx) is None
    }

    /// Creates an empty graph: no node slots, no matrix cells.
    pub fn new() -> (g: Self)
        ensures
            g.node_count() == 0,
            forall|i: int| g.node_at(i) is None,
            forall|a: int, b: int| g.edge_at(a, b) is None,
    {
        Self { nodes: Vec::new(), edges: Vec::new() }
    }

    /// Appends a new occupied slot holding `data` and returns its handle.
    ///
    /// Identical data added twice will return different node IDs: identity
    /// is positional, not value-based. Always succeeds.
    pub fn add_node(&mut self, data: N) -> (id: NodeID)
        ensures
            Self::node_added(*old(self), *final(self), data, id),
    {
        self.nodes.push(Some(data));
        NodeID(self.nodes.len() - 1)
    }

    /// Writes `data` into matrix cell `(a, b)`, unconditionally
    /// overwriting any prior payload there, and returns a handle
    /// addressing that ordered pair.
    ///
    /// The matrix is grown as needed so that the cell exists: the row
    /// count is raised to at least `max(a, b) + 1` (new rows empty) and
    /// row `a` is lengthened to at least `b + 1` columns (new cells
    /// empty). `E: Clone` is needed only to duplicate the empty filler
    /// during growth, never to duplicate the stored payload.
    ///
    /// The handles are trusted to reference nodes of this graph; no
    /// existence check is performed. The index bounds below are forced by
    /// the machine alone: the new row count `max(a, b) + 1` must fit in
    /// `usize`.
    pub fn add_edge(&mut self, a: NodeID, b: NodeID, data: E) -> (id: EdgeID) where
        E: Clone,

        requires
            a.index() < usize::MAX,
            b.index() < usize::MAX,
        ensures
            id.src() == a.index(),
            id.dst() == b.index(),
            Self::edge_written(*old(self), *final(self), a.index(), b.index(), data),
    {
        let (ai, bi): (usize, usize) = (a.0, b.0);

        let max_id: usize = if ai > bi {
            ai
        } else {
            bi
        };

        // Make sure that the vectors are large enough to contain the node IDs
        if self.edges.len() <= max_id {
            let filler: Vec<Option<E>> = Vec::new();
            let ghost pre = self.edges@;
            self.edges.resize(max_id + 1, filler);
            proof {
                assert forall|i: int| pre.len() <= i < self.edges@.len() implies self.edges@[i]@
                    =~= Seq::<Option<E>>::empty() by {
                    assert(cloned::<Vec<Option<E>>>(filler, self.edges@[i]));
                }
            }
        }
        if self.edges[ai].len() <= bi {
            let row = &mut self.edges[ai];
            let ghost pre_row = row@;
            row.resize(bi + 1, None);
            proof {
                assert forall|j: int| pre_row.len() <= j < row@.len() implies row@[j] is None by {
                    assert(cloned::<Option<E>>(None::<E>, row@[j]));
                }
            }
        }
        let row = &mut self.edges[ai];
        let slot = &mut row[bi];
        *slot = Some(data);
        EdgeID(ai, bi)
    }

    /// Read-only access to the payload of the node slot `id` addresses.
    ///
    /// Accessing an empty or never-created slot is a contract violation,
    /// excluded here by precondition; `try_node` is the checked variant.
    pub fn node(&self, id: NodeID) -> (data: &N)
        requires
            self.node_at(id.index()) is Some,
        ensures
            Some(*data) == self.node_at(id.index()),
    {
        self.nodes[id.0].as_ref().unwrap()
    }

    /// Checked variant of `node`: the payload of the slot `id` addresses,
    /// or `None` when that slot is empty or out of range.
    pub fn try_node(&self, id: NodeID) -> (r: Option<&N>)
        ensures
            r is Some <==> self.node_at(id.index()) is Some,
            r is Some ==> Some(*r.unwrap()) == self.node_at(id.index()),
    {
        if id.0 < self.nodes.len() {
            self.nodes[id.0].as_ref()
        } else {
            None
        }
    }

    /// Exclusive mutable access to the payload of the node slot `id`
    /// addresses. Only that slot can change through the returned
    /// reference; the slot stays occupied.
    ///
    /// Accessing an empty or never-created slot is a contract violation,
    /// excluded here by precondition.
    pub fn node_mut(&mut self, id: NodeID) -> (data: &mut N)
        requires
            old(self).node_at(id.index()) is Some,
        ensures
            Some(*data) == old(self).node_at(id.index()),
            final(self).node_at(id.index()) == Some(*final(data)),
            final(self).node_count() == old(self).node_count(),
            forall|i: int| i != id.index() ==> final(self).node_at(i) == old(self).node_at(i),
            Self::same_edges(*old(self), *final(self)),
    {
        let slot = &mut self.nodes[id.0];
        slot.as_mut().unwrap()
    }

    /// Read-only access to the payload of the edge cell `id` addresses.
    ///
    /// Accessing an empty or never-created cell is a contract violation,
    /// excluded here by precondition; `try_edge` is the checked variant.
    pub fn edge(&self, id: EdgeID) -> (data: &E)
        requires
            self.edge_at(id.src(), id.dst()) is Some,
        ensures
            Some(*data) == self.edge_at(id.src(), id.dst()),
    {
        self.edges[id.0][id.1].as_ref().unwrap()
    }

    /// Checked variant of `edge`: the payload of the cell `id` addresses,
    /// or `None` when that cell is empty or out of range.
    pub fn try_edge(&self, id: EdgeID) -> (r: Option<&E>)
        ensures
            r is Some <==> self.edge_at(id.src(), id.dst()) is Some,
            r is Some ==> Some(*r.unwrap()) == self.edge_at(id.src(), id.dst()),
    {
        if id.0 < self.edges.len() && id.1 < self.edges[id.0].len() {
            self.edges[id.0][id.1].as_ref()
        } else {
            None
        }
    }

    /// Exclusive mutable access to the payload of the edge cell `id`
    /// addresses. Only that cell can change through the returned
    /// reference; the cell stays occupied.
    ///
    /// Accessing an empty or never-created cell is a contract violation,
    /// excluded here by precondition.
    pub fn edge_mut(&mut self, id: EdgeID) -> (data: &mut E)
        requires
            old(self).edge_at(id.src(), id.dst()) is Some,
        ensures
            Some(*data) == old(self).edge_at(id.src(), id.dst()),
            final(self).edge_at(id.src(), id.dst()) == Some(*final(data)),
            forall|i: int, j: int|
                !(i == id.src() && j == id.dst()) ==> final(self).edge_at(i, j) == old(self).edge_at(
                    i,
                    j,
                ),
            Self::same_nodes(*old(self), *final(self)),
    {
        let row = &mut self.edges[id.0];
        let slot = &mut row[id.1];
        slot.as_mut().unwrap()
    }

    /// Empties the edge cell `id` addresses and returns the payload it
    /// held. No precondition on node state; removing an already-empty or
    /// never-created cell is a contract violation, excluded here by
    /// precondition. `try_remove_edge` is the checked variant.
    pub fn remove_edge(&mut self, id: EdgeID) -> (data: E)
        requires
            old(self).edge_at(id.src(), id.dst()) is Some,
        ensures
            Some(data) == old(self).edge_at(id.src(), id.dst()),
            Self::edge_removed(*old(self), *final(self), id.src(), id.dst()),
    {
        let row = &mut self.edges[id.0];
        let slot = &mut row[id.1];
        slot.take().unwrap()
    }

    /// Empties the node slot `id` addresses and returns the payload it
    /// held. The slot's index is never reused: later `add_node` calls
    /// keep appending past it.
    ///
    /// Preconditions, whose violation is a contract violation: the slot
    /// is occupied, and no edge cell mentions the node as source or
    /// destination (dangling-edge prevention). `try_remove_node` is the
    /// checked variant.
    pub fn remove_node(&mut self, id: NodeID) -> (data: N)
        requires
            old(self).node_at(id.index()) is Some,
            old(self).no_incident_edges(id.index()),
        ensures
            Some(data) == old(self).node_at(id.index()),
            Self::node_removed(*old(self), *final(self), id.index()),
    {
        let slot = &mut self.nodes[id.0];
        slot.take().unwrap()
    }

    /// Checked variant of `remove_edge`: empties the cell `id` addresses
    /// and returns its payload, or returns `None`, leaving the graph
    /// unchanged, when that cell is empty or out of range.
    pub fn try_remove_edge(&mut self, id: EdgeID) -> (r: Option<E>)
        ensures
            r is Some <==> old(self).edge_at(id.src(), id.dst()) is Some,
            r is Some ==> r == old(self).edge_at(id.src(), id.dst()) && Self::edge_removed(
                *old(self),
                *final(self),
                id.src(),
                id.dst(),
            ),
            r is None ==> Self::same_nodes(*old(self), *final(self)) && Self::same_edges(
                *old(self),
                *final(self),
            ),
    {
        if id.0 < self.edges.len() {
            let row = &mut self.edges[id.0];
            if id.1 < row.len() {
                let slot = &mut row[id.1];
                return slot.take();
            }
        }
        None
    }

    /// Checked variant of `remove_node`: empties the slot `id` addresses
    /// and returns its payload, or returns `None`, leaving the graph
    /// unchanged, when the slot is empty, out of range, or still has an
    /// occupied incident edge cell (as source or as destination).
    pub fn try_remove_node(&mut self, id: NodeID) -> (r: Option<N>)
        ensures
            r is Some <==> (old(self).node_at(id.index()) is Some && old(self).no_incident_edges(
                id.index(),
            )),
            r is Some ==> r == old(self).node_at(id.index()) && Self::node_removed(
                *old(self),
                *final(self),
                id.index(),
            ),
            r is None ==> Self::same_nodes(*old(self), *final(self)) && Self::same_edges(
                *old(self),
                *final(self),
            ),
    {
        let idx = id.0;
        if idx >= self.nodes.len() {
            return None;
        }
        if self.nodes[idx].is_none() {
            return None;
        }
        // Reject while any cell of the node's outgoing row is occupied.
        if idx < self.edges.len() {
            let row = &self.edges[idx];
            let mut j: usize = 0;
            while j < row.len()
                invariant
                    *self == *old(self),
                    idx as int == id.index(),
                    idx < self.edges@.len(),
                    row == self.edges@[idx as int],
                    j <= row@.len(),
                    forall|jj: int| 0 <= jj < j ==> self.edge_at(idx as int, jj) is None,
                decreases row@.len() - j,
            {
                if row[j].is_some() {
                    proof {
                        assert(old(self).edge_at(id.index(), j as int) is Some);
                    }
                    return None;
                }
                j += 1;
            }
        }
        // Reject while any cell of the node's incoming column is occupied.
        let mut i: usize = 0;
        while i < self.edges.len()
            invariant
                *self == *old(self),
                idx as int == id.index(),
                idx < self.nodes@.len(),
                self.nodes@[idx as int] is Some,
                i <= self.edges@.len(),
                forall|ii: int| 0 <= ii < i ==> self.edge_at(ii, idx as int) is None,
            decreases self.edges@.len() - i,
        {
            let row_i = &self.edges[i];
            if idx < row_i.len() && row_i[idx].is_some() {
                proof {
                    assert(old(self).edge_at(i as int, id.index()) is Some);
                }
                return None;
            }
            i += 1;
        }
        let slot = &mut self.nodes[idx];
        slot.take()
    }

    /// `out` lists exactly the occupied cells of matrix row `idx`, as
    /// edge handles with source `idx`, in strictly ascending
    /// destination-index order.
    pub open spec fn edges_from_listing(self, idx: int, out: Seq<EdgeID>) -> bool {
        &&& forall|k: int|
            0 <= k < out.len() ==> (#[trigger] out[k]).src() == idx && self.edge_at(
                idx,
                out[k].dst(),
            ) is Some
        &&& forall|k1: int, k2: int| 0 <= k1 < k2 < out.len() ==> out[k1].dst() < out[k2].dst()
        &&& forall|j: int|
            self.edge_at(idx, j) is Some ==> exists|k: int|
                0 <= k < out.len() && (#[trigger] out[k]).dst() == j
    }

    /// Scans the node's matrix row in ascending destination-index order
    /// and returns a handle for every occupied cell, skipping empty ones.
    ///
    /// A node index beyond the current row count (a node no edge has ever
    /// mentioned) yields an empty sequence; unlike the accessors, this
    /// operation has no fatal case.
    pub fn edges_from(&self, id: NodeID) -> (out: Vec<EdgeID>)
        ensures
            self.edges_from_listing(id.index(), out@),
    {
        let idx = id.0;
        let mut out: Vec<EdgeID> = Vec::new();
        if idx >= self.edges.len() {
            return out;
        }
        let row = &self.edges[idx];
        let mut j: usize = 0;
        while j < row.len()
            invariant
                idx < self.edges@.len(),
                row == self.edges@[idx as int],
                j <= row@.len(),
                forall|k: int|
                    0 <= k < out@.len() ==> (#[trigger] out@[k]).src() == idx
                        && self.edge_at(idx as int, out@[k].dst()) is Some && out@[k].dst()
                        < j,
                forall|k1: int, k2: int|
                    0 <= k1 < k2 < out@.len() ==> out@[k1].dst() < out@[k2].dst(),
                forall|jj: int|
                    0 <= jj < j && self.edge_at(idx as int, jj) is Some ==> exists|k: int|
                        0 <= k < out@.len() && (#[trigger] out@[k]).dst() == jj,
            decreases row@.len() - j,
        {
            if row[j].is_some() {
                let ghost pre = out@;
                out.push(EdgeID(idx, j));
                proof {
                    assert(out@ == pre.push(EdgeID(idx, j)));
                    assert(out@[pre.len() as int].dst() == j);
                    assert(forall|k: int| 0 <= k < pre.len() ==> out@[k] == pre[k]);
                }
            }
            j += 1;
        }
        out
    }

    /// Pure projection: the destination node handle encoded in an edge
    /// handle. No storage access, cannot fail.
    pub fn edge_to(&self, id: EdgeID) -> (n: NodeID)
        ensures
            n.index() == id.dst(),
    {
        NodeID(id.1)
    }

    /// Pure projection: the source node handle encoded in an edge handle.
    /// No storage access, cannot fail.
    pub fn edge_from(&self, id: EdgeID) -> (n: NodeID)
        ensures
            n.index() == id.src(),
    {
        NodeID(id.0)
    }

    /// Pure projection: both endpoints of an edge handle, source first.
    pub fn edge_endpoints(&self, id: EdgeID) -> (p: (NodeID, NodeID))
        ensures
            p.0.index() == id.src(),
            p.1.index() == id.dst(),
    {
        (self.edge_from(id), self.edge_to(id))
    }

    /// Law: after `add_node(data)` returns `id`, the slot `id` addresses
    /// holds exactly `data`, so `node(id)` is enabled and must return a
    /// value equal to `data`.
    pub proof fn lemma_add_node_then_node(pre: Self, post: Self, data: N, id: NodeID)
        requires
            Self::node_added(pre, post, data, id),
        ensures
            post.node_at(id.index()) == Some(data),
    {
    }

    /// Law: writing an edge at the pair `(a, b)` twice leaves exactly one
    /// edge there, holding the second payload, and the two calls return
    /// handles equal in value; every other cell and every node slot ends
    /// as it began.
    pub proof fn lemma_add_edge_overwrites(
        g0: Self,
        g1: Self,
        g2: Self,
        a: NodeID,
        b: NodeID,
        e1: E,
        e2: E,
        id1: EdgeID,
        id2: EdgeID,
    )
        requires
            id1.src() == a.index() && id1.dst() == b.index(),
            Self::edge_written(g0, g1, a.index(), b.index(), e1),
            id2.src() == a.index() && id2.dst() == b.index(),
            Self::edge_written(g1, g2, a.index(), b.index(), e2),
        ensures
            id2 == id1,
            g2.edge_at(a.index(), b.index()) == Some(e2),
            forall|i: int, j: int|
                !(i == a.index() && j == b.index()) ==> g2.edge_at(i, j) == g0.edge_at(i, j),
            Self::same_nodes(g0, g2),
    {
        lemma_edge_id_eq(id1, id2);
    }

    /// Law: a listing of a node's outgoing edges presents two occupied
    /// destinations in ascending order: with both cells `(a, b)` and
    /// `(a, c)` occupied and `b < c`, the handle for `b` stands strictly
    /// before the handle for `c`.
    pub proof fn lemma_edges_from_ordered(g: Self, a: int, b: int, c: int, out: Seq<EdgeID>)
        requires
            g.edges_from_listing(a, out),
            g.edge_at(a, b) is Some,
            g.edge_at(a, c) is Some,
            b < c,
        ensures
            exists|k1: int, k2: int|
                0 <= k1 < k2 < out.len() && (#[trigger] out[k1]).dst() == b && (#[trigger] out[k2]).dst()
                    == c,
    {
        let k1 = choose|k: int| 0 <= k < out.len() && (#[trigger] out[k]).dst() == b;
        let k2 = choose|k: int| 0 <= k < out.len() && (#[trigger] out[k]).dst() == c;
        assert(out[k1].dst() == b && out[k2].dst() == c);
        if k2 < k1 {
            assert(out[k2].dst() < out[k1].dst());
            assert(false);
        }
        assert(k1 < k2);
    }

    /// Law: a listing of the outgoing edges of a node none of whose
    /// outgoing cells is occupied is empty; a node the matrix has never
    /// grown to is such a node.
    pub proof fn lemma_edges_from_none(g: Self, a: int, out: Seq<EdgeID>)
        requires
            g.edges_from_listing(a, out),
            forall|j: int| g.edge_at(a, j) is None,
        ensures
            out.len() == 0,
    {
        if out.len() > 0 {
            assert(g.edge_at(a, out[0].dst()) is Some);
            assert(false);
        }
    }

    /// Law: after the edge cell an edge handle addresses is emptied, a
    /// listing of the source node's outgoing edges no longer includes
    /// that handle.
    pub proof fn lemma_remove_edge_excludes(pre: Self, post: Self, id: EdgeID, out: Seq<EdgeID>)
        requires
            Self::edge_removed(pre, post, id.src(), id.dst()),
            post.edges_from_listing(id.src(), out),
        ensures
            forall|k: int| 0 <= k < out.len() ==> (#[trigger] out[k]) != id,
    {
        assert forall|k: int| 0 <= k < out.len() implies (#[trigger] out[k]) != id by {
            if out[k] == id {
                assert(post.edge_at(id.src(), out[k].dst()) is Some);
                assert(post.edge_at(id.src(), id.dst()) is None);
            }
        }
    }

    /// Law: after a node slot is emptied, that slot holds nothing: the
    /// handle that addressed it no longer enables `node`, `node_mut` or a
    /// second removal, while every other slot is as it was.
    pub proof fn lemma_remove_node_tombstones(pre: Self, post: Self, id: NodeID)
        requires
            Self::node_removed(pre, post, id.index()),
        ensures
            post.node_at(id.index()) is None,
            post.node_count() == pre.node_count(),
            forall|i: int| i != id.index() ==> post.node_at(i) == pre.node_at(i),
    {
    }
}

} // verus!
