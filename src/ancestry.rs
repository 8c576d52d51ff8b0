use vstd::prelude::*;

verus! {

/// The identifier an ancestry table gives to "no node".
pub const NULL_NODE: i32 = -1;

/// A record that `child` inherited the genomic interval `[left, right)` from
/// `parent`. Positions are whole units of the genome.
#[derive(Clone, Copy, Debug, PartialEq, Eq, Structural)]
pub struct EdgeRecord {
    pub left: u64,
    pub right: u64,
    pub parent: i32,
    pub child: i32,
}

/// The interval of `e` lies inside a genome of length `genome_length` and is
/// not empty.
pub open spec fn edge_in_genome(e: EdgeRecord, genome_length: nat) -> bool {
    e.left < e.right && e.right <= genome_length
}

/// Nodes and edges waiting to be appended to an ancestry table. The table hands
/// out node identifiers in order, so the `k`th pending node will get the
/// identifier `first_node + k`.
pub struct Pending {
    pub first_node: i32,
    pub node_times: Vec<u32>,
    pub edges: Vec<EdgeRecord>,
}

impl Pending {
    /// The identifier the next added node will get.
    pub open spec fn next_id(&self) -> int {
        self.first_node + self.node_times@.len()
    }

    /// An empty batch for a table that holds `first_node` nodes.
    pub fn new(first_node: i32) -> (r: Pending)
        requires
            0 <= first_node,
        ensures
            r.first_node == first_node,
            r.node_times@.len() == 0,
            r.edges@.len() == 0,
    {
        Pending { first_node, node_times: Vec::new(), edges: Vec::new() }
    }

    /// The identifier the next added node will get.
    pub fn next_node_id(&self) -> (r: i32)
        requires
            self.next_id() <= i32::MAX,
        ensures
            r == self.next_id(),
    {
        (self.first_node as i64 + self.node_times.len() as i64) as i32
    }

    /// Issue a new node born at `time` and return its identifier.
    pub fn add_node(&mut self, time: u32) -> (r: i32)
        requires
            old(self).next_id() < i32::MAX,
        ensures
            r == old(self).next_id(),
            final(self).first_node == old(self).first_node,
            final(self).node_times@ == old(self).node_times@.push(time),
            final(self).edges@ == old(self).edges@,
    {
        let id = self.next_node_id();
        self.node_times.push(time);
        id
    }

    /// Record that `child` inherited `[left, right)` from `parent`.
    pub fn add_edge(&mut self, left: u64, right: u64, parent: i32, child: i32)
        ensures
            final(self).first_node == old(self).first_node,
            final(self).node_times@ == old(self).node_times@,
            final(self).edges@ == old(self).edges@.push(EdgeRecord { left, right, parent, child }),
    {
        self.edges.push(EdgeRecord { left, right, parent, child });
    }
}

} // verus!
