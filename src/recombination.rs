use vstd::prelude::*;

use crate::ancestry::{edge_in_genome, EdgeRecord, Pending};
use crate::diploid::{Diploid, Parents, SimParams};
use crate::rng::fair_coin;

verus! {

/// The edges that give `child` the genome `[pos, len)` from a parent whose two
/// copies are `first` and `second`, `first` being the copy read at `pos`.
/// `gaps` are the distances between successive crossovers: each one that ends
/// before `len` closes a span and switches copies; the first that reaches `len`,
/// or the end of `gaps`, closes the last span at `len`. A gap of zero switches
/// copies without a span.
pub open spec fn mosaic(
    gaps: Seq<u64>,
    pos: nat,
    len: nat,
    first: i32,
    second: i32,
    child: i32,
) -> Seq<EdgeRecord>
    decreases gaps.len(),
{
    if gaps.len() == 0 || pos + gaps[0] >= len {
        seq![EdgeRecord { left: pos as u64, right: len as u64, parent: first, child }]
    } else if gaps[0] == 0 {
        mosaic(gaps.drop_first(), pos, len, second, first, child)
    } else {
        seq![EdgeRecord { left: pos as u64, right: (pos + gaps[0]) as u64, parent: first, child }]
            + mosaic(gaps.drop_first(), (pos + gaps[0]) as nat, len, second, first, child)
    }
}

/// The edges of a mosaic cover `[pos, len)` from left to right without gaps or
/// overlaps, each inside the genome, each for `child` and from one of the two
/// copies.
pub proof fn lemma_mosaic_tiles(
    gaps: Seq<u64>,
    pos: nat,
    len: nat,
    first: i32,
    second: i32,
    child: i32,
)
    requires
        pos < len <= u64::MAX,
    ensures
        ({
            let m = mosaic(gaps, pos, len, first, second, child);
            &&& m.len() >= 1
            &&& m[0].left == pos
            &&& m[m.len() - 1].right == len
            &&& forall|k: int| 0 <= k < m.len() ==> edge_in_genome(#[trigger] m[k], len)
            &&& forall|k: int| 0 <= k < m.len() ==> m[k].child == child
            &&& forall|k: int|
                0 <= k < m.len() ==> (#[trigger] m[k].parent == first || m[k].parent == second)
            &&& forall|k: int| 0 <= k < m.len() - 1 ==> #[trigger] m[k].right == m[k + 1].left
        }),
    decreases gaps.len(),
{
    if gaps.len() == 0 || pos + gaps[0] >= len {
    } else if gaps[0] == 0 {
        lemma_mosaic_tiles(gaps.drop_first(), pos, len, second, first, child);
    } else {
        let rest = mosaic(gaps.drop_first(), (pos + gaps[0]) as nat, len, second, first, child);
        lemma_mosaic_tiles(gaps.drop_first(), (pos + gaps[0]) as nat, len, second, first, child);
        let head = EdgeRecord {
            left: pos as u64,
            right: (pos + gaps[0]) as u64,
            parent: first,
            child,
        };
        let m = seq![head] + rest;
        assert(mosaic(gaps, pos, len, first, second, child) == m);
        assert forall|k: int| 0 <= k < m.len() - 1 implies #[trigger] m[k].right == m[k + 1].left by {
            if k > 0 {
                assert(m[k] == rest[k - 1]);
                assert(m[k + 1] == rest[k]);
            }
        }
        assert forall|k: int| 0 <= k < m.len() implies edge_in_genome(#[trigger] m[k], len) by {
            if k > 0 {
                assert(m[k] == rest[k - 1]);
            }
        }
        assert forall|k: int| 0 <= k < m.len() implies (#[trigger] m[k].parent == first
            || m[k].parent == second) by {
            if k > 0 {
                assert(m[k] == rest[k - 1]);
            }
        }
    }
}

/// With probability one half, exchange the two copies of a parent's genome.
fn mendel(pnodes: &mut (i32, i32), rng: &mut rand::rngs::StdRng)
    ensures
        *final(pnodes) == *old(pnodes) || *final(pnodes) == (old(pnodes).1, old(pnodes).0),
{
    if fair_coin(rng) {
        let t = pnodes.0;
        pnodes.0 = pnodes.1;
        pnodes.1 = t;
    }
}

/// The mosaic `child` inherits from `parent`: read from `node1` first when
/// `swapped`, else from `node0` first.
pub open spec fn parent_mosaic(
    parent: Diploid,
    gaps: Seq<u64>,
    len: nat,
    child: i32,
    swapped: bool,
) -> Seq<EdgeRecord> {
    if swapped {
        mosaic(gaps, 0, len, parent.node1, parent.node0, child)
    } else {
        mosaic(gaps, 0, len, parent.node0, parent.node1, child)
    }
}

/// Record in `pending` the edges by which `offspring_node` inherits the genome
/// from `parent`. A fair coin picks the copy read first; `gaps` are the
/// distances between crossovers, and no gaps give one edge over the whole
/// genome.
pub fn crossover_and_record_edges_details(
    parent: Diploid,
    offspring_node: i32,
    gaps: &Vec<u64>,
    params: &SimParams,
    pending: &mut Pending,
    rng: &mut rand::rngs::StdRng,
) -> (swapped: bool)
    requires
        0 < params.genome_length,
    ensures
        final(pending).first_node == old(pending).first_node,
        final(pending).node_times@ == old(pending).node_times@,
        final(pending).edges@ == old(pending).edges@ + parent_mosaic(
            parent,
            gaps@,
            params.genome_length as nat,
            offspring_node,
            swapped,
        ),
{
    let genome_length = params.genome_length;
    let mut pnodes = (parent.node0, parent.node1);
    mendel(&mut pnodes, rng);
    let swapped = pnodes.0 != parent.node0 || pnodes.1 != parent.node1;
    let ghost start = pending.edges@;
    let ghost whole = mosaic(gaps@, 0, genome_length as nat, pnodes.0, pnodes.1, offspring_node);
    assert(whole == parent_mosaic(parent, gaps@, genome_length as nat, offspring_node, swapped));
    let mut pos: u64 = 0;
    let mut k: usize = 0;
    assert(gaps@.skip(0) == gaps@);
    while k < gaps.len() && gaps[k] < genome_length - pos
        invariant
            k <= gaps@.len(),
            pos < genome_length,
            pending.first_node == old(pending).first_node,
            pending.node_times@ == old(pending).node_times@,
            pending.edges@ + mosaic(
                gaps@.skip(k as int),
                pos as nat,
                genome_length as nat,
                pnodes.0,
                pnodes.1,
                offspring_node,
            ) == start + whole,
        decreases gaps@.len() - k,
    {
        let gap = gaps[k];
        let ghost rest = gaps@.skip(k as int);
        assert(rest.drop_first() == gaps@.skip(k + 1));
        if gap > 0 {
            pending.add_edge(pos, pos + gap, pnodes.0, offspring_node);
            pos = pos + gap;
        }
        let t = pnodes.0;
        pnodes.0 = pnodes.1;
        pnodes.1 = t;
        k = k + 1;
    }
    pending.add_edge(pos, genome_length, pnodes.0, offspring_node);
    assert(pending.edges@ == start + whole);
    swapped
}

/// Record the edges of both offspring copies of one death: the first copy is
/// inherited from `parents.parent0` across `gaps0`, the second from
/// `parents.parent1` across `gaps1`.
pub fn crossover_and_record_edges(
    parents: &Parents,
    offspring_nodes: (i32, i32),
    gaps0: &Vec<u64>,
    gaps1: &Vec<u64>,
    params: &SimParams,
    pending: &mut Pending,
    rng: &mut rand::rngs::StdRng,
) -> (swaps: (bool, bool))
    requires
        0 < params.genome_length,
    ensures
        final(pending).first_node == old(pending).first_node,
        final(pending).node_times@ == old(pending).node_times@,
        final(pending).edges@ == old(pending).edges@ + parent_mosaic(
            parents.parent0,
            gaps0@,
            params.genome_length as nat,
            offspring_nodes.0,
            swaps.0,
        ) + parent_mosaic(
            parents.parent1,
            gaps1@,
            params.genome_length as nat,
            offspring_nodes.1,
            swaps.1,
        ),
{
    let s0 = crossover_and_record_edges_details(
        parents.parent0,
        offspring_nodes.0,
        gaps0,
        params,
        pending,
        rng,
    );
    let s1 = crossover_and_record_edges_details(
        parents.parent1,
        offspring_nodes.1,
        gaps1,
        params,
        pending,
        rng,
    );
    proof {
        vstd::seq_lib::lemma_concat_associative::<EdgeRecord>(
            old(pending).edges@,
            parent_mosaic(parents.parent0, gaps0@, params.genome_length as nat, offspring_nodes.0, s0),
            parent_mosaic(parents.parent1, gaps1@, params.genome_length as nat, offspring_nodes.1, s1),
        );
    }
    (s0, s1)
}

} // verus!
