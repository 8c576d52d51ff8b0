use vstd::prelude::*;

use crate::ancestry::{edge_in_genome, EdgeRecord};
use crate::diploid::{births_edges, drawn_from, valid_deaths, Diploid, Parents};
use crate::recombination::{lemma_mosaic_tiles, parent_mosaic};
use crate::models::holds_node;
use crate::remap::{keeps, keeps_diploid};

verus! {

/// Every copy of every individual of `alive` is a node of the table whose node
/// times are `times`, and was born before (at a larger time than) `t`.
pub open spec fn born_before(alive: Seq<Diploid>, times: Seq<nat>, t: nat) -> bool {
    forall|j: int|
        0 <= j < alive.len() ==> {
            let d = #[trigger] alive[j];
            &&& 0 <= d.node0 < times.len()
            &&& 0 <= d.node1 < times.len()
            &&& times[d.node0 as int] > t
            &&& times[d.node1 as int] > t
        }
}

/// What an edge recorded at a birth satisfies: its interval lies in the
/// genome, its parent is an existing node older than the birth, and its child
/// is one of the `count` nodes issued from `first_id`.
pub open spec fn birth_edge_ok(
    e: EdgeRecord,
    len: nat,
    times: Seq<nat>,
    t: nat,
    first_id: int,
    count: nat,
) -> bool {
    &&& edge_in_genome(e, len)
    &&& 0 <= e.parent < times.len()
    &&& times[e.parent as int] > t
    &&& first_id <= e.child < first_id + count
}

proof fn lemma_parent_mosaic_ok(
    parent: Diploid,
    alive: Seq<Diploid>,
    popsize: nat,
    gaps: Seq<u64>,
    len: nat,
    child: i32,
    swapped: bool,
    times: Seq<nat>,
    t: nat,
    first_id: int,
    count: nat,
)
    requires
        0 < len <= u64::MAX,
        drawn_from(alive, popsize, parent),
        born_before(alive, times, t),
        first_id <= child < first_id + count,
    ensures
        forall|k: int|
            0 <= k < parent_mosaic(parent, gaps, len, child, swapped).len() ==> birth_edge_ok(
                #[trigger] parent_mosaic(parent, gaps, len, child, swapped)[k],
                len,
                times,
                t,
                first_id,
                count,
            ),
{
    let j = choose|j: int| 0 <= j < popsize && j < alive.len() && alive[j] == parent;
    assert(alive[j] == parent);
    if swapped {
        lemma_mosaic_tiles(gaps, 0, len, parent.node1, parent.node0, child);
    } else {
        lemma_mosaic_tiles(gaps, 0, len, parent.node0, parent.node1, child);
    }
}

/// Births keep time order and stay inside the genome: when the deaths `ps`
/// draw their parents from a population whose nodes were all born before `t`,
/// every edge the births record runs from such an older node to one of the new
/// nodes, over a non-empty interval inside `[0, len)`.
pub proof fn lemma_births_edges_ordered(
    ps: Seq<Parents>,
    alive: Seq<Diploid>,
    popsize: nat,
    gaps: Seq<Vec<u64>>,
    len: nat,
    first_id: int,
    swaps: Seq<(bool, bool)>,
    times: Seq<nat>,
    t: nat,
)
    requires
        0 < len <= u64::MAX,
        valid_deaths(ps, alive, popsize),
        born_before(alive, times, t),
        swaps.len() == ps.len(),
        gaps.len() >= 2 * ps.len(),
        0 <= first_id,
        first_id + 2 * ps.len() <= i32::MAX,
    ensures
        forall|k: int|
            0 <= k < births_edges(ps, gaps, len, first_id, swaps).len() ==> birth_edge_ok(
                #[trigger] births_edges(ps, gaps, len, first_id, swaps)[k],
                len,
                times,
                t,
                first_id,
                2 * ps.len(),
            ),
    decreases ps.len(),
{
    if ps.len() > 0 {
        let n = ps.len() - 1;
        let front = ps.drop_last();
        assert(valid_deaths(front, alive, popsize)) by {
            assert forall|k: int| 0 <= k < front.len() implies #[trigger] front[k].index
                < alive.len() by {
                assert(front[k] == ps[k]);
            }
            assert forall|k: int| 0 <= k < front.len() implies drawn_from(
                alive,
                popsize,
                #[trigger] front[k].parent0,
            ) && drawn_from(alive, popsize, front[k].parent1) by {
                assert(front[k] == ps[k]);
            }
        }
        lemma_births_edges_ordered(
            front,
            alive,
            popsize,
            gaps,
            len,
            first_id,
            swaps.drop_last(),
            times,
            t,
        );
        let a = births_edges(front, gaps, len, first_id, swaps.drop_last());
        let b = parent_mosaic(ps[n].parent0, gaps[2 * n]@, len, (first_id + 2 * n) as i32, swaps.last().0);
        let c = parent_mosaic(
            ps[n].parent1,
            gaps[2 * n + 1]@,
            len,
            (first_id + 2 * n + 1) as i32,
            swaps.last().1,
        );
        lemma_parent_mosaic_ok(
            ps[n].parent0,
            alive,
            popsize,
            gaps[2 * n]@,
            len,
            (first_id + 2 * n) as i32,
            swaps.last().0,
            times,
            t,
            first_id,
            2 * ps.len(),
        );
        lemma_parent_mosaic_ok(
            ps[n].parent1,
            alive,
            popsize,
            gaps[2 * n + 1]@,
            len,
            (first_id + 2 * n + 1) as i32,
            swaps.last().1,
            times,
            t,
            first_id,
            2 * ps.len(),
        );
        let all = births_edges(ps, gaps, len, first_id, swaps);
        assert(all == a + b + c);
        assert forall|k: int| 0 <= k < all.len() implies birth_edge_ok(
            #[trigger] all[k],
            len,
            times,
            t,
            first_id,
            2 * ps.len(),
        ) by {
            if k < a.len() {
                assert(all[k] == a[k]);
                assert(birth_edge_ok(a[k], len, times, t, first_id, 2 * front.len()));
            } else if k < a.len() + b.len() {
                assert(all[k] == b[k - a.len()]);
            } else {
                assert(all[k] == c[k - a.len() - b.len()]);
            }
        }
    }
}

/// Remapping after a simplification that keeps the samples loses no alive
/// individual: given an id map that sends the samples of `alive` (both copies
/// of each individual, in slot order) to the first identifiers in the same
/// order, every copy is kept and the population becomes individuals
/// `(2j, 2j + 1)`. That the outside simplification does so is its own
/// behaviour, not shown here.
pub proof fn lemma_samples_kept(alive: Seq<Diploid>, idmap: Seq<i32>)
    requires
        forall|j: int|
            0 <= j < alive.len() ==> {
                let d = #[trigger] alive[j];
                &&& 0 <= d.node0 < idmap.len()
                &&& 0 <= d.node1 < idmap.len()
                &&& idmap[d.node0 as int] == 2 * j
                &&& idmap[d.node1 as int] == 2 * j + 1
            },
    ensures
        forall|j: int| 0 <= j < alive.len() ==> keeps_diploid(idmap, #[trigger] alive[j]),
        forall|j: int|
            0 <= j < alive.len() ==> (Diploid {
                node0: idmap[(#[trigger] alive[j]).node0 as int],
                node1: idmap[alive[j].node1 as int],
            }) == (Diploid { node0: (2 * j) as i32, node1: (2 * j + 1) as i32 }),
{
}

/// The steps of the haploid and overlapping-generations models keep time
/// order: an edge whose parent is a node of a population born before `t`
/// (which those steps' contracts give) runs from a node older than the child
/// born at `t`.
pub proof fn lemma_step_edge_ordered(alive: Seq<i32>, times: Seq<nat>, t: nat, e: EdgeRecord)
    requires
        forall|j: int|
            0 <= j < alive.len() ==> 0 <= #[trigger] alive[j] < times.len() && times[alive[j] as int]
                > t,
        holds_node(alive, e.parent),
    ensures
        0 <= e.parent < times.len(),
        times[e.parent as int] > t,
{
    let j = choose|j: int| 0 <= j < alive.len() && alive[j] == e.parent;
    assert(alive[j] == e.parent);
}

/// Remapping with the id map of a simplification that changed nothing, one
/// that sends every alive node to itself, keeps every node and leaves the
/// population as it was.
pub proof fn lemma_identity_map_keeps_population(alive: Seq<i32>, idmap: Seq<i32>)
    requires
        forall|j: int|
            0 <= j < alive.len() ==> 0 <= #[trigger] alive[j] < idmap.len() && idmap[alive[j] as int]
                == alive[j],
    ensures
        forall|j: int| 0 <= j < alive.len() ==> keeps(idmap, #[trigger] alive[j]),
        forall|j: int| 0 <= j < alive.len() ==> idmap[#[trigger] alive[j] as int] == alive[j],
{
    assert forall|j: int| 0 <= j < alive.len() implies keeps(idmap, #[trigger] alive[j]) by {
        assert(idmap[alive[j] as int] == alive[j]);
    }
}

} // verus!
