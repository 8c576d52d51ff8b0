use vstd::prelude::*;

use crate::ancestry::NULL_NODE;
use crate::diploid::{all_distinct_copies, Diploid};

verus! {

/// Why an id map could not be applied to a population.
#[derive(Clone, Copy, Debug, PartialEq, Eq, Structural)]
pub enum RemapError {
    /// The node is not an index of the map.
    Unknown { node: i32 },
    /// The map removed the node although it is alive.
    Removed { node: i32 },
}

/// `idmap` keeps node `x`: `x` is an index of it and is not sent to the null
/// identifier.
pub open spec fn keeps(idmap: Seq<i32>, x: i32) -> bool {
    0 <= x < idmap.len() && idmap[x as int] != NULL_NODE
}

/// `e` is the error for node `x` under `idmap`.
pub open spec fn error_for(idmap: Seq<i32>, x: i32, e: RemapError) -> bool {
    if 0 <= x < idmap.len() {
        e == RemapError::Removed { node: x }
    } else {
        e == RemapError::Unknown { node: x }
    }
}

/// No two kept nodes are sent to the same identifier.
pub open spec fn injective_on_kept(idmap: Seq<i32>) -> bool {
    forall|a: int, b: int|
        0 <= a < idmap.len() && 0 <= b < idmap.len() && a != b && idmap[a] != NULL_NODE
            ==> idmap[a] != idmap[b]
}

/// Check that `idmap` keeps the node `x`.
fn check_node(idmap: &Vec<i32>, x: i32) -> (r: Result<(), RemapError>)
    ensures
        r is Ok <==> keeps(idmap@, x),
        r matches Err(e) ==> error_for(idmap@, x, e),
{
    if x < 0 || x as usize >= idmap.len() {
        Err(RemapError::Unknown { node: x })
    } else if idmap[x as usize] == NULL_NODE {
        Err(RemapError::Removed { node: x })
    } else {
        Ok(())
    }
}

/// Apply the id map of a simplification to every node of a haploid population.
/// It fails, leaving `alive` as it was, when the map does not keep some node;
/// the error names the first such node.
pub fn remap_nodes(alive: &mut Vec<i32>, idmap: &Vec<i32>) -> (r: Result<(), RemapError>)
    ensures
        r is Ok <==> forall|j: int| 0 <= j < old(alive)@.len() ==> keeps(idmap@, #[trigger] old(alive)@[j]),
        r is Ok ==> final(alive)@.len() == old(alive)@.len() && forall|j: int|
            0 <= j < old(alive)@.len() ==> #[trigger] final(alive)@[j] == idmap@[old(alive)@[j] as int],
        r matches Err(e) ==> final(alive)@ == old(alive)@ && exists|j: int|
            0 <= j < old(alive)@.len() && !keeps(idmap@, #[trigger] old(alive)@[j]) && error_for(
                idmap@,
                old(alive)@[j],
                e,
            ) && forall|i: int| 0 <= i < j ==> keeps(idmap@, #[trigger] old(alive)@[i]),
{
    let mut j: usize = 0;
    while j < alive.len()
        invariant
            j <= alive@.len(),
            alive@ == old(alive)@,
            forall|i: int| 0 <= i < j ==> keeps(idmap@, #[trigger] alive@[i]),
        decreases alive@.len() - j,
    {
        let checked = check_node(idmap, alive[j]);
        if let Err(e) = checked {
            return Err(e);
        }
        j = j + 1;
    }
    let mut j: usize = 0;
    while j < alive.len()
        invariant
            j <= alive@.len(),
            alive@.len() == old(alive)@.len(),
            forall|i: int| 0 <= i < old(alive)@.len() ==> keeps(idmap@, #[trigger] old(alive)@[i]),
            forall|i: int| j <= i < alive@.len() ==> #[trigger] alive@[i] == old(alive)@[i],
            forall|i: int| 0 <= i < j ==> #[trigger] alive@[i] == idmap@[old(alive)@[i] as int],
        decreases alive@.len() - j,
    {
        let x = alive[j];
        assert(keeps(idmap@, old(alive)@[j as int]));
        alive.set(j, idmap[x as usize]);
        j = j + 1;
    }
    Ok(())
}

/// The sample nodes of a diploid population: both copies of each individual,
/// in slot order.
pub fn sample_nodes(alive: &Vec<Diploid>) -> (r: Vec<i32>)
    requires
        all_distinct_copies(alive@),
    ensures
        r@.len() == 2 * alive@.len(),
        forall|j: int|
            0 <= j < alive@.len() ==> r@[2 * j] == (#[trigger] alive@[j]).node0 && r@[2 * j + 1]
                == alive@[j].node1,
{
    let mut r: Vec<i32> = Vec::new();
    let mut j: usize = 0;
    while j < alive.len()
        invariant
            j <= alive@.len(),
            r@.len() == 2 * j,
            forall|i: int|
                0 <= i < j ==> r@[2 * i] == (#[trigger] alive@[i]).node0 && r@[2 * i + 1]
                    == alive@[i].node1,
        decreases alive@.len() - j,
    {
        r.push(alive[j].node0);
        r.push(alive[j].node1);
        j = j + 1;
    }
    r
}

/// Both copies of `d` are kept by `idmap`.
pub open spec fn keeps_diploid(idmap: Seq<i32>, d: Diploid) -> bool {
    keeps(idmap, d.node0) && keeps(idmap, d.node1)
}

/// Apply the id map of a simplification to both copies of every individual.
/// It fails, leaving `alive` as it was, when the map does not keep some copy;
/// the error names the first such node.
pub fn remap_diploids(alive: &mut Vec<Diploid>, idmap: &Vec<i32>) -> (r: Result<(), RemapError>)
    ensures
        r is Ok <==> forall|j: int|
            0 <= j < old(alive)@.len() ==> keeps_diploid(idmap@, #[trigger] old(alive)@[j]),
        r is Ok ==> final(alive)@.len() == old(alive)@.len() && forall|j: int|
            0 <= j < old(alive)@.len() ==> #[trigger] final(alive)@[j] == (Diploid {
                node0: idmap@[old(alive)@[j].node0 as int],
                node1: idmap@[old(alive)@[j].node1 as int],
            }),
        r matches Err(e) ==> final(alive)@ == old(alive)@ && exists|j: int|
            0 <= j < old(alive)@.len() && !keeps_diploid(idmap@, #[trigger] old(alive)@[j]) && (if keeps(
                idmap@,
                old(alive)@[j].node0,
            ) {
                error_for(idmap@, old(alive)@[j].node1, e)
            } else {
                error_for(idmap@, old(alive)@[j].node0, e)
            }) && forall|i: int| 0 <= i < j ==> keeps_diploid(idmap@, #[trigger] old(alive)@[i]),
        r is Ok && all_distinct_copies(old(alive)@) && injective_on_kept(idmap@)
            ==> all_distinct_copies(final(alive)@),
{
    let mut j: usize = 0;
    while j < alive.len()
        invariant
            j <= alive@.len(),
            alive@ == old(alive)@,
            forall|i: int| 0 <= i < j ==> keeps_diploid(idmap@, #[trigger] alive@[i]),
        decreases alive@.len() - j,
    {
        let d = alive[j];
        let c0 = check_node(idmap, d.node0);
        if let Err(e) = c0 {
            return Err(e);
        }
        let c1 = check_node(idmap, d.node1);
        if let Err(e) = c1 {
            return Err(e);
        }
        j = j + 1;
    }
    let mut j: usize = 0;
    while j < alive.len()
        invariant
            j <= alive@.len(),
            alive@.len() == old(alive)@.len(),
            forall|i: int|
                0 <= i < old(alive)@.len() ==> keeps_diploid(idmap@, #[trigger] old(alive)@[i]),
            forall|i: int| j <= i < alive@.len() ==> #[trigger] alive@[i] == old(alive)@[i],
            forall|i: int|
                0 <= i < j ==> #[trigger] alive@[i] == (Diploid {
                    node0: idmap@[old(alive)@[i].node0 as int],
                    node1: idmap@[old(alive)@[i].node1 as int],
                }),
        decreases alive@.len() - j,
    {
        let d = alive[j];
        assert(keeps_diploid(idmap@, old(alive)@[j as int]));
        let m = Diploid { node0: idmap[d.node0 as usize], node1: idmap[d.node1 as usize] };
        alive.set(j, m);
        j = j + 1;
    }
    Ok(())
}

} // verus!
