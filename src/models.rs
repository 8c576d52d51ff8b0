use vstd::prelude::*;

use crate::ancestry::{EdgeRecord, Pending, NULL_NODE};
use crate::diploid::{dead_seq, dead_slots, lemma_all_dead, lemma_dead_seq, SimParams};
use crate::rng::{bernoulli_ratio, fair_coin, uniform_usize};

verus! {

/// What one Moran step drew: the slot that dies and the slot whose node
/// reproduces.
#[derive(Clone, Copy, Debug, PartialEq, Eq, Structural)]
pub struct MoranEvent {
    pub dead: usize,
    pub replace: usize,
}

/// The driver simplifies at every step that is a multiple of the interval.
pub fn should_simplify(step: u32, interval: u32) -> (r: bool)
    requires
        0 < interval,
    ensures
        r == (step % interval == 0),
{
    step % interval == 0
}

/// Issue `count` founder nodes born at `time`; their identifiers, in order.
pub fn add_founders(pending: &mut Pending, count: usize, time: u32) -> (r: Vec<i32>)
    requires
        old(pending).next_id() + count < i32::MAX,
    ensures
        final(pending).first_node == old(pending).first_node,
        final(pending).edges@ == old(pending).edges@,
        final(pending).node_times@ == old(pending).node_times@ + Seq::new(
            count as nat,
            |i: int| time,
        ),
        r@.len() == count,
        forall|j: int| 0 <= j < count ==> #[trigger] r@[j] == old(pending).next_id() + j,
{
    let ghost start = pending.node_times@;
    let mut r: Vec<i32> = Vec::new();
    let mut j: usize = 0;
    while j < count
        invariant
            j <= count,
            old(pending).next_id() + count < i32::MAX,
            pending.first_node == old(pending).first_node,
            pending.edges@ == old(pending).edges@,
            pending.node_times@ == start + Seq::new(j as nat, |i: int| time),
            pending.next_id() == old(pending).next_id() + j,
            r@.len() == j,
            forall|i: int| 0 <= i < j ==> #[trigger] r@[i] == old(pending).next_id() + i,
        decreases count - j,
    {
        let id = pending.add_node(time);
        r.push(id);
        proof {
            assert(pending.node_times@ =~= start + Seq::new((j + 1) as nat, |i: int| time));
        }
        j = j + 1;
    }
    r
}

/// Apply one drawn Moran event at time `step`. When `dead` and `replace`
/// differ, a node born at `step` inherits the whole genome from the node in slot
/// `replace` and takes slot `dead`; when they are equal nothing happens.
pub fn moran_event(
    alive: &mut Vec<i32>,
    ev: MoranEvent,
    step: u32,
    genome_length: u64,
    pending: &mut Pending,
)
    requires
        ev.dead < old(alive)@.len(),
        ev.replace < old(alive)@.len(),
        old(pending).next_id() < i32::MAX,
    ensures
        final(pending).first_node == old(pending).first_node,
        ev.dead == ev.replace ==> {
            &&& final(alive)@ == old(alive)@
            &&& final(pending).node_times@ == old(pending).node_times@
            &&& final(pending).edges@ == old(pending).edges@
        },
        ev.dead != ev.replace ==> {
            &&& final(alive)@ == old(alive)@.update(ev.dead as int, old(pending).next_id() as i32)
            &&& final(pending).node_times@ == old(pending).node_times@.push(step)
            &&& final(pending).edges@ == old(pending).edges@.push(
                EdgeRecord {
                    left: 0,
                    right: genome_length,
                    parent: old(alive)@[ev.replace as int],
                    child: old(pending).next_id() as i32,
                },
            )
        },
{
    if ev.dead != ev.replace {
        let new_birth = pending.add_node(step);
        let parent = alive[ev.replace];
        pending.add_edge(0, genome_length, parent, new_birth);
        alive.set(ev.dead, new_birth);
    }
}

/// One birth-death event of the haploid Moran model at time `step`: draw the
/// slots `dead` and `replace` uniformly and independently, then apply them as
/// `moran_event` does. Returns what was drawn.
pub fn moran_step(
    alive: &mut Vec<i32>,
    step: u32,
    genome_length: u64,
    pending: &mut Pending,
    rng: &mut rand::rngs::StdRng,
) -> (r: MoranEvent)
    requires
        0 < old(alive)@.len(),
        old(pending).next_id() < i32::MAX,
    ensures
        r.dead < old(alive)@.len(),
        r.replace < old(alive)@.len(),
        final(pending).first_node == old(pending).first_node,
        r.dead == r.replace ==> {
            &&& final(alive)@ == old(alive)@
            &&& final(pending).node_times@ == old(pending).node_times@
            &&& final(pending).edges@ == old(pending).edges@
        },
        r.dead != r.replace ==> {
            &&& final(alive)@ == old(alive)@.update(r.dead as int, old(pending).next_id() as i32)
            &&& final(pending).node_times@ == old(pending).node_times@.push(step)
            &&& final(pending).edges@ == old(pending).edges@.push(
                EdgeRecord {
                    left: 0,
                    right: genome_length,
                    parent: old(alive)@[r.replace as int],
                    child: old(pending).next_id() as i32,
                },
            )
        },
{
    let popsize = alive.len();
    let dead = uniform_usize(rng, 0, popsize);
    let replace = uniform_usize(rng, 0, popsize);
    let ev = MoranEvent { dead, replace };
    moran_event(alive, ev, step, genome_length, pending);
    ev
}

/// The two copies of individual `i` in a population laid out by pairs.
pub open spec fn copies(alive: Seq<i32>, i: int) -> (i32, i32) {
    (alive[2 * i], alive[2 * i + 1])
}

/// `x` is one of the nodes of `alive`.
pub open spec fn holds_node(alive: Seq<i32>, x: i32) -> bool {
    exists|j: int| 0 <= j < alive.len() && alive[j] == x
}

/// The copy a new node inherits from: the second copy of individual `pick`
/// when `coin` is `true`, else its first copy.
pub open spec fn picked_copy(alive: Seq<i32>, pick: usize, coin: bool) -> i32 {
    if coin {
        alive[2 * pick + 1]
    } else {
        alive[2 * pick]
    }
}

/// Apply the draws of one step of the overlapping-generations model at time
/// `step` to `alive`, which holds the two copies of individual `i` at `2i` and
/// `2i + 1`. Individual `i` dies when `survives[i]` is `false`; the `r`th to die
/// is replaced by the nodes `first + 2r` and `first + 2r + 1`, born at `step`,
/// where `first` is the next node identifier. New node `first + k` inherits the
/// whole genome from copy `coins[k]` of individual `picks[k]` as the population
/// was before the step. Returns the slots that died, in increasing order.
pub fn overlapping_apply(
    alive: &mut Vec<i32>,
    params: &SimParams,
    step: u32,
    pending: &mut Pending,
    survives: &Vec<bool>,
    picks: &Vec<usize>,
    coins: &Vec<bool>,
) -> (deaths: Vec<usize>)
    requires
        old(alive)@.len() == 2 * params.popsize,
        survives@.len() == params.popsize,
        picks@.len() == 2 * dead_seq(survives@).len(),
        coins@.len() == picks@.len(),
        forall|k: int| 0 <= k < picks@.len() ==> #[trigger] picks@[k] < params.popsize,
        old(pending).next_id() + 2 * params.popsize < i32::MAX,
    ensures
        ({
            let first = old(pending).next_id();
            &&& deaths@ == dead_seq(survives@)
            &&& final(pending).first_node == old(pending).first_node
            &&& deaths@.len() <= params.popsize
            &&& forall|r: int| 0 <= r < deaths@.len() ==> #[trigger] deaths@[r] < params.popsize
            &&& forall|r: int, s: int| 0 <= r < s < deaths@.len() ==> deaths@[r] < deaths@[s]
            &&& final(pending).node_times@ == old(pending).node_times@ + Seq::new(
                2 * deaths@.len(),
                |i: int| step,
            )
            &&& final(pending).edges@ == old(pending).edges@ + Seq::new(
                2 * deaths@.len(),
                |k: int|
                    EdgeRecord {
                        left: 0,
                        right: params.genome_length,
                        parent: picked_copy(old(alive)@, picks@[k], coins@[k]),
                        child: (first + k) as i32,
                    },
            )
            &&& final(alive)@.len() == old(alive)@.len()
            &&& forall|r: int|
                0 <= r < deaths@.len() ==> {
                    &&& final(alive)@[2 * deaths@[r]] == first + 2 * r
                    &&& final(alive)@[2 * deaths@[r] + 1] == first + 2 * r + 1
                }
            &&& forall|i: int|
                0 <= i < params.popsize && !deaths@.contains(i as usize) ==> #[trigger] copies(
                    final(alive)@,
                    i,
                ) == copies(old(alive)@, i)
        }),
{
    let popsize = params.popsize as usize;
    let first_new = pending.next_node_id();
    let ghost first = pending.next_id();
    let ghost start_times = pending.node_times@;
    let ghost start_edges = pending.edges@;
    let ghost snapshot = alive@;
    let deaths = dead_slots(survives);
    proof {
        lemma_dead_seq(survives@);
    }
    let ndeaths = deaths.len();
    let mut r: usize = 0;
    while r < ndeaths
        invariant
            ndeaths == deaths@.len(),
            ndeaths <= popsize,
            popsize == params.popsize,
            first + 2 * popsize < i32::MAX,
            r <= ndeaths,
            pending.first_node == old(pending).first_node,
            pending.edges@ == start_edges,
            pending.node_times@ == start_times + Seq::new(2 * r as nat, |i: int| step),
            pending.next_id() == first + 2 * r,
        decreases ndeaths - r,
    {
        pending.add_node(step);
        pending.add_node(step);
        proof {
            assert(pending.node_times@ =~= start_times + Seq::new(2 * (r + 1) as nat, |i: int| step));
        }
        r = r + 1;
    }
    let mut k: usize = 0;
    while k < 2 * ndeaths
        invariant
            popsize == params.popsize,
            alive@ == snapshot,
            snapshot.len() == 2 * popsize,
            ndeaths == deaths@.len(),
            ndeaths <= popsize,
            picks@.len() == 2 * ndeaths,
            coins@.len() == picks@.len(),
            forall|j: int| 0 <= j < picks@.len() ==> #[trigger] picks@[j] < popsize,
            first + 2 * popsize < i32::MAX,
            first_new == first,
            k <= 2 * ndeaths,
            pending.first_node == old(pending).first_node,
            pending.node_times@ == start_times + Seq::new((2 * ndeaths) as nat, |i: int| step),
            pending.edges@ == start_edges + Seq::new(
                k as nat,
                |j: int|
                    EdgeRecord {
                        left: 0,
                        right: params.genome_length,
                        parent: picked_copy(snapshot, picks@[j], coins@[j]),
                        child: (first + j) as i32,
                    },
            ),
        decreases 2 * ndeaths - k,
    {
        let pick = picks[k];
        let copy = if coins[k] {
            2 * pick + 1
        } else {
            2 * pick
        };
        let parent = alive[copy];
        let child = (first_new as i64 + k as i64) as i32;
        pending.add_edge(0, params.genome_length, parent, child);
        proof {
            assert(pending.edges@ =~= start_edges + Seq::new(
                (k + 1) as nat,
                |j: int|
                    EdgeRecord {
                        left: 0,
                        right: params.genome_length,
                        parent: picked_copy(snapshot, picks@[j], coins@[j]),
                        child: (first + j) as i32,
                    },
            ));
        }
        k = k + 1;
    }
    let mut r: usize = 0;
    while r < ndeaths
        invariant
            popsize == params.popsize,
            alive@.len() == snapshot.len(),
            snapshot.len() == 2 * popsize,
            ndeaths == deaths@.len(),
            ndeaths <= popsize,
            first + 2 * popsize < i32::MAX,
            first_new == first,
            r <= ndeaths,
            forall|q: int| 0 <= q < deaths@.len() ==> #[trigger] deaths@[q] < popsize,
            forall|q: int, s: int| 0 <= q < s < deaths@.len() ==> deaths@[q] < deaths@[s],
            forall|q: int|
                0 <= q < r ==> {
                    &&& alive@[2 * #[trigger] deaths@[q]] == first + 2 * q
                    &&& alive@[2 * deaths@[q] + 1] == first + 2 * q + 1
                },
            forall|i: int|
                0 <= i < popsize && !deaths@.take(r as int).contains(i as usize) ==> #[trigger] copies(
                    alive@,
                    i,
                ) == copies(snapshot, i),
        decreases ndeaths - r,
    {
        let slot = deaths[r];
        let node1 = (first_new as i64 + 2 * r as i64) as i32;
        let ghost before = alive@;
        alive.set(2 * slot, node1);
        alive.set(2 * slot + 1, node1 + 1);
        proof {
            assert forall|i: int|
                0 <= i < popsize && !deaths@.take(r + 1).contains(i as usize) implies #[trigger] copies(
                alive@,
                i,
            ) == copies(snapshot, i) by {
                assert(deaths@.take(r + 1)[r as int] == slot);
                assert(i != slot);
                if deaths@.take(r as int).contains(i as usize) {
                    let q = choose|q: int| 0 <= q < r && deaths@.take(r as int)[q] == i as usize;
                    assert(deaths@.take(r + 1)[q] == i as usize);
                }
                assert(copies(before, i) == copies(snapshot, i));
                assert(alive@[2 * i] == before[2 * i]);
                assert(alive@[2 * i + 1] == before[2 * i + 1]);
            }
        }
        r = r + 1;
    }
    proof {
        assert(deaths@.take(ndeaths as int) == deaths@);
    }
    deaths
}

/// One step of the overlapping-generations model at time `step`: draw for
/// each individual whether it survives, with probability `psurvival`, then for
/// each new node a parent uniformly from the population before the step and a
/// fair coin for its copy, and apply them as `overlapping_apply` does. Returns
/// the slots that died, in increasing order.
pub fn overlapping_step(
    alive: &mut Vec<i32>,
    params: &SimParams,
    step: u32,
    pending: &mut Pending,
    rng: &mut rand::rngs::StdRng,
) -> (deaths: Vec<usize>)
    requires
        params.wf(),
        old(alive)@.len() == 2 * params.popsize,
        old(pending).next_id() + 2 * params.popsize < i32::MAX,
    ensures
        ({
            let first = old(pending).next_id();
            &&& final(pending).first_node == old(pending).first_node
            &&& deaths@.len() <= params.popsize
            &&& forall|r: int| 0 <= r < deaths@.len() ==> #[trigger] deaths@[r] < params.popsize
            &&& forall|r: int, s: int| 0 <= r < s < deaths@.len() ==> deaths@[r] < deaths@[s]
            &&& final(pending).node_times@ == old(pending).node_times@ + Seq::new(
                2 * deaths@.len(),
                |i: int| step,
            )
            &&& final(pending).edges@.len() == old(pending).edges@.len() + 2 * deaths@.len()
            &&& forall|k: int|
                0 <= k < 2 * deaths@.len() ==> {
                    let e = #[trigger] final(pending).edges@[old(pending).edges@.len() + k];
                    &&& e.left == 0
                    &&& e.right == params.genome_length
                    &&& e.child == first + k
                    &&& holds_node(old(alive)@, e.parent)
                }
            &&& final(alive)@.len() == old(alive)@.len()
            &&& forall|r: int|
                0 <= r < deaths@.len() ==> {
                    &&& final(alive)@[2 * deaths@[r]] == first + 2 * r
                    &&& final(alive)@[2 * deaths@[r] + 1] == first + 2 * r + 1
                }
            &&& forall|i: int|
                0 <= i < params.popsize && !deaths@.contains(i as usize) ==> #[trigger] copies(
                    final(alive)@,
                    i,
                ) == copies(old(alive)@, i)
            &&& params.psurvival.numerator == 0 ==> deaths@.len() == params.popsize
        }),
{
    let popsize = params.popsize as usize;
    let mut survives: Vec<bool> = Vec::new();
    let mut i: usize = 0;
    while i < popsize
        invariant
            params.wf(),
            popsize == params.popsize,
            i <= popsize,
            survives@.len() == i,
            params.psurvival.numerator == 0 ==> forall|j: int| 0 <= j < i ==> !#[trigger] survives@[j],
        decreases popsize - i,
    {
        let b = bernoulli_ratio(rng, params.psurvival.numerator, params.psurvival.denominator);
        survives.push(b);
        i = i + 1;
    }
    let ndeaths = dead_slots(&survives).len();
    proof {
        lemma_dead_seq(survives@);
    }
    let mut picks: Vec<usize> = Vec::new();
    let mut coins: Vec<bool> = Vec::new();
    let mut k: usize = 0;
    while k < 2 * ndeaths
        invariant
            0 < popsize,
            popsize == params.popsize,
            ndeaths <= popsize,
            old(pending).next_id() + 2 * popsize < i32::MAX,
            pending == old(pending),
            k <= 2 * ndeaths,
            picks@.len() == k,
            coins@.len() == k,
            forall|j: int| 0 <= j < k ==> #[trigger] picks@[j] < popsize,
        decreases 2 * ndeaths - k,
    {
        let pick = uniform_usize(rng, 0, popsize);
        let coin = fair_coin(rng);
        picks.push(pick);
        coins.push(coin);
        k = k + 1;
    }
    let ghost old_alive = alive@;
    let ghost old_edges = pending.edges@;
    let deaths = overlapping_apply(alive, params, step, pending, &survives, &picks, &coins);
    proof {
        assert forall|k: int| 0 <= k < 2 * deaths@.len() implies holds_node(
            old_alive,
            (#[trigger] pending.edges@[old_edges.len() + k]).parent,
        ) by {
            let j = if coins@[k] { 2 * picks@[k] + 1 } else { 2 * picks@[k] };
            assert(pending.edges@[old_edges.len() + k].parent == old_alive[j]);
        }
        if params.psurvival.numerator == 0 {
            lemma_all_dead(survives@);
        }
    }
    deaths
}

} // verus!
