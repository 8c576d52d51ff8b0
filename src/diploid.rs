use vstd::prelude::*;

use crate::ancestry::{EdgeRecord, Pending};
use crate::recombination::{crossover_and_record_edges, parent_mosaic};
use crate::rng::{bernoulli_ratio, uniform_usize};
use crate::survival::{BadParameter, Survival};

verus! {

/// The parameters of a diploid simulation. Genome positions are whole units in
/// `[0, genome_length)`.
#[derive(Clone, Copy, Debug)]
pub struct SimParams {
    pub popsize: u32,
    pub nsteps: u32,
    pub psurvival: Survival,
    pub genome_length: u64,
    pub simplification_interval: u32,
}

impl SimParams {
    pub open spec fn wf(&self) -> bool {
        &&& 0 < self.popsize
        &&& self.psurvival.wf()
        &&& 0 < self.genome_length
        &&& 0 < self.simplification_interval
    }
}

impl SimParams {
    /// Check the parameters before a simulation starts: a population, a
    /// genome, a simplification interval, and a survival probability in
    /// `[0, 1)`.
    pub fn validate(&self) -> (r: Result<(), BadParameter>)
        ensures
            r is Ok <==> self.wf(),
            r == Err::<(), BadParameter>(BadParameter::OutOfRange) <==> !self.psurvival.wf(),
            r == Err::<(), BadParameter>(BadParameter::EmptyPopulation) <==> self.psurvival.wf()
                && self.popsize == 0,
            r == Err::<(), BadParameter>(BadParameter::EmptyGenome) <==> self.psurvival.wf()
                && self.popsize > 0 && self.genome_length == 0,
            r == Err::<(), BadParameter>(BadParameter::ZeroInterval) <==> self.psurvival.wf()
                && self.popsize > 0 && self.genome_length > 0 && self.simplification_interval
                == 0,
    {
        if self.psurvival.denominator == 0 || self.psurvival.numerator >= self.psurvival.denominator {
            Err(BadParameter::OutOfRange)
        } else if self.popsize == 0 {
            Err(BadParameter::EmptyPopulation)
        } else if self.genome_length == 0 {
            Err(BadParameter::EmptyGenome)
        } else if self.simplification_interval == 0 {
            Err(BadParameter::ZeroInterval)
        } else {
            Ok(())
        }
    }
}

impl Default for SimParams {
    fn default() -> (r: SimParams)
        ensures
            r.popsize == 1000,
            r.nsteps == 1000,
            r.psurvival == (Survival { numerator: 0, denominator: 1 }),
            r.genome_length == 1_000_000,
            r.simplification_interval == 100,
            r.wf(),
    {
        SimParams {
            popsize: 1000,
            nsteps: 1000,
            psurvival: Survival { numerator: 0, denominator: 1 },
            genome_length: 1_000_000,
            simplification_interval: 100,
        }
    }
}

/// An individual with its two genome copies.
#[derive(Clone, Copy, Debug, PartialEq, Eq, Structural)]
pub struct Diploid {
    pub node0: i32,
    pub node1: i32,
}

/// The individual in slot `index` dies; its two offspring copies are inherited
/// from `parent0` and `parent1`.
#[derive(Clone, Copy, Debug, PartialEq, Eq, Structural)]
pub struct Parents {
    pub index: usize,
    pub parent0: Diploid,
    pub parent1: Diploid,
}

/// `d` is one of the first `popsize` individuals of `alive`.
pub open spec fn drawn_from(alive: Seq<Diploid>, popsize: nat, d: Diploid) -> bool {
    exists|j: int| 0 <= j < popsize && j < alive.len() && alive[j] == d
}

/// `ps` are deaths in `alive`, in increasing order of slot, each with two
/// parents out of the first `popsize` individuals.
pub open spec fn valid_deaths(ps: Seq<Parents>, alive: Seq<Diploid>, popsize: nat) -> bool {
    &&& forall|k: int| 0 <= k < ps.len() ==> #[trigger] ps[k].index < alive.len()
    &&& forall|k: int, l: int| 0 <= k < l < ps.len() ==> ps[k].index < ps[l].index
    &&& forall|k: int|
        0 <= k < ps.len() ==> drawn_from(alive, popsize, #[trigger] ps[k].parent0)
            && drawn_from(alive, popsize, ps[k].parent1)
}

/// Every individual holds two distinct copies.
pub open spec fn all_distinct_copies(alive: Seq<Diploid>) -> bool {
    forall|j: int| 0 <= j < alive.len() ==> (#[trigger] alive[j]).node0 != alive[j].node1
}

/// The slots whose survival draw failed (`false`), in increasing order.
pub open spec fn dead_seq(survives: Seq<bool>) -> Seq<usize>
    decreases survives.len(),
{
    if survives.len() == 0 {
        seq![]
    } else {
        let front = dead_seq(survives.drop_last());
        if survives.last() {
            front
        } else {
            front.push((survives.len() - 1) as usize)
        }
    }
}

/// The dead slots are exactly the slots whose draw failed, in strictly
/// increasing order.
pub proof fn lemma_dead_seq(s: Seq<bool>)
    requires
        s.len() <= usize::MAX,
    ensures
        dead_seq(s).len() <= s.len(),
        forall|k: int|
            0 <= k < dead_seq(s).len() ==> #[trigger] dead_seq(s)[k] < s.len() && !s[dead_seq(
                s,
            )[k] as int],
        forall|k: int, l: int|
            0 <= k < l < dead_seq(s).len() ==> #[trigger] dead_seq(s)[k] < #[trigger] dead_seq(
                s,
            )[l],
        forall|i: int| 0 <= i < s.len() ==> (!#[trigger] s[i] <==> dead_seq(s).contains(i as usize)),
    decreases s.len(),
{
    if s.len() > 0 {
        let t = s.drop_last();
        lemma_dead_seq(t);
        let front = dead_seq(t);
        let d = dead_seq(s);
        assert forall|k: int| 0 <= k < front.len() implies !s[#[trigger] front[k] as int] by {
            assert(s[front[k] as int] == t[front[k] as int]);
        }
        assert forall|i: int| 0 <= i < s.len() implies (!#[trigger] s[i] <==> d.contains(
            i as usize,
        )) by {
            if i < t.len() {
                assert(s[i] == t[i]);
                if d.contains(i as usize) && !front.contains(i as usize) {
                    let k = choose|k: int| 0 <= k < d.len() && d[k] == i as usize;
                    assert(k < front.len() ==> d[k] == front[k]);
                }
                if front.contains(i as usize) {
                    let k = choose|k: int| 0 <= k < front.len() && front[k] == i as usize;
                    assert(d[k] == front[k]);
                }
            } else {
                if !s.last() {
                    assert(d[d.len() - 1] == i as usize);
                } else {
                    if d.contains(i as usize) {
                        let k = choose|k: int| 0 <= k < d.len() && d[k] == i as usize;
                        assert(d[k] == front[k]);
                    }
                }
            }
        }
    }
}

/// When every draw failed, every slot dies, in order.
pub proof fn lemma_all_dead(s: Seq<bool>)
    requires
        s.len() <= usize::MAX,
        forall|i: int| 0 <= i < s.len() ==> !#[trigger] s[i],
    ensures
        dead_seq(s).len() == s.len(),
        forall|k: int| 0 <= k < s.len() ==> #[trigger] dead_seq(s)[k] == k,
    decreases s.len(),
{
    if s.len() > 0 {
        let t = s.drop_last();
        assert forall|i: int| 0 <= i < t.len() implies !#[trigger] t[i] by {
            assert(t[i] == s[i]);
        }
        lemma_all_dead(t);
        assert(!s[s.len() - 1]);
        let d = dead_seq(s);
        assert(d == dead_seq(t).push((s.len() - 1) as usize));
        assert forall|k: int| 0 <= k < s.len() implies #[trigger] dead_seq(s)[k] == k by {
            if k < t.len() {
                assert(d[k] == dead_seq(t)[k]);
            }
        }
    }
}

/// The slots that die, given one survival draw per slot.
pub fn dead_slots(survives: &Vec<bool>) -> (r: Vec<usize>)
    ensures
        r@ == dead_seq(survives@),
{
    let mut r: Vec<usize> = Vec::new();
    let mut i: usize = 0;
    while i < survives.len()
        invariant
            i <= survives@.len(),
            r@ == dead_seq(survives@.take(i as int)),
        decreases survives@.len() - i,
    {
        let ghost t = survives@.take(i + 1);
        assert(t.drop_last() == survives@.take(i as int));
        assert(t.last() == survives@[i as int]);
        if !survives[i] {
            r.push(i);
        }
        i = i + 1;
    }
    assert(survives@.take(survives@.len() as int) == survives@);
    r
}

/// The deaths of a step, given the draws: for each slot whose survival draw
/// failed, in increasing order, the `k`th death takes its parents from the
/// slots `picks[k].0` and `picks[k].1` of `alive`.
pub fn deaths_from_draws(
    alive: &Vec<Diploid>,
    survives: &Vec<bool>,
    picks: &Vec<(usize, usize)>,
    parents: &mut Vec<Parents>,
)
    requires
        picks@.len() == dead_seq(survives@).len(),
        forall|k: int|
            0 <= k < picks@.len() ==> (#[trigger] picks@[k]).0 < alive@.len() && picks@[k].1
                < alive@.len(),
    ensures
        final(parents)@ == old(parents)@ + Seq::new(
            picks@.len(),
            |k: int|
                Parents {
                    index: dead_seq(survives@)[k],
                    parent0: alive@[picks@[k].0 as int],
                    parent1: alive@[picks@[k].1 as int],
                },
        ),
{
    let dead = dead_slots(survives);
    let mut k: usize = 0;
    while k < dead.len()
        invariant
            k <= dead@.len(),
            dead@ == dead_seq(survives@),
            picks@.len() == dead@.len(),
            forall|j: int|
                0 <= j < picks@.len() ==> (#[trigger] picks@[j]).0 < alive@.len() && picks@[j].1
                    < alive@.len(),
            parents@ == old(parents)@ + Seq::new(
                k as nat,
                |j: int|
                    Parents {
                        index: dead@[j],
                        parent0: alive@[picks@[j].0 as int],
                        parent1: alive@[picks@[j].1 as int],
                    },
            ),
        decreases dead@.len() - k,
    {
        let (i0, i1) = picks[k];
        parents.push(Parents { index: dead[k], parent0: alive[i0], parent1: alive[i1] });
        proof {
            assert(parents@ =~= old(parents)@ + Seq::new(
                (k + 1) as nat,
                |j: int|
                    Parents {
                        index: dead@[j],
                        parent0: alive@[picks@[j].0 as int],
                        parent1: alive@[picks@[j].1 as int],
                    },
            ));
        }
        k = k + 1;
    }
}

/// Decide who dies in this step: each individual of `alive` survives with
/// probability `psurvival`; for each death, draw two parents uniformly, with
/// replacement, from the first `popsize` individuals as they were before the
/// step. The deaths are appended to `parents` in increasing order of slot.
pub fn death_and_parents(
    alive: &Vec<Diploid>,
    params: &SimParams,
    parents: &mut Vec<Parents>,
    rng: &mut rand::rngs::StdRng,
)
    requires
        params.wf(),
        params.popsize <= alive@.len(),
    ensures
        final(parents)@.len() >= old(parents)@.len(),
        final(parents)@.take(old(parents)@.len() as int) == old(parents)@,
        valid_deaths(
            final(parents)@.skip(old(parents)@.len() as int),
            alive@,
            params.popsize as nat,
        ),
        params.psurvival.numerator == 0 ==> {
            let born = final(parents)@.skip(old(parents)@.len() as int);
            &&& born.len() == alive@.len()
            &&& forall|k: int| 0 <= k < born.len() ==> (#[trigger] born[k]).index == k
        },
{
    let popsize = params.popsize as usize;
    let mut survives: Vec<bool> = Vec::new();
    let mut i: usize = 0;
    while i < alive.len()
        invariant
            params.wf(),
            i <= alive@.len(),
            survives@.len() == i,
            params.psurvival.numerator == 0 ==> forall|j: int| 0 <= j < i ==> !#[trigger] survives@[j],
        decreases alive@.len() - i,
    {
        let b = bernoulli_ratio(rng, params.psurvival.numerator, params.psurvival.denominator);
        survives.push(b);
        i = i + 1;
    }
    let ndead = dead_slots(&survives).len();
    let mut picks: Vec<(usize, usize)> = Vec::new();
    let mut k: usize = 0;
    while k < ndead
        invariant
            0 < popsize <= alive@.len(),
            k <= ndead,
            picks@.len() == k,
            forall|j: int|
                0 <= j < k ==> (#[trigger] picks@[j]).0 < popsize && picks@[j].1 < popsize,
        decreases ndead - k,
    {
        let i0 = uniform_usize(rng, 0, popsize);
        let i1 = uniform_usize(rng, 0, popsize);
        picks.push((i0, i1));
        k = k + 1;
    }
    let ghost start = parents@;
    deaths_from_draws(alive, &survives, &picks, parents);
    proof {
        lemma_dead_seq(survives@);
        let born = parents@.skip(start.len() as int);
        assert(parents@.take(start.len() as int) =~= start);
        assert forall|k: int| 0 <= k < born.len() implies #[trigger] born[k] == (Parents {
            index: dead_seq(survives@)[k],
            parent0: alive@[picks@[k].0 as int],
            parent1: alive@[picks@[k].1 as int],
        }) by {
            assert(born[k] == parents@[start.len() + k]);
        }
        assert forall|k: int| 0 <= k < born.len() implies drawn_from(
            alive@,
            popsize as nat,
            #[trigger] born[k].parent0,
        ) && drawn_from(alive@, popsize as nat, born[k].parent1) by {
            assert(born[k].parent0 == alive@[picks@[k].0 as int]);
            assert(born[k].parent1 == alive@[picks@[k].1 as int]);
        }
        assert forall|k: int, l: int| 0 <= k < l < born.len() implies born[k].index
            < born[l].index by {
            assert(born[k].index == dead_seq(survives@)[k]);
            assert(born[l].index == dead_seq(survives@)[l]);
        }
        if params.psurvival.numerator == 0 {
            lemma_all_dead(survives@);
        }
    }
}

/// The edges recorded for the deaths `ps`: the `k`th death gives its copies
/// the nodes `first_id + 2k` and `first_id + 2k + 1`, inherited across
/// `gaps[2k]` and `gaps[2k + 1]`, with the coin flips `swaps[k]`.
pub open spec fn births_edges(
    ps: Seq<Parents>,
    gaps: Seq<Vec<u64>>,
    len: nat,
    first_id: int,
    swaps: Seq<(bool, bool)>,
) -> Seq<EdgeRecord>
    decreases ps.len(),
{
    if ps.len() == 0 || swaps.len() == 0 {
        seq![]
    } else {
        let k = ps.len() - 1;
        births_edges(ps.drop_last(), gaps, len, first_id, swaps.drop_last()) + parent_mosaic(
            ps[k].parent0,
            gaps[2 * k]@,
            len,
            (first_id + 2 * k) as i32,
            swaps.last().0,
        ) + parent_mosaic(
            ps[k].parent1,
            gaps[2 * k + 1]@,
            len,
            (first_id + 2 * k + 1) as i32,
            swaps.last().1,
        )
    }
}

/// `alive` after each death of `ps` puts its two new nodes, numbered from
/// `first_id`, in the dead individual's slot.
pub open spec fn replaced(alive: Seq<Diploid>, ps: Seq<Parents>, first_id: int) -> Seq<Diploid>
    decreases ps.len(),
{
    if ps.len() == 0 {
        alive
    } else {
        let k = ps.len() - 1;
        replaced(alive, ps.drop_last(), first_id).update(
            ps[k].index as int,
            Diploid { node0: (first_id + 2 * k) as i32, node1: (first_id + 2 * k + 1) as i32 },
        )
    }
}

/// Give birth for each death in `parents`: issue two nodes born at
/// `birth_time`, record the edges that bring each copy from its parent, and put
/// the newborn in the dead individual's slot. `gaps[2k]` and `gaps[2k + 1]`
/// are the crossover distances of the `k`th death's two copies.
pub fn births(
    parents: &Vec<Parents>,
    gaps: &Vec<Vec<u64>>,
    params: &SimParams,
    birth_time: u32,
    pending: &mut Pending,
    alive: &mut Vec<Diploid>,
    rng: &mut rand::rngs::StdRng,
)
    requires
        0 < params.genome_length,
        gaps@.len() == 2 * parents@.len(),
        forall|k: int| 0 <= k < parents@.len() ==> #[trigger] parents@[k].index < old(alive)@.len(),
        old(pending).next_id() + 2 * parents@.len() < i32::MAX,
    ensures
        final(pending).first_node == old(pending).first_node,
        final(pending).node_times@ == old(pending).node_times@ + Seq::new(
            2 * parents@.len(),
            |i: int| birth_time,
        ),
        exists|swaps: Seq<(bool, bool)>|
            swaps.len() == parents@.len() && #[trigger] final(pending).edges@ == old(
                pending,
            ).edges@ + births_edges(
                parents@,
                gaps@,
                params.genome_length as nat,
                old(pending).next_id(),
                swaps,
            ),
        final(alive)@ == replaced(old(alive)@, parents@, old(pending).next_id()),
        all_distinct_copies(old(alive)@) ==> all_distinct_copies(final(alive)@),
        forall|k: int|
            0 <= k < parents@.len() ==> final(alive)@[#[trigger] parents@[k].index as int].node0
                != final(alive)@[parents@[k].index as int].node1,
{
    let ghost first_id = pending.next_id();
    let ghost start_edges = pending.edges@;
    let ghost start_times = pending.node_times@;
    let ghost start_alive = alive@;
    let ghost distinct = all_distinct_copies(alive@);
    let ghost mut swaps: Seq<(bool, bool)> = seq![];
    let mut k: usize = 0;
    while k < parents.len()
        invariant
            0 < params.genome_length,
            gaps@.len() == 2 * parents@.len(),
            forall|j: int| 0 <= j < parents@.len() ==> #[trigger] parents@[j].index < alive@.len(),
            alive@.len() == start_alive.len(),
            first_id + 2 * parents@.len() < i32::MAX,
            k <= parents@.len(),
            swaps.len() == k,
            pending.first_node == old(pending).first_node,
            pending.next_id() == first_id + 2 * k,
            pending.node_times@ == start_times + Seq::new(2 * k as nat, |i: int| birth_time),
            pending.edges@ == start_edges + births_edges(
                parents@.take(k as int),
                gaps@,
                params.genome_length as nat,
                first_id,
                swaps,
            ),
            alive@ == replaced(start_alive, parents@.take(k as int), first_id),
            distinct ==> all_distinct_copies(alive@),
            forall|j: int|
                0 <= j < k ==> alive@[#[trigger] parents@[j].index as int].node0 != alive@[parents@[
                    j
                ].index as int].node1,
        decreases parents@.len() - k,
    {
        let p = parents[k];
        let node0 = pending.add_node(birth_time);
        let node1 = pending.add_node(birth_time);
        alive.set(p.index, Diploid { node0, node1 });
        let g0 = &gaps[2 * k];
        let g1 = &gaps[2 * k + 1];
        let s = crossover_and_record_edges(&p, (node0, node1), g0, g1, params, pending, rng);
        proof {
            let taken = parents@.take(k + 1);
            assert(taken.drop_last() == parents@.take(k as int));
            assert(taken[k as int] == p);
            let prev_swaps = swaps;
            swaps = swaps.push(s);
            assert(swaps.drop_last() == prev_swaps);
            vstd::seq_lib::lemma_concat_associative::<EdgeRecord>(
                start_edges,
                births_edges(parents@.take(k as int), gaps@, params.genome_length as nat, first_id, prev_swaps),
                parent_mosaic(p.parent0, g0@, params.genome_length as nat, node0, s.0),
            );
            vstd::seq_lib::lemma_concat_associative::<EdgeRecord>(
                start_edges,
                births_edges(parents@.take(k as int), gaps@, params.genome_length as nat, first_id, prev_swaps)
                    + parent_mosaic(p.parent0, g0@, params.genome_length as nat, node0, s.0),
                parent_mosaic(p.parent1, g1@, params.genome_length as nat, node1, s.1),
            );
            assert(pending.node_times@ =~= start_times + Seq::new(2 * (k + 1) as nat, |i: int| birth_time));
        }
        k = k + 1;
    }
    assert(parents@.take(parents@.len() as int) == parents@);
}

} // verus!
