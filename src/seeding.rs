use std::collections::HashSet;
use vstd::prelude::*;

use crate::rng::{seeded, uniform_u64};

verus! {

broadcast use vstd::std_specs::hash::group_hash_axioms;

/// How many draws in a row may repeat an earlier seed before the smallest
/// unused value is taken instead.
pub const MAX_REDRAWS: u64 = 1000;

/// A finite set holding every value below `c` has at least `c` elements.
proof fn lemma_prefix_in_set(s: Set<u64>, c: u64)
    requires
        s.finite(),
        forall|v: u64| v < c ==> s.contains(v),
    ensures
        c <= s.len(),
    decreases c,
{
    if c > 0 {
        let top = (c - 1) as u64;
        let rest = s.remove(top);
        assert forall|v: u64| v < top implies rest.contains(v) by {
            assert(s.contains(v));
        }
        lemma_prefix_in_set(rest, top);
        assert(s.contains(top));
    }
}

/// The smallest value that `used` does not hold.
fn smallest_unused(used: &HashSet<u64>, Ghost(count): Ghost<nat>) -> (r: u64)
    requires
        used@.finite(),
        used@.len() == count,
        count < u64::MAX,
    ensures
        !used@.contains(r),
        forall|v: u64| v < r ==> used@.contains(v),
        r <= count,
{
    let mut c: u64 = 0;
    while used.contains(&c)
        invariant
            used@.finite(),
            used@.len() == count,
            count < u64::MAX,
            forall|v: u64| v < c ==> used@.contains(v),
        decreases count - c,
    {
        proof {
            lemma_prefix_in_set(used@, c);
            assert forall|v: u64| v < c + 1 implies used@.contains(v) by {
                if v < c {
                } else {
                    assert(v == c);
                }
            }
            lemma_prefix_in_set(used@, (c + 1) as u64);
        }
        c = c + 1;
    }
    proof {
        lemma_prefix_in_set(used@, c);
    }
    c
}

/// Generate `nseeds` distinct `u64` values from `initial_seed`, one seed for
/// each replicate of a simulation. Each is drawn uniformly from `[0, u64::MAX)`
/// and drawn again while it repeats an earlier one; after `MAX_REDRAWS` repeats
/// in a row the smallest value not yet used is taken instead.
pub fn make_unique_seeds(initial_seed: u64, nseeds: usize) -> (r: Vec<u64>)
    ensures
        r@.len() == nseeds,
        r@.no_duplicates(),
        forall|i: int| 0 <= i < nseeds ==> #[trigger] r@[i] < u64::MAX,
{
    let mut rng = seeded(initial_seed);
    let mut rv: Vec<u64> = Vec::new();
    let mut used_seeds: HashSet<u64> = HashSet::new();
    let mut i: usize = 0;
    while i < nseeds
        invariant
            i <= nseeds,
            rv@.len() == i,
            rv@.no_duplicates(),
            used_seeds@ == rv@.to_set(),
            used_seeds@.finite(),
            used_seeds@.len() == i,
            forall|k: int| 0 <= k < i ==> #[trigger] rv@[k] < u64::MAX,
        decreases nseeds - i,
    {
        let mut repseed = uniform_u64(&mut rng, 0, u64::MAX);
        let mut redraws: u64 = 0;
        while used_seeds.contains(&repseed) && redraws < MAX_REDRAWS
            invariant
                repseed < u64::MAX,
                used_seeds@.finite(),
            decreases MAX_REDRAWS - redraws,
        {
            repseed = uniform_u64(&mut rng, 0, u64::MAX);
            redraws = redraws + 1;
        }
        if used_seeds.contains(&repseed) {
            repseed = smallest_unused(&used_seeds, Ghost(i as nat));
        }
        assert(repseed < u64::MAX);
        proof {
            assert(!rv@.contains(repseed)) by {
                if rv@.contains(repseed) {
                    assert(rv@.to_set().contains(repseed));
                }
            }
        }
        let ghost prev = rv@;
        used_seeds.insert(repseed);
        rv.push(repseed);
        proof {
            assert(rv@ == prev.push(repseed));
            assert forall|k: int| 0 <= k < i + 1 implies #[trigger] rv@[k] < u64::MAX by {
                if k < i {
                    assert(rv@[k] == prev[k]);
                }
            }
            assert forall|v: u64| rv@.to_set().contains(v) <==> used_seeds@.contains(v) by {
                if rv@.contains(v) && v != repseed {
                    let k = choose|k: int| 0 <= k < rv@.len() && rv@[k] == v;
                    assert(prev[k] == v);
                    assert(prev.to_set().contains(v));
                }
                if prev.contains(v) {
                    let k = choose|k: int| 0 <= k < prev.len() && prev[k] == v;
                    assert(rv@[k] == v);
                }
                if used_seeds@.contains(v) && v != repseed {
                    assert(prev.to_set().contains(v));
                }
                if v == repseed {
                    assert(rv@[rv@.len() - 1] == v);
                }
            }
            assert(rv@.to_set() =~= used_seeds@);
        }
        i = i + 1;
    }
    rv
}

} // verus!
