use vstd::prelude::*;

verus! {

/// A half-open range `[start, end)` of replicate ordinals given to one worker.
#[derive(Clone, Copy, Debug, PartialEq, Eq, Structural)]
pub struct Batch {
    pub start: usize,
    pub end: usize,
}

/// Split `nreps` replicates among `nthreads` workers in contiguous ranges, in
/// order: each worker but the last gets `nreps / nthreads` of them, and the
/// last also gets the remainder.
pub fn partition_replicates(nreps: usize, nthreads: usize) -> (r: Vec<Batch>)
    requires
        0 < nthreads,
    ensures
        r@.len() == nthreads,
        r@[0].start == 0,
        r@[nthreads - 1].end == nreps,
        forall|k: int| 0 <= k < nthreads - 1 ==> #[trigger] r@[k].end == r@[k + 1].start,
        forall|k: int|
            0 <= k < nthreads - 1 ==> #[trigger] r@[k].end - r@[k].start == nreps / nthreads,
        r@[nthreads - 1].end - r@[nthreads - 1].start == nreps / nthreads + nreps % nthreads,
{
    let per_thread = nreps / nthreads;
    let mut r: Vec<Batch> = Vec::new();
    let mut start: usize = 0;
    let mut k: usize = 0;
    proof {
        vstd::arithmetic::div_mod::lemma_fundamental_div_mod(nreps as int, nthreads as int);
    }
    while k < nthreads - 1
        invariant
            0 < nthreads,
            per_thread == nreps / nthreads,
            nreps == nthreads * per_thread + nreps % nthreads,
            k <= nthreads - 1,
            start == k * per_thread,
            r@.len() == k,
            k > 0 ==> r@[0].start == 0,
            k > 0 ==> r@[k - 1].end == start,
            forall|j: int| 0 <= j < k - 1 ==> #[trigger] r@[j].end == r@[j + 1].start,
            forall|j: int| 0 <= j < k ==> #[trigger] r@[j].end - r@[j].start == per_thread,
        decreases nthreads - 1 - k,
    {
        proof {
            vstd::arithmetic::mul::lemma_mul_inequality(k + 1, nthreads as int, per_thread as int);
            vstd::arithmetic::mul::lemma_mul_is_distributive_add_other_way(per_thread as int, k as int, 1);
        }
        r.push(Batch { start, end: start + per_thread });
        start = start + per_thread;
        k = k + 1;
    }
    proof {
        vstd::arithmetic::mul::lemma_mul_inequality((nthreads - 1) as int, nthreads as int, per_thread as int);
        vstd::arithmetic::mul::lemma_mul_is_distributive_add_other_way(per_thread as int, (nthreads - 1) as int, 1);
    }
    r.push(Batch { start, end: nreps });
    r
}

} // verus!
