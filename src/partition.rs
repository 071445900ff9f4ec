//! Striped partitioning: worker `w` of `W` owns the indices `w, w + W, w + 2W, ...`.
use vstd::prelude::*;
use vstd::arithmetic::div_mod::{
    lemma_fundamental_div_mod,
    lemma_fundamental_div_mod_converse,
    lemma_mod_pos_bound,
};

verus! {

/// How many of the indices `0..n` worker `w` of `workers` owns.
pub open spec fn stripe_len(n: nat, workers: nat, w: nat) -> nat {
    if w < n {
        ((n - w - 1) as nat / workers + 1) as nat
    } else {
        0
    }
}

/// The indices that worker `w` owns, in increasing order.
pub open spec fn stripe(n: nat, workers: nat, w: nat) -> Seq<nat> {
    Seq::new(stripe_len(n, workers, w), |k: int| (w + k * workers) as nat)
}

/// The `k`-th index of worker `w` lies below `n` exactly when `k` is within its stripe.
pub proof fn lemma_stripe_len(n: nat, workers: nat, w: nat, k: nat)
    requires
        workers > 0,
        w < workers,
    ensures
        (k < stripe_len(n, workers, w)) <==> (w + k * workers < n),
{
    assert(k * workers >= 0) by (nonlinear_arith)
        requires
            workers > 0,
    ;
    if w < n {
        let m = (n - w - 1) as int;
        let q = m / (workers as int);
        let r = m % (workers as int);
        lemma_fundamental_div_mod(m, workers as int);
        lemma_mod_pos_bound(m, workers as int);
        assert(m == q * workers + r) by (nonlinear_arith)
            requires
                m == workers * q + r,
        ;
        if k <= q {
            assert(k * workers <= q * workers) by (nonlinear_arith)
                requires
                    k <= q,
                    workers > 0,
            ;
        } else {
            assert(k * workers >= (q + 1) * workers) by (nonlinear_arith)
                requires
                    k >= q + 1,
                    workers > 0,
            ;
            assert((q + 1) * workers == q * workers + workers) by (nonlinear_arith);
        }
    }
}

/// The chunks of all workers cover `0..n` exactly once: every index of a
/// chunk is below `n`, every index below `n` is in the chunk of worker
/// `i % workers` at position `i / workers`, and no index is in two places.
pub proof fn lemma_stripes_partition(n: nat, workers: nat)
    requires
        workers > 0,
    ensures
        forall|w: nat, k: int|
            w < workers && 0 <= k < stripe(n, workers, w).len() ==> #[trigger] stripe(
                n,
                workers,
                w,
            )[k] < n,
        forall|i: nat|
            i < n ==> {
                &&& #[trigger] (i % workers) < workers
                &&& i / workers < stripe(n, workers, i % workers).len()
                &&& stripe(n, workers, i % workers)[(i / workers) as int] == i
            },
        forall|w1: nat, k1: int, w2: nat, k2: int|
            w1 < workers && w2 < workers && 0 <= k1 < stripe(n, workers, w1).len() && 0 <= k2
                < stripe(n, workers, w2).len() && #[trigger] stripe(n, workers, w1)[k1]
                == #[trigger] stripe(n, workers, w2)[k2] ==> w1 == w2 && k1 == k2,
{
    assert forall|w: nat, k: int|
        w < workers && 0 <= k < stripe(n, workers, w).len() implies #[trigger] stripe(
        n,
        workers,
        w,
    )[k] < n by {
        lemma_stripe_len(n, workers, w, k as nat);
    }
    assert forall|i: nat| i < n implies {
        &&& #[trigger] (i % workers) < workers
        &&& i / workers < stripe(n, workers, i % workers).len()
        &&& stripe(n, workers, i % workers)[(i / workers) as int] == i
    } by {
        lemma_fundamental_div_mod(i as int, workers as int);
        lemma_mod_pos_bound(i as int, workers as int);
        let w = i % workers;
        let k = i / workers;
        assert(w + k * workers == i) by (nonlinear_arith)
            requires
                i == workers * k + w,
        ;
        lemma_stripe_len(n, workers, w, k);
    }
    assert forall|w1: nat, k1: int, w2: nat, k2: int|
        w1 < workers && w2 < workers && 0 <= k1 < stripe(n, workers, w1).len() && 0 <= k2
            < stripe(n, workers, w2).len() && #[trigger] stripe(n, workers, w1)[k1]
            == #[trigger] stripe(n, workers, w2)[k2] implies w1 == w2 && k1 == k2 by {
        let x = w1 + k1 * workers;
        assert(k1 * workers >= 0 && k2 * workers >= 0) by (nonlinear_arith)
            requires
                k1 >= 0,
                k2 >= 0,
                workers > 0,
        ;
        lemma_fundamental_div_mod_converse(x, workers as int, k1, w1 as int);
        lemma_fundamental_div_mod_converse(x, workers as int, k2, w2 as int);
    }
}

/// The number of indices below `pixel_count` that worker `worker_id` owns.
pub fn stripe_length(pixel_count: u32, num_workers: u32, worker_id: u32) -> (r: usize)
    requires
        num_workers > 0,
    ensures
        r == stripe_len(pixel_count as nat, num_workers as nat, worker_id as nat),
{
    if worker_id < pixel_count {
        ((pixel_count - worker_id - 1) / num_workers + 1) as usize
    } else {
        0
    }
}

/// The pixel indices that worker `worker_id` of `num_workers` owns.
pub fn work_chunk(pixel_count: u32, num_workers: u32, worker_id: u32) -> (r: Vec<u32>)
    requires
        worker_id < num_workers,
    ensures
        r@.len() == stripe_len(pixel_count as nat, num_workers as nat, worker_id as nat),
        forall|k: int|
            0 <= k < r@.len() ==> r@[k] as nat == #[trigger] stripe(
                pixel_count as nat,
                num_workers as nat,
                worker_id as nat,
            )[k],
{
    let ghost s = stripe(pixel_count as nat, num_workers as nat, worker_id as nat);
    let mut r: Vec<u32> = Vec::new();
    let mut i: u64 = worker_id as u64;
    proof {
        lemma_stripe_len(pixel_count as nat, num_workers as nat, worker_id as nat, 0);
    }
    while i < pixel_count as u64
        invariant
            worker_id < num_workers,
            i == worker_id + r@.len() * num_workers,
            r@.len() <= s.len(),
            i < pixel_count ==> r@.len() < s.len(),
            i >= pixel_count ==> r@.len() == s.len(),
            s == stripe(pixel_count as nat, num_workers as nat, worker_id as nat),
            forall|k: int| 0 <= k < r@.len() ==> r@[k] as nat == #[trigger] s[k],
        decreases s.len() - r@.len(),
    {
        let ghost k = r@.len();
        r.push(i as u32);
        i = i + num_workers as u64;
        proof {
            assert(i == worker_id + (k + 1) * num_workers) by (nonlinear_arith)
                requires
                    i == worker_id + k * num_workers + num_workers,
            ;
            lemma_stripe_len(pixel_count as nat, num_workers as nat, worker_id as nat, k + 1);
        }
    }
    r
}

} // verus!
