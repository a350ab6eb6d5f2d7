//! Round-robin distribution of accepted connections over a fixed pool of
//! workers.
//!
//! The accept loop owns a single counter; each accepted connection goes to
//! worker `counter`, and the counter then steps to the next worker, wrapping
//! at the pool size. Connections never migrate once assigned.

use vstd::prelude::*;

verus! {

/// The worker after `next` in a pool of `pool` workers.
pub open spec fn spec_rr_next(next: nat, pool: nat) -> nat {
    if next + 1 == pool {
        0
    } else {
        next + 1
    }
}

/// The workers the next `k` connections go to, starting with worker `next`:
/// assignment `i` is listed at position `i`, in arrival order.
pub open spec fn spec_rr_run(next: nat, pool: nat, k: nat) -> Seq<nat>
    decreases k,
{
    if k == 0 {
        Seq::<nat>::empty()
    } else {
        seq![next] + spec_rr_run(spec_rr_next(next, pool), pool, (k - 1) as nat)
    }
}

/// How many entries of `s` equal `w`.
pub open spec fn spec_count_eq(s: Seq<nat>, w: nat) -> nat
    decreases s.len(),
{
    if s.len() == 0 {
        0
    } else {
        (if s[0] == w {
            1nat
        } else {
            0nat
        }) + spec_count_eq(s.drop_first(), w)
    }
}

/// The counter state after `k` assignments from `next`.
pub open spec fn spec_rr_after(next: nat, pool: nat, k: nat) -> nat
    decreases k,
{
    if k == 0 {
        next
    } else {
        spec_rr_after(spec_rr_next(next, pool), pool, (k - 1) as nat)
    }
}

/// Counts add over concatenation.
proof fn lemma_count_concat(a: Seq<nat>, b: Seq<nat>, w: nat)
    ensures
        spec_count_eq(a + b, w) == spec_count_eq(a, w) + spec_count_eq(b, w),
    decreases a.len(),
{
    if a.len() == 0 {
        assert(a + b =~= b);
    } else {
        assert((a + b).drop_first() =~= a.drop_first() + b);
        lemma_count_concat(a.drop_first(), b, w);
    }
}

/// A run splits into its first `k1` assignments and the rest, continued
/// from the counter state the first part ends in.
proof fn lemma_rr_run_split(next: nat, pool: nat, k1: nat, k2: nat)
    requires
        pool > 0,
    ensures
        spec_rr_run(next, pool, k1 + k2) == spec_rr_run(next, pool, k1) + spec_rr_run(
            spec_rr_after(next, pool, k1),
            pool,
            k2,
        ),
    decreases k1,
{
    if k1 == 0 {
        assert(spec_rr_run(next, pool, k2) =~= spec_rr_run(next, pool, 0) + spec_rr_run(
            next,
            pool,
            k2,
        ));
    } else {
        lemma_rr_run_split(spec_rr_next(next, pool), pool, (k1 - 1) as nat, k2);
        assert(seq![next] + (spec_rr_run(spec_rr_next(next, pool), pool, (k1 - 1) as nat)
            + spec_rr_run(spec_rr_after(next, pool, k1), pool, k2)) =~= (seq![next] + spec_rr_run(
            spec_rr_next(next, pool),
            pool,
            (k1 - 1) as nat,
        )) + spec_rr_run(spec_rr_after(next, pool, k1), pool, k2));
    }
}

/// While no wrap occurs, a run is the ramp `next, next + 1, ...` and its
/// final counter state is `next + k` (or `0` exactly at the wrap).
proof fn lemma_rr_ramp(next: nat, pool: nat, k: nat)
    requires
        0 < pool,
        next < pool,
        next + k <= pool,
    ensures
        spec_rr_run(next, pool, k).len() == k,
        forall|i: int| 0 <= i < k ==> spec_rr_run(next, pool, k)[i] == next + i,
        spec_rr_after(next, pool, k) == if next + k == pool {
            0nat
        } else {
            (next + k) as nat
        },
    decreases k,
{
    if k == 0 {
    } else {
        if next + 1 == pool {
            assert(k == 1);
            lemma_rr_ramp(0, pool, 0);
        } else {
            lemma_rr_ramp((next + 1) as nat, pool, (k - 1) as nat);
            assert forall|i: int| 0 <= i < k implies spec_rr_run(next, pool, k)[i] == next + i by {
                if i > 0 {
                    assert(spec_rr_run(next, pool, k)[i] == spec_rr_run(
                        (next + 1) as nat,
                        pool,
                        (k - 1) as nat,
                    )[i - 1]);
                }
            }
        }
    }
}

/// A ramp `next, ..., next + k - 1` contains `w` once if `w` lies in it and
/// never otherwise.
proof fn lemma_ramp_count(next: nat, pool: nat, k: nat, w: nat)
    requires
        0 < pool,
        next < pool,
        next + k <= pool,
    ensures
        spec_count_eq(spec_rr_run(next, pool, k), w) == if next <= w < next + k {
            1nat
        } else {
            0nat
        },
    decreases k,
{
    lemma_rr_ramp(next, pool, k);
    if k == 0 {
    } else {
        let run = spec_rr_run(next, pool, k);
        assert(run[0] == next);
        if next + 1 == pool {
            assert(k == 1);
            assert(run =~= seq![next] + spec_rr_run(0, pool, 0));
            assert(run.drop_first() =~= spec_rr_run(0, pool, 0));
            assert(spec_count_eq(run.drop_first(), w) == 0);
            assert(spec_count_eq(run, w) == (if run[0] == w {
                1nat
            } else {
                0nat
            }) + spec_count_eq(run.drop_first(), w));
        } else {
            lemma_ramp_count((next + 1) as nat, pool, (k - 1) as nat, w);
            assert(run.drop_first() =~= spec_rr_run((next + 1) as nat, pool, (k - 1) as nat));
            assert(spec_count_eq(run, w) == (if run[0] == w {
                1nat
            } else {
                0nat
            }) + spec_count_eq(run.drop_first(), w));
            assert(spec_count_eq(run.drop_first(), w) == (if next + 1 <= w < next + k {
                1nat
            } else {
                0nat
            }));
        }
    }
}

/// One full round from any counter state visits every worker exactly once.
proof fn lemma_one_round_count(next: nat, pool: nat, w: nat)
    requires
        0 < pool,
        next < pool,
        w < pool,
    ensures
        spec_count_eq(spec_rr_run(next, pool, pool), w) == 1,
        spec_rr_after(next, pool, pool) == next,
{
    let k1 = (pool - next) as nat;
    let k2 = next;
    lemma_rr_run_split(next, pool, k1, k2);
    lemma_rr_ramp(next, pool, k1);
    assert(spec_rr_after(next, pool, k1) == 0);
    lemma_rr_ramp(0, pool, k2);
    lemma_ramp_count(next, pool, k1, w);
    lemma_ramp_count(0, pool, k2, w);
    lemma_count_concat(
        spec_rr_run(next, pool, k1),
        spec_rr_run(spec_rr_after(next, pool, k1), pool, k2),
        w,
    );
    // the counter returns to where the round began
    lemma_rr_after_split(next, pool, k1, k2);
}

/// Counter states compose over consecutive runs.
proof fn lemma_rr_after_split(next: nat, pool: nat, k1: nat, k2: nat)
    ensures
        spec_rr_after(next, pool, k1 + k2) == spec_rr_after(
            spec_rr_after(next, pool, k1),
            pool,
            k2,
        ),
    decreases k1,
{
    if k1 == 0 {
    } else {
        lemma_rr_after_split(spec_rr_next(next, pool), pool, (k1 - 1) as nat, k2);
    }
}

/// Round-robin fairness: across `m * pool` consecutive connections, every
/// worker receives exactly `m` of them — and, the run listing assignments
/// in arrival order, each worker receives its share in arrival order.
pub proof fn lemma_round_robin_fair(next: nat, pool: nat, m: nat, w: nat)
    requires
        0 < pool,
        next < pool,
        w < pool,
    ensures
        spec_count_eq(spec_rr_run(next, pool, m * pool), w) == m,
        spec_rr_after(next, pool, m * pool) == next,
    decreases m,
{
    if m == 0 {
        assert(m * pool == 0) by (nonlinear_arith)
            requires
                m == 0,
        ;
    } else {
        assert(m * pool == pool + (m - 1) * pool) by (nonlinear_arith);
        lemma_rr_run_split(next, pool, pool, ((m - 1) as nat) * pool);
        lemma_rr_after_split(next, pool, pool, ((m - 1) as nat) * pool);
        lemma_one_round_count(next, pool, w);
        lemma_round_robin_fair(next, pool, (m - 1) as nat, w);
        lemma_count_concat(
            spec_rr_run(next, pool, pool),
            spec_rr_run(next, pool, ((m - 1) as nat) * pool),
            w,
        );
    }
}

/// Relies on `num_cpus::get`: the number of logical processors available to
/// this process, which its documentation promises is at least 1.
#[verifier::external_body]
fn detected_cpus() -> (n: usize)
    ensures
        1 <= n,
{
    num_cpus::get()
}

/// The accept loop's round-robin counter over a fixed pool of workers.
pub struct DispatchCounter {
    next: usize,
    pool: usize,
}

impl DispatchCounter {
    /// The worker the next connection goes to.
    pub closed spec fn spec_next(&self) -> nat {
        self.next as nat
    }

    /// The number of workers.
    pub closed spec fn spec_pool(&self) -> nat {
        self.pool as nat
    }

    /// The counter is within its pool.
    pub closed spec fn wf(&self) -> bool {
        self.next < self.pool
    }

    /// A counter over `pool` workers, starting at worker 0.
    pub fn new(pool: usize) -> (r: DispatchCounter)
        requires
            pool >= 1,
        ensures
            r.wf(),
            r.spec_pool() == pool,
            r.spec_next() == 0,
    {
        DispatchCounter { next: 0, pool }
    }

    /// A counter over one worker per detected processor.
    pub fn for_detected_cpus() -> (r: DispatchCounter)
        ensures
            r.wf(),
            r.spec_pool() >= 1,
            r.spec_next() == 0,
    {
        DispatchCounter { next: 0, pool: detected_cpus() }
    }

    /// The number of workers.
    pub fn pool(&self) -> (r: usize)
        ensures
            r == self.spec_pool(),
    {
        self.pool
    }

    /// Assigns the next connection: returns the worker it goes to and steps
    /// the counter to the following worker.
    pub fn advance(&mut self) -> (w: usize)
        requires
            old(self).wf(),
        ensures
            final(self).wf(),
            final(self).spec_pool() == old(self).spec_pool(),
            w == old(self).spec_next(),
            final(self).spec_next() == spec_rr_next(old(self).spec_next(), old(self).spec_pool()),
    {
        let w = self.next;
        if self.next + 1 == self.pool {
            self.next = 0;
        } else {
            self.next = self.next + 1;
        }
        w
    }

    /// Assigns the next `k` connections in arrival order: result `i` is the
    /// worker connection `i` goes to, as `spec_rr_run` lists them.
    pub fn assign_many(&mut self, k: usize) -> (ws: Vec<usize>)
        requires
            old(self).wf(),
        ensures
            final(self).wf(),
            final(self).spec_pool() == old(self).spec_pool(),
            ws@.map_values(|w: usize| w as nat) == spec_rr_run(
                old(self).spec_next(),
                old(self).spec_pool(),
                k as nat,
            ),
            final(self).spec_next() == spec_rr_after(
                old(self).spec_next(),
                old(self).spec_pool(),
                k as nat,
            ),
    {
        let ghost start = self.spec_next();
        let ghost pool = self.spec_pool();
        let mut ws: Vec<usize> = Vec::new();
        let mut i: usize = 0;
        proof {
            assert(ws@.map_values(|w: usize| w as nat) =~= spec_rr_run(start, pool, 0));
        }
        while i < k
            invariant
                i <= k,
                self.wf(),
                self.spec_pool() == pool,
                pool == old(self).spec_pool(),
                start == old(self).spec_next(),
                ws@.map_values(|w: usize| w as nat) == spec_rr_run(start, pool, i as nat),
                self.spec_next() == spec_rr_after(start, pool, i as nat),
            decreases k - i,
        {
            let ghost before = self.spec_next();
            let w = self.advance();
            let ghost old_ws = ws@.map_values(|x: usize| x as nat);
            ws.push(w);
            proof {
                lemma_rr_run_split(start, pool, i as nat, 1);
                assert(spec_rr_run(spec_rr_next(before, pool), pool, 0) =~= Seq::<nat>::empty());
                assert(spec_rr_run(before, pool, 1) =~= seq![before]);
                assert(spec_rr_after(spec_rr_next(before, pool), pool, 0) == spec_rr_next(
                    before,
                    pool,
                ));
                assert(spec_rr_after(before, pool, 1) == spec_rr_next(before, pool));
                assert(spec_rr_run(start, pool, i as nat + 1) =~= spec_rr_run(start, pool, i as nat)
                    + seq![before]);
                assert(ws@.map_values(|x: usize| x as nat) =~= old_ws.push(w as nat));
                assert(old_ws.push(before) =~= old_ws + seq![before]);
                lemma_rr_after_split(start, pool, i as nat, 1);
            }
            i += 1;
        }
        ws
    }
}

} // verus!
