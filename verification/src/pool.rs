//! What the engines need to know of the workers that run them.

use vstd::prelude::*;

verus! {

/// Whether `n` is a power of two.
pub open spec fn is_power_of_two(n: int) -> bool
    decreases n,
{
    if n <= 0 {
        false
    } else if n == 1 {
        true
    } else {
        n % 2 == 0 && is_power_of_two(n / 2)
    }
}

/// The worker pool that the caller runs the engines on: the engines take
/// from it the number of workers, and with it the number of partitions to
/// split their work into.
#[derive(Clone, Copy, Debug)]
pub struct WorkerPool {
    n_threads: usize,
}

impl WorkerPool {
    /// Number of workers of the pool.
    pub closed spec fn threads(&self) -> int {
        self.n_threads as int
    }

    /// The largest power of two that is not above `n`, and 1 for `n == 0`.
    pub open spec fn floor_power_of_two(n: int) -> int
        decreases n,
    {
        if n <= 1 {
            1
        } else {
            2 * Self::floor_power_of_two(n / 2)
        }
    }

    /// The number of partitions that work is split into for the pool.
    pub open spec fn partitions(&self) -> int {
        Self::floor_power_of_two(self.threads())
    }

    /// A pool of `n_threads` workers.
    pub fn new(n_threads: usize) -> (pool: WorkerPool)
        ensures
            pool.threads() == n_threads,
    {
        WorkerPool { n_threads }
    }

    /// Number of workers of the pool.
    pub fn current_num_threads(&self) -> (n: usize)
        ensures
            n == self.threads(),
    {
        self.n_threads
    }

    /// The number of partitions for the pool: the largest power of two that
    /// is not above the number of workers, and 1 for a pool without workers.
    pub fn partition_size(&self) -> (n: usize)
        ensures
            n == self.partitions(),
            n >= 1,
    {
        let mut n: usize = 1;
        let mut rest: usize = self.n_threads;
        while rest > 1
            invariant
                n >= 1,
                n * Self::floor_power_of_two(rest as int) == Self::floor_power_of_two(
                    self.n_threads as int,
                ),
                n * rest <= self.n_threads || rest <= 1,
            decreases rest,
        {
            assert(n * 2 * (rest / 2) <= n * rest) by (nonlinear_arith)
                requires
                    n >= 1,
                    rest >= 0,
            ;
            assert(n * (2 * Self::floor_power_of_two(rest as int / 2)) == (n * 2)
                * Self::floor_power_of_two(rest as int / 2)) by (nonlinear_arith);
            assert(n * 2 <= n * rest) by (nonlinear_arith)
                requires
                    n >= 1,
                    rest >= 2,
            ;
            n = n * 2;
            rest = rest / 2;
        }
        assert(Self::floor_power_of_two(rest as int) == 1);
        assert(n * 1 == n);
        n
    }

    /// The number of partitions is a power of two that is not above the
    /// number of workers, unless the pool has none.
    pub proof fn lemma_partitions(n: int)
        ensures
            Self::floor_power_of_two(n) >= 1,
            is_power_of_two(Self::floor_power_of_two(n)),
            n >= 1 ==> Self::floor_power_of_two(n) <= n < 2 * Self::floor_power_of_two(n),
        decreases n,
    {
        if n > 1 {
            Self::lemma_partitions(n / 2);
        }
    }
}

} // verus!
