//! The run loop: warm-up runs first, then timed runs, round-robin over the pool.

use std::time::Instant;
use vstd::prelude::*;

verus! {

/// One timed run: its place among the timed runs and how long the kernel took.
#[derive(Clone, Copy, Debug, PartialEq, Eq)]
pub struct TimingSample {
    /// The number of this run among the timed runs, from zero.
    pub run_index: usize,
    /// The wall-clock time of the kernel's invocation, in nanoseconds.
    pub elapsed_nanos: u128,
}

/// `std::time::Instant`, a reading of the clock: carried from the start of an
/// invocation to its end, and never looked into.
#[verifier::external_type_specification]
#[verifier::external_body]
pub struct ExInstant(Instant);

/// `Instant::now` reads the clock: nothing is claimed of the instant it returns.
pub assume_specification[ Instant::now ]() -> Instant;

/// `Instant::elapsed` reads the clock again: nothing is claimed of the duration
/// it returns.
pub assume_specification[ Instant::elapsed ](start: &Instant) -> core::time::Duration;

/// `Duration::as_nanos` gives the duration as a count of nanoseconds; a duration
/// is opaque here, so nothing is claimed of the count.
pub assume_specification[ core::time::Duration::as_nanos ](duration: &core::time::Duration) -> u128;

/// The input that iteration `i` runs on: the pool is walked round-robin.
pub open spec fn pool_index(i: int, pool_size: int) -> int {
    i % pool_size
}

/// Whether iteration `i` is a warm-up run, which is made and not reported.
pub open spec fn is_warmup(i: int, warmup_iterations: int) -> bool {
    i < warmup_iterations
}

/// The iteration that produced the timed run `run_index`.
pub open spec fn iteration_of(run_index: int, warmup_iterations: int) -> int {
    warmup_iterations + run_index
}

/// The kernel was seen to return a result on this input.
pub open spec fn succeeds_on<I, R, E, K: Fn(&I) -> Result<R, E>>(kernel: K, input: I) -> bool {
    exists|out: R| call_ensures(kernel, (&input,), Ok::<R, E>(out))
}

/// The kernel was seen to fail with `error` on this input.
pub open spec fn fails_on<I, R, E, K: Fn(&I) -> Result<R, E>>(kernel: K, input: I, error: E) -> bool {
    call_ensures(kernel, (&input,), Err::<R, E>(error))
}

/// The input of iteration `i`.
pub open spec fn scheduled<I>(pool: Seq<I>, i: int) -> I {
    pool[pool_index(i, pool.len() as int)]
}

/// Every iteration before `upto` invoked the kernel on its scheduled input and
/// got a result.
pub open spec fn completed<I, R, E, K: Fn(&I) -> Result<R, E>>(
    kernel: K,
    pool: Seq<I>,
    upto: int,
) -> bool {
    forall|i: int| 0 <= i < upto ==> succeeds_on(kernel, #[trigger] scheduled(pool, i))
}

/// Iteration `i` was the first on which the kernel failed, and it failed with
/// `error`.
pub open spec fn stopped_at<I, R, E, K: Fn(&I) -> Result<R, E>>(
    kernel: K,
    pool: Seq<I>,
    i: int,
    error: E,
) -> bool {
    &&& completed(kernel, pool, i)
    &&& fails_on(kernel, scheduled(pool, i), error)
}

/// The kernel failed with `error` on one of the first `total` iterations, after
/// every earlier one had returned a result.
pub open spec fn aborted<I, R, E, K: Fn(&I) -> Result<R, E>>(
    kernel: K,
    pool: Seq<I>,
    total: int,
    error: E,
) -> bool {
    exists|i: int| 0 <= i && i < total && #[trigger] stopped_at(kernel, pool, i, error)
}

/// The samples of `count` timed runs, in run order: run `j` is at place `j`.
pub open spec fn in_run_order(samples: Seq<TimingSample>, count: int) -> bool {
    &&& samples.len() == count
    &&& forall|j: int| 0 <= j < count ==> (#[trigger] samples[j]).run_index == j
}

/// How many timed runs were made in the first `i` iterations.
pub open spec fn timed_before(i: int, warmup_iterations: int) -> int {
    if i <= warmup_iterations {
        0
    } else {
        i - warmup_iterations
    }
}

/// The state of a run between two invocations of the kernel: how many were
/// made, and the samples of the timed ones among them.
#[derive(Clone, Debug)]
pub struct RunLoop {
    /// How many inputs the pool holds.
    pub pool_size: usize,
    /// How many runs are made, and not reported, before timing starts.
    pub warmup_iterations: usize,
    /// How many invocations the run has in all.
    pub total_iterations: usize,
    /// How many invocations were made so far.
    pub iteration: usize,
    /// The samples of the timed runs made so far, in run order.
    pub samples: Vec<TimingSample>,
}

impl RunLoop {
    /// The pool is not empty, the run is not past its end, and there is one
    /// sample for each timed run made so far, in run order: none while the
    /// warm-up lasts.
    pub open spec fn well_formed(&self) -> bool {
        &&& self.pool_size > 0
        &&& self.warmup_iterations <= self.total_iterations
        &&& self.iteration <= self.total_iterations
        &&& in_run_order(
            self.samples@,
            timed_before(self.iteration as int, self.warmup_iterations as int),
        )
    }

    /// The same run as `before`, at a later or earlier moment.
    pub open spec fn same_run(&self, before: &RunLoop) -> bool {
        &&& self.pool_size == before.pool_size
        &&& self.warmup_iterations == before.warmup_iterations
        &&& self.total_iterations == before.total_iterations
    }

    /// A run of `warmup_iterations` warm-up runs and then `repeats_per_input`
    /// timed runs of each of the pool's inputs, before its first invocation.
    pub fn new(pool_size: usize, warmup_iterations: usize, repeats_per_input: usize) -> (run: RunLoop)
        requires
            pool_size > 0,
            warmup_iterations + pool_size * repeats_per_input <= usize::MAX,
        ensures
            run.well_formed(),
            run.pool_size == pool_size,
            run.warmup_iterations == warmup_iterations,
            run.total_iterations == warmup_iterations + pool_size * repeats_per_input,
            run.iteration == 0,
            run.samples@ == Seq::<TimingSample>::empty(),
    {
        assert(0 <= pool_size * repeats_per_input <= usize::MAX) by (nonlinear_arith)
            requires
                warmup_iterations + pool_size * repeats_per_input <= usize::MAX,
        ;
        RunLoop {
            pool_size,
            warmup_iterations,
            total_iterations: warmup_iterations + pool_size * repeats_per_input,
            iteration: 0,
            samples: Vec::new(),
        }
    }

    /// The place in the pool of the input to invoke the kernel on next, or
    /// `None` once every invocation was made.
    pub fn next_input(&self) -> (next: Option<usize>)
        requires
            self.well_formed(),
        ensures
            next == if self.iteration < self.total_iterations {
                Some(pool_index(self.iteration as int, self.pool_size as int) as usize)
            } else {
                None
            },
            next matches Some(index) ==> index < self.pool_size,
    {
        if self.iteration < self.total_iterations {
            Some(self.iteration % self.pool_size)
        } else {
            None
        }
    }

    /// Takes note of one invocation of the kernel and of the time it took. A
    /// warm-up run is counted and leaves no sample; a timed run leaves one,
    /// numbered from zero in the order of the timed runs.
    pub fn record(&mut self, elapsed_nanos: u128)
        requires
            old(self).well_formed(),
            old(self).iteration < old(self).total_iterations,
        ensures
            final(self).well_formed(),
            final(self).same_run(old(self)),
            final(self).iteration == old(self).iteration + 1,
            final(self).samples@ == if is_warmup(
                old(self).iteration as int,
                old(self).warmup_iterations as int,
            ) {
                old(self).samples@
            } else {
                old(self).samples@.push(
                    TimingSample {
                        run_index: (old(self).iteration - old(self).warmup_iterations) as usize,
                        elapsed_nanos,
                    },
                )
            },
    {
        if self.iteration >= self.warmup_iterations {
            self.samples.push(
                TimingSample { run_index: self.iteration - self.warmup_iterations, elapsed_nanos },
            );
        }
        self.iteration = self.iteration + 1;
    }

    /// The samples of a run that has made every invocation: one for each
    /// timed run, in run order.
    pub fn into_samples(self) -> (samples: Vec<TimingSample>)
        requires
            self.well_formed(),
            self.iteration == self.total_iterations,
        ensures
            samples@ == self.samples@,
            in_run_order(samples@, self.total_iterations - self.warmup_iterations),
    {
        self.samples
    }

    /// While the warm-up lasts there is no sample, however many invocations
    /// were made.
    pub proof fn lemma_warmup_leaves_no_sample(self)
        requires
            self.well_formed(),
            self.iteration <= self.warmup_iterations,
        ensures
            self.samples@.len() == 0,
    {
    }

    /// A sample's number tells the iteration that made it: the runs before
    /// it are the warm-up runs and the earlier timed runs.
    pub proof fn lemma_sample_iteration(self, j: int)
        requires
            self.well_formed(),
            0 <= j < self.samples@.len(),
        ensures
            iteration_of(self.samples@[j].run_index as int, self.warmup_iterations as int) < self.iteration,
            !is_warmup(
                iteration_of(self.samples@[j].run_index as int, self.warmup_iterations as int),
                self.warmup_iterations as int,
            ),
    {
    }
}

/// Runs the kernel `warmup_iterations + pool.len() * repeats_per_input` times,
/// iteration `i` on the input `i % pool.len()`, one after the other, and times
/// each invocation. The first `warmup_iterations` invocations are made and
/// leave no sample; every later one leaves exactly one, in order. The first
/// failure of the kernel ends the run and is returned in place of any sample.
pub fn execute<I, R, E, K: Fn(&I) -> Result<R, E>>(
    pool: &Vec<I>,
    kernel: K,
    warmup_iterations: usize,
    repeats_per_input: usize,
) -> (r: Result<Vec<TimingSample>, E>)
    requires
        pool.len() > 0,
        warmup_iterations + pool.len() * repeats_per_input <= usize::MAX,
        forall|k: int| 0 <= k < pool.len() ==> call_requires(kernel, (&#[trigger] pool[k],)),
    ensures
        r matches Ok(samples) ==> {
            &&& in_run_order(samples@, pool.len() * repeats_per_input)
            &&& completed(kernel, pool@, warmup_iterations + pool.len() * repeats_per_input)
        },
        r matches Err(error) ==> aborted(
            kernel,
            pool@,
            warmup_iterations + pool.len() * repeats_per_input,
            error,
        ),
{
    let mut run = RunLoop::new(pool.len(), warmup_iterations, repeats_per_input);
    loop
        invariant
            run.well_formed(),
            run.pool_size == pool.len(),
            run.warmup_iterations == warmup_iterations,
            run.total_iterations == warmup_iterations + pool.len() * repeats_per_input,
            forall|k: int| 0 <= k < pool.len() ==> call_requires(kernel, (&#[trigger] pool[k],)),
            completed(kernel, pool@, run.iteration as int),
        decreases run.total_iterations - run.iteration,
    {
        let index = match run.next_input() {
            Some(index) => index,
            None => {
                return Ok(run.into_samples());
            },
        };
        let ghost i = run.iteration as int;
        let start = Instant::now();
        let outcome = kernel(&pool[index]);
        let elapsed = start.elapsed().as_nanos();
        match outcome {
            Ok(_) => {
                assert(succeeds_on(kernel, scheduled(pool@, i)));
            },
            Err(error) => {
                assert(stopped_at(kernel, pool@, i, error));
                assert(aborted(kernel, pool@, run.total_iterations as int, error));
                return Err(error);
            },
        }
        run.record(elapsed);
    }
}

} // verus!
