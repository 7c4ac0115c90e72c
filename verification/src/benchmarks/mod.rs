//! Running one benchmark: the pool of inputs is made, the kernel is run over
//! it, and the samples are put together with the settings into a report.

pub mod matrix_mul;
pub mod reduction;

use crate::config::{BaseConfig, BenchmarkConfig, BenchmarkKind, ConfigError};
use crate::engine::{aborted, completed, execute};
use crate::report::Report;
use crate::text::{zero_padded, zero_padded_text};
use vstd::prelude::*;

verus! {

/// Why a benchmark produced no report.
#[derive(Clone, Copy, Debug, PartialEq, Eq)]
pub enum RunError<E> {
    /// The settings were turned down before anything was run.
    Config(ConfigError),
    /// The kernel failed; the run ended there.
    Kernel(E),
}

/// The digits of an input's number in a file name.
pub const INDEX_DIGITS: usize = 3;

/// The file that holds the operand `operand` of input `k` of a benchmark:
/// under the input directory, in the directory of the benchmark's name, the
/// operand's letter and the input's number in at least three digits.
pub open spec fn input_file(
    input_dir: Seq<char>,
    benchmark: Seq<char>,
    operand: Seq<char>,
    k: nat,
) -> Seq<char> {
    input_dir + "/"@ + benchmark + "/"@ + operand + "_"@ + zero_padded(k, INDEX_DIGITS as nat)
        + ".npy"@
}

/// The path of the file that holds the operand `operand` of input `k`.
pub fn input_path(input_dir: &str, kind: BenchmarkKind, operand: &str, k: usize) -> (path: String)
    ensures
        path@ == input_file(input_dir@, kind.spec_name(), operand@, k as nat),
{
    let mut path = input_dir.to_owned();
    path.append("/");
    path.append(kind.name());
    path.append("/");
    path.append(operand);
    path.append("_");
    path.append(zero_padded_text(k as u128, INDEX_DIGITS).as_str());
    path.append(".npy");
    path
}

/// The maker gave `input` for the input `k`.
pub open spec fn made_by<I, E, M: Fn(usize) -> Result<I, E>>(make: M, k: int, input: I) -> bool {
    call_ensures(make, (k as usize,), Ok::<I, E>(input))
}

/// The maker failed with `error` on the input `k`.
pub open spec fn refused_by<I, E, M: Fn(usize) -> Result<I, E>>(make: M, k: int, error: E) -> bool {
    call_ensures(make, (k as usize,), Err::<I, E>(error))
}

/// The maker failed on one of the first `num_inputs` inputs.
pub open spec fn refused<I, E, M: Fn(usize) -> Result<I, E>>(
    make: M,
    num_inputs: int,
    error: E,
) -> bool {
    exists|k: int| 0 <= k && k < num_inputs && #[trigger] refused_by(make, k, error)
}

/// Makes the pool before anything is timed: the inputs `0` to `num_inputs - 1`,
/// each made once, in order, by `make`, which generates or loads one input.
/// The first failure ends the making and is returned in place of the pool.
pub fn materialize<I, E, M: Fn(usize) -> Result<I, E>>(num_inputs: usize, make: M) -> (r: Result<
    Vec<I>,
    E,
>)
    requires
        forall|k: usize| k < num_inputs ==> call_requires(make, (k,)),
    ensures
        r matches Ok(pool) ==> {
            &&& pool.len() == num_inputs
            &&& forall|k: int| 0 <= k < num_inputs ==> made_by(make, k, #[trigger] pool[k])
        },
        r matches Err(error) ==> refused(make, num_inputs as int, error),
{
    let mut pool: Vec<I> = Vec::new();
    let mut k: usize = 0;
    while k < num_inputs
        invariant
            k <= num_inputs,
            pool.len() == k,
            forall|k: usize| k < num_inputs ==> call_requires(make, (k,)),
            forall|i: int| 0 <= i < k ==> made_by(make, i, #[trigger] pool[i]),
        decreases num_inputs - k,
    {
        match make(k) {
            Ok(input) => {
                pool.push(input);
            },
            Err(error) => {
                assert(refused_by(make, k as int, error));
                assert(refused(make, num_inputs as int, error));
                return Err(error);
            },
        }
        k = k + 1;
    }
    Ok(pool)
}

/// One generated input, its elements in hundredths.
#[derive(Clone, Debug, PartialEq, Eq)]
pub enum Input {
    /// The two matrices of a product, each by rows.
    Matrices { a: Vec<Vec<u8>>, b: Vec<Vec<u8>> },
    /// The vector of a sum.
    Vector { x: Vec<u8> },
}

impl Input {
    /// The operands of the input, each by rows; a vector is one row.
    pub open spec fn operands(&self) -> Seq<Seq<Seq<u8>>> {
        match self {
            Input::Matrices { a, b } => seq![matrix_mul::rows_of(a@), matrix_mul::rows_of(b@)],
            Input::Vector { x } => seq![seq![x@]],
        }
    }
}

/// The operands of every generated input of a benchmark. They depend on the
/// kernel and the size of its inputs alone.
pub open spec fn generated_operands(benchmark: BenchmarkConfig) -> Seq<Seq<Seq<u8>>> {
    match benchmark.kind {
        BenchmarkKind::MatrixMul => seq![
            matrix_mul::generated(false, benchmark.size as nat),
            matrix_mul::generated(true, benchmark.size as nat),
        ],
        BenchmarkKind::Reduction => seq![seq![reduction::generated(benchmark.size as nat)]],
    }
}

/// Generates one input of a benchmark. A size that the machine's word does
/// not hold is an error.
pub fn generate_input(benchmark: &BenchmarkConfig) -> (r: Result<Input, ConfigError>)
    ensures
        benchmark.size <= usize::MAX ==> r is Ok,
        r matches Ok(input) ==> input.operands() == generated_operands(*benchmark),
        benchmark.size > usize::MAX ==> r == Err::<Input, ConfigError>(ConfigError::SizeTooLarge),
{
    if benchmark.size > usize::MAX as u64 {
        return Err(ConfigError::SizeTooLarge);
    }
    let n = benchmark.size as usize;
    match benchmark.kind {
        BenchmarkKind::MatrixMul => {
            let a = matrix_mul::generate_a(n);
            let b = matrix_mul::generate_b(n);
            Ok(Input::Matrices { a, b })
        },
        BenchmarkKind::Reduction => {
            let x = reduction::generate_x(n);
            Ok(Input::Vector { x })
        },
    }
}

/// Generates the pool of a benchmark: `num_inputs` inputs, each generated
/// from the kernel and the size of its inputs alone, whatever the seed.
pub fn generate_pool(benchmark: &BenchmarkConfig, base: &BaseConfig) -> (r: Result<
    Vec<Input>,
    ConfigError,
>)
    ensures
        benchmark.size <= usize::MAX ==> r is Ok,
        r matches Ok(pool) ==> {
            &&& pool.len() == base.num_inputs
            &&& forall|k: int|
                0 <= k < pool.len() ==> (#[trigger] pool[k]).operands() == generated_operands(
                    *benchmark,
                )
        },
        benchmark.size > usize::MAX ==> r == Err::<Vec<Input>, ConfigError>(
            ConfigError::SizeTooLarge,
        ),
{
    if benchmark.size > usize::MAX as u64 {
        return Err(ConfigError::SizeTooLarge);
    }
    let mut pool: Vec<Input> = Vec::new();
    let mut k: usize = 0;
    while k < base.num_inputs
        invariant
            k <= base.num_inputs,
            pool.len() == k,
            benchmark.size <= usize::MAX,
            forall|i: int|
                0 <= i < pool.len() ==> (#[trigger] pool[i]).operands() == generated_operands(
                    *benchmark,
                ),
        decreases base.num_inputs - k,
    {
        match generate_input(benchmark) {
            Ok(input) => {
                pool.push(input);
            },
            Err(error) => {
                return Err(error);
            },
        }
        k = k + 1;
    }
    Ok(pool)
}

/// Two pools generated for one benchmark hold the same inputs, whatever else
/// the settings they were generated under say: the seed has no part in them.
pub proof fn lemma_generation_ignores_settings(
    benchmark: BenchmarkConfig,
    first: Seq<Input>,
    second: Seq<Input>,
)
    requires
        first.len() == second.len(),
        forall|k: int|
            0 <= k < first.len() ==> (#[trigger] first[k]).operands() == generated_operands(
                benchmark,
            ),
        forall|k: int|
            0 <= k < second.len() ==> (#[trigger] second[k]).operands() == generated_operands(
                benchmark,
            ),
    ensures
        forall|k: int| 0 <= k < first.len() ==> (#[trigger] first[k]).operands() == second[k].operands(),
{
}

/// The report that a run of `samples` under these settings makes.
pub open spec fn reports(report: Report, benchmark: BenchmarkConfig, base: BaseConfig) -> bool {
    &&& report.well_formed()
    &&& report.benchmark == benchmark
    &&& report.num_threads == base.num_threads
    &&& report.num_inputs == base.num_inputs
    &&& report.runs_per_input == base.runs_per_input
    &&& report.seed == base.seed
}

/// Runs one benchmark over a pool that is already made.
///
/// The settings are checked first, then that the pool has the configured
/// number of inputs: nothing is run where either fails. Then the kernel is
/// invoked `warmup_runs + num_inputs * runs_per_input` times, round-robin over
/// the pool, and the timed runs make the report's rows, in run order, each
/// with the settings. Where the kernel fails, there is no report.
pub fn dispatch<I, R, E, K: Fn(&I) -> Result<R, E>>(
    benchmark: &BenchmarkConfig,
    base: &BaseConfig,
    pool: &Vec<I>,
    kernel: K,
) -> (r: Result<Report, RunError<E>>)
    requires
        forall|k: int| 0 <= k < pool.len() ==> call_requires(kernel, (&#[trigger] pool[k],)),
    ensures
        match base.error() {
            Some(error) => r == Err::<Report, RunError<E>>(RunError::Config(error)),
            None => if pool.len() != base.num_inputs {
                r == Err::<Report, RunError<E>>(RunError::Config(ConfigError::PoolSizeMismatch))
            } else {
                match r {
                    Ok(report) => {
                        &&& reports(report, *benchmark, *base)
                        &&& completed(kernel, pool@, base.spec_total_runs() as int)
                    },
                    Err(RunError::Kernel(error)) => aborted(
                        kernel,
                        pool@,
                        base.spec_total_runs() as int,
                        error,
                    ),
                    Err(RunError::Config(_)) => false,
                }
            },
        },
{
    match base.validate() {
        Ok(()) => {},
        Err(error) => {
            return Err(RunError::Config(error));
        },
    }
    if pool.len() != base.num_inputs {
        return Err(RunError::Config(ConfigError::PoolSizeMismatch));
    }
    match execute(pool, kernel, base.warmup_runs, base.runs_per_input) {
        Ok(samples) => Ok(
            Report {
                benchmark: *benchmark,
                num_threads: base.num_threads,
                num_inputs: base.num_inputs,
                runs_per_input: base.runs_per_input,
                seed: base.seed,
                samples,
            },
        ),
        Err(error) => Err(RunError::Kernel(error)),
    }
}

} // verus!
