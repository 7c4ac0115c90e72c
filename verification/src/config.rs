//! The configuration a benchmark run is made under: the process-wide settings
//! and the per-benchmark selection of a kernel and its size.

use vstd::prelude::*;

verus! {

/// Why a configuration was turned down.
#[derive(Clone, Copy, Debug, PartialEq, Eq, Structural)]
pub enum ConfigError {
    /// The benchmark document is not well-formed.
    Malformed,
    /// The benchmark document names no benchmark.
    MissingBenchmark,
    /// The benchmark named is not one this harness knows.
    UnknownBenchmark,
    /// The size of the benchmark's inputs is absent or not a whole number.
    MissingSize,
    /// The size of the benchmark's inputs is negative.
    NegativeSize,
    /// The size of the benchmark's inputs does not fit the machine's word.
    SizeTooLarge,
    /// The pool of inputs would be empty.
    NoInputs,
    /// No timed run would be made of any input.
    NoRuns,
    /// No worker thread would be available.
    NoThreads,
    /// The number of runs does not fit the machine's word.
    TooManyRuns,
    /// The pool handed over does not have the configured number of inputs.
    PoolSizeMismatch,
}

/// The settings shared by every benchmark of one process.
#[derive(Clone, Debug)]
pub struct BaseConfig {
    /// How many inputs the pool holds.
    pub num_inputs: usize,
    /// How many timed runs are made of each input.
    pub runs_per_input: usize,
    /// How many runs are made, and not reported, before timing starts.
    pub warmup_runs: usize,
    /// Recorded with every row; generated inputs do not depend on it.
    pub seed: u64,
    /// Where stored inputs are found.
    pub input_dir: String,
    /// How many worker threads a kernel may use.
    pub num_threads: usize,
    /// Where reports are written.
    pub output_dir: String,
}

/// The number of timed runs: each input of the pool is run `runs_per_input` times.
pub open spec fn timed_runs(num_inputs: nat, runs_per_input: nat) -> nat {
    num_inputs * runs_per_input
}

/// The number of kernel invocations of one benchmark: the warm-up runs, then the timed ones.
pub open spec fn total_runs(num_inputs: nat, runs_per_input: nat, warmup_runs: nat) -> nat {
    warmup_runs + timed_runs(num_inputs, runs_per_input)
}

/// What is wrong with the counts of a configuration, if anything: the first of
/// an empty pool, no timed run, no thread, and more runs than a word can count.
pub open spec fn counts_error(
    num_inputs: nat,
    runs_per_input: nat,
    warmup_runs: nat,
    num_threads: nat,
) -> Option<ConfigError> {
    if num_inputs == 0 {
        Some(ConfigError::NoInputs)
    } else if runs_per_input == 0 {
        Some(ConfigError::NoRuns)
    } else if num_threads == 0 {
        Some(ConfigError::NoThreads)
    } else if total_runs(num_inputs, runs_per_input, warmup_runs) > usize::MAX {
        Some(ConfigError::TooManyRuns)
    } else {
        None
    }
}

/// The kernels this harness knows.
#[derive(Clone, Copy, Debug, PartialEq, Eq, Structural)]
pub enum BenchmarkKind {
    /// The dense product of two square matrices.
    MatrixMul,
    /// The sum of a vector's elements.
    Reduction,
}

impl BenchmarkKind {
    /// The name a benchmark is selected by.
    pub open spec fn spec_name(self) -> Seq<char> {
        match self {
            BenchmarkKind::MatrixMul => "matrix_mul"@,
            BenchmarkKind::Reduction => "reduction"@,
        }
    }

    /// The name of the field, and of the report's column, that holds the size
    /// of the benchmark's inputs.
    pub open spec fn spec_size_column(self) -> Seq<char> {
        match self {
            BenchmarkKind::MatrixMul => "matrix_size"@,
            BenchmarkKind::Reduction => "vector_size"@,
        }
    }

    /// The kernel that `name` selects, if any.
    pub open spec fn resolved(name: Seq<char>) -> Option<BenchmarkKind> {
        if name == "matrix_mul"@ {
            Some(BenchmarkKind::MatrixMul)
        } else if name == "reduction"@ {
            Some(BenchmarkKind::Reduction)
        } else {
            None
        }
    }

    /// The name a benchmark is selected by.
    pub fn name(self) -> (s: &'static str)
        ensures
            s@ == self.spec_name(),
    {
        match self {
            BenchmarkKind::MatrixMul => "matrix_mul",
            BenchmarkKind::Reduction => "reduction",
        }
    }

    /// The name of the field that holds the size of the benchmark's inputs.
    pub fn size_column(self) -> (s: &'static str)
        ensures
            s@ == self.spec_size_column(),
    {
        match self {
            BenchmarkKind::MatrixMul => "matrix_size",
            BenchmarkKind::Reduction => "vector_size",
        }
    }

    /// Finds the kernel that `name` selects; any other name is an error.
    pub fn resolve(name: &str) -> (r: Result<BenchmarkKind, ConfigError>)
        ensures
            r == match Self::resolved(name@) {
                Some(kind) => Ok::<BenchmarkKind, ConfigError>(kind),
                None => Err(ConfigError::UnknownBenchmark),
            },
    {
        let given = name.to_owned();
        if given == "matrix_mul".to_owned() {
            Ok(BenchmarkKind::MatrixMul)
        } else if given == "reduction".to_owned() {
            Ok(BenchmarkKind::Reduction)
        } else {
            Err(ConfigError::UnknownBenchmark)
        }
    }

    /// Every kernel is selected by its own name, and by no other kernel's.
    pub proof fn lemma_name_resolves(self)
        ensures
            Self::resolved(self.spec_name()) == Some(self),
    {
        reveal_strlit("matrix_mul");
        reveal_strlit("reduction");
        assert("matrix_mul"@.len() != "reduction"@.len());
    }
}

/// Which kernel to run, and on inputs of what size: the dimension of the
/// matrices, or the length of the vector.
#[derive(Clone, Copy, Debug, PartialEq, Eq, Structural)]
pub struct BenchmarkConfig {
    /// The kernel.
    pub kind: BenchmarkKind,
    /// The size of its inputs.
    pub size: u64,
}

/// The configuration that the fields of a benchmark document make: the text
/// under `benchmark`, and the whole numbers under `matrix_size` and
/// `vector_size`, each absent where the document has no such field or a value
/// of another type. The name must be there and known, and the size that
/// belongs to the kernel must be there and not negative; the other size is not
/// looked at.
pub open spec fn config_of_fields(
    benchmark: Option<Seq<char>>,
    matrix_size: Option<i64>,
    vector_size: Option<i64>,
) -> Result<BenchmarkConfig, ConfigError> {
    match benchmark {
        None => Err(ConfigError::MissingBenchmark),
        Some(name) => match BenchmarkKind::resolved(name) {
            None => Err(ConfigError::UnknownBenchmark),
            Some(kind) => {
                let size = match kind {
                    BenchmarkKind::MatrixMul => matrix_size,
                    BenchmarkKind::Reduction => vector_size,
                };
                match size {
                    None => Err(ConfigError::MissingSize),
                    Some(n) => if n < 0 {
                        Err(ConfigError::NegativeSize)
                    } else {
                        Ok(BenchmarkConfig { kind, size: n as u64 })
                    },
                }
            },
        },
    }
}

impl BenchmarkConfig {
    /// Checks the fields of a benchmark document once, before anything is run.
    pub fn from_fields(
        benchmark: Option<&str>,
        matrix_size: Option<i64>,
        vector_size: Option<i64>,
    ) -> (r: Result<BenchmarkConfig, ConfigError>)
        ensures
            r == config_of_fields(
                match benchmark {
                    Some(name) => Some(name@),
                    None => None,
                },
                matrix_size,
                vector_size,
            ),
    {
        let name = match benchmark {
            Some(name) => name,
            None => {
                return Err(ConfigError::MissingBenchmark);
            },
        };
        let kind = match BenchmarkKind::resolve(name) {
            Ok(kind) => kind,
            Err(error) => {
                return Err(error);
            },
        };
        let size = match kind {
            BenchmarkKind::MatrixMul => matrix_size,
            BenchmarkKind::Reduction => vector_size,
        };
        match size {
            None => Err(ConfigError::MissingSize),
            Some(n) => if n < 0 {
                Err(ConfigError::NegativeSize)
            } else {
                Ok(BenchmarkConfig { kind, size: n as u64 })
            },
        }
    }
}

impl BaseConfig {
    /// What `validate` objects to, if anything.
    pub open spec fn error(&self) -> Option<ConfigError> {
        counts_error(
            self.num_inputs as nat,
            self.runs_per_input as nat,
            self.warmup_runs as nat,
            self.num_threads as nat,
        )
    }

    /// A configuration a benchmark can be run under: the pool is not empty, each
    /// input is run at least once, there is a thread to run on, and the runs can
    /// be counted.
    pub open spec fn valid(&self) -> bool {
        self.error() is None
    }

    /// The number of timed runs, as a specification.
    pub open spec fn spec_timed_runs(&self) -> nat {
        timed_runs(self.num_inputs as nat, self.runs_per_input as nat)
    }

    /// The number of kernel invocations, as a specification.
    pub open spec fn spec_total_runs(&self) -> nat {
        total_runs(self.num_inputs as nat, self.runs_per_input as nat, self.warmup_runs as nat)
    }

    /// Checks the counts once, before anything is run.
    pub fn validate(&self) -> (r: Result<(), ConfigError>)
        ensures
            r is Ok <==> self.valid(),
            r matches Err(e) ==> self.error() == Some(e),
    {
        if self.num_inputs == 0 {
            return Err(ConfigError::NoInputs);
        }
        if self.runs_per_input == 0 {
            return Err(ConfigError::NoRuns);
        }
        if self.num_threads == 0 {
            return Err(ConfigError::NoThreads);
        }
        match self.num_inputs.checked_mul(self.runs_per_input) {
            None => Err(ConfigError::TooManyRuns),
            Some(timed) => match self.warmup_runs.checked_add(timed) {
                None => Err(ConfigError::TooManyRuns),
                Some(_) => Ok(()),
            },
        }
    }

    /// The number of timed runs of a valid configuration.
    pub fn timed_runs(&self) -> (n: usize)
        requires
            self.valid(),
        ensures
            n == self.spec_timed_runs(),
            n > 0,
    {
        assert(self.spec_timed_runs() >= self.num_inputs) by (nonlinear_arith)
            requires
                self.runs_per_input >= 1,
                self.spec_timed_runs() == self.num_inputs * self.runs_per_input,
        ;
        self.num_inputs * self.runs_per_input
    }

    /// The number of kernel invocations of a valid configuration.
    pub fn total_runs(&self) -> (n: usize)
        requires
            self.valid(),
        ensures
            n == self.spec_total_runs(),
    {
        self.warmup_runs + self.timed_runs()
    }
}

} // verus!
