use bench_harness::config::{BaseConfig, BenchmarkConfig, BenchmarkKind, ConfigError};
use bench_harness::document::parse_benchmark_config;

fn base(num_inputs: usize, runs_per_input: usize, warmup_runs: usize, num_threads: usize) -> BaseConfig {
    BaseConfig {
        num_inputs,
        runs_per_input,
        warmup_runs,
        seed: 42,
        input_dir: String::from("inputs"),
        num_threads,
        output_dir: String::from("results"),
    }
}

#[test]
fn valid_counts_are_accepted() {
    let config = base(2, 3, 1, 4);
    assert_eq!(config.validate(), Ok(()));
    assert_eq!(config.timed_runs(), 6);
    assert_eq!(config.total_runs(), 7);
}

#[test]
fn zero_warmup_is_accepted() {
    let config = base(1, 1, 0, 1);
    assert_eq!(config.validate(), Ok(()));
    assert_eq!(config.total_runs(), 1);
}

#[test]
fn empty_pool_is_rejected() {
    assert_eq!(base(0, 3, 1, 4).validate(), Err(ConfigError::NoInputs));
}

#[test]
fn zero_repeats_are_rejected() {
    assert_eq!(base(2, 0, 1, 4).validate(), Err(ConfigError::NoRuns));
}

#[test]
fn zero_threads_are_rejected() {
    assert_eq!(base(2, 3, 1, 0).validate(), Err(ConfigError::NoThreads));
}

#[test]
fn empty_pool_is_reported_before_other_faults() {
    assert_eq!(base(0, 0, 0, 0).validate(), Err(ConfigError::NoInputs));
    assert_eq!(base(1, 0, 0, 0).validate(), Err(ConfigError::NoRuns));
}

#[test]
fn uncountable_runs_are_rejected() {
    assert_eq!(base(usize::MAX, 2, 0, 1).validate(), Err(ConfigError::TooManyRuns));
    assert_eq!(base(usize::MAX, 1, 1, 1).validate(), Err(ConfigError::TooManyRuns));
    assert_eq!(base(usize::MAX, 1, 0, 1).validate(), Ok(()));
}

#[test]
fn known_names_resolve() {
    assert_eq!(BenchmarkKind::resolve("matrix_mul"), Ok(BenchmarkKind::MatrixMul));
    assert_eq!(BenchmarkKind::resolve("reduction"), Ok(BenchmarkKind::Reduction));
}

#[test]
fn names_resolve_to_themselves() {
    for kind in [BenchmarkKind::MatrixMul, BenchmarkKind::Reduction] {
        assert_eq!(BenchmarkKind::resolve(kind.name()), Ok(kind));
    }
}

#[test]
fn unknown_names_do_not_resolve() {
    assert_eq!(BenchmarkKind::resolve("bogus"), Err(ConfigError::UnknownBenchmark));
    assert_eq!(BenchmarkKind::resolve(""), Err(ConfigError::UnknownBenchmark));
    assert_eq!(BenchmarkKind::resolve("Matrix_Mul"), Err(ConfigError::UnknownBenchmark));
    assert_eq!(BenchmarkKind::resolve("reduction "), Err(ConfigError::UnknownBenchmark));
}

#[test]
fn size_columns_are_named_after_the_kernel() {
    assert_eq!(BenchmarkKind::MatrixMul.size_column(), "matrix_size");
    assert_eq!(BenchmarkKind::Reduction.size_column(), "vector_size");
}

#[test]
fn fields_make_a_configuration() {
    assert_eq!(
        BenchmarkConfig::from_fields(Some("matrix_mul"), Some(64), None),
        Ok(BenchmarkConfig { kind: BenchmarkKind::MatrixMul, size: 64 })
    );
    assert_eq!(
        BenchmarkConfig::from_fields(Some("reduction"), Some(64), Some(1000)),
        Ok(BenchmarkConfig { kind: BenchmarkKind::Reduction, size: 1000 })
    );
    assert_eq!(
        BenchmarkConfig::from_fields(Some("reduction"), None, Some(0)),
        Ok(BenchmarkConfig { kind: BenchmarkKind::Reduction, size: 0 })
    );
}

#[test]
fn faulty_fields_are_rejected() {
    assert_eq!(BenchmarkConfig::from_fields(None, Some(1), Some(1)), Err(ConfigError::MissingBenchmark));
    assert_eq!(
        BenchmarkConfig::from_fields(Some("bogus"), Some(1), Some(1)),
        Err(ConfigError::UnknownBenchmark)
    );
    assert_eq!(
        BenchmarkConfig::from_fields(Some("matrix_mul"), None, Some(1)),
        Err(ConfigError::MissingSize)
    );
    assert_eq!(
        BenchmarkConfig::from_fields(Some("reduction"), Some(1), None),
        Err(ConfigError::MissingSize)
    );
    assert_eq!(
        BenchmarkConfig::from_fields(Some("reduction"), None, Some(-1)),
        Err(ConfigError::NegativeSize)
    );
}

#[test]
fn documents_are_read() {
    assert_eq!(
        parse_benchmark_config(b"benchmark: reduction\nvector_size: 10\n"),
        Ok(BenchmarkConfig { kind: BenchmarkKind::Reduction, size: 10 })
    );
    assert_eq!(
        parse_benchmark_config(b"matrix_size: 256\nbenchmark: \"matrix_mul\"\nnote: anything\n"),
        Ok(BenchmarkConfig { kind: BenchmarkKind::MatrixMul, size: 256 })
    );
    assert_eq!(
        parse_benchmark_config(b"{benchmark: matrix_mul, matrix_size: 0x10, vector_size: 3}"),
        Ok(BenchmarkConfig { kind: BenchmarkKind::MatrixMul, size: 16 })
    );
}

#[test]
fn unknown_benchmark_in_a_document_is_rejected() {
    assert_eq!(
        parse_benchmark_config(b"benchmark: bogus\nmatrix_size: 4\nvector_size: 4\n"),
        Err(ConfigError::UnknownBenchmark)
    );
}

#[test]
fn documents_without_a_name_are_rejected() {
    assert_eq!(parse_benchmark_config(b"matrix_size: 4\n"), Err(ConfigError::MissingBenchmark));
    assert_eq!(parse_benchmark_config(b"benchmark: 7\nmatrix_size: 4\n"), Err(ConfigError::MissingBenchmark));
    assert_eq!(parse_benchmark_config(b"- benchmark\n- reduction\n"), Err(ConfigError::MissingBenchmark));
    assert_eq!(parse_benchmark_config(b""), Err(ConfigError::MissingBenchmark));
}

#[test]
fn documents_without_the_size_are_rejected() {
    assert_eq!(parse_benchmark_config(b"benchmark: reduction\n"), Err(ConfigError::MissingSize));
    assert_eq!(
        parse_benchmark_config(b"benchmark: reduction\nmatrix_size: 4\n"),
        Err(ConfigError::MissingSize)
    );
    assert_eq!(
        parse_benchmark_config(b"benchmark: reduction\nvector_size: large\n"),
        Err(ConfigError::MissingSize)
    );
    assert_eq!(
        parse_benchmark_config(b"benchmark: reduction\nvector_size: 1.5\n"),
        Err(ConfigError::MissingSize)
    );
    assert_eq!(
        parse_benchmark_config(b"benchmark: reduction\nvector_size: 18446744073709551615\n"),
        Err(ConfigError::MissingSize)
    );
}

#[test]
fn negative_sizes_are_rejected() {
    assert_eq!(
        parse_benchmark_config(b"benchmark: matrix_mul\nmatrix_size: -8\n"),
        Err(ConfigError::NegativeSize)
    );
}

#[test]
fn text_that_is_no_document_is_malformed() {
    assert_eq!(parse_benchmark_config(b"benchmark: [reduction\n"), Err(ConfigError::Malformed));
    assert_eq!(parse_benchmark_config(b"a: 1\n---\nb: 2\n"), Err(ConfigError::Malformed));
    assert_eq!(parse_benchmark_config(&[0xff, 0xfe, 0x00]), Err(ConfigError::Malformed));
}
