use bench_harness::benchmarks::matrix_mul::{a_entry, a_path, b_entry, b_path, generate_a, generate_b};
use bench_harness::benchmarks::reduction::{generate_x, x_entry, x_path};
use bench_harness::benchmarks::{generate_input, generate_pool, input_path, materialize, Input};
use bench_harness::config::{BaseConfig, BenchmarkConfig, BenchmarkKind};
use std::cell::RefCell;

#[test]
fn left_matrix_follows_its_formula() {
    assert_eq!(a_entry(0, 0), 0);
    assert_eq!(a_entry(3, 4), 7);
    assert_eq!(a_entry(60, 40), 0);
    assert_eq!(a_entry(99, 99), 98);
    assert_eq!(a_entry(1234, 5678), 12);
    for i in 0..150usize {
        for j in 0..150usize {
            assert_eq!(a_entry(i, j) as usize, (i + j) % 100);
        }
    }
}

#[test]
fn right_matrix_follows_its_formula() {
    assert_eq!(b_entry(0, 0), 0);
    assert_eq!(b_entry(1, 2), 17);
    assert_eq!(b_entry(10, 10), 0);
    assert_eq!(b_entry(33, 1), 6);
    for i in 0..150usize {
        for j in 0..150usize {
            assert_eq!(b_entry(i, j) as usize, (i * 3 + j * 7) % 100);
        }
    }
}

#[test]
fn vector_follows_its_formula() {
    assert_eq!(x_entry(0), 0);
    assert_eq!(x_entry(99), 99);
    assert_eq!(x_entry(100), 0);
    assert_eq!(x_entry(12_345), 45);
}

#[test]
fn formulas_hold_at_the_largest_indices() {
    let top = usize::MAX;
    let top_mod = (top % 100) as u32;
    assert_eq!(a_entry(top, top) as u32, (2 * top_mod) % 100);
    assert_eq!(b_entry(top, top) as u32, (10 * top_mod) % 100);
    assert_eq!(x_entry(top) as u32, top_mod);
}

#[test]
fn generated_entries_are_the_same_on_every_call() {
    for i in [0usize, 1, 57, 100, 4096] {
        for j in [0usize, 3, 99, 1000] {
            assert_eq!(a_entry(i, j), a_entry(i, j));
            assert_eq!(b_entry(i, j), b_entry(i, j));
        }
        assert_eq!(x_entry(i), x_entry(i));
    }
    let first: Vec<f64> = (0..1000).map(|i| x_entry(i) as f64 * 0.01).collect();
    let second: Vec<f64> = (0..1000).map(|i| x_entry(i) as f64 * 0.01).collect();
    assert!(first.iter().zip(&second).all(|(a, b)| a.to_bits() == b.to_bits()));
    assert_eq!(first[1], 0.01);
    assert_eq!(first[150], 0.5);
}

#[test]
fn stored_inputs_are_named_by_operand_and_number() {
    assert_eq!(a_path("inputs", 0), "inputs/matrix_mul/a_000.npy");
    assert_eq!(b_path("inputs", 0), "inputs/matrix_mul/b_000.npy");
    assert_eq!(a_path("inputs", 1), "inputs/matrix_mul/a_001.npy");
    assert_eq!(b_path("/data/in", 42), "/data/in/matrix_mul/b_042.npy");
    assert_eq!(x_path("inputs", 7), "inputs/reduction/x_007.npy");
    assert_eq!(x_path("inputs", 999), "inputs/reduction/x_999.npy");
    assert_eq!(x_path("inputs", 1000), "inputs/reduction/x_1000.npy");
    assert_eq!(x_path("", 5), "/reduction/x_005.npy");
}

#[test]
fn input_paths_take_any_operand() {
    assert_eq!(input_path("in", BenchmarkKind::Reduction, "x", 12), "in/reduction/x_012.npy");
    assert_eq!(input_path("in", BenchmarkKind::MatrixMul, "c", 3), "in/matrix_mul/c_003.npy");
}

#[test]
fn pool_is_made_in_order() {
    let asked = RefCell::new(Vec::new());
    let pool = materialize(4, |k: usize| {
        asked.borrow_mut().push(k);
        Ok::<String, ()>(x_path("in", k))
    })
    .unwrap();
    assert_eq!(*asked.borrow(), vec![0, 1, 2, 3]);
    assert_eq!(pool.len(), 4);
    assert_eq!(pool[2], "in/reduction/x_002.npy");
}

#[test]
fn empty_pool_asks_for_nothing() {
    let pool = materialize(0, |_: usize| Err::<u8, &str>("never asked")).unwrap();
    assert!(pool.is_empty());
}

#[test]
fn first_missing_input_ends_the_making() {
    let asked = RefCell::new(0usize);
    let outcome = materialize(5, |k: usize| {
        *asked.borrow_mut() += 1;
        if k == 2 {
            Err(k)
        } else {
            Ok(k)
        }
    });
    assert_eq!(outcome, Err(2));
    assert_eq!(*asked.borrow(), 3);
}

#[test]
fn generated_matrices_follow_their_formulas() {
    let a = generate_a(3);
    let b = generate_b(3);
    assert_eq!(a, vec![vec![0, 1, 2], vec![1, 2, 3], vec![2, 3, 4]]);
    assert_eq!(b, vec![vec![0, 7, 14], vec![3, 10, 17], vec![6, 13, 20]]);
    assert!(generate_a(0).is_empty());
    let wide = generate_b(120);
    assert_eq!(wide.len(), 120);
    assert!(wide.iter().all(|row| row.len() == 120));
    assert_eq!(wide[119][119], ((119 * 3 + 119 * 7) % 100) as u8);
}

#[test]
fn generated_vector_follows_its_formula() {
    assert_eq!(generate_x(5), vec![0, 1, 2, 3, 4]);
    assert!(generate_x(0).is_empty());
    let long = generate_x(250);
    assert_eq!(long[99], 99);
    assert_eq!(long[100], 0);
    assert_eq!(long[249], 49);
}

#[test]
fn generated_pool_has_the_configured_size_and_ignores_the_seed() {
    let settings = |seed: u64| BaseConfig {
        num_inputs: 3,
        runs_per_input: 2,
        warmup_runs: 1,
        seed,
        input_dir: String::new(),
        num_threads: 1,
        output_dir: String::new(),
    };
    let reduction = BenchmarkConfig { kind: BenchmarkKind::Reduction, size: 4 };
    let first = generate_pool(&reduction, &settings(1)).unwrap();
    let second = generate_pool(&reduction, &settings(987_654_321)).unwrap();
    assert_eq!(first.len(), 3);
    assert_eq!(first, second);
    assert_eq!(first[0], Input::Vector { x: vec![0, 1, 2, 3] });
    assert_eq!(first[0], first[2]);

    let product = BenchmarkConfig { kind: BenchmarkKind::MatrixMul, size: 2 };
    assert_eq!(
        generate_input(&product),
        Ok(Input::Matrices { a: vec![vec![0, 1], vec![1, 2]], b: vec![vec![0, 7], vec![3, 10]] })
    );
    assert_eq!(generate_input(&product), generate_input(&product));
}
