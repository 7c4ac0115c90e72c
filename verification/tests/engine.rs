use bench_harness::engine::{execute, RunLoop, TimingSample};
use std::cell::RefCell;

fn run_indices(samples: &[TimingSample]) -> Vec<usize> {
    samples.iter().map(|sample| sample.run_index).collect()
}

#[test]
fn execute_gives_one_sample_for_each_timed_run() {
    let pool = vec![10u32, 20];
    let samples = execute(&pool, |x: &u32| Ok::<u32, ()>(*x + 1), 1, 3).unwrap();
    assert_eq!(samples.len(), 6);
    assert_eq!(run_indices(&samples), vec![0, 1, 2, 3, 4, 5]);
}

#[test]
fn execute_with_a_pool_of_one_repeats_the_same_input() {
    let pool = vec![7u32];
    let seen = RefCell::new(Vec::new());
    let samples = execute(
        &pool,
        |x: &u32| {
            seen.borrow_mut().push(*x);
            Ok::<(), ()>(())
        },
        0,
        4,
    )
    .unwrap();
    assert_eq!(run_indices(&samples), vec![0, 1, 2, 3]);
    assert_eq!(*seen.borrow(), vec![7, 7, 7, 7]);
}

#[test]
fn warmup_runs_invoke_the_kernel_and_leave_no_sample() {
    let pool = vec![1u32, 2];
    let calls = RefCell::new(0usize);
    let samples = execute(
        &pool,
        |_: &u32| {
            *calls.borrow_mut() += 1;
            Ok::<(), ()>(())
        },
        4,
        1,
    )
    .unwrap();
    assert_eq!(*calls.borrow(), 6);
    assert_eq!(run_indices(&samples), vec![0, 1]);
}

#[test]
fn warmup_alone_is_not_reported() {
    let pool = vec![1u32];
    let calls = RefCell::new(0usize);
    let samples = execute(
        &pool,
        |_: &u32| {
            *calls.borrow_mut() += 1;
            Ok::<(), ()>(())
        },
        5,
        0,
    )
    .unwrap();
    assert_eq!(*calls.borrow(), 5);
    assert!(samples.is_empty());
}

#[test]
fn inputs_are_taken_round_robin() {
    let pool = vec![0usize, 1, 2];
    let seen = RefCell::new(Vec::new());
    let samples = execute(
        &pool,
        |x: &usize| {
            seen.borrow_mut().push(*x);
            Ok::<(), ()>(())
        },
        0,
        2,
    )
    .unwrap();
    assert_eq!(samples.len(), 6);
    assert_eq!(*seen.borrow(), vec![0, 1, 2, 0, 1, 2]);
}

#[test]
fn round_robin_goes_on_through_the_warmup() {
    let pool = vec![0usize, 1, 2];
    let seen = RefCell::new(Vec::new());
    execute(
        &pool,
        |x: &usize| {
            seen.borrow_mut().push(*x);
            Ok::<(), ()>(())
        },
        2,
        1,
    )
    .unwrap();
    assert_eq!(*seen.borrow(), vec![0, 1, 2, 0, 1]);
}

#[test]
fn first_kernel_failure_ends_the_run() {
    let pool = vec![0usize, 1, 2];
    let calls = RefCell::new(0usize);
    let outcome = execute(
        &pool,
        |x: &usize| {
            *calls.borrow_mut() += 1;
            if *x == 2 {
                Err("third input")
            } else {
                Ok(*x)
            }
        },
        1,
        2,
    );
    assert_eq!(outcome, Err("third input"));
    assert_eq!(*calls.borrow(), 3);
}

#[test]
fn elapsed_time_covers_the_kernel() {
    let pool = vec![()];
    let samples = execute(
        &pool,
        |_: &()| {
            let start = std::time::Instant::now();
            while start.elapsed() < std::time::Duration::from_millis(5) {}
            Ok::<(), ()>(())
        },
        0,
        1,
    )
    .unwrap();
    assert!(samples[0].elapsed_nanos >= 5_000_000);
}

#[test]
fn run_loop_walks_warmup_then_timed_runs() {
    let mut run = RunLoop::new(2, 1, 2);
    assert_eq!(run.total_iterations, 5);
    let mut inputs = Vec::new();
    let mut lengths = Vec::new();
    while let Some(index) = run.next_input() {
        inputs.push(index);
        run.record(100 + run.iteration as u128);
        lengths.push(run.samples.len());
    }
    assert_eq!(inputs, vec![0, 1, 0, 1, 0]);
    assert_eq!(lengths, vec![0, 1, 2, 3, 4]);
    assert_eq!(run.next_input(), None);
    let samples = run.into_samples();
    assert_eq!(
        samples,
        vec![
            TimingSample { run_index: 0, elapsed_nanos: 101 },
            TimingSample { run_index: 1, elapsed_nanos: 102 },
            TimingSample { run_index: 2, elapsed_nanos: 103 },
            TimingSample { run_index: 3, elapsed_nanos: 104 },
        ]
    );
}

#[test]
fn run_loop_without_timed_runs_ends_after_warmup() {
    let mut run = RunLoop::new(3, 2, 0);
    assert_eq!(run.next_input(), Some(0));
    run.record(1);
    assert_eq!(run.next_input(), Some(1));
    run.record(1);
    assert_eq!(run.next_input(), None);
    assert!(run.into_samples().is_empty());
}
