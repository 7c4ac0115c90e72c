//! The dense product of two square matrices: the inputs it is run on.
//!
//! The elements of a generated matrix are multiples of a hundredth; here they
//! are counted in hundredths.

use crate::benchmarks::{input_file, input_path};
use crate::config::BenchmarkKind;
use vstd::arithmetic::div_mod::lemma_mod_multiples_vanish;
use vstd::prelude::*;

verus! {

/// The element in row `i` and column `j` of the left matrix, in hundredths.
pub open spec fn a_value(i: nat, j: nat) -> nat {
    (i + j) % 100
}

/// The element in row `i` and column `j` of the right matrix, in hundredths.
pub open spec fn b_value(i: nat, j: nat) -> nat {
    (i * 3 + j * 7) % 100
}

/// A weighted sum has the remainder by a hundred that the same sum of the
/// remainders has.
proof fn lemma_sum_of_remainders(i: int, j: int, p: int, q: int)
    requires
        0 <= i,
        0 <= j,
    ensures
        (i * p + j * q) % 100 == ((i % 100) * p + (j % 100) * q) % 100,
{
    let whole = (i / 100) * p + (j / 100) * q;
    let rest = (i % 100) * p + (j % 100) * q;
    assert(i * p + j * q == 100 * whole + rest) by (nonlinear_arith)
        requires
            i == 100 * (i / 100) + i % 100,
            j == 100 * (j / 100) + j % 100,
            whole == (i / 100) * p + (j / 100) * q,
            rest == (i % 100) * p + (j % 100) * q,
    ;
    lemma_mod_multiples_vanish(whole, rest, 100);
}

/// The element in row `i` and column `j` of the left matrix of every
/// generated input, in hundredths: it depends on its place alone.
pub fn a_entry(i: usize, j: usize) -> (hundredths: u8)
    ensures
        hundredths == a_value(i as nat, j as nat),
{
    proof {
        lemma_sum_of_remainders(i as int, j as int, 1, 1);
    }
    ((i % 100 + j % 100) % 100) as u8
}

/// The element in row `i` and column `j` of the right matrix of every
/// generated input, in hundredths: it depends on its place alone.
pub fn b_entry(i: usize, j: usize) -> (hundredths: u8)
    ensures
        hundredths == b_value(i as nat, j as nat),
{
    proof {
        lemma_sum_of_remainders(i as int, j as int, 3, 7);
    }
    (((i % 100) * 3 + (j % 100) * 7) % 100) as u8
}

/// The element in row `i` and column `j` of the left matrix, or of the right
/// one, in hundredths.
pub open spec fn operand_value(right: bool, i: nat, j: nat) -> nat {
    if right {
        b_value(i, j)
    } else {
        a_value(i, j)
    }
}

/// The generated left matrix of dimension `n`, or the right one, by rows:
/// `n` rows of `n` elements, each as its formula gives it.
pub open spec fn generated(right: bool, n: nat) -> Seq<Seq<u8>> {
    Seq::new(n, |i: int| Seq::new(n, |j: int| operand_value(right, i as nat, j as nat) as u8))
}

/// The elements of a matrix held by rows.
pub open spec fn rows_of(rows: Seq<Vec<u8>>) -> Seq<Seq<u8>> {
    Seq::new(rows.len(), |i: int| rows[i]@)
}

/// Row `i` of a generated matrix of dimension `n`.
fn generate_row(right: bool, i: usize, n: usize) -> (row: Vec<u8>)
    ensures
        row@ == Seq::new(n as nat, |j: int| operand_value(right, i as nat, j as nat) as u8),
{
    let mut row: Vec<u8> = Vec::new();
    let mut j: usize = 0;
    while j < n
        invariant
            j <= n,
            row@ == Seq::new(j as nat, |k: int| operand_value(right, i as nat, k as nat) as u8),
        decreases n - j,
    {
        let element = if right {
            b_entry(i, j)
        } else {
            a_entry(i, j)
        };
        row.push(element);
        j = j + 1;
        assert(row@ =~= Seq::new(j as nat, |k: int| operand_value(right, i as nat, k as nat) as u8));
    }
    row
}

/// A generated matrix of dimension `n`, by rows.
fn generate(right: bool, n: usize) -> (rows: Vec<Vec<u8>>)
    ensures
        rows_of(rows@) == generated(right, n as nat),
{
    let mut rows: Vec<Vec<u8>> = Vec::new();
    let mut i: usize = 0;
    while i < n
        invariant
            i <= n,
            rows@.len() == i,
            forall|k: int| 0 <= k < i ==> (#[trigger] rows@[k])@ == generated(right, n as nat)[k],
        decreases n - i,
    {
        let row = generate_row(right, i, n);
        rows.push(row);
        i = i + 1;
    }
    assert(rows_of(rows@) =~= generated(right, n as nat));
    rows
}

/// The left matrix of every generated input of dimension `n`, by rows, in
/// hundredths. It depends on `n` alone: not on the input's place in the pool,
/// and not on any seed.
pub fn generate_a(n: usize) -> (rows: Vec<Vec<u8>>)
    ensures
        rows_of(rows@) == generated(false, n as nat),
{
    generate(false, n)
}

/// The right matrix of every generated input of dimension `n`, by rows, in
/// hundredths. It depends on `n` alone: not on the input's place in the pool,
/// and not on any seed.
pub fn generate_b(n: usize) -> (rows: Vec<Vec<u8>>)
    ensures
        rows_of(rows@) == generated(true, n as nat),
{
    generate(true, n)
}

/// The path of the stored left matrix of input `k`.
pub fn a_path(input_dir: &str, k: usize) -> (path: String)
    ensures
        path@ == input_file(input_dir@, "matrix_mul"@, "a"@, k as nat),
{
    input_path(input_dir, BenchmarkKind::MatrixMul, "a", k)
}

/// The path of the stored right matrix of input `k`.
pub fn b_path(input_dir: &str, k: usize) -> (path: String)
    ensures
        path@ == input_file(input_dir@, "matrix_mul"@, "b"@, k as nat),
{
    input_path(input_dir, BenchmarkKind::MatrixMul, "b", k)
}

} // verus!
