//! The sum of a vector's elements: the inputs it is run on.
//!
//! The elements of a generated vector are multiples of a hundredth; here they
//! are counted in hundredths.

use crate::benchmarks::{input_file, input_path};
use crate::config::BenchmarkKind;
use vstd::prelude::*;

verus! {

/// The element at place `i` of the vector, in hundredths.
pub open spec fn x_value(i: nat) -> nat {
    i % 100
}

/// The element at place `i` of the vector of every generated input, in
/// hundredths: it depends on its place alone.
pub fn x_entry(i: usize) -> (hundredths: u8)
    ensures
        hundredths == x_value(i as nat),
{
    (i % 100) as u8
}

/// The generated vector of length `n`: each element as its formula gives it.
pub open spec fn generated(n: nat) -> Seq<u8> {
    Seq::new(n, |i: int| x_value(i as nat) as u8)
}

/// The vector of every generated input of length `n`, in hundredths. It
/// depends on `n` alone: not on the input's place in the pool, and not on any
/// seed.
pub fn generate_x(n: usize) -> (x: Vec<u8>)
    ensures
        x@ == generated(n as nat),
{
    let mut x: Vec<u8> = Vec::new();
    let mut i: usize = 0;
    while i < n
        invariant
            i <= n,
            x@ == generated(i as nat),
        decreases n - i,
    {
        x.push(x_entry(i));
        i = i + 1;
        assert(x@ =~= generated(i as nat));
    }
    x
}

/// The path of the stored vector of input `k`.
pub fn x_path(input_dir: &str, k: usize) -> (path: String)
    ensures
        path@ == input_file(input_dir@, "reduction"@, "x"@, k as nat),
{
    input_path(input_dir, BenchmarkKind::Reduction, "x", k)
}

} // verus!
