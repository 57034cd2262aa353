//! Selection of the kernel that a benchmark run exercises.
use crate::primes::{calculate_primes, is_prime_list};
use crate::sequence::{fib, fibonacci, u64_modulus};
use vstd::prelude::*;

verus! {

/// The kernels that can be timed by name.
#[derive(PartialEq, Eq, Structural, Clone, Copy, Debug)]
pub enum Operation {
    Primes,
    Fibonacci,
    Unknown,
}

/// The operation that a name selects: exact matches of `primes` and `fibonacci`,
/// anything else a no-op.
pub open spec fn operation_of(name: Seq<char>) -> Operation {
    if name == "primes"@ {
        Operation::Primes
    } else if name == "fibonacci"@ {
        Operation::Fibonacci
    } else {
        Operation::Unknown
    }
}

/// The operation selected by `name`.
pub fn parse_operation(name: &str) -> (r: Operation)
    ensures
        r == operation_of(name@),
{
    let given = name.to_owned();
    if given == "primes".to_owned() {
        Operation::Primes
    } else if given == "fibonacci".to_owned() {
        Operation::Fibonacci
    } else {
        Operation::Unknown
    }
}

/// What a benchmarked kernel computed.
#[derive(Debug)]
pub enum Outcome {
    /// The primes up to the size.
    Primes(Vec<u32>),
    /// The Fibonacci number of the size.
    Fibonacci(u64),
    /// No kernel ran.
    Nothing,
}

/// Runs the kernel that `op` selects on `size` and returns what it computed:
/// `calculate_primes(size)` for `Primes`, `fibonacci(size)` for `Fibonacci`, and
/// nothing for `Unknown`.
pub fn run_operation(op: Operation, size: u32) -> (out: Outcome)
    ensures
        op == Operation::Primes ==> (out matches Outcome::Primes(r) && is_prime_list(
            size as nat,
            r@,
        )),
        op == Operation::Fibonacci ==> (out matches Outcome::Fibonacci(v) && v as int == fib(
            size as nat,
        ) as int % u64_modulus()),
        op == Operation::Unknown ==> out is Nothing,
{
    match op {
        Operation::Primes => Outcome::Primes(calculate_primes(size)),
        Operation::Fibonacci => Outcome::Fibonacci(fibonacci(size)),
        Operation::Unknown => Outcome::Nothing,
    }
}

} // verus!
