//! The Fibonacci sequence, computed iteratively with wrap-around on `u64`.
use vstd::arithmetic::div_mod::lemma_add_mod_noop;
use vstd::prelude::*;

verus! {

/// Number of distinct `u64` values; results are taken modulo this.
pub open spec fn u64_modulus() -> int {
    0x1_0000_0000_0000_0000
}

/// The Fibonacci numbers: fib(0) = 0, fib(1) = 1, fib(n) = fib(n - 2) + fib(n - 1).
pub open spec fn fib(n: nat) -> nat
    decreases n,
{
    if n <= 1 {
        n
    } else {
        fib((n - 2) as nat) + fib((n - 1) as nat)
    }
}

/// The Fibonacci sequence never decreases.
pub proof fn lemma_fib_monotone(a: nat, b: nat)
    requires
        a <= b,
    ensures
        fib(a) <= fib(b),
    decreases b - a,
{
    if a < b {
        lemma_fib_monotone(a, (b - 1) as nat);
        if b >= 2 {
            assert(fib(b) == fib((b - 2) as nat) + fib((b - 1) as nat));
        }
    }
}

/// The `n`th Fibonacci number, wrapped silently modulo 2^64 when it does not fit.
pub fn fibonacci(n: u32) -> (r: u64)
    ensures
        r as int == fib(n as nat) as int % u64_modulus(),
{
    if n <= 1 {
        return n as u64;
    }
    let mut prev: u64 = 0;
    let mut curr: u64 = 1;
    let mut k: u32 = 1;
    while k < n
        invariant
            1 <= k <= n,
            prev as int == fib((k - 1) as nat) as int % u64_modulus(),
            curr as int == fib(k as nat) as int % u64_modulus(),
        decreases n - k,
    {
        let next = prev.wrapping_add(curr);
        proof {
            let m = u64_modulus();
            let a = fib((k - 1) as nat) as int;
            let b = fib(k as nat) as int;
            assert(fib((k + 1) as nat) == fib((k - 1) as nat) + fib(k as nat));
            lemma_add_mod_noop(a, b, m);
            assert(next as int == (prev as int + curr as int) % m);
        }
        prev = curr;
        curr = next;
        k = k + 1;
    }
    curr
}

/// Absent wrap-around, a later Fibonacci result is never smaller than an earlier one.
pub proof fn lemma_fibonacci_monotone(a: u32, b: u32)
    requires
        a <= b,
        fib(b as nat) < u64_modulus(),
    ensures
        fib(a as nat) as int % u64_modulus() <= fib(b as nat) as int % u64_modulus(),
{
    lemma_fib_monotone(a as nat, b as nat);
}

} // verus!
