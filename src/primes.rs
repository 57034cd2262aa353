//! Prime enumeration with the sieve of Eratosthenes.
use vstd::arithmetic::div_mod::{lemma_fundamental_div_mod, lemma_mod_multiples_basic};
use vstd::prelude::*;

verus! {

/// `p` is a prime: at least 2, with no divisor strictly between 1 and `p`.
pub open spec fn is_prime(p: int) -> bool {
    p >= 2 && forall|d: int| 2 <= d < p ==> #[trigger] (p % d) != 0
}

/// `j` is still unstruck once every `d` in `[2, k)` has struck its multiples
/// from `d * d` on.
pub open spec fn survives(j: int, k: int) -> bool {
    j >= 2 && forall|d: int| 2 <= d < k && d * d <= j ==> #[trigger] (j % d) != 0
}

/// Divisibility is transitive.
proof fn lemma_divides_trans(t: int, i: int, d: int)
    requires
        d > 0,
        i > 0,
        i % d == 0,
        t % i == 0,
    ensures
        t % d == 0,
{
    lemma_fundamental_div_mod(t, i);
    lemma_fundamental_div_mod(i, d);
    let q = t / i;
    let r = i / d;
    assert(t == (r * q) * d) by (nonlinear_arith)
        requires
            t == i * q,
            i == d * r,
    ;
    lemma_mod_multiples_basic(r * q, d);
}

/// A composite `t` has a divisor `m` with `m * m <= t`.
proof fn lemma_small_divisor(t: int, d: int) -> (m: int)
    requires
        2 <= d < t,
        t % d == 0,
    ensures
        2 <= m,
        m * m <= t,
        t % m == 0,
{
    lemma_fundamental_div_mod(t, d);
    let e = t / d;
    assert(t == d * e);
    assert(e >= 2) by (nonlinear_arith)
        requires
            t == d * e,
            2 <= d < t,
    ;
    if d * d <= t {
        d
    } else {
        assert(e * e <= t) by (nonlinear_arith)
            requires
                t == d * e,
                d * d > t,
                e >= 2,
                d >= 2,
        ;
        lemma_mod_multiples_basic(d, e);
        assert(t % e == 0) by {
            assert(d * e == t);
        }
        e
    }
}

/// Once `k * k` exceeds `t`, surviving the sieve is the same as being prime.
proof fn lemma_survivor_is_prime(t: int, k: int)
    requires
        t < k * k,
        k >= 2,
    ensures
        survives(t, k) <==> is_prime(t),
{
    if is_prime(t) {
        assert forall|d: int| 2 <= d < k && d * d <= t implies #[trigger] (t % d) != 0 by {
            assert(d < t) by (nonlinear_arith)
                requires
                    2 <= d,
                    d * d <= t,
            ;
        }
    }
    if survives(t, k) && !is_prime(t) {
        let d = choose|d: int| 2 <= d < t && #[trigger] (t % d) == 0;
        let m = lemma_small_divisor(t, d);
        assert(m < k) by (nonlinear_arith)
            requires
                m * m <= t,
                t < k * k,
                m >= 2,
                k >= 2,
        ;
        assert(t % m != 0);
    }
}

/// Striking multiples of an already struck `i` changes nothing.
proof fn lemma_struck_base_strikes_nothing(t: int, i: int)
    requires
        i >= 2,
        !survives(i, i),
        survives(t, i),
        i * i <= t,
    ensures
        t % i != 0,
{
    if t % i == 0 {
        let d = choose|d: int| 2 <= d < i && d * d <= i && #[trigger] (i % d) == 0;
        lemma_divides_trans(t, i, d);
        assert(d * d <= t) by (nonlinear_arith)
            requires
                d * d <= i,
                i * i <= t,
                i >= 2,
        ;
        assert(t % d != 0);
    }
}

/// `r` lists exactly the primes `p <= n`, in strictly ascending order.
pub open spec fn is_prime_list(n: nat, r: Seq<u32>) -> bool {
    &&& forall|k: int| 0 <= k < r.len() ==> is_prime(#[trigger] r[k] as int) && r[k] <= n
    &&& forall|a: int, b: int| 0 <= a < b < r.len() ==> r[a] < r[b]
    &&& forall|q: int| 0 <= q <= n && is_prime(q) ==> r.contains(q as u32)
}

/// All primes `p <= n`, in ascending order (empty when `n < 2`).
pub fn calculate_primes(n: u32) -> (r: Vec<u32>)
    ensures
        is_prime_list(n as nat, r@),
{
    if n < 2 {
        let r: Vec<u32> = Vec::new();
        assert forall|q: int| 0 <= q <= n && is_prime(q) implies r@.contains(q as u32) by {}
        return r;
    }
    // `marks[t]` stands for the number `t + 1`.
    let len: usize = n as usize;
    let mut marks: Vec<bool> = Vec::new();
    let mut z: usize = 0;
    while z < len
        invariant
            z <= len,
            marks.len() == z,
            forall|t: int| 0 <= t < z ==> marks[t] == (t + 1 >= 2),
        decreases len - z,
    {
        marks.push(z >= 1);
        z = z + 1;
    }
    let mut i: u64 = 2;
    while i * i <= n as u64
        invariant
            2 <= i <= 65537,
            i * i <= 4295098369,
            n >= 2,
            len == n,
            marks.len() == len,
            forall|t: int| 0 <= t < len ==> #[trigger] marks[t] == survives(t + 1, i as int),
        decreases 65537 - i,
    {
        assert(i <= 65535) by (nonlinear_arith)
            requires
                i * i <= n,
                n <= 0xffff_ffff,
                i >= 2,
        ;
        assert(i * i >= i) by (nonlinear_arith)
            requires
                i >= 2,
        ;
        if marks[(i - 1) as usize] {
            let mut j: u64 = i * i;
            proof {
                lemma_mod_multiples_basic(i as int, i as int);
            }
            while j <= n as u64
                invariant
                    2 <= i <= 65535,
                    i * i <= n,
                    i * i <= j <= n + i,
                    j >= 2,
                    j % i == 0,
                    len == n,
                    marks.len() == len,
                    forall|t: int|
                        0 <= t < len ==> #[trigger] marks[t] == (survives(t + 1, i as int) && !((t
                            + 1) % (i as int) == 0 && i * i <= t + 1 && t + 1 < j)),
                decreases n + i - j,
            {
                let ghost prev = marks@;
                marks.set((j - 1) as usize, false);
                proof {
                    assert forall|t: int| 0 <= t < len implies #[trigger] marks[t] == (survives(
                        t + 1,
                        i as int,
                    ) && !((t + 1) % (i as int) == 0 && i * i <= t + 1 && t + 1 < j + i)) by {
                        let u = t + 1;
                        if u != j {
                            assert(marks[t] == prev[t]);
                            if j < u < j + i {
                                assert(u % (i as int) != 0) by {
                                    vstd::arithmetic::div_mod::lemma_add_mod_noop(
                                        j as int,
                                        u - j,
                                        i as int,
                                    );
                                    vstd::arithmetic::div_mod::lemma_small_mod(
                                        (u - j) as nat,
                                        i as nat,
                                    );
                                }
                            }
                        }
                    }
                    vstd::arithmetic::div_mod::lemma_mod_add_multiples_vanish(j as int, i as int);
                    assert((j + i) % (i as int) == 0);
                }
                j = j + i;
            }
            assert forall|t: int| 0 <= t < len implies #[trigger] marks[t] == survives(
                t + 1,
                i + 1,
            ) by {
                let u = t + 1;
                if survives(u, i as int) && !(u % (i as int) == 0 && i * i <= u) {
                    assert forall|d: int| 2 <= d < i + 1 && d * d <= u implies #[trigger] (u % d)
                        != 0 by {}
                }
            }
        } else {
            assert forall|t: int| 0 <= t < len implies #[trigger] marks[t] == survives(
                t + 1,
                i + 1,
            ) by {
                if survives(t + 1, i as int) && i * i <= t + 1 {
                    lemma_struck_base_strikes_nothing(t + 1, i as int);
                }
            }
        }
        assert((i + 1) * (i + 1) <= 4295098369) by (nonlinear_arith)
            requires
                i <= 65535,
        ;
        i = i + 1;
    }
    let mut r: Vec<u32> = Vec::new();
    let mut idx: usize = 0;
    while idx < len
        invariant
            idx <= len,
            len == n,
            marks.len() == len,
            i * i > n,
            i >= 2,
            forall|t: int| 0 <= t < len ==> #[trigger] marks[t] == survives(t + 1, i as int),
            forall|k: int| 0 <= k < r.len() ==> is_prime(#[trigger] r[k] as int) && r[k] <= idx,
            forall|a: int, b: int| 0 <= a < b < r.len() ==> r[a] < r[b],
            forall|q: int| 0 <= q <= idx && is_prime(q) ==> r@.contains(q as u32),
        decreases len - idx,
    {
        let number: u32 = idx as u32 + 1;
        proof {
            lemma_survivor_is_prime(number as int, i as int);
        }
        if marks[idx] {
            let ghost before = r@;
            r.push(number);
            proof {
                assert(r@[r.len() - 1] == number);
                assert forall|q: int| 0 <= q <= number && is_prime(q) implies r@.contains(
                    q as u32,
                ) by {
                    if q < number {
                        let w = choose|w: int| 0 <= w < before.len() && before[w] == q as u32;
                        assert(r@[w] == q as u32);
                    } else {
                        assert(r@[r.len() - 1] == q as u32);
                    }
                }
            }
        }
        idx = idx + 1;
    }
    r
}

} // verus!
