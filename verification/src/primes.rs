//! Trial-division primality, used as a deliberately CPU-bound workload by
//! the surrounding programs. Divisors are tried up to half the candidate,
//! which suffices: any proper divisor of `n` is at most `n / 2`.

use vstd::arithmetic::div_mod::{
    lemma_div_is_ordered, lemma_div_multiples_vanish, lemma_fundamental_div_mod,
};
use vstd::prelude::*;

verus! {

/// A prime: at least 2, with no divisor strictly between 1 and itself.
pub open spec fn spec_is_prime(n: int) -> bool {
    n >= 2 && forall|d: int| 2 <= d < n ==> #[trigger] (n % d) != 0
}

/// A proper divisor of `n` is at most `n / 2`.
proof fn lemma_divisor_at_most_half(n: int, d: int)
    requires
        2 <= d < n,
        n % d == 0,
    ensures
        d <= n / 2,
{
    let q = n / d;
    lemma_fundamental_div_mod(n, d);
    assert(n == d * q);
    assert(q >= 2) by {
        if q <= 0 {
            assert(d * q <= 0) by (nonlinear_arith)
                requires
                    d >= 2,
                    q <= 0,
            ;
        }
        if q == 1 {
            assert(n == d) by (nonlinear_arith)
                requires
                    n == d * q,
                    q == 1,
            ;
        }
    }
    assert(2 * d <= n) by {
        assert(d * q >= d * 2) by (nonlinear_arith)
            requires
                q >= 2,
                d >= 2,
        ;
    }
    lemma_div_is_ordered(2 * d, n, 2);
    lemma_div_multiples_vanish(d, 2);
    assert((2 * d) / 2 == d);
}

/// Decides primality by trial division up to `n / 2`. Values below 2 have no
/// candidate divisors to try and come out true; callers never ask about
/// them.
pub fn is_prime(n: u32) -> (r: bool)
    ensures
        n >= 2 ==> r == spec_is_prime(n as int),
        n < 2 ==> r == true,
{
    let bound = n / 2;
    let mut i: u32 = 2;
    while i <= bound
        invariant
            2 <= i,
            bound == n / 2,
            forall|d: int| 2 <= d < i ==> #[trigger] ((n as int) % d) != 0,
        decreases n - i,
    {
        if n % i == 0 {
            proof {
                lemma_divisor_at_most_half(n as int, i as int);
            }
            return false;
        }
        i = i + 1;
    }
    proof {
        if n >= 2 {
            assert forall|d: int| 2 <= d < n implies #[trigger] ((n as int) % d) != 0 by {
                if (n as int) % d == 0 {
                    lemma_divisor_at_most_half(n as int, d);
                }
            }
        }
    }
    true
}

} // verus!
