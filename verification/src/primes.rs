//! The prime-counting evaluator: a Sieve of Eratosthenes, verified against
//! the mathematical definition of primality.

use vstd::prelude::*;
use vstd::pervasive::VecAdditionalExecFns;
use vstd::arithmetic::div_mod::{lemma_fundamental_div_mod, lemma_mod_multiples_basic, lemma_small_mod};

verus! {

/// `n` is prime: at least 2 and with no divisor strictly between 1 and `n`.
pub open spec fn is_prime(n: int) -> bool {
    n >= 2 && forall|d: int| 2 <= d < n ==> #[trigger] (n % d) != 0
}

/// The number of primes less than or equal to `n`.
pub open spec fn count_primes_upto(n: int) -> int
    decreases n,
{
    if n < 2 {
        0
    } else {
        count_primes_upto(n - 1) + if is_prime(n) { 1int } else { 0int }
    }
}

/// `k` has a proper divisor strictly below `bound`.
pub open spec fn has_factor_below(k: int, bound: int) -> bool {
    exists|d: int| 2 <= d < bound && #[trigger] (k % d) == 0 && d != k
}

proof fn lemma_multiple_ge(i: int, k: int)
    requires
        2 <= i,
        2 <= k,
        k % i == 0,
        k != i,
        !has_factor_below(k, i),
    ensures
        i * i <= k,
{
    lemma_fundamental_div_mod(k, i);
    let m = k / i;
    assert(k == i * m);
    if m <= 0 {
        assert(i * m <= 0) by (nonlinear_arith)
            requires i >= 2 && m <= 0;
        assert(false);
    } else if m == 1 {
        assert(k == i) by (nonlinear_arith)
            requires k == i * m && m == 1;
        assert(false);
    } else if m < i {
        lemma_mod_multiples_basic(i, m);
        assert((i * m) % m == 0);
        assert(k % m == 0);
        assert(m < k) by (nonlinear_arith)
            requires i >= 2 && m >= 2 && k == i * m;
        assert(has_factor_below(k, i));
        assert(false);
    } else {
        assert(i * i <= i * m) by (nonlinear_arith)
            requires i >= 2 && m >= i;
    }
}

proof fn lemma_multiple_of_composite(i: int, k: int)
    requires
        2 <= i,
        2 <= k,
        has_factor_below(i, i),
        k % i == 0,
        k != i,
    ensures
        has_factor_below(k, i),
{
    let d0 = choose|d: int| 2 <= d < i && #[trigger] (i % d) == 0 && d != i;
    lemma_fundamental_div_mod(i, d0);
    let e = i / d0;
    assert(i == d0 * e);
    lemma_fundamental_div_mod(k, i);
    let m = k / i;
    assert(k == i * m);
    if m <= 0 {
        assert(i * m <= 0) by (nonlinear_arith)
            requires i >= 2 && m <= 0;
        assert(false);
    }
    if m == 1 {
        assert(k == i) by (nonlinear_arith)
            requires k == i * m && m == 1;
        assert(false);
    }
    assert(k == (e * m) * d0) by (nonlinear_arith)
        requires i == d0 * e && k == i * m;
    lemma_mod_multiples_basic(e * m, d0);
    assert(k % d0 == 0);
    assert(k >= 2 * i) by (nonlinear_arith)
        requires i >= 2 && m >= 2 && k == i * m;
    assert(d0 != k);
    assert(2 <= d0 < i);
}

proof fn lemma_small_factor_rec(k: int, d: int)
    requires
        2 <= d < k,
        k % d == 0,
    ensures
        exists|dd: int| 2 <= dd && dd * dd <= k && #[trigger] (k % dd) == 0,
    decreases d,
{
    if d * d <= k {
        assert(2 <= d && d * d <= k && k % d == 0);
    } else {
        lemma_fundamental_div_mod(k, d);
        let e = k / d;
        assert(k == d * e);
        if e <= 0 {
            assert(d * e <= 0) by (nonlinear_arith)
                requires d >= 2 && e <= 0;
            assert(false);
        }
        if e == 1 {
            assert(k == d) by (nonlinear_arith)
                requires k == d * e && e == 1;
            assert(false);
        }
        assert(e < d) by (nonlinear_arith)
            requires d >= 2 && e >= 1 && k == d * e && d * d > k;
        assert(e < k) by (nonlinear_arith)
            requires d >= 2 && e >= 2 && k == d * e;
        lemma_mod_multiples_basic(d, e);
        assert((d * e) % e == 0);
        assert(k % e == 0);
        lemma_small_factor_rec(k, e);
    }
}

proof fn lemma_composite_has_small_factor(k: int)
    requires
        2 <= k,
        !is_prime(k),
    ensures
        exists|dd: int| 2 <= dd && dd * dd <= k && #[trigger] (k % dd) == 0,
{
    let d = choose|d: int| 2 <= d < k && #[trigger] (k % d) == 0;
    lemma_small_factor_rec(k, d);
}

proof fn lemma_prime_has_no_factor(k: int, bound: int)
    requires
        is_prime(k),
    ensures
        !has_factor_below(k, bound),
{
    if has_factor_below(k, bound) {
        let d = choose|d: int| 2 <= d < bound && #[trigger] (k % d) == 0 && d != k;
        if d < k {
            assert(k % d != 0);
        } else {
            assert(d > k);
            lemma_small_mod(k as nat, d as nat);
            assert(k % d == k);
        }
        assert(false);
    }
}

proof fn lemma_final_classification(k: int, i: int, n: int)
    requires
        2 <= k <= n,
        i >= 2,
        i * i > n,
    ensures
        is_prime(k) <==> !has_factor_below(k, i),
{
    if is_prime(k) {
        lemma_prime_has_no_factor(k, i);
    } else {
        lemma_composite_has_small_factor(k);
        let dd = choose|dd: int| 2 <= dd && dd * dd <= k && #[trigger] (k % dd) == 0;
        assert(dd < i) by (nonlinear_arith)
            requires dd >= 2 && i >= 2 && dd * dd <= k && k <= n && i * i > n;
        assert(dd != k) by {
            if dd == k {
                assert(k * k <= k);
                assert(k * k > k) by (nonlinear_arith)
                    requires k >= 2;
            }
        };
        assert(has_factor_below(k, i));
    }
}

/// The number of primes less than or equal to `n`, by a Sieve of
/// Eratosthenes: every composite at most `n` is struck out by its smallest
/// factor, whose square does not exceed `n`.
#[verifier::loop_isolation(false)]
pub fn count_primes(n: u64) -> (c: u64)
    requires
        n < usize::MAX as u64,
    ensures
        c as int == count_primes_upto(n as int),
{
    if n < 2 {
        return 0;
    }
    let nu = n as usize;
    let mut sieve: Vec<bool> = vec![true; nu + 1];
    sieve.set(0, false);
    sieve.set(1, false);
    let mut i: usize = 2;
    while i <= nu / i
        invariant
            2 <= i,
            2 <= nu < usize::MAX,
            sieve@.len() == nu + 1,
            !sieve@[0],
            !sieve@[1],
            forall|k: int| 2 <= k <= nu ==> (sieve@[k] <==> !has_factor_below(k, i as int)),
        decreases nu + 1 - i,
    {
        proof {
            lemma_fundamental_div_mod(nu as int, i as int);
            let q = nu as int / i as int;
            let r = nu as int % i as int;
            assert(i * i <= nu) by (nonlinear_arith)
                requires
                    i as int >= 2,
                    q >= i as int,
                    nu as int == i as int * q + r,
                    r >= 0,
            ;
            assert(i <= nu) by (nonlinear_arith)
                requires
                    i as int >= 2,
                    i * i <= nu,
            ;
        }
        if sieve[i] {
            let ghost pre = sieve@;
            let mut j: usize = i * i;
            proof {
                lemma_mod_multiples_basic(i as int, i as int);
                assert(j % i == 0);
                assert(forall|k: int| 2 <= k <= nu ==> (pre[k] <==> !has_factor_below(
                    k,
                    i as int,
                )));
                assert(pre[i as int]);
                assert(pre.len() == nu + 1);
            }
            while j <= nu
                invariant
                    2 <= i,
                    2 <= nu < usize::MAX,
                    sieve@.len() == nu + 1,
                    i * i <= j,
                    j <= nu ==> j % i == 0,
                    forall|k: int| 0 <= k <= nu ==> (sieve@[k] <==> (pre[k] && !(k % (i as int) == 0
                        && i * i <= k < j))),
                decreases nu + 1 - j,
            {
                sieve.set(j, false);
                proof {
                    // there is no multiple of i strictly between j and j + i
                    lemma_fundamental_div_mod(j as int, i as int);
                    let b = j as int / i as int;
                    assert(j as int == i as int * b);
                    assert forall|k: int| j < k < j + i implies #[trigger] (k % (i as int))
                        != 0 by {
                        if k % (i as int) == 0 {
                            lemma_fundamental_div_mod(k, i as int);
                            let a = k / i as int;
                            assert(k == i as int * a);
                            assert(false) by (nonlinear_arith)
                                requires
                                    i as int >= 2,
                                    k == i as int * a,
                                    j as int == i as int * b,
                                    j < k < j + i,
                            ;
                        }
                    }
                }
                if nu - j < i {
                    j = nu + 1;
                } else {
                    proof {
                        let b = j as int / i as int;
                        lemma_mod_multiples_basic(b + 1, i as int);
                        assert(j + i == (b + 1) * (i as int)) by (nonlinear_arith)
                            requires j as int == i as int * b;
                        assert((j + i) % (i as int) == 0);
                    }
                    j = j + i;
                }
            }
            proof {
                assert forall|k: int| 2 <= k <= nu implies (sieve@[k] <==> !has_factor_below(
                    k,
                    i as int + 1,
                )) by {
                    assert(pre[i as int]);
                    assert(!has_factor_below(i as int, i as int));
                    if has_factor_below(k, i as int + 1) {
                        let d = choose|d: int|
                            2 <= d < i as int + 1 && #[trigger] (k % d) == 0 && d != k;
                        if d < i as int {
                            assert(has_factor_below(k, i as int));
                        } else {
                            assert(d == i as int);
                        }
                    }
                    if pre[k] {
                        lemma_multiple_ge_helper(i as int, k);
                        if k % (i as int) == 0 && k != i as int {
                            assert(has_factor_below(k, i as int + 1));
                        }
                    } else {
                        let d = choose|d: int|
                            2 <= d < i as int && #[trigger] (k % d) == 0 && d != k;
                        assert(2 <= d < i as int + 1 && k % d == 0 && d != k);
                        assert(has_factor_below(k, i as int + 1));
                    }
                }
            }
        } else {
            proof {
                assert forall|k: int| 2 <= k <= nu implies (sieve@[k] <==> !has_factor_below(
                    k,
                    i as int + 1,
                )) by {
                    assert(!sieve@[i as int]);
                    assert(has_factor_below(i as int, i as int));
                    if k % (i as int) == 0 && k != i as int {
                        lemma_multiple_of_composite(i as int, k);
                    }
                    if has_factor_below(k, i as int) {
                        let d = choose|d: int|
                            2 <= d < i as int && #[trigger] (k % d) == 0 && d != k;
                        assert(2 <= d < i as int + 1 && k % d == 0 && d != k);
                        assert(has_factor_below(k, i as int + 1));
                    }
                    if has_factor_below(k, i as int + 1) && !has_factor_below(k, i as int) {
                        let d = choose|d: int|
                            2 <= d < i as int + 1 && #[trigger] (k % d) == 0 && d != k;
                        assert(d == i as int);
                    }
                }
            }
        }
        i = i + 1;
    }
    proof {
        lemma_fundamental_div_mod(nu as int, i as int);
        let q = nu as int / i as int;
        let r = nu as int % i as int;
        assert(i * i > nu) by (nonlinear_arith)
            requires
                i as int >= 2,
                q <= i as int - 1,
                nu as int == i as int * q + r,
                r < i as int,
        ;
        assert forall|k: int| 2 <= k <= nu implies (sieve@[k] <==> is_prime(k)) by {
            lemma_final_classification(k, i as int, nu as int);
        }
    }
    let mut c: u64 = 0;
    let mut k: usize = 0;
    while k <= nu
        invariant
            k <= nu + 1,
            2 <= nu < usize::MAX,
            n == nu,
            sieve@.len() == nu + 1,
            forall|t: int| 2 <= t <= nu ==> (sieve@[t] <==> is_prime(t)),
            !sieve@[0],
            !sieve@[1],
            c as int == count_primes_upto(k as int - 1),
            c <= k,
        decreases nu + 1 - k,
    {
        if sieve[k] {
            c = c + 1;
        }
        k = k + 1;
    }
    c
}

proof fn lemma_multiple_ge_helper(i: int, k: int)
    requires
        2 <= i,
        2 <= k,
        !has_factor_below(k, i),
    ensures
        (k % i == 0 && i * i <= k) <==> (k % i == 0 && k != i),
{
    if k % i == 0 && i * i <= k {
        assert(i * i > i) by (nonlinear_arith)
            requires i >= 2;
    }
    if k % i == 0 && k != i {
        lemma_multiple_ge(i, k);
    }
}

} // verus!
