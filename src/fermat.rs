//! Fermat's little theorem: for a prime `p` and `0 < a < p`,
//! `a^(p-1) % p == 1`. Division in a prime field rests on it.
use vstd::prelude::*;
use vstd::arithmetic::power::*;
use vstd::arithmetic::div_mod::*;
use vstd::arithmetic::mul::lemma_mul_is_commutative;

verus! {

/// `p` is a prime: above one, with no divisor strictly between one and itself.
pub open spec fn is_prime(p: int) -> bool {
    p > 1 && forall|d: int| 1 < d < p ==> #[trigger] (p % d) != 0
}

/// Euclid's lemma: a prime that divides `a * b`, with `0 < a < p`, divides `b`.
pub proof fn lemma_prime_divides_factor(p: int, a: int, b: int)
    requires
        is_prime(p),
        0 < a < p,
        (a * b) % p == 0,
    ensures
        b % p == 0,
    decreases a,
{
    if a > 1 {
        let q = p / a;
        let r = p % a;
        assert(r != 0);
        lemma_fundamental_div_mod(p, a);
        lemma_fundamental_div_mod(a * b, p);
        let k = (a * b) / p;
        assert(0 < r < a);
        assert(r * b == p * (b - q * k)) by (nonlinear_arith)
            requires
                p == a * q + r,
                a * b == p * k,
        ;
        lemma_mod_multiples_basic(b - q * k, p);
        assert((r * b) % p == 0) by {
            lemma_mul_is_commutative(p, b - q * k);
        }
        lemma_prime_divides_factor(p, r, b);
    } else {
        assert(a * b == b) by (nonlinear_arith)
            requires
                a == 1,
        ;
    }
}

/// The binomial coefficient `n` choose `k`, by Pascal's rule.
pub open spec fn binom(n: nat, k: nat) -> nat
    decreases n,
{
    if k == 0 {
        1
    } else if n == 0 {
        0
    } else {
        binom((n - 1) as nat, (k - 1) as nat) + binom((n - 1) as nat, k)
    }
}

/// No way to choose more items than there are.
proof fn lemma_binom_above(n: nat, k: nat)
    requires
        k > n,
    ensures
        binom(n, k) == 0,
    decreases n,
{
    if n > 0 {
        lemma_binom_above((n - 1) as nat, (k - 1) as nat);
        lemma_binom_above((n - 1) as nat, k);
    }
}

/// One way to choose all items.
proof fn lemma_binom_all(n: nat)
    ensures
        binom(n, n) == 1,
    decreases n,
{
    if n > 0 {
        lemma_binom_all((n - 1) as nat);
        lemma_binom_above((n - 1) as nat, n);
    }
}

/// The absorption identity `k * C(n, k) == n * C(n - 1, k - 1)`.
proof fn lemma_binom_absorb(n: nat, k: nat)
    requires
        n >= 1,
        k >= 1,
    ensures
        k * binom(n, k) == n * binom((n - 1) as nat, (k - 1) as nat),
    decreases n,
{
    let n1 = (n - 1) as nat;
    let k1 = (k - 1) as nat;
    if n == 1 {
        if k > 1 {
            lemma_binom_above(0, k1);
        }
    } else {
        let n2 = (n - 2) as nat;
        lemma_binom_absorb(n1, k);
        if k == 1 {
            assert(k * binom(n, k) == n * binom(n1, k1)) by (nonlinear_arith)
                requires
                    k == 1,
                    binom(n, k) == binom(n1, k1) + binom(n1, k),
                    binom(n1, k1) == 1,
                    binom(n2, 0) == 1,
                    k * binom(n1, k) == n1 * binom(n2, 0),
                    n1 == n - 1,
            ;
        } else {
            let k2 = (k - 2) as nat;
            lemma_binom_absorb(n1, k1);
            assert(k * binom(n, k) == n * binom(n1, k1)) by (nonlinear_arith)
                requires
                    binom(n, k) == binom(n1, k1) + binom(n1, k),
                    binom(n1, k1) == binom(n2, k2) + binom(n2, k1),
                    k * binom(n1, k) == n1 * binom(n2, k1),
                    k1 * binom(n1, k1) == n1 * binom(n2, k2),
                    n1 == n - 1,
                    k1 == k - 1,
            ;
        }
    }
}

/// A prime `p` divides `C(p, k)` for `0 < k < p`.
proof fn lemma_prime_divides_binom(p: nat, k: nat)
    requires
        is_prime(p as int),
        0 < k < p,
    ensures
        (binom(p, k) as int) % (p as int) == 0,
{
    lemma_binom_absorb(p, k);
    let c = binom((p - 1) as nat, (k - 1) as nat) as int;
    lemma_mod_multiples_basic(c, p as int);
    assert(((k * binom(p, k)) as int) % (p as int) == 0) by {
        lemma_mul_is_commutative(p as int, c);
    }
    lemma_prime_divides_factor(p as int, k as int, binom(p, k) as int);
}

/// The partial sum `C(n, 0) * a^0 + ... + C(n, m) * a^m`.
pub open spec fn binom_sum(n: nat, a: int, m: nat) -> int
    decreases m,
{
    binom(n, m) * pow(a, m) + if m == 0 {
        0
    } else {
        binom_sum(n, a, (m - 1) as nat)
    }
}

/// Pascal's rule carried over to the partial sums.
proof fn lemma_binom_sum_step(n: nat, a: int, m: nat)
    ensures
        binom_sum(n + 1, a, m) == binom_sum(n, a, m) + if m == 0 {
            0
        } else {
            a * binom_sum(n, a, (m - 1) as nat)
        },
    decreases m,
{
    if m > 0 {
        let m1 = (m - 1) as nat;
        lemma_binom_sum_step(n, a, m1);
        reveal(pow);
        assert(pow(a, m) == a * pow(a, m1));
        assert(binom(n + 1, m) == binom(n, m1) + binom(n, m));
        let rest = if m1 == 0 {
            0
        } else {
            binom_sum(n, a, (m1 - 1) as nat)
        };
        assert(binom_sum(n, a, m1) == binom(n, m1) * pow(a, m1) + rest);
        assert(binom_sum(n + 1, a, m) == binom_sum(n, a, m) + a * binom_sum(n, a, m1))
            by (nonlinear_arith)
            requires
                binom_sum(n + 1, a, m) == binom(n + 1, m) * pow(a, m) + binom_sum(n + 1, a, m1),
                binom_sum(n + 1, a, m1) == binom_sum(n, a, m1) + a * rest,
                binom_sum(n, a, m) == binom(n, m) * pow(a, m) + binom_sum(n, a, m1),
                binom_sum(n, a, m1) == binom(n, m1) * pow(a, m1) + rest,
                pow(a, m) == a * pow(a, m1),
                binom(n + 1, m) == binom(n, m1) + binom(n, m),
        ;
    }
}

/// Terms past `n` add nothing to the partial sum.
proof fn lemma_binom_sum_past(n: nat, a: int)
    ensures
        binom_sum(n, a, n + 1) == binom_sum(n, a, n),
{
    lemma_binom_above(n, n + 1);
}

/// The binomial theorem: `(a + 1)^n` is the full sum of `C(n, k) * a^k`.
pub proof fn lemma_binomial(n: nat, a: int)
    ensures
        pow(a + 1, n) == binom_sum(n, a, n),
    decreases n,
{
    reveal(pow);
    if n > 0 {
        let n1 = (n - 1) as nat;
        lemma_binomial(n1, a);
        lemma_binom_sum_step(n1, a, n);
        lemma_binom_sum_past(n1, a);
        assert(pow(a + 1, n) == (a + 1) * pow(a + 1, n1));
        assert((a + 1) * binom_sum(n1, a, n1) == binom_sum(n1, a, n1) + a * binom_sum(n1, a, n1))
            by (nonlinear_arith);
    }
}

/// For a prime `p` and `m < p`, the partial sum up to `m` is one more than a multiple of `p`.
proof fn lemma_binom_sum_inner(p: nat, a: int, m: nat) -> (k: int)
    requires
        is_prime(p as int),
        m < p,
    ensures
        binom_sum(p, a, m) == 1 + p * k,
    decreases m,
{
    if m == 0 {
        reveal(pow);
        0
    } else {
        let j = lemma_binom_sum_inner(p, a, (m - 1) as nat);
        lemma_prime_divides_binom(p, m);
        lemma_fundamental_div_mod(binom(p, m) as int, p as int);
        let c = binom(p, m) as int / (p as int);
        assert(binom(p, m) * pow(a, m) == p * (c * pow(a, m))) by (nonlinear_arith)
            requires
                binom(p, m) == p * c,
        ;
        assert(binom_sum(p, a, m) == 1 + p * (c * pow(a, m) + j)) by (nonlinear_arith)
            requires
                binom_sum(p, a, m) == binom(p, m) * pow(a, m) + binom_sum(p, a, (m - 1) as nat),
                binom(p, m) * pow(a, m) == p * (c * pow(a, m)),
                binom_sum(p, a, (m - 1) as nat) == 1 + p * j,
        ;
        c * pow(a, m) + j
    }
}

/// In characteristic `p`, `(a + 1)^p` is `a^p + 1` plus a multiple of `p`.
proof fn lemma_freshman(p: nat, a: int) -> (k: int)
    requires
        is_prime(p as int),
    ensures
        pow(a + 1, p) == pow(a, p) + 1 + p * k,
{
    lemma_binomial(p, a);
    lemma_binom_all(p);
    let k = lemma_binom_sum_inner(p, a, (p - 1) as nat);
    k
}

/// `a^p - a` is a multiple of the prime `p`, for every `a >= 0`.
proof fn lemma_pow_prime_minus_self(p: nat, a: nat) -> (k: int)
    requires
        is_prime(p as int),
    ensures
        pow(a as int, p) - a == p * k,
    decreases a,
{
    if a == 0 {
        lemma0_pow(p);
        0
    } else {
        let a1 = (a - 1) as nat;
        let j = lemma_pow_prime_minus_self(p, a1);
        let i = lemma_freshman(p, a1 as int);
        assert(pow(a as int, p) - a == p * (i + j)) by (nonlinear_arith)
            requires
                pow(a as int, p) == pow(a1 as int, p) + 1 + p * i,
                pow(a1 as int, p) - a1 == p * j,
                a == a1 + 1,
        ;
        i + j
    }
}

/// Fermat's little theorem.
pub proof fn lemma_fermat(p: int, a: int)
    requires
        is_prime(p),
        0 < a < p,
    ensures
        pow(a, (p - 1) as nat) % p == 1,
{
    let e = (p - 1) as nat;
    let k = lemma_pow_prime_minus_self(p as nat, a as nat);
    lemma_pow_adds(a, 1, e);
    lemma_pow1(a);
    assert(a * (pow(a, e) - 1) == p * k) by (nonlinear_arith)
        requires
            pow(a, p as nat) - a == p * k,
            pow(a, p as nat) == a * pow(a, e),
    ;
    lemma_mod_multiples_basic(k, p);
    lemma_mul_is_commutative(p, k);
    lemma_prime_divides_factor(p, a, pow(a, e) - 1);
    lemma_mod_add_multiples_vanish(pow(a, e) - 1, p);
    lemma_small_mod(1, p as nat);
    lemma_add_mod_noop(pow(a, e) - 1, 1, p);
}

} // verus!
