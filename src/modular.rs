//! Facts of modular arithmetic that the field operations rest on.
use vstd::prelude::*;
use vstd::arithmetic::power::*;
use vstd::arithmetic::div_mod::*;

verus! {

/// Adding the modulus once does not change a remainder.
pub proof fn lemma_mod_add_modulus(x: int, m: int)
    requires
        m > 0,
    ensures
        (x + m) % m == x % m,
{
    lemma_mod_add_multiples_vanish(x, m);
}

/// The product of two values below `2^63` stays below `2^126`.
pub proof fn lemma_product_fits(a: int, b: int)
    requires
        0 <= a < 0x8000_0000_0000_0000,
        0 <= b < 0x8000_0000_0000_0000,
    ensures
        0 <= a * b < 0x4000_0000_0000_0000_0000_0000_0000_0000,
{
    assert(0 <= a * b < 0x4000_0000_0000_0000_0000_0000_0000_0000) by (nonlinear_arith)
        requires
            0 <= a < 0x8000_0000_0000_0000,
            0 <= b < 0x8000_0000_0000_0000,
    ;
}

/// One step of square-and-multiply keeps `acc * b^e` fixed modulo `m`.
proof fn lemma_square_step(acc: int, b: int, e: nat, m: int)
    requires
        m > 0,
    ensures
        (((if e % 2 == 1 { acc * b } else { acc }) % m) * pow((b * b) % m, e / 2)) % m
            == (acc * pow(b, e)) % m,
{
    let q = e / 2;
    let r = (e % 2) as nat;
    let next = if e % 2 == 1 { acc * b } else { acc };
    lemma_pow_adds(b, 2 * q, r);
    lemma_pow_multiplies(b, 2, q);
    lemma_square_is_pow2(b);
    lemma_pow0(b);
    lemma_pow1(b);
    assert(e == 2 * q + r);
    assert(pow(b, e) == pow(b * b, q) * pow(b, r));
    assert(acc * pow(b, e) == next * pow(b * b, q)) by (nonlinear_arith)
        requires
            pow(b, e) == pow(b * b, q) * pow(b, r),
            next == if r == 1 { acc * b } else { acc },
            pow(b, r) == if r == 1 { b } else { 1 },
    ;
    lemma_mul_mod_noop_general(next, pow((b * b) % m, q), m);
    lemma_pow_mod_noop(b * b, q, m);
    lemma_mul_mod_noop_general(next, pow(b * b, q), m);
}

/// `base` raised to `exp`, modulo `prime`, by repeated squaring.
pub fn pow_mod(base: i64, exp: u64, prime: i64) -> (r: i64)
    requires
        1 < prime,
        0 <= base < prime,
    ensures
        0 <= r < prime,
        r as int == pow(base as int, exp as nat) % (prime as int),
{
    let m: u128 = prime as u128;
    let mut acc: u128 = 1;
    let mut b: u128 = base as u128;
    let mut e: u64 = exp;
    while e > 0
        invariant
            m == prime,
            1 < m < 0x8000_0000_0000_0000,
            acc < m,
            b < m,
            (acc * pow(b as int, e as nat)) % (m as int) == pow(base as int, exp as nat) % (m as int),
        decreases e,
    {
        proof {
            lemma_square_step(acc as int, b as int, e as nat, m as int);
        }
        proof {
            lemma_product_fits(acc as int, b as int);
            lemma_product_fits(b as int, b as int);
        }
        if e % 2 == 1 {
            acc = (acc * b) % m;
        } else {
            proof {
                lemma_small_mod(acc as nat, m as nat);
            }
        }
        b = (b * b) % m;
        e = e / 2;
    }
    proof {
        lemma_pow0(b as int);
        lemma_small_mod(acc as nat, m as nat);
    }
    acc as i64
}

} // verus!
