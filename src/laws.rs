//! Algebraic laws of field elements, stated over the specifications of the
//! constructor and of the arithmetic operators.
use vstd::prelude::*;
use vstd::arithmetic::power::*;
use vstd::arithmetic::div_mod::*;
use vstd::std_specs::ops::{AddSpec, SubSpec, MulSpec, DivSpec};
use crate::field_element::{FieldElement, FieldError};
use crate::fermat::{is_prime, lemma_fermat};

verus! {

/// The result is an element of the field of `prime`, in canonical form.
pub open spec fn lands_in(r: Result<FieldElement, FieldError>, prime: i64) -> bool {
    match r {
        Ok(e) => e.wf() && e.prime == prime,
        Err(_) => false,
    }
}

/// Closure: the sum, difference and product of two elements of one field
/// succeed and are canonical elements of that same field.
pub proof fn law_closure(x: FieldElement, y: FieldElement)
    requires
        x.wf(),
        y.wf(),
        x.prime == y.prime,
    ensures
        lands_in(x.add_spec(y), x.prime),
        lands_in(x.sub_spec(y), x.prime),
        lands_in(x.mul_spec(y), x.prime),
{
}

/// Additive identity: zero plus `x` is `x`.
pub proof fn law_additive_identity(x: FieldElement)
    requires
        x.wf(),
    ensures
        FieldElement::spec_new(0, x.prime as int).add_spec(x) == Ok::<FieldElement, FieldError>(x),
{
    lemma_small_mod(x.num as nat, x.prime as nat);
}

/// Additive inverse: `x` plus (zero minus `x`) is zero.
pub proof fn law_additive_inverse(x: FieldElement)
    requires
        x.wf(),
    ensures
        ({
            let zero = FieldElement::spec_new(0, x.prime as int);
            match zero.sub_spec(x) {
                Ok(n) => x.add_spec(n) == Ok::<FieldElement, FieldError>(zero),
                Err(_) => false,
            }
        }),
{
    let p = x.prime as int;
    lemma_add_mod_noop_right(x.num as int, 0 - x.num, p);
}

/// Multiplicative inverse: in a prime field, `y` times (one divided by `y`)
/// is one, for every non-zero `y`.
pub proof fn law_multiplicative_inverse(y: FieldElement)
    requires
        y.wf(),
        is_prime(y.prime as int),
        y.num != 0,
    ensures
        ({
            let one = FieldElement::spec_new(1, y.prime as int);
            match one.div_spec(y) {
                Ok(q) => y.mul_spec(q) == Ok::<FieldElement, FieldError>(one),
                Err(_) => false,
            }
        }),
{
    let p = y.prime as int;
    let a = y.num as int;
    let e = (p - 2) as nat;
    lemma_small_mod(1, p as nat);
    lemma_fermat(p, a);
    lemma_pow_adds(a, 1, e);
    lemma_pow1(a);
    assert(1 * pow(a, e) == pow(a, e));
    lemma_mul_mod_noop_right(a, pow(a, e), p);
    assert((1 + e) as nat == (p - 1) as nat);
}

/// Any element raised to the power zero is one.
pub proof fn law_pow_zero(x: FieldElement)
    requires
        x.wf(),
    ensures
        x.pow_spec(0) == FieldElement::spec_new(1, x.prime as int),
{
    lemma_pow0(x.num as int);
}

} // verus!
