//! Field elements whose modulus is fixed by the type, so that elements of
//! different fields cannot be combined at all.
use vstd::prelude::*;
use crate::modular::{lemma_mod_add_modulus, lemma_product_fits};

verus! {

/// An element of the integers modulo `P`, held by its residue in `[0, P)`.
#[derive(Debug, Clone, Copy, PartialEq, Eq)]
pub struct FieldElement2<const P: usize>(pub i64);

/// The field with two elements.
pub type Z2 = FieldElement2<2>;

/// The field with five elements.
pub type Z5 = FieldElement2<5>;

impl<const P: usize> FieldElement2<P> {
    /// The modulus is above one and fits in `i64`, and the residue is in `[0, P)`.
    pub open spec fn wf(self) -> bool {
        1 < P <= i64::MAX && 0 <= self.0 < P
    }
}

impl<const P: usize> std::ops::Add for FieldElement2<P> {
    type Output = FieldElement2<P>;

    /// The sum, reduced modulo `P`.
    fn add(self, rhs: Self) -> FieldElement2<P> {
        let sum: u64 = self.0 as u64 + rhs.0 as u64;
        FieldElement2((sum % P as u64) as i64)
    }
}

impl<const P: usize> vstd::std_specs::ops::AddSpecImpl for FieldElement2<P> {
    open spec fn obeys_add_spec() -> bool {
        true
    }

    open spec fn add_req(self, rhs: Self) -> bool {
        self.wf() && rhs.wf()
    }

    open spec fn add_spec(self, rhs: Self) -> FieldElement2<P> {
        FieldElement2(((self.0 + rhs.0) % (P as int)) as i64)
    }
}

impl<const P: usize> std::ops::Mul for FieldElement2<P> {
    type Output = FieldElement2<P>;

    /// The product, reduced modulo `P`.
    fn mul(self, rhs: Self) -> FieldElement2<P> {
        proof {
            lemma_product_fits(self.0 as int, rhs.0 as int);
        }
        let product: u128 = self.0 as u128 * rhs.0 as u128;
        FieldElement2((product % P as u128) as i64)
    }
}

impl<const P: usize> vstd::std_specs::ops::MulSpecImpl for FieldElement2<P> {
    open spec fn obeys_mul_spec() -> bool {
        true
    }

    open spec fn mul_req(self, rhs: Self) -> bool {
        self.wf() && rhs.wf()
    }

    open spec fn mul_spec(self, rhs: Self) -> FieldElement2<P> {
        FieldElement2(((self.0 * rhs.0) % (P as int)) as i64)
    }
}

impl<const P: usize> std::ops::Neg for FieldElement2<P> {
    type Output = FieldElement2<P>;

    /// The additive inverse, in canonical form.
    fn neg(self) -> FieldElement2<P> {
        proof {
            lemma_mod_add_modulus(-self.0, P as int);
        }
        let shifted: u64 = P as u64 - self.0 as u64;
        FieldElement2((shifted % P as u64) as i64)
    }
}

impl<const P: usize> vstd::std_specs::ops::NegSpecImpl for FieldElement2<P> {
    open spec fn obeys_neg_spec() -> bool {
        true
    }

    open spec fn neg_req(self) -> bool {
        self.wf()
    }

    open spec fn neg_spec(self) -> FieldElement2<P> {
        FieldElement2(((-self.0) % (P as int)) as i64)
    }
}

impl<const P: usize> std::ops::Sub for FieldElement2<P> {
    type Output = FieldElement2<P>;

    /// The difference, in canonical form.
    fn sub(self, rhs: Self) -> FieldElement2<P> {
        proof {
            lemma_mod_add_modulus(self.0 - rhs.0, P as int);
        }
        let shifted: u64 = self.0 as u64 + P as u64 - rhs.0 as u64;
        FieldElement2((shifted % P as u64) as i64)
    }
}

impl<const P: usize> vstd::std_specs::ops::SubSpecImpl for FieldElement2<P> {
    open spec fn obeys_sub_spec() -> bool {
        true
    }

    open spec fn sub_req(self, rhs: Self) -> bool {
        self.wf() && rhs.wf()
    }

    open spec fn sub_spec(self, rhs: Self) -> FieldElement2<P> {
        FieldElement2(((self.0 - rhs.0) % (P as int)) as i64)
    }
}

} // verus!
