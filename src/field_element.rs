use vstd::prelude::*;
use vstd::arithmetic::power::pow;
use crate::modular::{pow_mod, lemma_mod_add_modulus, lemma_product_fits};

verus! {

/// An element of the integers modulo `prime`, held by its canonical residue.
#[derive(Debug, Clone, Copy, PartialEq, Eq, PartialOrd, Structural)]
pub struct FieldElement {
    pub prime: i64,
    pub num: i64,
}

/// Why an operation on two elements could not be carried out.
#[derive(Debug, Clone, Copy, PartialEq, Eq, Structural)]
pub enum FieldError {
    /// The two operands belong to fields of different moduli.
    FieldMismatch,
    /// The divisor is the zero element.
    DivisionByZero,
}

impl FieldElement {
    /// The element is in canonical form: a modulus above one and a residue in `[0, prime)`.
    pub open spec fn wf(self) -> bool {
        1 < self.prime && 0 <= self.num < self.prime
    }

    /// The element of the field of `prime` whose residue is `value` reduced modulo `prime`.
    pub open spec fn spec_new(value: int, prime: int) -> FieldElement {
        FieldElement { prime: prime as i64, num: (value % prime) as i64 }
    }

    /// Builds the element of the field of `prime` that `value` stands for,
    /// reducing negative and large values to the canonical residue.
    pub fn new(value: i64, prime: i64) -> (r: FieldElement)
        requires
            1 < prime,
        ensures
            r.wf(),
            r == FieldElement::spec_new(value as int, prime as int),
    {
        FieldElement { prime, num: value.checked_rem_euclid(prime).unwrap() }
    }

    /// This element raised to the power `e`, reduced modulo its field's prime.
    pub open spec fn pow_spec(self, e: nat) -> FieldElement {
        FieldElement::spec_new(pow(self.num as int, e), self.prime as int)
    }

    /// Raises this element to the power `exponent` by repeated squaring,
    /// reducing at every step; `pow(0)` is the unit element.
    pub fn pow(self, exponent: u32) -> (r: FieldElement)
        requires
            self.wf(),
        ensures
            r.wf(),
            r == self.pow_spec(exponent as nat),
    {
        FieldElement { prime: self.prime, num: pow_mod(self.num, exponent as u64, self.prime) }
    }
}

impl std::ops::Add for FieldElement {
    type Output = Result<FieldElement, FieldError>;

    /// Adds two elements of one field; elements of different fields give `FieldMismatch`.
    fn add(self, y: FieldElement) -> Result<FieldElement, FieldError> {
        if self.prime != y.prime {
            return Err(FieldError::FieldMismatch);
        }
        let sum: u64 = self.num as u64 + y.num as u64;
        Ok(FieldElement { prime: self.prime, num: (sum % self.prime as u64) as i64 })
    }
}

impl vstd::std_specs::ops::AddSpecImpl for FieldElement {
    open spec fn obeys_add_spec() -> bool {
        true
    }

    open spec fn add_req(self, y: FieldElement) -> bool {
        self.wf() && y.wf()
    }

    open spec fn add_spec(self, y: FieldElement) -> Result<FieldElement, FieldError> {
        if self.prime != y.prime {
            Err(FieldError::FieldMismatch)
        } else {
            Ok(FieldElement::spec_new(self.num + y.num, self.prime as int))
        }
    }
}

impl std::ops::Sub for FieldElement {
    type Output = Result<FieldElement, FieldError>;

    /// Subtracts two elements of one field; elements of different fields give `FieldMismatch`.
    fn sub(self, y: FieldElement) -> Result<FieldElement, FieldError> {
        if self.prime != y.prime {
            return Err(FieldError::FieldMismatch);
        }
        let shifted: u64 = self.num as u64 + self.prime as u64 - y.num as u64;
        proof {
            lemma_mod_add_modulus(self.num - y.num, self.prime as int);
        }
        Ok(FieldElement { prime: self.prime, num: (shifted % self.prime as u64) as i64 })
    }
}

impl vstd::std_specs::ops::SubSpecImpl for FieldElement {
    open spec fn obeys_sub_spec() -> bool {
        true
    }

    open spec fn sub_req(self, y: FieldElement) -> bool {
        self.wf() && y.wf()
    }

    open spec fn sub_spec(self, y: FieldElement) -> Result<FieldElement, FieldError> {
        if self.prime != y.prime {
            Err(FieldError::FieldMismatch)
        } else {
            Ok(FieldElement::spec_new(self.num - y.num, self.prime as int))
        }
    }
}

impl std::ops::Mul for FieldElement {
    type Output = Result<FieldElement, FieldError>;

    /// Multiplies two elements of one field; elements of different fields give `FieldMismatch`.
    fn mul(self, y: FieldElement) -> Result<FieldElement, FieldError> {
        if self.prime != y.prime {
            return Err(FieldError::FieldMismatch);
        }
        proof {
            lemma_product_fits(self.num as int, y.num as int);
        }
        let product: u128 = self.num as u128 * y.num as u128;
        Ok(FieldElement { prime: self.prime, num: (product % self.prime as u128) as i64 })
    }
}

impl vstd::std_specs::ops::MulSpecImpl for FieldElement {
    open spec fn obeys_mul_spec() -> bool {
        true
    }

    open spec fn mul_req(self, y: FieldElement) -> bool {
        self.wf() && y.wf()
    }

    open spec fn mul_spec(self, y: FieldElement) -> Result<FieldElement, FieldError> {
        if self.prime != y.prime {
            Err(FieldError::FieldMismatch)
        } else {
            Ok(FieldElement::spec_new(self.num * y.num, self.prime as int))
        }
    }
}

impl std::ops::Div for FieldElement {
    type Output = Result<FieldElement, FieldError>;

    /// Divides by multiplying with `y` raised to `prime - 2`, the inverse of `y`
    /// when the modulus is prime. Elements of different fields give
    /// `FieldMismatch`; a zero divisor gives `DivisionByZero`.
    fn div(self, y: FieldElement) -> Result<FieldElement, FieldError> {
        if self.prime != y.prime {
            return Err(FieldError::FieldMismatch);
        }
        if y.num == 0 {
            return Err(FieldError::DivisionByZero);
        }
        let inverse = pow_mod(y.num, (self.prime - 2) as u64, self.prime);
        proof {
            lemma_product_fits(self.num as int, inverse as int);
            vstd::arithmetic::div_mod::lemma_mul_mod_noop_right(
                self.num as int,
                pow(y.num as int, (self.prime - 2) as nat),
                self.prime as int,
            );
        }
        let product: u128 = self.num as u128 * inverse as u128;
        Ok(FieldElement { prime: self.prime, num: (product % self.prime as u128) as i64 })
    }
}

impl vstd::std_specs::ops::DivSpecImpl for FieldElement {
    open spec fn obeys_div_spec() -> bool {
        true
    }

    open spec fn div_req(self, y: FieldElement) -> bool {
        self.wf() && y.wf()
    }

    open spec fn div_spec(self, y: FieldElement) -> Result<FieldElement, FieldError> {
        if self.prime != y.prime {
            Err(FieldError::FieldMismatch)
        } else if y.num == 0 {
            Err(FieldError::DivisionByZero)
        } else {
            Ok(
                FieldElement::spec_new(
                    self.num * pow(y.num as int, (self.prime - 2) as nat),
                    self.prime as int,
                ),
            )
        }
    }
}

} // verus!
