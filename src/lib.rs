//! Arithmetic in the integers modulo a prime, with every value kept in
//! canonical form.
mod field_element;
mod modular;
mod const_field;
pub mod fermat;
pub mod laws;

pub use field_element::{FieldElement, FieldError};
pub use const_field::{FieldElement2, Z2, Z5};
