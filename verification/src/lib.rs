//! Short-Weierstrass elliptic-curve arithmetic over a finite field:
//! modular field elements with a full arithmetic operator set, and curve
//! points (including the point at infinity) with the group-law addition.

pub mod errors;
pub mod field_element;
pub mod laws;
pub mod number_theory;
pub mod point;

