//! Point arithmetic on a Weierstrass-style curve over the integers modulo `m`,
//! on arbitrary-precision integers.
//!
//! The integers are `num_bigint::BigInt` values. Verus cannot look inside one,
//! so the module `integer` gives each its mathematical value and states what the
//! arithmetic of `num_bigint` does to it; those statements are believed, not
//! proved. Everything else is proved from them.

pub mod euclid;
pub mod group;
pub mod integer;
pub mod laws;
pub mod modular;
pub mod point;
