//! Scalar multiplication and pairing evaluation over the BN254 pairing-friendly curve,
//! on top of the Apache Milagro (amcl) curve arithmetic.
//!
//! - `bignum`: the limb model of amcl's big numbers and the calls into them.
//! - `utils`: Barrett reduction, and generator seeding.
//! - `curve_order_elem`: scalars modulo the group order, with wNAF and radix digits.
//! - `group_elem`: the group interface, lookup tables, and the single and
//!   multi-scalar multiplication engines.
//! - `group_elem_g1`, `group_elem_g2`: the two source groups.
//! - `group_elem_vector`: vectors of group elements.
//! - `extension_field_gt`: the target group and the reduced ate pairing.
//! - `hex`: the text form of field elements.
//! - `errors`: errors reported to callers.
pub mod bignum;
pub mod curve_order_elem;
pub mod errors;
pub mod extension_field_gt;
pub mod group_elem;
pub mod group_elem_g1;
pub mod group_elem_g2;
pub mod group_elem_vector;
pub mod hex;
pub mod utils;
