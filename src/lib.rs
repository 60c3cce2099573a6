//! Additive Common Divisor System (ACDS) for damage calculations.
//!
//! A modifier vector holds eight slot counts; slot `i` applies the fraction
//! `(i + 1) / 8` of the current damage, once per unit of its count, compounding
//! on the running value. There are two contexts:
//! - damage bonus: a positive count raises damage, a negative one lowers it;
//! - damage reduction: a positive count lowers damage, a negative one raises it.
pub mod model;
pub mod apply;
pub mod nominal;
pub mod laws;

pub use apply::{damage_bonus, damage_reduction, damage_reduction_early_exit, damage_reduction_list};
pub use nominal::{db_bytes_from_nominal, dr_bytes_from_nominal};

