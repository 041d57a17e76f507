//! Reference orbits of the quadratic map `z -> z^2 + c` at arbitrary
//! precision, sampled down to IEEE-754 doubles, with the rules of the worker
//! session that serves them and the framing of a computed orbit.
//!
//! - `bigreal`: finite reals as sign, exponent and mantissa words.
//! - `double`: the exact conversion between such reals and doubles.
//! - `literal`: the grammar of decimal literals.
//! - `engine`: arithmetic at a fixed precision, done by `astro_float`.
//! - `orbit`: the iteration, its bailout rule and its samples.
//! - `codec`: the binary frame of a result.
//! - `session`: the state machine of a worker session.
//!
//! Doubles are carried as the bit patterns of `f64::to_bits` throughout.
//! Mantissa words are 64 bits wide, as they are in `astro_float` on targets
//! with 64-bit pointers; the crate is meant for such targets.

pub mod bigreal;
pub mod codec;
pub mod double;
pub mod engine;
pub mod literal;
pub mod orbit;
pub mod session;
