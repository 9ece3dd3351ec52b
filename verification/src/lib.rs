//! Fixed-width integers and their little-endian byte form.
//!
//! [`wire`] is the mathematical model of the byte layout together with the
//! laws that hold of it. [`codec`] holds the routines that move a number into
//! and out of a byte region, one loop for every width. [`host`] knows the byte
//! order of the machine. [`fixed`] gives every supported integer type the
//! [`FixedInt`] capability.

pub mod codec;
pub mod fixed;
pub mod host;
pub mod wire;

pub use fixed::FixedInt;
