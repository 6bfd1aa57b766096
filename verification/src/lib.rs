//! Fast polynomial transforms over prime fields: the radix-2 transform over a
//! multiplicative subgroup, and the low-degree extension that drives the
//! transform over a chain of isogenous elliptic curves.
//!
//! Every field element is modelled by the integer it stands for, and every
//! contract is a statement about those integers modulo the field's modulus.

pub mod bit_reverse;
pub mod bn256;
pub mod classic_fft;
pub mod ecfft;
pub mod modular;
pub mod parallel;
pub mod scalar;
pub mod pallas;
pub mod polynomial;
