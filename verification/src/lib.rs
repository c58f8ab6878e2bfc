//! A table-driven implementation of cyclic redundancy checks, generic over
//! the register width (8, 16, 32, 64 or 128 bits), covering any CRC variant
//! given by its polynomial, width, initial value, output mask and reflection
//! convention.
//!
//! A [`CrcAlgo`] holds the immutable parameters of one variant together with
//! its derived 256-entry lookup table; a [`Crc`] pairs such a descriptor with
//! a live register and accumulates a checksum across successive chunks of
//! input. Every operation is specified against the bit-level model in
//! [`model`], and the streaming laws (chunk concatenation, reset, idempotent
//! finalization) are proved in [`laws`].

use vstd::prelude::*;

pub mod bitops;
mod engine;
pub mod laws;
pub mod model;
mod reg128;
mod reg16;
mod reg32;
mod reg64;
mod reg8;

verus! {

/// The immutable descriptor of one CRC variant over register type `T`: the
/// five caller-supplied parameters, conditioned into register position, and
/// the derived 256-entry lookup table. Built once; safely shared, read-only,
/// by any number of running computations.
pub struct CrcAlgo<T> {
    pub(crate) core: engine::AlgoCore,
    pub(crate) init: T,
}

/// A running computation: a live register of type `T` holding the CRC state
/// consumed so far, paired with the descriptor of its variant.
pub struct Crc<T> {
    pub(crate) crc: T,
    pub(crate) algo: CrcAlgo<T>,
}

} // verus!
