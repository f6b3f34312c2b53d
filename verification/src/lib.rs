//! Schema-driven codec for fixed-width (32-bit) machine-instruction words.
//!
//! An instruction word is partitioned into named bit-fields whose layout
//! differs per instruction format. This crate declares, per format, an
//! ordered list of named fields with explicit bit widths, packs a structured
//! record of field values into a 32-bit word, unpacks a word back into a
//! record, and routes an arbitrary word to the correct format decoder using
//! the opcode field held in the low seven bits of the word itself.

use vstd::prelude::*;

pub mod bitfield;
pub mod layout;
pub mod codec;
pub mod dispatch;
pub mod formats;
pub mod registers;
pub mod schema;

verus! {

/// Length (in bits) of one parcel, the unit length for instructions and the
/// boundary for alignment.
pub const PARCEL: u8 = 16;

/// Length (in bits) of the boundary for aligning instruction addresses. In
/// the base instruction set this is always 32 bits.
pub const IALIGN: u8 = PARCEL * 2;

/// Maximum length (in bits) of any one instruction, fixed at 32 bits here.
/// This must be a multiple of `IALIGN`.
pub const ILEN: u8 = IALIGN;

} // verus!
