//! Numeric constants of the on-disk NetCDF classic format.

use vstd::prelude::*;

verus! {

/// Record-count sentinel meaning "unknown at write time" (a streaming file).
pub const STREAMING: u32 = 0xFF_FF_FF_FF;

/// An absent list is encoded as two zero words.
pub const ZERO: u32 = 0x00_00_00_00;

/// Tag opening the dimension list.
pub const NC_DIMENSION: u32 = 0x00_00_00_0A;

/// Tag opening the variable list.
pub const NC_VARIABLE: u32 = 0x00_00_00_0B;

/// Tag opening an attribute list.
pub const NC_ATTRIBUTE: u32 = 0x00_00_00_0C;

/// External type code for 8-bit signed data.
pub const NC_BYTE: u32 = 0x00_00_00_01;

/// External type code for text data.
pub const NC_CHAR: u32 = 0x00_00_00_02;

/// External type code for 16-bit signed integers.
pub const NC_SHORT: u32 = 0x00_00_00_03;

/// External type code for 32-bit signed integers.
pub const NC_INT: u32 = 0x00_00_00_04;

/// External type code for 32-bit IEEE floats.
pub const NC_FLOAT: u32 = 0x00_00_00_05;

/// External type code for 64-bit IEEE floats.
pub const NC_DOUBLE: u32 = 0x00_00_00_06;

/// A non-negative count as stored on disk.
#[allow(non_camel_case_types)]
pub type NON_NEG = u32;

} // verus!
