//! Byte constants of the wire grammar.

use vstd::prelude::*;

verus! {

/// Carriage return, first byte of the line terminator.
pub const CR: u8 = 13;

/// Line feed, second byte of the line terminator.
pub const LF: u8 = 10;

/// Space, the token separator of the request line.
pub const SP: u8 = 32;

/// Colon, the separator between a field name and its value.
pub const COLON: u8 = 58;

} // verus!
