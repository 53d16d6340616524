use vstd::prelude::*;

verus! {

/// Byte value of the line feed character that separates lines.
pub const NL: u8 = 10;

} // verus!

pub mod chars;
pub mod command;
pub mod fmt;
pub mod highlight;
pub mod line_table;
pub mod render;
pub mod rx;
pub mod session;
