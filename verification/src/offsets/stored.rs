//! The array of stored creatures, in bits.

use std::ops::Range;
use vstd::prelude::*;

pub mod moves;
pub mod pokemon;

verus! {

pub const STORED_PKM_BIT_LEN: usize = 362;

pub const STORED_MOVE_BIT_LEN: usize = 21;

pub const STORED_PKM_COUNT: usize = 720;

pub const STORED_PKM_BITS: Range<usize> = 0x464 * 8..0x464 * 8 + 362 * 720;

} // verus!
