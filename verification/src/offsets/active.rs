//! The array of active creatures, in bits.

use std::ops::Range;
use vstd::prelude::*;

pub mod moves;
pub mod pokemon;

verus! {

pub const ACTIVE_PKM_BIT_LEN: usize = 546;

pub const ACTIVE_MOVE_BIT_LEN: usize = 29;

pub const ACTIVE_PKM_COUNT: usize = 4;

pub const ACTIVE_PKM_BITS: Range<usize> = 0x83D9 * 8 + 1..0x83D9 * 8 + 1 + 546 * 4;

} // verus!
