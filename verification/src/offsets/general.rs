//! The general record: byte ranges, and bit ranges where the name ends in
//! `_BITS`.

use std::ops::Range;
use vstd::prelude::*;

verus! {

pub const TEAM_NAME: Range<usize> = 0x994E..0x9958;

/// 24 bits, from bit 6 of the byte at 0x990C.
pub const HELD_MONEY_BITS: Range<usize> = 0x990C * 8 + 6..0x990C * 8 + 6 + 24;

/// 24 bits, from bit 6 of the byte at 0x990F.
pub const SP_EPISODE_HELD_MONEY_BITS: Range<usize> = 0x990F * 8 + 6..0x990F * 8 + 6 + 24;

/// 24 bits, from bit 6 of the byte at 0x9915.
pub const STORED_MONEY_BITS: Range<usize> = 0x9915 * 8 + 6..0x9915 * 8 + 6 + 24;

pub const EXPLORER_RANK: Range<usize> = 0x9958..0x995C;

pub const NUMBER_OF_ADVENTURERS: Range<usize> = 0x8B70..0x8B74;

} // verus!
