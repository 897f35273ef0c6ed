//! The fields of one active creature, in bits from the start of its record.
//! What the `UNKNOWN_*` ranges mean is not known; they are kept as they are.

use std::ops::Range;
use vstd::prelude::*;

verus! {

pub const VALID: usize = 0;

pub const UNKNOWN_1: Range<usize> = 1..5;

pub const LEVEL: Range<usize> = 5..12;

pub const MET_AT: Range<usize> = 12..20;

pub const MET_FLOOR: Range<usize> = 20..27;

pub const UNKNOWN_2: usize = 27;

pub const IQ: Range<usize> = 28..38;

pub const ROASTER_NUMBER: Range<usize> = 38..48;

pub const UNKNOWN_3: Range<usize> = 48..70;

pub const ID: Range<usize> = 70..81;

pub const CURRENT_HP: Range<usize> = 81..91;

pub const MAX_HP: Range<usize> = 91..101;

pub const ATTACK: Range<usize> = 101..109;

pub const SP_ATTACK: Range<usize> = 109..117;

pub const DEFENSE: Range<usize> = 117..125;

pub const SP_DEFENSE: Range<usize> = 125..133;

pub const EXP: Range<usize> = 133..157;

pub const MOVE_1: Range<usize> = 157..186;

pub const MOVE_2: Range<usize> = 186..215;

pub const MOVE_3: Range<usize> = 215..244;

pub const MOVE_4: Range<usize> = 244..273;

pub const UNKNOWN_4: Range<usize> = 273..378;

pub const IQ_MAP: Range<usize> = 378..447;

pub const TACTIC: Range<usize> = 447..451;

pub const UNKNOWN_5: Range<usize> = 451..466;

pub const NAME: Range<usize> = 466..546;

} // verus!
