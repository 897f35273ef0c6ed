//! The fields of one move of a stored creature, in bits from its start.

use std::ops::Range;
use vstd::prelude::*;

verus! {

pub const VALID: usize = 0;

pub const LINKED: usize = 1;

pub const SWITCHED: usize = 2;

pub const SET: usize = 3;

pub const ID: Range<usize> = 4..14;

pub const POWER_BOOST: Range<usize> = 14..21;

} // verus!
