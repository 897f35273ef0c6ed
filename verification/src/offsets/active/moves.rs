//! The fields of one move of an active creature, in bits from its start.

use std::ops::Range;
use vstd::prelude::*;

verus! {

pub const VALID: usize = 0;

pub const LINKED: usize = 1;

pub const SWITCHED: usize = 2;

pub const SET: usize = 3;

pub const SEALED: usize = 4;

pub const ID: Range<usize> = 5..15;

pub const PP: Range<usize> = 15..22;

pub const POWER_BOOST: Range<usize> = 22..29;

} // verus!
