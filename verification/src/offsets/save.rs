//! The three checksummed blocks of the container, in bytes from its start.

use std::ops::Range;
use vstd::prelude::*;

verus! {

pub const PRIMARY_SAVE: Range<usize> = 0x0..0xB65C;

pub const PRIMARY_READ_CHECKSUM: Range<usize> = 0x0..0x4;

pub const PRIMARY_CHECKSUM: Range<usize> = 0x4..0xB65C;

pub const BACKUP_SAVE: Range<usize> = 0xC800..0x17E5C;

pub const BACKUP_READ_CHECKSUM: Range<usize> = 0xC800..0xC804;

pub const BACKUP_CHECKSUM: Range<usize> = 0xC804..0x17E5C;

pub const QUICKSAVE: Range<usize> = 0x19000..0x1E800;

pub const QUICKSAVE_READ_CHECKSUM: Range<usize> = 0x19000..0x19004;

pub const QUICKSAVE_CHECKSUM: Range<usize> = 0x19004..0x1E800;

} // verus!
