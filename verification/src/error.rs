//! The library's error types.

use vstd::prelude::*;

verus! {

/// Why a save container could not be loaded.
#[derive(Debug)]
pub enum SaveError {
    Unknown,
    /// The container is shorter than 128 KiB.
    InvalidSize,
    /// Neither the primary nor the backup block carries the checksum of its
    /// payload. `*_expected` is what the block stores, `*_found` what its
    /// payload sums to.
    InvalidChecksum {
        pri_expected: [u8; 4],
        pri_found: [u8; 4],
        bak_expected: [u8; 4],
        bak_found: [u8; 4],
    },
}

/// What a [`SaveError`] says, with each checksum as its four bytes.
pub enum SaveFailure {
    Unknown,
    InvalidSize,
    InvalidChecksum {
        pri_expected: Seq<u8>,
        pri_found: Seq<u8>,
        bak_expected: Seq<u8>,
        bak_found: Seq<u8>,
    },
}

impl View for SaveError {
    type V = SaveFailure;

    open spec fn view(&self) -> SaveFailure {
        match self {
            SaveError::Unknown => SaveFailure::Unknown,
            SaveError::InvalidSize => SaveFailure::InvalidSize,
            SaveError::InvalidChecksum { pri_expected, pri_found, bak_expected, bak_found } => {
                SaveFailure::InvalidChecksum {
                    pri_expected: pri_expected@,
                    pri_found: pri_found@,
                    bak_expected: bak_expected@,
                    bak_found: bak_found@,
                }
            },
        }
    }
}

impl Default for SaveError {
    fn default() -> (r: Self)
        ensures
            r@ == SaveFailure::Unknown,
    {
        SaveError::Unknown
    }
}

/// Why a display text could not be turned into game-encoded bytes.
#[derive(Debug)]
pub enum EncodingError {
    /// The sequence has no byte in the character table. Holds the sequence.
    InvalidPmdCharacter(String),
    /// The text holds more than ten characters.
    InvalidPmdStringLen,
}

/// What an [`EncodingError`] says, with the offending sequence as characters.
pub enum EncodingFailure {
    InvalidPmdCharacter(Seq<char>),
    InvalidPmdStringLen,
}

impl View for EncodingError {
    type V = EncodingFailure;

    open spec fn view(&self) -> EncodingFailure {
        match self {
            EncodingError::InvalidPmdCharacter(s) => EncodingFailure::InvalidPmdCharacter(s@),
            EncodingError::InvalidPmdStringLen => EncodingFailure::InvalidPmdStringLen,
        }
    }
}

} // verus!
