//! Reads, edits and writes the save container of a dungeon-crawling game for
//! a handheld console: 128 KiB holding a primary block, a backup block and a
//! quicksave block, each guarded by a checksum, with creature records packed
//! bit by bit and names in the game's own one-byte character set.
//!
//! [`SkySave::from_slice`] loads a container into a model whose fields can be
//! changed; [`SkySave::save`] writes the model back to its bytes.

pub mod active;
pub mod arrays;
pub mod bits;
pub mod encoding;
pub mod error;
pub mod offsets;
pub mod reload;
pub mod save;
pub mod stored;

pub use active::{ActiveMove, ActivePokemon};
pub use encoding::{byte_to_pmd_seq, pmd_seq_to_byte, PmdChar, PmdString};
pub use error::{EncodingError, EncodingFailure, SaveError, SaveFailure};
pub use save::{
    checksum, load_save_bits, load_save_slice, store_save_bits, store_save_slice, ActiveSaveBlock,
    General, SkySave, MIN_SAVE_LEN,
};
pub use stored::{IqMapBits, StoredMove, StoredPokemon};
