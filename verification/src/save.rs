//! The save container: its three checksummed blocks, the general record, and
//! the model that is loaded from it and written back to it.

use crate::active::{ActivePokemon, active_bits, lemma_active_bits_len, lemma_active_encode_len};
use crate::arrays::{
    active_get, active_in, active_len, active_new, active_push, active_set, stored_get, stored_in,
    stored_len, stored_new, stored_push, stored_set,
};
use crate::bits::{
    bits_of, copy_bits, le_bits, load_uint_le, max_buf_len, splice, store_uint_le, uint_at,
    with_bits, with_bytes,
};
use crate::encoding::{PmdString, decode_string, save_bytes};
use crate::error::{SaveError, SaveFailure};
use crate::offsets::{active, general, save, stored};
use crate::stored::{StoredPokemon, lemma_stored_bits_len, lemma_stored_encode_len, stored_bits};
use arrayvec::ArrayVec;
use std::ops::Range;
use vstd::prelude::*;
use vstd::slice::slice_to_vec;

verus! {

/// A container is at least 128 KiB long.
pub const MIN_SAVE_LEN: usize = 0x20000;

/// The 32-bit little-endian word in the four bytes of `bytes` from `at` on.
pub open spec fn word_at(bytes: Seq<u8>, at: int) -> nat {
    (bytes[at] + 0x100 * bytes[at + 1] + 0x1_0000 * bytes[at + 2] + 0x100_0000 * bytes[at
        + 3]) as nat
}

/// The sum of the 32-bit little-endian words of `bytes`. One to three bytes
/// left over at the end do not count.
pub open spec fn word_sum(bytes: Seq<u8>) -> nat
    decreases bytes.len(),
{
    if bytes.len() < 4 {
        0
    } else {
        word_at(bytes, 0) + word_sum(bytes.subrange(4, bytes.len() as int))
    }
}

/// The four bytes of the low 32 bits of `value`, least significant first.
pub open spec fn le_bytes4(value: nat) -> Seq<u8> {
    seq![
        (value % 0x100) as u8,
        (value / 0x100 % 0x100) as u8,
        (value / 0x1_0000 % 0x100) as u8,
        (value / 0x100_0000 % 0x100) as u8,
    ]
}

/// The checksum of a payload: the low 32 bits of the sum of its words, as
/// four little-endian bytes.
pub open spec fn checksum_of(payload: Seq<u8>) -> Seq<u8> {
    le_bytes4(word_sum(payload) % 0x1_0000_0000)
}

/// The bytes of a word are the bytes it was read from.
pub proof fn lemma_le_bytes4_of_word(bytes: Seq<u8>, at: int)
    requires
        0 <= at,
        at + 4 <= bytes.len(),
    ensures
        le_bytes4(word_at(bytes, at)) == bytes.subrange(at, at + 4),
        word_at(bytes, at) < 0x1_0000_0000,
{
    let b0 = bytes[at] as int;
    let b1 = bytes[at + 1] as int;
    let b2 = bytes[at + 2] as int;
    let b3 = bytes[at + 3] as int;
    let w = word_at(bytes, at) as int;
    let r1 = b1 + 0x100 * b2 + 0x1_0000 * b3;
    let r2 = b2 + 0x100 * b3;
    vstd::arithmetic::div_mod::lemma_fundamental_div_mod_converse(w, 0x100, r1, b0);
    vstd::arithmetic::div_mod::lemma_fundamental_div_mod_converse(r1, 0x100, r2, b1);
    vstd::arithmetic::div_mod::lemma_fundamental_div_mod_converse(r2, 0x100, b3, b2);
    assert(w / 0x1_0000 == r2) by {
        vstd::arithmetic::div_mod::lemma_fundamental_div_mod_converse(
            w,
            0x1_0000,
            r2,
            b0 + 0x100 * b1,
        );
    }
    assert(w / 0x100_0000 == b3) by {
        vstd::arithmetic::div_mod::lemma_fundamental_div_mod_converse(
            w,
            0x100_0000,
            b3,
            b0 + 0x100 * b1 + 0x1_0000 * b2,
        );
    }
    let found = le_bytes4(word_at(bytes, at));
    assert(found[0] == bytes[at]);
    assert(found[1] == bytes[at + 1]);
    assert(found[2] == bytes[at + 2]);
    assert(found[3] == bytes[at + 3]);
    assert(found =~= bytes.subrange(at, at + 4));
}

/// A word read from its four bytes is the word below `2^32`.
pub proof fn lemma_word_of_le_bytes4(value: nat)
    ensures
        le_bytes4(value).len() == 4,
        word_at(le_bytes4(value), 0) == value % 0x1_0000_0000,
{
    let v = value as int;
    let b0 = v % 0x100;
    let q1 = v / 0x100;
    let b1 = q1 % 0x100;
    let q2 = q1 / 0x100;
    let b2 = q2 % 0x100;
    let q3 = q2 / 0x100;
    let b3 = q3 % 0x100;
    let q4 = q3 / 0x100;
    assert(q2 == v / 0x1_0000);
    assert(q3 == v / 0x100_0000);
    assert(v == b0 + 0x100 * b1 + 0x1_0000 * b2 + 0x100_0000 * b3 + 0x1_0000_0000 * q4);
    let bytes = le_bytes4(value);
    assert(bytes[0] == b0 && bytes[1] == b1 && bytes[2] == b2 && bytes[3] == b3);
    assert(v % 0x1_0000_0000 == b0 + 0x100 * b1 + 0x1_0000 * b2 + 0x100_0000 * b3);
}

/// The words of a payload of zero bytes sum to zero, so its checksum is four
/// zero bytes.
pub proof fn lemma_checksum_of_zeros(payload: Seq<u8>)
    requires
        forall|i: int| 0 <= i < payload.len() ==> payload[i] == 0,
    ensures
        word_sum(payload) == 0,
        checksum_of(payload) == seq![0u8, 0u8, 0u8, 0u8],
    decreases payload.len(),
{
    if payload.len() >= 4 {
        lemma_checksum_of_zeros(payload.subrange(4, payload.len() as int));
    }
    assert(checksum_of(payload) =~= seq![0u8, 0u8, 0u8, 0u8]);
}

/// The checksum of the bytes of `data` in `data_range`.
pub fn checksum(data: &[u8], data_range: Range<usize>) -> (sum: [u8; 4])
    requires
        data_range.start <= data_range.end <= data@.len(),
    ensures
        sum@ == checksum_of(data@.subrange(data_range.start as int, data_range.end as int)),
{
    let start = data_range.start;
    let end = data_range.end;
    let ghost payload = data@.subrange(start as int, end as int);
    let mut acc: u64 = 0;
    let mut i: usize = start;
    proof {
        assert(payload.subrange(0, payload.len() as int) =~= payload);
    }
    while end - i >= 4
        invariant
            start <= i <= end <= data@.len(),
            payload == data@.subrange(start as int, end as int),
            acc < 0x1_0000_0000,
            word_sum(payload) % 0x1_0000_0000 == (acc + word_sum(
                payload.subrange(i - start, payload.len() as int),
            )) % 0x1_0000_0000,
        decreases end - i,
    {
        let word: u64 = data[i] as u64 + 0x100 * (data[i + 1] as u64) + 0x1_0000 * (data[i
            + 2] as u64) + 0x100_0000 * (data[i + 3] as u64);
        proof {
            let rest = payload.subrange(i - start, payload.len() as int);
            let after = payload.subrange(i + 4 - start, payload.len() as int);
            assert(rest.subrange(4, rest.len() as int) =~= after);
            assert(word == word_at(rest, 0));
            assert(word_sum(rest) == word + word_sum(after));
            vstd::arithmetic::div_mod::lemma_add_mod_noop(
                acc + word,
                word_sum(after) as int,
                0x1_0000_0000,
            );
            vstd::arithmetic::div_mod::lemma_mod_twice(acc + word, 0x1_0000_0000);
            vstd::arithmetic::div_mod::lemma_add_mod_noop(
                (acc + word) % 0x1_0000_0000,
                word_sum(after) as int,
                0x1_0000_0000,
            );
        }
        acc = (acc + word) % 0x1_0000_0000;
        i += 4;
    }
    proof {
        let rest = payload.subrange(i - start, payload.len() as int);
        assert(word_sum(rest) == 0);
    }
    let sum = [
        (acc % 0x100) as u8,
        (acc / 0x100 % 0x100) as u8,
        (acc / 0x1_0000 % 0x100) as u8,
        (acc / 0x100_0000 % 0x100) as u8,
    ];
    assert(sum@ =~= checksum_of(payload));
    sum
}

/// Which of the two mirrored blocks the model is read from and written to.
#[derive(Debug, Copy, Clone, Eq, PartialEq, Structural)]
pub enum ActiveSaveBlock {
    Primary,
    Backup,
}

impl ActiveSaveBlock {
    /// The byte at which the block starts.
    pub open spec fn start(self) -> int {
        match self {
            ActiveSaveBlock::Primary => save::PRIMARY_SAVE.start as int,
            ActiveSaveBlock::Backup => save::BACKUP_SAVE.start as int,
        }
    }

    /// The byte at which the block starts. It is added to every offset into
    /// the block.
    pub fn offset(self) -> (r: usize)
        ensures
            r == self.start(),
    {
        match self {
            ActiveSaveBlock::Primary => save::PRIMARY_SAVE.start,
            ActiveSaveBlock::Backup => save::BACKUP_SAVE.start,
        }
    }
}

/// The bytes of `data` in `range` of the block.
pub fn load_save_slice(data: &[u8], active_save_block: ActiveSaveBlock, range: Range<usize>) -> (r:
    &[u8])
    requires
        range.start <= range.end,
        range.end + active_save_block.start() <= data@.len(),
    ensures
        r@ == data@.subrange(
            range.start + active_save_block.start(),
            range.end + active_save_block.start(),
        ),
{
    let len = data.len();
    let offset = active_save_block.offset();
    &data[range.start + offset..range.end + offset]
}

/// Copies `value` over the bytes of `data` in `range` of the block. `value`
/// is as long as the range.
pub fn store_save_slice(
    data: &mut Vec<u8>,
    active_save_block: ActiveSaveBlock,
    range: Range<usize>,
    value: &[u8],
)
    requires
        range.start <= range.end,
        range.end + active_save_block.start() <= old(data)@.len(),
        value@.len() == range.end - range.start,
    ensures
        final(data)@ == with_bytes(old(data)@, range.start + active_save_block.start(), value@),
        final(data)@.len() == old(data)@.len(),
{
    let len = data.len();
    let at = range.start + active_save_block.offset();
    let n = value.len();
    let mut k: usize = 0;
    assert(data@ =~= with_bytes(data@, at as int, value@.subrange(0, 0)));
    while k < n
        invariant
            n == value@.len(),
            k <= n,
            at + n <= data@.len(),
            at + n <= usize::MAX,
            data@.len() == old(data)@.len(),
            data@ == with_bytes(old(data)@, at as int, value@.subrange(0, k as int)),
        decreases n - k,
    {
        data[at + k] = value[k];
        k += 1;
        assert(data@ =~= with_bytes(old(data)@, at as int, value@.subrange(0, k as int)));
    }
    assert(value@.subrange(0, n as int) =~= value@);
}

/// The unsigned field in the bits of `data` in `range` of the block, at most
/// 64 bits wide.
pub fn load_save_bits(data: &[u8], active_save_block: ActiveSaveBlock, range: Range<usize>) -> (r:
    u64)
    requires
        data@.len() <= max_buf_len(),
        range.start < range.end,
        range.end - range.start <= 64,
        range.end + 8 * active_save_block.start() <= 8 * data@.len(),
    ensures
        r == uint_at(
            bits_of(data@),
            range.start + 8 * active_save_block.start(),
            range.end + 8 * active_save_block.start(),
        ),
        r < vstd::arithmetic::power2::pow2((range.end - range.start) as nat),
{
    let offset = active_save_block.offset() * 8;
    load_uint_le(data, range.start + offset, range.end + offset)
}

/// Writes `value` to the unsigned field in the bits of `data` in `range` of
/// the block, at most 64 bits wide. Of a value too large for the field the
/// low bits are written.
pub fn store_save_bits(
    data: &mut Vec<u8>,
    active_save_block: ActiveSaveBlock,
    range: Range<usize>,
    value: u64,
)
    requires
        old(data)@.len() <= max_buf_len(),
        range.start < range.end,
        range.end - range.start <= 64,
        range.end + 8 * active_save_block.start() <= 8 * old(data)@.len(),
    ensures
        final(data)@ == with_bits(
            old(data)@,
            range.start + 8 * active_save_block.start(),
            le_bits(value as nat, (range.end - range.start) as nat),
        ),
        final(data)@.len() == old(data)@.len(),
{
    let offset = active_save_block.offset() * 8;
    let ghost before = data@;
    store_uint_le(data, range.start + offset, range.end + offset, value);
    proof {
        crate::bits::lemma_with_bits(
            before,
            data@,
            range.start + offset,
            le_bits(value as nat, (range.end - range.start) as nat),
        );
    }
}

/// The 32-bit little-endian word in four bytes.
pub fn u32_from_le(bytes: &[u8]) -> (word: u32)
    requires
        bytes@.len() == 4,
    ensures
        word == word_at(bytes@, 0),
{
    let word: u64 = bytes[0] as u64 + 0x100 * (bytes[1] as u64) + 0x1_0000 * (bytes[2] as u64)
        + 0x100_0000 * (bytes[3] as u64);
    word as u32
}

/// The four bytes of a 32-bit word, least significant first.
pub fn u32_to_le(word: u32) -> (bytes: [u8; 4])
    ensures
        bytes@ == le_bytes4(word as nat),
{
    let bytes = [
        (word % 0x100) as u8,
        (word / 0x100 % 0x100) as u8,
        (word / 0x1_0000 % 0x100) as u8,
        (word / 0x100_0000 % 0x100) as u8,
    ];
    assert(bytes@ =~= le_bytes4(word as nat));
    bytes
}

/// The signed number that a 32-bit word stands for, in two's complement.
pub open spec fn signed32(word: nat) -> int {
    if word < 0x8000_0000 {
        word as int
    } else {
        word - 0x1_0000_0000
    }
}

/// The 32-bit word that stands for a signed number, in two's complement.
pub open spec fn unsigned32(value: int) -> nat {
    if value >= 0 {
        value as nat
    } else {
        (value + 0x1_0000_0000) as nat
    }
}

/// What the save says of the team as a whole.
#[derive(Debug)]
pub struct General {
    pub team_name: PmdString,
    /// Twenty-four bits in the save.
    pub held_money: u32,
    /// Twenty-four bits in the save.
    pub sp_episode_held_money: u32,
    /// Twenty-four bits in the save.
    pub stored_money: u32,
    pub number_of_adventures: i32,
    pub explorer_rank: u32,
}

impl General {
    /// The record is the one that `data` holds in the block.
    pub open spec fn decodes(&self, data: Seq<u8>, block: ActiveSaveBlock) -> bool {
        let at = block.start();
        &&& self.team_name@ == decode_string(
            data.subrange(at + general::TEAM_NAME.start, at + general::TEAM_NAME.end),
        )
        &&& self.held_money == uint_at(
            bits_of(data),
            8 * at + general::HELD_MONEY_BITS.start,
            8 * at + general::HELD_MONEY_BITS.end,
        )
        &&& self.sp_episode_held_money == uint_at(
            bits_of(data),
            8 * at + general::SP_EPISODE_HELD_MONEY_BITS.start,
            8 * at + general::SP_EPISODE_HELD_MONEY_BITS.end,
        )
        &&& self.stored_money == uint_at(
            bits_of(data),
            8 * at + general::STORED_MONEY_BITS.start,
            8 * at + general::STORED_MONEY_BITS.end,
        )
        &&& self.number_of_adventures == signed32(
            word_at(data, at + general::NUMBER_OF_ADVENTURERS.start),
        )
        &&& self.explorer_rank == word_at(data, at + general::EXPLORER_RANK.start)
    }

    /// `data` with the record written to the block: the name in its ten
    /// bytes, the low 24 bits of each sum of money, and the two words.
    pub open spec fn written(&self, data: Seq<u8>, block: ActiveSaveBlock) -> Seq<u8> {
        let at = block.start();
        let named = with_bytes(data, at + general::TEAM_NAME.start, save_bytes(self.team_name@));
        let held = with_bits(
            named,
            8 * at + general::HELD_MONEY_BITS.start,
            le_bits(self.held_money as nat, 24),
        );
        let sp_held = with_bits(
            held,
            8 * at + general::SP_EPISODE_HELD_MONEY_BITS.start,
            le_bits(self.sp_episode_held_money as nat, 24),
        );
        let stored = with_bits(
            sp_held,
            8 * at + general::STORED_MONEY_BITS.start,
            le_bits(self.stored_money as nat, 24),
        );
        let counted = with_bytes(
            stored,
            at + general::NUMBER_OF_ADVENTURERS.start,
            le_bytes4(unsigned32(self.number_of_adventures as int)),
        );
        with_bytes(
            counted,
            at + general::EXPLORER_RANK.start,
            le_bytes4(self.explorer_rank as nat),
        )
    }

    /// Every sum of money fits the 24 bits that the save has for it.
    pub open spec fn fits(&self) -> bool {
        &&& self.held_money < 0x100_0000
        &&& self.sp_episode_held_money < 0x100_0000
        &&& self.stored_money < 0x100_0000
    }

    /// Reads the record from the block of `data`.
    pub fn load(data: &[u8], active_save_block: ActiveSaveBlock) -> (r: Self)
        requires
            data@.len() <= max_buf_len(),
            data@.len() >= MIN_SAVE_LEN,
        ensures
            r.decodes(data@, active_save_block),
            r.fits(),
    {
        proof {
            vstd::arithmetic::power2::lemma2_to64();
        }
        let team_name = load_save_slice(data, active_save_block, general::TEAM_NAME);
        let held_money = load_save_bits(data, active_save_block, general::HELD_MONEY_BITS);
        let sp_episode_held_money = load_save_bits(
            data,
            active_save_block,
            general::SP_EPISODE_HELD_MONEY_BITS,
        );
        let stored_money = load_save_bits(data, active_save_block, general::STORED_MONEY_BITS);
        let number_of_adventures = load_save_slice(
            data,
            active_save_block,
            general::NUMBER_OF_ADVENTURERS,
        );
        let explorer_rank = load_save_slice(data, active_save_block, general::EXPLORER_RANK);
        let adventures = u32_from_le(number_of_adventures);
        Self {
            team_name: PmdString::from(team_name),
            held_money: held_money as u32,
            sp_episode_held_money: sp_episode_held_money as u32,
            stored_money: stored_money as u32,
            number_of_adventures: if adventures < 0x8000_0000 {
                adventures as i32
            } else {
                (adventures as i64 - 0x1_0000_0000) as i32
            },
            explorer_rank: u32_from_le(explorer_rank),
        }
    }

    /// Writes the record to the block of `data`.
    pub fn save(&self, data: &mut Vec<u8>, active_save_block: ActiveSaveBlock)
        requires
            old(data)@.len() <= max_buf_len(),
            old(data)@.len() >= MIN_SAVE_LEN,
        ensures
            final(data)@ == self.written(old(data)@, active_save_block),
            final(data)@.len() == old(data)@.len(),
    {
        let name = self.team_name.to_save_bytes();
        store_save_slice(data, active_save_block, general::TEAM_NAME, name.as_slice());
        store_save_bits(data, active_save_block, general::HELD_MONEY_BITS, self.held_money as u64);
        store_save_bits(
            data,
            active_save_block,
            general::SP_EPISODE_HELD_MONEY_BITS,
            self.sp_episode_held_money as u64,
        );
        store_save_bits(
            data,
            active_save_block,
            general::STORED_MONEY_BITS,
            self.stored_money as u64,
        );
        let adventures: u32 = if self.number_of_adventures >= 0 {
            self.number_of_adventures as u32
        } else {
            (self.number_of_adventures as i64 + 0x1_0000_0000) as u32
        };
        let adventures = u32_to_le(adventures);
        store_save_slice(
            data,
            active_save_block,
            general::NUMBER_OF_ADVENTURERS,
            adventures.as_slice(),
        );
        let rank = u32_to_le(self.explorer_rank);
        store_save_slice(data, active_save_block, general::EXPLORER_RANK, rank.as_slice());
    }
}

/// Writing back a general record as it was read changes nothing.
pub proof fn lemma_general_written_same(g: General, data: Seq<u8>, block: ActiveSaveBlock)
    requires
        data.len() >= MIN_SAVE_LEN,
        g.decodes(data, block),
    ensures
        g.written(data, block) == data,
{
    let at = block.start();
    let bits = bits_of(data);
    crate::encoding::lemma_save_bytes_of_decoded(
        data.subrange(at + general::TEAM_NAME.start, at + general::TEAM_NAME.end),
    );
    crate::bits::lemma_with_bytes_same(
        data,
        at + general::TEAM_NAME.start,
        at + general::TEAM_NAME.end,
    );
    crate::bits::lemma_field(
        bits,
        8 * at + general::HELD_MONEY_BITS.start,
        8 * at + general::HELD_MONEY_BITS.end,
    );
    crate::bits::lemma_with_bits_same(
        data,
        8 * at + general::HELD_MONEY_BITS.start,
        8 * at + general::HELD_MONEY_BITS.end,
    );
    crate::bits::lemma_field(
        bits,
        8 * at + general::SP_EPISODE_HELD_MONEY_BITS.start,
        8 * at + general::SP_EPISODE_HELD_MONEY_BITS.end,
    );
    crate::bits::lemma_with_bits_same(
        data,
        8 * at + general::SP_EPISODE_HELD_MONEY_BITS.start,
        8 * at + general::SP_EPISODE_HELD_MONEY_BITS.end,
    );
    crate::bits::lemma_field(
        bits,
        8 * at + general::STORED_MONEY_BITS.start,
        8 * at + general::STORED_MONEY_BITS.end,
    );
    crate::bits::lemma_with_bits_same(
        data,
        8 * at + general::STORED_MONEY_BITS.start,
        8 * at + general::STORED_MONEY_BITS.end,
    );
    lemma_le_bytes4_of_word(data, at + general::NUMBER_OF_ADVENTURERS.start);
    crate::bits::lemma_with_bytes_same(
        data,
        at + general::NUMBER_OF_ADVENTURERS.start,
        at + general::NUMBER_OF_ADVENTURERS.end,
    );
    lemma_le_bytes4_of_word(data, at + general::EXPLORER_RANK.start);
    crate::bits::lemma_with_bytes_same(
        data,
        at + general::EXPLORER_RANK.start,
        at + general::EXPLORER_RANK.end,
    );
}

/// The first 128 KiB of a container: all that is read and changed lies there.
pub open spec fn head_of(data: Seq<u8>) -> Seq<u8> {
    data.subrange(0, MIN_SAVE_LEN as int)
}

/// The checksum that a block stores: its first four bytes.
pub open spec fn stored_sum(data: Seq<u8>, block: Range<usize>) -> Seq<u8> {
    data.subrange(block.start as int, block.start + 4)
}

/// The checksum of a block's payload: of all its bytes but the first four.
pub open spec fn payload_sum(data: Seq<u8>, block: Range<usize>) -> Seq<u8> {
    checksum_of(data.subrange(block.start + 4, block.end as int))
}

/// The block stores the checksum of its payload.
pub open spec fn block_valid(data: Seq<u8>, block: Range<usize>) -> bool {
    stored_sum(data, block) == payload_sum(data, block)
}

/// How loading a container ends before anything is read from it: with the
/// block to read and whether the quicksave block is valid, or with an error.
/// The primary block is read where it is valid, else the backup block.
pub open spec fn checked(data: Seq<u8>) -> Result<(ActiveSaveBlock, bool), SaveFailure> {
    if data.len() < MIN_SAVE_LEN {
        Err(SaveFailure::InvalidSize)
    } else if block_valid(data, save::PRIMARY_SAVE) {
        Ok((ActiveSaveBlock::Primary, block_valid(data, save::QUICKSAVE)))
    } else if block_valid(data, save::BACKUP_SAVE) {
        Ok((ActiveSaveBlock::Backup, block_valid(data, save::QUICKSAVE)))
    } else {
        Err(
            SaveFailure::InvalidChecksum {
                pri_expected: stored_sum(data, save::PRIMARY_SAVE),
                pri_found: payload_sum(data, save::PRIMARY_SAVE),
                bak_expected: stored_sum(data, save::BACKUP_SAVE),
                bak_found: payload_sum(data, save::BACKUP_SAVE),
            },
        )
    }
}

/// `data` with the block that is not active made a copy of the active one.
pub open spec fn mirrored(data: Seq<u8>, block: ActiveSaveBlock) -> Seq<u8> {
    match block {
        ActiveSaveBlock::Primary => with_bytes(
            data,
            save::BACKUP_SAVE.start as int,
            data.subrange(save::PRIMARY_SAVE.start as int, save::PRIMARY_SAVE.end as int),
        ),
        ActiveSaveBlock::Backup => with_bytes(
            data,
            save::PRIMARY_SAVE.start as int,
            data.subrange(save::BACKUP_SAVE.start as int, save::BACKUP_SAVE.end as int),
        ),
    }
}

/// `data` with the checksum of each of the three payloads written to the
/// first four bytes of its block.
pub open spec fn with_checksums(data: Seq<u8>) -> Seq<u8> {
    with_bytes(
        with_bytes(
            with_bytes(
                data,
                save::PRIMARY_SAVE.start as int,
                payload_sum(data, save::PRIMARY_SAVE),
            ),
            save::BACKUP_SAVE.start as int,
            payload_sum(data, save::BACKUP_SAVE),
        ),
        save::QUICKSAVE.start as int,
        payload_sum(data, save::QUICKSAVE),
    )
}

/// The four bytes of `data` from `at` on.
fn read4(data: &[u8], at: usize) -> (r: [u8; 4])
    requires
        at + 4 <= data@.len(),
    ensures
        r@ == data@.subrange(at as int, at + 4),
{
    let r = [data[at], data[at + 1], data[at + 2], data[at + 3]];
    assert(r@ =~= data@.subrange(at as int, at + 4));
    r
}

/// Whether two checksums are the same.
fn same4(a: &[u8; 4], b: &[u8; 4]) -> (r: bool)
    ensures
        r == (a@ == b@),
{
    let r = a[0] == b[0] && a[1] == b[1] && a[2] == b[2] && a[3] == b[3];
    proof {
        if r {
            assert(a@ =~= b@);
        }
    }
    r
}

/// Copies `len` bytes of `data` from `src` on to `dst` on. The two runs do
/// not overlap.
fn copy_within(data: &mut Vec<u8>, src: usize, dst: usize, len: usize)
    requires
        src + len <= old(data)@.len(),
        dst + len <= old(data)@.len(),
        src + len <= dst || dst + len <= src,
    ensures
        final(data)@ == with_bytes(old(data)@, dst as int, old(data)@.subrange(src as int, src + len)),
        final(data)@.len() == old(data)@.len(),
{
    let total = data.len();
    let ghost run = data@.subrange(src as int, src + len);
    let mut k: usize = 0;
    assert(data@ =~= with_bytes(data@, dst as int, run.subrange(0, 0)));
    while k < len
        invariant
            k <= len,
            total == data@.len(),
            data@.len() == old(data)@.len(),
            src + len <= total,
            dst + len <= total,
            src + len <= dst || dst + len <= src,
            run == old(data)@.subrange(src as int, src + len),
            data@ == with_bytes(old(data)@, dst as int, run.subrange(0, k as int)),
        decreases len - k,
    {
        let byte = data[src + k];
        assert(byte == run[k as int]);
        data[dst + k] = byte;
        k += 1;
        assert(data@ =~= with_bytes(old(data)@, dst as int, run.subrange(0, k as int)));
    }
    assert(run.subrange(0, len as int) =~= run);
}

/// Writes the checksum of each of the three payloads of `data` to the first
/// four bytes of its block.
fn write_checksums(data: &mut Vec<u8>)
    requires
        old(data)@.len() >= save::QUICKSAVE.end,
    ensures
        final(data)@ == with_checksums(old(data)@),
        final(data)@.len() == old(data)@.len(),
{
    let pri_sum = checksum(data.as_slice(), save::PRIMARY_CHECKSUM);
    let backup_sum = checksum(data.as_slice(), save::BACKUP_CHECKSUM);
    let quick_sum = checksum(data.as_slice(), save::QUICKSAVE_CHECKSUM);
    store_save_slice(
        data,
        ActiveSaveBlock::Primary,
        save::PRIMARY_READ_CHECKSUM,
        pri_sum.as_slice(),
    );
    store_save_slice(
        data,
        ActiveSaveBlock::Primary,
        save::BACKUP_READ_CHECKSUM,
        backup_sum.as_slice(),
    );
    store_save_slice(
        data,
        ActiveSaveBlock::Primary,
        save::QUICKSAVE_READ_CHECKSUM,
        quick_sum.as_slice(),
    );
}

/// Writes the stored creatures to their place in the block of `head`.
fn write_stored(
    head: &mut Vec<u8>,
    stored_pokemon: &ArrayVec<StoredPokemon, 720>,
    block: ActiveSaveBlock,
)
    requires
        old(head)@.len() == MIN_SAVE_LEN,
        stored_in(*stored_pokemon).len() == stored::STORED_PKM_COUNT,
    ensures
        final(head)@.len() == MIN_SAVE_LEN,
        final(head)@ == with_bits(
            old(head)@,
            8 * block.start() + stored::STORED_PKM_BITS.start,
            stored_bits(stored_in(*stored_pokemon)),
        ),
{
    let ghost before = head@;
    let ghost records = stored_in(*stored_pokemon);
    let base = block.offset() * 8 + stored::STORED_PKM_BITS.start;
    let count = stored_len(stored_pokemon);
    let mut i: usize = 0;
    proof {
        assert(stored_bits(records.subrange(0, 0)) =~= Seq::<bool>::empty());
        assert(bits_of(head@) =~= splice(bits_of(before), base as int, Seq::<bool>::empty()));
    }
    while i < count
        invariant
            head@.len() == MIN_SAVE_LEN,
            head@.len() <= max_buf_len(),
            before.len() == MIN_SAVE_LEN,
            base == 8 * block.start() + stored::STORED_PKM_BITS.start,
            count == stored::STORED_PKM_COUNT,
            records == stored_in(*stored_pokemon),
            count == records.len(),
            i <= count,
            bits_of(head@) == splice(
                bits_of(before),
                base as int,
                stored_bits(records.subrange(0, i as int)),
            ),
        decreases count - i,
    {
        let record = stored_get(stored_pokemon, i).to_bits();
        let ghost done = stored_bits(records.subrange(0, i as int));
        let at = base + stored::STORED_PKM_BIT_LEN * i;
        proof {
            lemma_stored_bits_len(records.subrange(0, i as int));
        }
        copy_bits(head, at, at + stored::STORED_PKM_BIT_LEN, record.as_slice(), 0, 362);
        proof {
            let next = records.subrange(0, i + 1);
            assert(next.drop_last() =~= records.subrange(0, i as int));
            assert(next.last() == records[i as int]);
            lemma_stored_encode_len(records[i as int]);
            crate::bits::lemma_splice_extend(
                bits_of(before),
                base as int,
                done,
                records[i as int].encode(),
            );
        }
        i += 1;
    }
    proof {
        assert(records.subrange(0, count as int) =~= records);
        crate::bits::lemma_with_bits(before, head@, base as int, stored_bits(records));
    }
}

/// Writes the active creatures to their place in the block of `head`.
fn write_active(
    head: &mut Vec<u8>,
    active_pokemon: &ArrayVec<ActivePokemon, 4>,
    block: ActiveSaveBlock,
)
    requires
        old(head)@.len() == MIN_SAVE_LEN,
        active_in(*active_pokemon).len() == active::ACTIVE_PKM_COUNT,
    ensures
        final(head)@.len() == MIN_SAVE_LEN,
        final(head)@ == with_bits(
            old(head)@,
            8 * block.start() + active::ACTIVE_PKM_BITS.start,
            active_bits(active_in(*active_pokemon)),
        ),
{
    let ghost before = head@;
    let ghost records = active_in(*active_pokemon);
    let base = block.offset() * 8 + active::ACTIVE_PKM_BITS.start;
    let count = active_len(active_pokemon);
    let mut i: usize = 0;
    proof {
        assert(active_bits(records.subrange(0, 0)) =~= Seq::<bool>::empty());
        assert(bits_of(head@) =~= splice(bits_of(before), base as int, Seq::<bool>::empty()));
    }
    while i < count
        invariant
            head@.len() == MIN_SAVE_LEN,
            head@.len() <= max_buf_len(),
            before.len() == MIN_SAVE_LEN,
            base == 8 * block.start() + active::ACTIVE_PKM_BITS.start,
            count == active::ACTIVE_PKM_COUNT,
            records == active_in(*active_pokemon),
            count == records.len(),
            i <= count,
            bits_of(head@) == splice(
                bits_of(before),
                base as int,
                active_bits(records.subrange(0, i as int)),
            ),
        decreases count - i,
    {
        let record = active_get(active_pokemon, i).to_bitvec();
        let ghost done = active_bits(records.subrange(0, i as int));
        let at = base + active::ACTIVE_PKM_BIT_LEN * i;
        proof {
            lemma_active_bits_len(records.subrange(0, i as int));
        }
        copy_bits(head, at, at + active::ACTIVE_PKM_BIT_LEN, record.as_slice(), 0, 546);
        proof {
            let next = records.subrange(0, i + 1);
            assert(next.drop_last() =~= records.subrange(0, i as int));
            assert(next.last() == records[i as int]);
            lemma_active_encode_len(records[i as int]);
            crate::bits::lemma_splice_extend(
                bits_of(before),
                base as int,
                done,
                records[i as int].encode(),
            );
        }
        i += 1;
    }
    proof {
        assert(records.subrange(0, count as int) =~= records);
        crate::bits::lemma_with_bits(before, head@, base as int, active_bits(records));
    }
}

/// A loaded save: the bytes of the container, and what was read from its
/// active block. A change to a field reaches the bytes when the model is
/// saved.
#[derive(Debug)]
pub struct SkySave {
    pub data: Vec<u8>,
    pub active_save_block: ActiveSaveBlock,
    pub quicksave_valid: bool,
    pub general: General,
    pub stored_pokemon: ArrayVec<StoredPokemon, 720>,
    pub active_pokemon: ArrayVec<ActivePokemon, 4>,
}

impl SkySave {
    /// The stored creatures, in order.
    pub open spec fn stored(&self) -> Seq<StoredPokemon> {
        stored_in(self.stored_pokemon)
    }

    /// The active creatures, in order.
    pub open spec fn active(&self) -> Seq<ActivePokemon> {
        active_in(self.active_pokemon)
    }

    /// The model has the bytes of a whole container, 720 stored creatures
    /// and four active ones.
    pub open spec fn wf(&self) -> bool {
        &&& self.data@.len() >= MIN_SAVE_LEN
        &&& self.stored().len() == stored::STORED_PKM_COUNT
        &&& self.active().len() == active::ACTIVE_PKM_COUNT
    }

    /// The model is what `data` holds in `block`: its bytes are `data`, and
    /// every record is the one read from its place in the block.
    pub open spec fn holds(&self, data: Seq<u8>, block: ActiveSaveBlock, quicksave_valid: bool) -> bool {
        let bits = bits_of(head_of(data));
        &&& self.wf()
        &&& self.data@ == data
        &&& self.active_save_block == block
        &&& self.quicksave_valid == quicksave_valid
        &&& self.general.decodes(head_of(data), block)
        &&& forall|i: int|
            0 <= i < stored::STORED_PKM_COUNT ==> (#[trigger] self.stored()[i]).decodes(
                bits,
                8 * block.start() + stored::STORED_PKM_BITS.start + stored::STORED_PKM_BIT_LEN * i,
            )
        &&& forall|i: int|
            0 <= i < active::ACTIVE_PKM_COUNT ==> (#[trigger] self.active()[i]).decodes(
                bits,
                8 * block.start() + active::ACTIVE_PKM_BITS.start + active::ACTIVE_PKM_BIT_LEN * i,
            )
    }

    /// The bytes of the model with its records written to the active block:
    /// the general record, then the stored and the active creatures, each
    /// array in its place.
    pub open spec fn written(&self) -> Seq<u8> {
        let at = self.active_save_block.start();
        let general = self.general.written(head_of(self.data@), self.active_save_block);
        let stored = with_bits(
            general,
            8 * at + stored::STORED_PKM_BITS.start,
            stored_bits(self.stored()),
        );
        let active = with_bits(
            stored,
            8 * at + active::ACTIVE_PKM_BITS.start,
            active_bits(self.active()),
        );
        active + self.data@.subrange(MIN_SAVE_LEN as int, self.data@.len() as int)
    }

    /// The bytes that saving the model gives: its records written to the
    /// active block, the other block made a copy of it, and the three
    /// checksums set.
    pub open spec fn saved(&self) -> Seq<u8> {
        with_checksums(mirrored(self.written(), self.active_save_block))
    }

    /// Decides whether a container can be loaded, and from which block:
    /// from the primary block where it stores the checksum of its payload,
    /// else from the backup block where that one does. Also says whether the
    /// quicksave block stores the checksum of its payload.
    pub fn validate(data: &[u8]) -> (r: Result<(ActiveSaveBlock, bool), SaveError>)
        ensures
            match checked(data@) {
                Ok(found) => r == Ok::<(ActiveSaveBlock, bool), SaveError>(found),
                Err(e) => r is Err && r->Err_0@ == e,
            },
    {
        if data.len() < MIN_SAVE_LEN {
            return Err(SaveError::InvalidSize);
        }
        let pri_read = read4(data, save::PRIMARY_READ_CHECKSUM.start);
        let backup_read = read4(data, save::BACKUP_READ_CHECKSUM.start);
        let quick_read = read4(data, save::QUICKSAVE_READ_CHECKSUM.start);

        let pri_sum = checksum(data, save::PRIMARY_CHECKSUM);
        let backup_sum = checksum(data, save::BACKUP_CHECKSUM);
        let quick_sum = checksum(data, save::QUICKSAVE_CHECKSUM);

        let pri_matches = same4(&pri_sum, &pri_read);
        let backup_matches = same4(&backup_sum, &backup_read);
        let quick_matches = same4(&quick_sum, &quick_read);

        if !pri_matches && !backup_matches {
            return Err(
                SaveError::InvalidChecksum {
                    pri_expected: pri_read,
                    pri_found: pri_sum,
                    bak_expected: backup_read,
                    bak_found: backup_sum,
                },
            );
        }
        let active_save_block = if pri_matches {
            ActiveSaveBlock::Primary
        } else {
            ActiveSaveBlock::Backup
        };
        Ok((active_save_block, quick_matches))
    }

    /// Loads a container: checks its length and its checksums, then reads the
    /// general record, the 720 stored creatures and the four active ones
    /// from the block that was found valid.
    pub fn from_slice(data: &[u8]) -> (r: Result<Self, SaveError>)
        ensures
            match checked(data@) {
                Ok((block, quicksave_valid)) => r is Ok && r->Ok_0.holds(
                    data@,
                    block,
                    quicksave_valid,
                ),
                Err(e) => r is Err && r->Err_0@ == e,
            },
    {
        let (active_save_block, quicksave_valid) = match Self::validate(data) {
            Ok(found) => found,
            Err(e) => {
                return Err(e);
            },
        };
        let head = &data[0..MIN_SAVE_LEN];
        let general = General::load(head, active_save_block);

        let base = active_save_block.offset() * 8 + stored::STORED_PKM_BITS.start;
        let mut stored_pokemon = stored_new();
        let mut i: usize = 0;
        while i < stored::STORED_PKM_COUNT
            invariant
                head@.len() == MIN_SAVE_LEN,
                head@.len() <= max_buf_len(),
                base == 8 * active_save_block.start() + stored::STORED_PKM_BITS.start,
                i <= stored::STORED_PKM_COUNT,
                stored_in(stored_pokemon).len() == i,
                forall|j: int|
                    0 <= j < i ==> (#[trigger] stored_in(stored_pokemon)[j]).decodes(
                        bits_of(head@),
                        base + stored::STORED_PKM_BIT_LEN * j,
                    ),
            decreases stored::STORED_PKM_COUNT - i,
        {
            let p = StoredPokemon::from_bitslice(head, base + stored::STORED_PKM_BIT_LEN * i);
            stored_push(&mut stored_pokemon, p);
            i += 1;
        }

        let base = active_save_block.offset() * 8 + active::ACTIVE_PKM_BITS.start;
        let mut active_pokemon = active_new();
        let mut i: usize = 0;
        while i < active::ACTIVE_PKM_COUNT
            invariant
                head@.len() == MIN_SAVE_LEN,
                head@.len() <= max_buf_len(),
                base == 8 * active_save_block.start() + active::ACTIVE_PKM_BITS.start,
                i <= active::ACTIVE_PKM_COUNT,
                active_in(active_pokemon).len() == i,
                forall|j: int|
                    0 <= j < i ==> (#[trigger] active_in(active_pokemon)[j]).decodes(
                        bits_of(head@),
                        base + active::ACTIVE_PKM_BIT_LEN * j,
                    ),
            decreases active::ACTIVE_PKM_COUNT - i,
        {
            let p = ActivePokemon::from_bitslice(head, base + active::ACTIVE_PKM_BIT_LEN * i);
            active_push(&mut active_pokemon, p);
            i += 1;
        }

        Ok(
            SkySave {
                data: slice_to_vec(data),
                active_save_block,
                quicksave_valid,
                general,
                stored_pokemon,
                active_pokemon,
            },
        )
    }

    /// Sets the three checksums of the model's bytes anew.
    pub fn fix_checksums(&mut self)
        requires
            old(self).data@.len() >= save::QUICKSAVE.end,
        ensures
            final(self).data@ == with_checksums(old(self).data@),
            final(self).active_save_block == old(self).active_save_block,
            final(self).quicksave_valid == old(self).quicksave_valid,
            final(self).general == old(self).general,
            final(self).stored_pokemon == old(self).stored_pokemon,
            final(self).active_pokemon == old(self).active_pokemon,
    {
        write_checksums(&mut self.data);
    }

    /// Saves the model to its bytes: writes its records to the active
    /// block, makes the other block a copy of it, and sets the three
    /// checksums anew.
    pub fn save(&mut self)
        requires
            old(self).wf(),
        ensures
            final(self).data@ == old(self).saved(),
            final(self).data@.len() == old(self).data@.len(),
            final(self).wf(),
            final(self).active_save_block == old(self).active_save_block,
            final(self).quicksave_valid == old(self).quicksave_valid,
            final(self).general == old(self).general,
            final(self).stored_pokemon == old(self).stored_pokemon,
            final(self).active_pokemon == old(self).active_pokemon,
    {
        let block = self.active_save_block;
        let mut head = slice_to_vec(&self.data.as_slice()[0..MIN_SAVE_LEN]);
        let ghost tail = self.data@.subrange(MIN_SAVE_LEN as int, self.data@.len() as int);
        self.general.save(&mut head, block);

        write_stored(&mut head, &self.stored_pokemon, block);
        write_active(&mut head, &self.active_pokemon, block);

        store_save_slice(
            &mut self.data,
            ActiveSaveBlock::Primary,
            0..MIN_SAVE_LEN,
            head.as_slice(),
        );
        assert(self.data@ =~= head@ + tail);
        match block {
            ActiveSaveBlock::Primary => copy_within(
                &mut self.data,
                save::PRIMARY_SAVE.start,
                save::BACKUP_SAVE.start,
                0xB65C,
            ),
            ActiveSaveBlock::Backup => copy_within(
                &mut self.data,
                save::BACKUP_SAVE.start,
                save::PRIMARY_SAVE.start,
                0xB65C,
            ),
        }
        write_checksums(&mut self.data);
    }
}

impl SkySave {
    /// The stored creature at `index`.
    pub fn stored_at(&self, index: usize) -> (r: &StoredPokemon)
        requires
            index < self.stored().len(),
        ensures
            *r == self.stored()[index as int],
    {
        stored_get(&self.stored_pokemon, index)
    }

    /// Puts `creature` in the place of the stored creature at `index`. The
    /// bytes of the model change when it is saved.
    pub fn set_stored_at(&mut self, index: usize, creature: StoredPokemon)
        requires
            index < old(self).stored().len(),
        ensures
            final(self).stored() == old(self).stored().update(index as int, creature),
            final(self).data == old(self).data,
            final(self).active_save_block == old(self).active_save_block,
            final(self).quicksave_valid == old(self).quicksave_valid,
            final(self).general == old(self).general,
            final(self).active_pokemon == old(self).active_pokemon,
    {
        stored_set(&mut self.stored_pokemon, index, creature);
    }

    /// The active creature at `index`.
    pub fn active_at(&self, index: usize) -> (r: &ActivePokemon)
        requires
            index < self.active().len(),
        ensures
            *r == self.active()[index as int],
    {
        active_get(&self.active_pokemon, index)
    }

    /// Puts `creature` in the place of the active creature at `index`. The
    /// bytes of the model change when it is saved.
    pub fn set_active_at(&mut self, index: usize, creature: ActivePokemon)
        requires
            index < old(self).active().len(),
        ensures
            final(self).active() == old(self).active().update(index as int, creature),
            final(self).data == old(self).data,
            final(self).active_save_block == old(self).active_save_block,
            final(self).quicksave_valid == old(self).quicksave_valid,
            final(self).general == old(self).general,
            final(self).stored_pokemon == old(self).stored_pokemon,
    {
        active_set(&mut self.active_pokemon, index, creature);
    }

    /// The name of the team as the game shows it: up to the first zero byte.
    pub fn team_name(&self) -> (r: String)
        ensures
            r@ == crate::encoding::text_until_nul(self.general.team_name@),
    {
        self.general.team_name.to_string_until_nul()
    }

    /// The money that the team carries.
    pub fn held_money(&self) -> (r: u32)
        ensures
            r == self.general.held_money,
    {
        self.general.held_money
    }

    /// The money that the team carries in the special episodes.
    pub fn sp_episode_held_money(&self) -> (r: u32)
        ensures
            r == self.general.sp_episode_held_money,
    {
        self.general.sp_episode_held_money
    }

    /// The money in the bank.
    pub fn stored_money(&self) -> (r: u32)
        ensures
            r == self.general.stored_money,
    {
        self.general.stored_money
    }

    /// How many adventures the team has had.
    pub fn number_of_adventurers(&self) -> (r: i32)
        ensures
            r == self.general.number_of_adventures,
    {
        self.general.number_of_adventures
    }

    /// The points that make the rank of the team.
    pub fn explorer_rank(&self) -> (r: u32)
        ensures
            r == self.general.explorer_rank,
    {
        self.general.explorer_rank
    }
}

/// The general record is written without a change of length.
pub proof fn lemma_general_written_len(g: General, data: Seq<u8>, block: ActiveSaveBlock)
    requires
        data.len() >= MIN_SAVE_LEN,
    ensures
        g.written(data, block).len() == data.len(),
{
    let at = block.start();
    let named = with_bytes(data, at + general::TEAM_NAME.start, save_bytes(g.team_name@));
    assert(named.len() == data.len());
    crate::bits::lemma_le_bits_len(g.held_money as nat, 24);
    crate::bits::lemma_le_bits_len(g.sp_episode_held_money as nat, 24);
    crate::bits::lemma_le_bits_len(g.stored_money as nat, 24);
    let held = with_bits(
        named,
        8 * at + general::HELD_MONEY_BITS.start,
        le_bits(g.held_money as nat, 24),
    );
    crate::bits::lemma_with_bits_len(
        named,
        8 * at + general::HELD_MONEY_BITS.start,
        le_bits(g.held_money as nat, 24),
    );
    let sp_held = with_bits(
        held,
        8 * at + general::SP_EPISODE_HELD_MONEY_BITS.start,
        le_bits(g.sp_episode_held_money as nat, 24),
    );
    crate::bits::lemma_with_bits_len(
        held,
        8 * at + general::SP_EPISODE_HELD_MONEY_BITS.start,
        le_bits(g.sp_episode_held_money as nat, 24),
    );
    crate::bits::lemma_with_bits_len(
        sp_held,
        8 * at + general::STORED_MONEY_BITS.start,
        le_bits(g.stored_money as nat, 24),
    );
}

/// The bytes of a model with its records written are as many as before.
pub proof fn lemma_written_len(s: SkySave)
    requires
        s.wf(),
    ensures
        s.written().len() == s.data@.len(),
{
    let at = s.active_save_block.start();
    let head = head_of(s.data@);
    let general = s.general.written(head, s.active_save_block);
    lemma_general_written_len(s.general, head, s.active_save_block);
    lemma_stored_bits_len(s.stored());
    lemma_active_bits_len(s.active());
    crate::bits::lemma_with_bits_len(
        general,
        8 * at + stored::STORED_PKM_BITS.start,
        stored_bits(s.stored()),
    );
    let stored = with_bits(
        general,
        8 * at + stored::STORED_PKM_BITS.start,
        stored_bits(s.stored()),
    );
    crate::bits::lemma_with_bits_len(
        stored,
        8 * at + active::ACTIVE_PKM_BITS.start,
        active_bits(s.active()),
    );
}

/// Making one block a copy of the other keeps the length of the container
/// and the active block.
pub proof fn lemma_mirrored(data: Seq<u8>, block: ActiveSaveBlock)
    requires
        data.len() >= MIN_SAVE_LEN,
    ensures
        mirrored(data, block).len() == data.len(),
        mirrored(data, block).subrange(save::PRIMARY_SAVE.start as int, save::PRIMARY_SAVE.end as int)
            == data.subrange(block.start(), block.start() + 0xB65C),
        mirrored(data, block).subrange(save::BACKUP_SAVE.start as int, save::BACKUP_SAVE.end as int)
            == data.subrange(block.start(), block.start() + 0xB65C),
        forall|i: int|
            0 <= i < data.len() && !(save::PRIMARY_SAVE.start <= i < save::PRIMARY_SAVE.end) && !(
            save::BACKUP_SAVE.start <= i < save::BACKUP_SAVE.end) ==> mirrored(data, block)[i]
                == data[i],
{
    let out = mirrored(data, block);
    assert(out.subrange(0, 0xB65C) =~= data.subrange(block.start(), block.start() + 0xB65C));
    assert(out.subrange(0xC800, 0x17E5C) =~= data.subrange(
        block.start(),
        block.start() + 0xB65C,
    ));
}

/// Saving keeps the length of the container.
pub proof fn lemma_saved_len(s: SkySave)
    requires
        s.wf(),
    ensures
        s.saved().len() == s.data@.len(),
{
    lemma_written_len(s);
    lemma_mirrored(s.written(), s.active_save_block);
    lemma_with_checksums(mirrored(s.written(), s.active_save_block));
}

/// After the checksums are set, every block stores the checksum of its
/// payload, and nothing but the three stored checksums has changed.
pub proof fn lemma_with_checksums(data: Seq<u8>)
    requires
        data.len() >= save::QUICKSAVE.end,
    ensures
        with_checksums(data).len() == data.len(),
        block_valid(with_checksums(data), save::PRIMARY_SAVE),
        block_valid(with_checksums(data), save::BACKUP_SAVE),
        block_valid(with_checksums(data), save::QUICKSAVE),
        payload_sum(with_checksums(data), save::PRIMARY_SAVE) == payload_sum(
            data,
            save::PRIMARY_SAVE,
        ),
        payload_sum(with_checksums(data), save::BACKUP_SAVE) == payload_sum(
            data,
            save::BACKUP_SAVE,
        ),
        payload_sum(with_checksums(data), save::QUICKSAVE) == payload_sum(data, save::QUICKSAVE),
        forall|i: int|
            0 <= i < data.len() && !(save::PRIMARY_READ_CHECKSUM.start <= i
                < save::PRIMARY_READ_CHECKSUM.end) && !(save::BACKUP_READ_CHECKSUM.start <= i
                < save::BACKUP_READ_CHECKSUM.end) && !(save::QUICKSAVE_READ_CHECKSUM.start <= i
                < save::QUICKSAVE_READ_CHECKSUM.end) ==> with_checksums(data)[i] == data[i],
{
    let out = with_checksums(data);
    let pri = payload_sum(data, save::PRIMARY_SAVE);
    let bak = payload_sum(data, save::BACKUP_SAVE);
    let quick = payload_sum(data, save::QUICKSAVE);
    assert(pri.len() == 4 && bak.len() == 4 && quick.len() == 4);
    assert(out.subrange(4, 0xB65C) =~= data.subrange(4, 0xB65C));
    assert(out.subrange(0xC804, 0x17E5C) =~= data.subrange(0xC804, 0x17E5C));
    assert(out.subrange(0x19004, 0x1E800) =~= data.subrange(0x19004, 0x1E800));
    assert(out.subrange(0, 4) =~= pri);
    assert(out.subrange(0xC800, 0xC804) =~= bak);
    assert(out.subrange(0x19000, 0x19004) =~= quick);
}


/// A model whose records are written as the bits and bytes that its
/// container holds in their places is written as that container.
proof fn lemma_written_of_same_parts(s: SkySave)
    requires
        s.data@.len() >= MIN_SAVE_LEN,
        s.general.written(head_of(s.data@), s.active_save_block) == head_of(s.data@),
        stored_bits(s.stored()) == bits_of(head_of(s.data@)).subrange(
            8 * s.active_save_block.start() + stored::STORED_PKM_BITS.start,
            8 * s.active_save_block.start() + stored::STORED_PKM_BITS.end,
        ),
        active_bits(s.active()) == bits_of(head_of(s.data@)).subrange(
            8 * s.active_save_block.start() + active::ACTIVE_PKM_BITS.start,
            8 * s.active_save_block.start() + active::ACTIVE_PKM_BITS.end,
        ),
    ensures
        s.written() == s.data@,
{
    let at = s.active_save_block.start();
    let head = head_of(s.data@);
    crate::bits::lemma_with_bits_same(
        head,
        8 * at + stored::STORED_PKM_BITS.start,
        8 * at + stored::STORED_PKM_BITS.end,
    );
    crate::bits::lemma_with_bits_same(
        head,
        8 * at + active::ACTIVE_PKM_BITS.start,
        8 * at + active::ACTIVE_PKM_BITS.end,
    );
    assert(head + s.data@.subrange(MIN_SAVE_LEN as int, s.data@.len() as int) =~= s.data@);
}

/// Writing back a model as it was read changes nothing.
pub proof fn lemma_written_same(
    s: SkySave,
    data: Seq<u8>,
    block: ActiveSaveBlock,
    quicksave_valid: bool,
)
    requires
        s.holds(data, block, quicksave_valid),
    ensures
        s.written() == data,
{
    let at = block.start();
    let head = head_of(data);
    let bits = bits_of(head);
    assert(s.general.written(head, block) == head) by {
        lemma_general_written_same(s.general, head, block);
    }
    assert(stored_bits(s.stored()) == bits.subrange(
        8 * at + stored::STORED_PKM_BITS.start,
        8 * at + stored::STORED_PKM_BITS.end,
    )) by {
        crate::stored::lemma_stored_bits_round_trip(
            s.stored(),
            bits,
            8 * at + stored::STORED_PKM_BITS.start,
        );
    }
    assert(active_bits(s.active()) == bits.subrange(
        8 * at + active::ACTIVE_PKM_BITS.start,
        8 * at + active::ACTIVE_PKM_BITS.end,
    )) by {
        crate::active::lemma_active_bits_round_trip(
            s.active(),
            bits,
            8 * at + active::ACTIVE_PKM_BITS.start,
        );
    }
    lemma_written_of_same_parts(s);
}

/// A saved model loads again, from the primary block, with a valid
/// quicksave block.
pub proof fn lemma_saved_loads(s: SkySave)
    requires
        s.wf(),
    ensures
        checked(s.saved()) == Ok::<(ActiveSaveBlock, bool), SaveFailure>(
            (ActiveSaveBlock::Primary, true),
        ),
{
    lemma_written_len(s);
    lemma_mirrored(s.written(), s.active_save_block);
    lemma_with_checksums(mirrored(s.written(), s.active_save_block));
}

/// A container with a valid primary block, after the backup block is made a
/// copy of the primary block and the checksums are set: the primary block
/// is as before, the backup block is a copy of it, and no byte outside the
/// backup block and the stored checksum of the quicksave block has changed.
proof fn lemma_mirror_valid_primary(data: Seq<u8>)
    requires
        data.len() >= MIN_SAVE_LEN,
        block_valid(data, save::PRIMARY_SAVE),
    ensures
        ({
            let out = with_checksums(mirrored(data, ActiveSaveBlock::Primary));
            &&& out.len() == data.len()
            &&& out.subrange(0, 0xB65C) == data.subrange(0, 0xB65C)
            &&& out.subrange(0xC800, 0x17E5C) == data.subrange(0, 0xB65C)
            &&& forall|i: int|
                0 <= i < data.len() && !(0xC800 <= i < 0x17E5C) && !(0x19000 <= i < 0x19004)
                    ==> out[i] == data[i]
        }),
{
    let mirror = mirrored(data, ActiveSaveBlock::Primary);
    let out = with_checksums(mirror);
    lemma_mirrored(data, ActiveSaveBlock::Primary);
    lemma_with_checksums(mirror);
    let block = data.subrange(0, 0xB65C);
    assert(mirror.subrange(4, 0xB65C) =~= data.subrange(4, 0xB65C)) by {
        assert forall|i: int| 4 <= i < 0xB65C implies mirror[i] == data[i] by {
            assert(mirror.subrange(0, 0xB65C)[i] == block[i]);
        }
    }
    assert(mirror.subrange(0xC804, 0x17E5C) =~= data.subrange(4, 0xB65C)) by {
        assert forall|i: int| 4 <= i < 0xB65C implies mirror[0xC800 + i] == data[i] by {
            assert(mirror.subrange(0xC800, 0x17E5C)[i] == block[i]);
        }
    }
    assert(out.subrange(0, 4) == data.subrange(0, 4));
    assert(out.subrange(0xC800, 0xC804) == data.subrange(0, 4));
    assert forall|i: int| 0 <= i < 0xB65C implies out[i] == data[i] && out[0xC800 + i]
        == data[i] by {
        if i < 4 {
            assert(out.subrange(0, 4)[i] == data.subrange(0, 4)[i]);
            assert(out.subrange(0xC800, 0xC804)[i] == data.subrange(0, 4)[i]);
        } else {
            assert(mirror.subrange(0, 0xB65C)[i] == block[i]);
            assert(mirror.subrange(0xC800, 0x17E5C)[i] == block[i]);
        }
    }
    assert(out.subrange(0, 0xB65C) =~= data.subrange(0, 0xB65C));
    assert(out.subrange(0xC800, 0x17E5C) =~= data.subrange(0, 0xB65C));
}

/// Saving a model that was loaded from the primary block and not changed
/// keeps the primary block, checksum and payload, and every byte outside
/// the backup block and the stored checksum of the quicksave block. The
/// backup block becomes a copy of the primary block.
pub proof fn lemma_save_unchanged(s: SkySave, data: Seq<u8>, quicksave_valid: bool)
    requires
        s.holds(data, ActiveSaveBlock::Primary, quicksave_valid),
        block_valid(data, save::PRIMARY_SAVE),
    ensures
        s.saved().len() == data.len(),
        s.saved().subrange(save::PRIMARY_SAVE.start as int, save::PRIMARY_SAVE.end as int)
            == data.subrange(save::PRIMARY_SAVE.start as int, save::PRIMARY_SAVE.end as int),
        s.saved().subrange(save::BACKUP_SAVE.start as int, save::BACKUP_SAVE.end as int)
            == data.subrange(save::PRIMARY_SAVE.start as int, save::PRIMARY_SAVE.end as int),
        forall|i: int|
            0 <= i < data.len() && !(save::BACKUP_SAVE.start <= i < save::BACKUP_SAVE.end) && !(
            save::QUICKSAVE_READ_CHECKSUM.start <= i < save::QUICKSAVE_READ_CHECKSUM.end)
                ==> s.saved()[i] == data[i],
{
    lemma_written_same(s, data, ActiveSaveBlock::Primary, quicksave_valid);
    lemma_mirror_valid_primary(data);
}

/// Which block a container is loaded from where its primary block does not
/// store the checksum of its payload: from the backup block where that one
/// is valid, and from none where it is not.
pub proof fn lemma_invalid_primary(data: Seq<u8>)
    requires
        data.len() >= MIN_SAVE_LEN,
        !block_valid(data, save::PRIMARY_SAVE),
    ensures
        block_valid(data, save::BACKUP_SAVE) ==> checked(data) == Ok::<
            (ActiveSaveBlock, bool),
            SaveFailure,
        >((ActiveSaveBlock::Backup, block_valid(data, save::QUICKSAVE))),
        !block_valid(data, save::BACKUP_SAVE) ==> checked(data) is Err,
{
}

} // verus!
