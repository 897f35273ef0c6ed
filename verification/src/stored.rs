//! The creatures kept in storage: 362 bits each, with four moves of 21 bits.

use crate::bits::{
    bits_of, bytes_of, fill_bit, fill_bits, fill_uint, filled, le_bits, lemma_bits_of_bytes_of,
    lemma_bits_of_injective, lemma_concat_split, lemma_field, lemma_fill, lemma_join,
    lemma_le_bits_injective, lemma_le_bits_len, load_bit, load_uint_le, max_buf_len, splice,
    store_bit, uint_at, zeroed, zeros,
};
use crate::encoding::{PmdString, decode_string, lemma_save_bytes_of_decoded, save_bytes};
use crate::offsets::stored::{moves, pokemon};
use vstd::arithmetic::power2::lemma2_to64;
use vstd::prelude::*;

verus! {

/// The 69 skills of a creature, each learnt or not.
pub type IqMapBits = [bool; 69];

/// One of the four moves of a stored creature.
#[derive(Debug, Clone, Copy, PartialEq, Eq, Structural)]
pub struct StoredMove {
    pub valid: bool,
    pub linked: bool,
    pub switched: bool,
    pub set: bool,
    /// Ten bits in the save.
    pub id: u16,
    /// Seven bits in the save.
    pub power_boost: u8,
}

impl Default for StoredMove {
    fn default() -> (r: Self)
        ensures
            r == (StoredMove {
                valid: false,
                linked: false,
                switched: false,
                set: false,
                id: 0,
                power_boost: 0,
            }),
    {
        StoredMove { valid: false, linked: false, switched: false, set: false, id: 0, power_boost: 0 }
    }
}

impl StoredMove {
    /// The move in the 21 bits of `bits` from `base` on.
    pub open spec fn decode(bits: Seq<bool>, base: int) -> StoredMove {
        StoredMove {
            valid: bits[base + moves::VALID],
            linked: bits[base + moves::LINKED],
            switched: bits[base + moves::SWITCHED],
            set: bits[base + moves::SET],
            id: uint_at(bits, base + moves::ID.start, base + moves::ID.end) as u16,
            power_boost: uint_at(
                bits,
                base + moves::POWER_BOOST.start,
                base + moves::POWER_BOOST.end,
            ) as u8,
        }
    }

    /// The 21 bits of the move: the four flags, then the low ten bits of the
    /// id and the low seven of the power boost.
    pub open spec fn encode(self) -> Seq<bool> {
        seq![self.valid, self.linked, self.switched, self.set] + le_bits(self.id as nat, 10)
            + le_bits(self.power_boost as nat, 7)
    }

    /// Every field fits the bits that the save has for it.
    pub open spec fn fits(self) -> bool {
        self.id < 0x400 && self.power_boost < 0x80
    }

    /// Reads the move in the 21 bits of `data` from bit `offset` on.
    pub fn from_bitslice(data: &[u8], offset: usize) -> (r: Self)
        requires
            data@.len() <= max_buf_len(),
            offset + 21 <= 8 * data@.len(),
        ensures
            r == StoredMove::decode(bits_of(data@), offset as int),
            r.fits(),
    {
        proof {
            lemma2_to64();
        }
        StoredMove {
            valid: load_bit(data, offset + moves::VALID),
            linked: load_bit(data, offset + moves::LINKED),
            switched: load_bit(data, offset + moves::SWITCHED),
            set: load_bit(data, offset + moves::SET),
            id: load_uint_le(data, offset + moves::ID.start, offset + moves::ID.end) as u16,
            power_boost: load_uint_le(
                data,
                offset + moves::POWER_BOOST.start,
                offset + moves::POWER_BOOST.end,
            ) as u8,
        }
    }

    /// Writes the move as 21 bits, in three bytes whose last three bits are
    /// clear.
    pub fn to_bits(&self) -> (r: Vec<u8>)
        ensures
            r@.len() == 3,
            bits_of(r@) == self.encode() + zeros(3),
            bits_of(r@).subrange(0, 21) == self.encode(),
    {
        let mut bits = zeroed(3);
        let ghost empty = Seq::<bool>::empty();
        assert(filled(bits@, empty)) by {
            assert(bits_of(bits@) =~= empty + zeros(24));
        }
        fill_bit(&mut bits, Ghost(empty), moves::VALID, self.valid);
        let ghost w1 = seq![self.valid];
        assert(empty + seq![self.valid] =~= w1);
        fill_bit(&mut bits, Ghost(w1), moves::LINKED, self.linked);
        let ghost w2 = w1 + seq![self.linked];
        fill_bit(&mut bits, Ghost(w2), moves::SWITCHED, self.switched);
        let ghost w3 = w2 + seq![self.switched];
        fill_bit(&mut bits, Ghost(w3), moves::SET, self.set);
        let ghost w4 = w3 + seq![self.set];
        fill_uint(&mut bits, Ghost(w4), moves::ID.start, moves::ID.end, self.id as u64);
        let ghost w5 = w4 + le_bits(self.id as nat, 10);
        fill_uint(
            &mut bits,
            Ghost(w5),
            moves::POWER_BOOST.start,
            moves::POWER_BOOST.end,
            self.power_boost as u64,
        );
        proof {
            assert(w4 =~= seq![self.valid, self.linked, self.switched, self.set]);
            assert(bits_of(bits@).subrange(0, 21) =~= self.encode());
        }
        bits
    }
}

impl StoredMove {
    /// Whether the slot holds a move.
    pub fn valid(&self) -> (r: bool)
        ensures
            r == self.valid,
    {
        self.valid
    }

    /// Whether the move is linked to the one before it.
    pub fn linked(&self) -> (r: bool)
        ensures
            r == self.linked,
    {
        self.linked
    }

    /// Whether the move is switched on.
    pub fn switched(&self) -> (r: bool)
        ensures
            r == self.switched,
    {
        self.switched
    }

    /// Whether the move is the set move.
    pub fn set(&self) -> (r: bool)
        ensures
            r == self.set,
    {
        self.set
    }

    /// Which move it is.
    pub fn id(&self) -> (r: u16)
        ensures
            r == self.id,
    {
        self.id
    }

    /// By how much the move was made stronger.
    pub fn power_boost(&self) -> (r: u8)
        ensures
            r == self.power_boost,
    {
        self.power_boost
    }
}

/// Reading a move and writing it back gives the bits it was read from.
pub proof fn lemma_stored_move_round_trip(bits: Seq<bool>, base: int)
    requires
        0 <= base,
        base + 21 <= bits.len(),
    ensures
        StoredMove::decode(bits, base).encode() == bits.subrange(base, base + 21),
        StoredMove::decode(bits, base).fits(),
{
    lemma2_to64();
    lemma_field(bits, base + 4, base + 14);
    lemma_field(bits, base + 14, base + 21);
    assert(StoredMove::decode(bits, base).encode() =~= bits.subrange(base, base + 21));
}

/// Writing a move whose fields fit and reading it back gives the move.
pub proof fn lemma_stored_move_decode_encode(m: StoredMove, before: Seq<bool>, after: Seq<bool>)
    requires
        m.fits(),
    ensures
        StoredMove::decode(before + m.encode() + after, before.len() as int) == m,
{
    let bits = before + m.encode() + after;
    let base = before.len() as int;
    lemma2_to64();
    crate::bits::lemma_le_value_of_bits(m.id as nat, 10);
    crate::bits::lemma_le_value_of_bits(m.power_boost as nat, 7);
    assert(bits.subrange(base + 4, base + 14) =~= le_bits(m.id as nat, 10));
    assert(bits.subrange(base + 14, base + 21) =~= le_bits(m.power_boost as nat, 7));
    vstd::arithmetic::div_mod::lemma_small_mod(m.id as nat, 0x400);
    vstd::arithmetic::div_mod::lemma_small_mod(m.power_boost as nat, 0x80);
}

/// Reads the 69 skill bits of `data` from bit `start` on.
pub fn read_iq_map(data: &[u8], start: usize) -> (map: IqMapBits)
    requires
        data@.len() <= max_buf_len(),
        start + 69 <= 8 * data@.len(),
    ensures
        map@ == bits_of(data@).subrange(start as int, start + 69),
{
    let mut map = [false; 69];
    let mut k: usize = 0;
    while k < 69
        invariant
            data@.len() <= max_buf_len(),
            start + 69 <= 8 * data@.len(),
            k <= 69,
            forall|j: int| 0 <= j < k ==> map@[j] == bits_of(data@)[start + j],
        decreases 69 - k,
    {
        map[k] = load_bit(data, start + k);
        k += 1;
    }
    assert(map@ =~= bits_of(data@).subrange(start as int, start + 69));
    map
}

/// Writes the 69 skill bits to `buf` from bit `start` on.
pub fn write_iq_map(buf: &mut Vec<u8>, start: usize, map: &IqMapBits)
    requires
        old(buf)@.len() <= max_buf_len(),
        start + 69 <= 8 * old(buf)@.len(),
    ensures
        final(buf)@.len() == old(buf)@.len(),
        bits_of(final(buf)@) == splice(bits_of(old(buf)@), start as int, map@),
{
    let ghost before = bits_of(buf@);
    let mut k: usize = 0;
    proof {
        assert(splice(before, start as int, map@.subrange(0, 0)) =~= before);
    }
    while k < 69
        invariant
            buf@.len() == old(buf)@.len(),
            buf@.len() <= max_buf_len(),
            start + 69 <= 8 * buf@.len(),
            before == bits_of(old(buf)@),
            k <= 69,
            bits_of(buf@) == splice(before, start as int, map@.subrange(0, k as int)),
        decreases 69 - k,
    {
        let ghost so_far = bits_of(buf@);
        store_bit(buf, start + k, map[k]);
        proof {
            assert(splice(so_far, start + k, seq![map@[k as int]]) =~= splice(
                before,
                start as int,
                map@.subrange(0, k + 1),
            ));
        }
        k += 1;
    }
    assert(map@.subrange(0, 69) =~= map@);
}

/// A creature kept in storage.
#[derive(Debug)]
pub struct StoredPokemon {
    pub valid: bool,
    /// Seven bits in the save.
    pub level: u8,
    /// Eleven bits in the save.
    pub id: u16,
    pub met_at: u8,
    /// Seven bits in the save.
    pub met_floor: u8,
    /// A bit of unknown meaning, kept as it is.
    pub unknown: bool,
    /// Seven bits in the save.
    pub evolved_at_1: u8,
    /// Seven bits in the save.
    pub evolved_at_2: u8,
    /// Ten bits in the save.
    pub iq: u16,
    /// Ten bits in the save.
    pub hp: u16,
    pub attack: u8,
    pub sp_attack: u8,
    pub defense: u8,
    pub sp_defense: u8,
    /// Twenty-four bits in the save.
    pub exp: u32,
    pub iq_map: IqMapBits,
    /// Four bits in the save.
    pub tactic: u8,
    pub move_1: StoredMove,
    pub move_2: StoredMove,
    pub move_3: StoredMove,
    pub move_4: StoredMove,
    pub name: PmdString,
}

impl Clone for StoredPokemon {
    fn clone(&self) -> (r: Self)
        ensures
            r.valid == self.valid,
            r.level == self.level,
            r.id == self.id,
            r.met_at == self.met_at,
            r.met_floor == self.met_floor,
            r.unknown == self.unknown,
            r.evolved_at_1 == self.evolved_at_1,
            r.evolved_at_2 == self.evolved_at_2,
            r.iq == self.iq,
            r.hp == self.hp,
            r.attack == self.attack,
            r.sp_attack == self.sp_attack,
            r.defense == self.defense,
            r.sp_defense == self.sp_defense,
            r.exp == self.exp,
            r.iq_map@ == self.iq_map@,
            r.tactic == self.tactic,
            r.move_1 == self.move_1,
            r.move_2 == self.move_2,
            r.move_3 == self.move_3,
            r.move_4 == self.move_4,
            r.name@ == self.name@,
    {
        StoredPokemon {
            valid: self.valid,
            level: self.level,
            id: self.id,
            met_at: self.met_at,
            met_floor: self.met_floor,
            unknown: self.unknown,
            evolved_at_1: self.evolved_at_1,
            evolved_at_2: self.evolved_at_2,
            iq: self.iq,
            hp: self.hp,
            attack: self.attack,
            sp_attack: self.sp_attack,
            defense: self.defense,
            sp_defense: self.sp_defense,
            exp: self.exp,
            iq_map: self.iq_map,
            tactic: self.tactic,
            move_1: self.move_1,
            move_2: self.move_2,
            move_3: self.move_3,
            move_4: self.move_4,
            name: self.name.clone(),
        }
    }
}

impl Default for StoredPokemon {
    fn default() -> (r: Self)
        ensures
            r.encode() == zeros(362),
            r.name@ == Seq::<crate::encoding::PmdChar>::empty(),
            r.fits(),
    {
        let r = StoredPokemon {
            valid: false,
            level: 0,
            id: 0,
            met_at: 0,
            met_floor: 0,
            unknown: false,
            evolved_at_1: 0,
            evolved_at_2: 0,
            iq: 0,
            hp: 0,
            attack: 0,
            sp_attack: 0,
            defense: 0,
            sp_defense: 0,
            exp: 0,
            iq_map: [false; 69],
            tactic: 0,
            move_1: StoredMove::default(),
            move_2: StoredMove::default(),
            move_3: StoredMove::default(),
            move_4: StoredMove::default(),
            name: PmdString::new(),
        };
        proof {
            crate::bits::lemma_le_bits_zero(4);
            crate::bits::lemma_le_bits_zero(7);
            crate::bits::lemma_le_bits_zero(8);
            crate::bits::lemma_le_bits_zero(10);
            crate::bits::lemma_le_bits_zero(11);
            crate::bits::lemma_le_bits_zero(24);
            crate::bits::lemma_bits_of_zero_bytes(save_bytes(r.name@));
            assert(r.move_1.encode() =~= zeros(21));
            assert(r.encode() =~= zeros(362));
        }
        r
    }
}

impl StoredPokemon {
    /// The creature is the one in the 362 bits of `bits` from `base` on.
    pub open spec fn decodes(&self, bits: Seq<bool>, base: int) -> bool {
        &&& self.valid == bits[base + pokemon::VALID]
        &&& self.level == uint_at(bits, base + pokemon::LEVEL.start, base + pokemon::LEVEL.end)
        &&& self.id == uint_at(bits, base + pokemon::ID.start, base + pokemon::ID.end)
        &&& self.met_at == uint_at(bits, base + pokemon::MET_AT.start, base + pokemon::MET_AT.end)
        &&& self.met_floor == uint_at(
            bits,
            base + pokemon::MET_FLOOR.start,
            base + pokemon::MET_FLOOR.end,
        )
        &&& self.unknown == bits[base + pokemon::UNKNOWN]
        &&& self.evolved_at_1 == uint_at(
            bits,
            base + pokemon::EVOLVED_AT_1.start,
            base + pokemon::EVOLVED_AT_1.end,
        )
        &&& self.evolved_at_2 == uint_at(
            bits,
            base + pokemon::EVOLVED_AT_2.start,
            base + pokemon::EVOLVED_AT_2.end,
        )
        &&& self.iq == uint_at(bits, base + pokemon::IQ.start, base + pokemon::IQ.end)
        &&& self.hp == uint_at(bits, base + pokemon::HP.start, base + pokemon::HP.end)
        &&& self.attack == uint_at(bits, base + pokemon::ATTACK.start, base + pokemon::ATTACK.end)
        &&& self.sp_attack == uint_at(
            bits,
            base + pokemon::SP_ATTACK.start,
            base + pokemon::SP_ATTACK.end,
        )
        &&& self.defense == uint_at(
            bits,
            base + pokemon::DEFENSE.start,
            base + pokemon::DEFENSE.end,
        )
        &&& self.sp_defense == uint_at(
            bits,
            base + pokemon::SP_DEFENSE.start,
            base + pokemon::SP_DEFENSE.end,
        )
        &&& self.exp == uint_at(bits, base + pokemon::EXP.start, base + pokemon::EXP.end)
        &&& self.iq_map@ == bits.subrange(base + pokemon::IQ_MAP.start, base + pokemon::IQ_MAP.end)
        &&& self.tactic == uint_at(bits, base + pokemon::TACTIC.start, base + pokemon::TACTIC.end)
        &&& self.move_1 == StoredMove::decode(bits, base + pokemon::MOVE_1.start)
        &&& self.move_2 == StoredMove::decode(bits, base + pokemon::MOVE_2.start)
        &&& self.move_3 == StoredMove::decode(bits, base + pokemon::MOVE_3.start)
        &&& self.move_4 == StoredMove::decode(bits, base + pokemon::MOVE_4.start)
        &&& self.name@ == decode_string(
            bytes_of(bits.subrange(base + pokemon::NAME.start, base + pokemon::NAME.end)),
        )
    }

    /// The 362 bits of the creature: its fields in the order of the save,
    /// each cut to the bits that the save has for it.
    pub open spec fn encode(&self) -> Seq<bool> {
        seq![self.valid] + le_bits(self.level as nat, 7) + le_bits(self.id as nat, 11) + le_bits(
            self.met_at as nat,
            8,
        ) + le_bits(self.met_floor as nat, 7) + seq![self.unknown] + le_bits(
            self.evolved_at_1 as nat,
            7,
        ) + le_bits(self.evolved_at_2 as nat, 7) + le_bits(self.iq as nat, 10) + le_bits(
            self.hp as nat,
            10,
        ) + le_bits(self.attack as nat, 8) + le_bits(self.sp_attack as nat, 8) + le_bits(
            self.defense as nat,
            8,
        ) + le_bits(self.sp_defense as nat, 8) + le_bits(self.exp as nat, 24) + self.iq_map@
            + le_bits(self.tactic as nat, 4) + self.move_1.encode() + self.move_2.encode()
            + self.move_3.encode() + self.move_4.encode() + bits_of(save_bytes(self.name@))
    }

    /// Every field fits the bits that the save has for it.
    pub open spec fn fits(&self) -> bool {
        &&& self.level < 0x80
        &&& self.id < 0x800
        &&& self.met_floor < 0x80
        &&& self.evolved_at_1 < 0x80
        &&& self.evolved_at_2 < 0x80
        &&& self.iq < 0x400
        &&& self.hp < 0x400
        &&& self.exp < 0x100_0000
        &&& self.tactic < 0x10
        &&& self.move_1.fits()
        &&& self.move_2.fits()
        &&& self.move_3.fits()
        &&& self.move_4.fits()
    }

    /// Reads the creature in the 362 bits of `data` from bit `offset` on.
    pub fn from_bitslice(data: &[u8], offset: usize) -> (r: Self)
        requires
            data@.len() <= max_buf_len(),
            offset + 362 <= 8 * data@.len(),
        ensures
            r.decodes(bits_of(data@), offset as int),
            r.fits(),
    {
        proof {
            lemma2_to64();
        }
        StoredPokemon {
            valid: load_bit(data, offset + pokemon::VALID),
            level: load_uint_le(data, offset + pokemon::LEVEL.start, offset + pokemon::LEVEL.end) as u8,
            id: load_uint_le(data, offset + pokemon::ID.start, offset + pokemon::ID.end) as u16,
            met_at: load_uint_le(
                data,
                offset + pokemon::MET_AT.start,
                offset + pokemon::MET_AT.end,
            ) as u8,
            met_floor: load_uint_le(
                data,
                offset + pokemon::MET_FLOOR.start,
                offset + pokemon::MET_FLOOR.end,
            ) as u8,
            unknown: load_bit(data, offset + pokemon::UNKNOWN),
            evolved_at_1: load_uint_le(
                data,
                offset + pokemon::EVOLVED_AT_1.start,
                offset + pokemon::EVOLVED_AT_1.end,
            ) as u8,
            evolved_at_2: load_uint_le(
                data,
                offset + pokemon::EVOLVED_AT_2.start,
                offset + pokemon::EVOLVED_AT_2.end,
            ) as u8,
            iq: load_uint_le(data, offset + pokemon::IQ.start, offset + pokemon::IQ.end) as u16,
            hp: load_uint_le(data, offset + pokemon::HP.start, offset + pokemon::HP.end) as u16,
            attack: load_uint_le(
                data,
                offset + pokemon::ATTACK.start,
                offset + pokemon::ATTACK.end,
            ) as u8,
            sp_attack: load_uint_le(
                data,
                offset + pokemon::SP_ATTACK.start,
                offset + pokemon::SP_ATTACK.end,
            ) as u8,
            defense: load_uint_le(
                data,
                offset + pokemon::DEFENSE.start,
                offset + pokemon::DEFENSE.end,
            ) as u8,
            sp_defense: load_uint_le(
                data,
                offset + pokemon::SP_DEFENSE.start,
                offset + pokemon::SP_DEFENSE.end,
            ) as u8,
            exp: load_uint_le(data, offset + pokemon::EXP.start, offset + pokemon::EXP.end) as u32,
            iq_map: read_iq_map(data, offset + pokemon::IQ_MAP.start),
            tactic: load_uint_le(
                data,
                offset + pokemon::TACTIC.start,
                offset + pokemon::TACTIC.end,
            ) as u8,
            move_1: StoredMove::from_bitslice(data, offset + pokemon::MOVE_1.start),
            move_2: StoredMove::from_bitslice(data, offset + pokemon::MOVE_2.start),
            move_3: StoredMove::from_bitslice(data, offset + pokemon::MOVE_3.start),
            move_4: StoredMove::from_bitslice(data, offset + pokemon::MOVE_4.start),
            name: PmdString::from_bitslice(data, offset + pokemon::NAME.start),
        }
    }
}

impl StoredPokemon {
    /// Writes the creature as 362 bits, in 46 bytes whose last six bits are
    /// clear.
    pub fn to_bits(&self) -> (r: Vec<u8>)
        ensures
            r@.len() == 46,
            bits_of(r@) == self.encode() + zeros(6),
            bits_of(r@).subrange(0, 362) == self.encode(),
    {
        let mut bits = zeroed(46);
        let ghost empty = Seq::<bool>::empty();
        assert(filled(bits@, empty)) by {
            assert(bits_of(bits@) =~= empty + zeros(368));
        }
        fill_bit(&mut bits, Ghost(empty), pokemon::VALID, self.valid);
        let ghost w = seq![self.valid];
        assert(empty + seq![self.valid] =~= w);
        fill_uint(&mut bits, Ghost(w), pokemon::LEVEL.start, pokemon::LEVEL.end, self.level as u64);
        let ghost w = w + le_bits(self.level as nat, 7);
        fill_uint(&mut bits, Ghost(w), pokemon::ID.start, pokemon::ID.end, self.id as u64);
        let ghost w = w + le_bits(self.id as nat, 11);
        fill_uint(
            &mut bits,
            Ghost(w),
            pokemon::MET_AT.start,
            pokemon::MET_AT.end,
            self.met_at as u64,
        );
        let ghost w = w + le_bits(self.met_at as nat, 8);
        fill_uint(
            &mut bits,
            Ghost(w),
            pokemon::MET_FLOOR.start,
            pokemon::MET_FLOOR.end,
            self.met_floor as u64,
        );
        let ghost w = w + le_bits(self.met_floor as nat, 7);
        fill_bit(&mut bits, Ghost(w), pokemon::UNKNOWN, self.unknown);
        let ghost w = w + seq![self.unknown];
        fill_uint(
            &mut bits,
            Ghost(w),
            pokemon::EVOLVED_AT_1.start,
            pokemon::EVOLVED_AT_1.end,
            self.evolved_at_1 as u64,
        );
        let ghost w = w + le_bits(self.evolved_at_1 as nat, 7);
        fill_uint(
            &mut bits,
            Ghost(w),
            pokemon::EVOLVED_AT_2.start,
            pokemon::EVOLVED_AT_2.end,
            self.evolved_at_2 as u64,
        );
        let ghost w = w + le_bits(self.evolved_at_2 as nat, 7);
        fill_uint(&mut bits, Ghost(w), pokemon::IQ.start, pokemon::IQ.end, self.iq as u64);
        let ghost w = w + le_bits(self.iq as nat, 10);
        fill_uint(&mut bits, Ghost(w), pokemon::HP.start, pokemon::HP.end, self.hp as u64);
        let ghost w = w + le_bits(self.hp as nat, 10);
        fill_uint(
            &mut bits,
            Ghost(w),
            pokemon::ATTACK.start,
            pokemon::ATTACK.end,
            self.attack as u64,
        );
        let ghost w = w + le_bits(self.attack as nat, 8);
        fill_uint(
            &mut bits,
            Ghost(w),
            pokemon::SP_ATTACK.start,
            pokemon::SP_ATTACK.end,
            self.sp_attack as u64,
        );
        let ghost w = w + le_bits(self.sp_attack as nat, 8);
        fill_uint(
            &mut bits,
            Ghost(w),
            pokemon::DEFENSE.start,
            pokemon::DEFENSE.end,
            self.defense as u64,
        );
        let ghost w = w + le_bits(self.defense as nat, 8);
        fill_uint(
            &mut bits,
            Ghost(w),
            pokemon::SP_DEFENSE.start,
            pokemon::SP_DEFENSE.end,
            self.sp_defense as u64,
        );
        let ghost w = w + le_bits(self.sp_defense as nat, 8);
        fill_uint(&mut bits, Ghost(w), pokemon::EXP.start, pokemon::EXP.end, self.exp as u64);
        let ghost w = w + le_bits(self.exp as nat, 24);
        fill_iq_map(&mut bits, Ghost(w), pokemon::IQ_MAP.start, &self.iq_map);
        let ghost w = w + self.iq_map@;
        fill_uint(
            &mut bits,
            Ghost(w),
            pokemon::TACTIC.start,
            pokemon::TACTIC.end,
            self.tactic as u64,
        );
        let ghost w = w + le_bits(self.tactic as nat, 4);
        let move_1 = self.move_1.to_bits();
        fill_bits(
            &mut bits,
            Ghost(w),
            pokemon::MOVE_1.start,
            pokemon::MOVE_1.end,
            move_1.as_slice(),
        );
        let ghost w = w + self.move_1.encode();
        let move_2 = self.move_2.to_bits();
        fill_bits(
            &mut bits,
            Ghost(w),
            pokemon::MOVE_2.start,
            pokemon::MOVE_2.end,
            move_2.as_slice(),
        );
        let ghost w = w + self.move_2.encode();
        let move_3 = self.move_3.to_bits();
        fill_bits(
            &mut bits,
            Ghost(w),
            pokemon::MOVE_3.start,
            pokemon::MOVE_3.end,
            move_3.as_slice(),
        );
        let ghost w = w + self.move_3.encode();
        let move_4 = self.move_4.to_bits();
        fill_bits(
            &mut bits,
            Ghost(w),
            pokemon::MOVE_4.start,
            pokemon::MOVE_4.end,
            move_4.as_slice(),
        );
        let ghost w = w + self.move_4.encode();
        let name = self.name.to_save_bytes();
        fill_bits(&mut bits, Ghost(w), pokemon::NAME.start, pokemon::NAME.end, name.as_slice());
        assert(bits_of(name@).subrange(0, 80) =~= bits_of(save_bytes(self.name@)));
        proof {
            lemma_stored_encode_len(*self);
            assert(bits_of(bits@).subrange(0, 362) =~= self.encode());
        }
        bits
    }
}

impl StoredPokemon {
    /// Whether the slot holds a creature.
    pub fn valid(&self) -> (r: bool)
        ensures
            r == self.valid,
    {
        self.valid
    }

    /// The level.
    pub fn level(&self) -> (r: u8)
        ensures
            r == self.level,
    {
        self.level
    }

    /// Which kind of creature it is.
    pub fn id(&self) -> (r: u16)
        ensures
            r == self.id,
    {
        self.id
    }

    /// The place where the creature was met.
    pub fn met_at(&self) -> (r: u8)
        ensures
            r == self.met_at,
    {
        self.met_at
    }

    /// The floor on which the creature was met.
    pub fn met_floor(&self) -> (r: u8)
        ensures
            r == self.met_floor,
    {
        self.met_floor
    }

    /// The IQ.
    pub fn iq(&self) -> (r: u16)
        ensures
            r == self.iq,
    {
        self.iq
    }

    /// The hit points.
    pub fn hp(&self) -> (r: u16)
        ensures
            r == self.hp,
    {
        self.hp
    }

    /// The attack.
    pub fn attack(&self) -> (r: u8)
        ensures
            r == self.attack,
    {
        self.attack
    }

    /// The special attack.
    pub fn sp_attack(&self) -> (r: u8)
        ensures
            r == self.sp_attack,
    {
        self.sp_attack
    }

    /// The defense.
    pub fn defense(&self) -> (r: u8)
        ensures
            r == self.defense,
    {
        self.defense
    }

    /// The special defense.
    pub fn sp_defense(&self) -> (r: u8)
        ensures
            r == self.sp_defense,
    {
        self.sp_defense
    }

    /// The experience points.
    pub fn exp(&self) -> (r: u32)
        ensures
            r == self.exp,
    {
        self.exp
    }

    /// The skills, each learnt or not.
    pub fn iq_map(&self) -> (r: IqMapBits)
        ensures
            r == self.iq_map,
    {
        self.iq_map
    }

    /// The tactic.
    pub fn tactic(&self) -> (r: u8)
        ensures
            r == self.tactic,
    {
        self.tactic
    }
}

impl StoredPokemon {
    /// The levels at which the creature evolved, the first time and the
    /// second.
    pub fn evolved_at(&self) -> (r: (u8, u8))
        ensures
            r == (self.evolved_at_1, self.evolved_at_2),
    {
        (self.evolved_at_1, self.evolved_at_2)
    }

    /// The four moves.
    pub fn moves(&self) -> (r: [StoredMove; 4])
        ensures
            r@ == seq![self.move_1, self.move_2, self.move_3, self.move_4],
    {
        let r = [self.move_1, self.move_2, self.move_3, self.move_4];
        assert(r@ =~= seq![self.move_1, self.move_2, self.move_3, self.move_4]);
        r
    }

    /// The name as the game shows it: up to the first zero byte.
    pub fn name(&self) -> (r: String)
        ensures
            r@ == crate::encoding::text_until_nul(self.name@),
    {
        self.name.to_string_until_nul()
    }
}

/// Writes the 69 skill bits right behind the bits written so far.
pub(crate) fn fill_iq_map(
    buf: &mut Vec<u8>,
    Ghost(written): Ghost<Seq<bool>>,
    start: usize,
    map: &IqMapBits,
)
    requires
        old(buf)@.len() <= max_buf_len(),
        start + 69 <= 8 * old(buf)@.len(),
        start == written.len(),
        filled(old(buf)@, written),
    ensures
        final(buf)@.len() == old(buf)@.len(),
        filled(final(buf)@, written + map@),
        (written + map@).len() == start + 69,
{
    let ghost before = bits_of(buf@);
    write_iq_map(buf, start, map);
    proof {
        lemma_fill(before, bits_of(buf@), written, map@);
    }
}

/// Reading a stored creature and writing it back gives the bits it was read
/// from.
pub proof fn lemma_stored_round_trip(p: StoredPokemon, bits: Seq<bool>, base: int)
    requires
        0 <= base,
        base + 362 <= bits.len(),
        p.decodes(bits, base),
    ensures
        p.encode() == bits.subrange(base, base + 362),
{
    lemma2_to64();
    let w = seq![p.valid];
    assert(w =~= bits.subrange(base, base + 1));
    lemma_field(bits, base + 1, base + 8);
    lemma_join(bits, base, base + 1, base + 8);
    let w = w + le_bits(p.level as nat, 7);
    assert(w == bits.subrange(base, base + 8));
    lemma_field(bits, base + 8, base + 19);
    lemma_join(bits, base, base + 8, base + 19);
    let w = w + le_bits(p.id as nat, 11);
    assert(w == bits.subrange(base, base + 19));
    lemma_field(bits, base + 19, base + 27);
    lemma_join(bits, base, base + 19, base + 27);
    let w = w + le_bits(p.met_at as nat, 8);
    assert(w == bits.subrange(base, base + 27));
    lemma_field(bits, base + 27, base + 34);
    lemma_join(bits, base, base + 27, base + 34);
    let w = w + le_bits(p.met_floor as nat, 7);
    assert(w == bits.subrange(base, base + 34));
    assert(seq![p.unknown] =~= bits.subrange(base + 34, base + 35));
    lemma_join(bits, base, base + 34, base + 35);
    let w = w + seq![p.unknown];
    assert(w == bits.subrange(base, base + 35));
    lemma_field(bits, base + 35, base + 42);
    lemma_join(bits, base, base + 35, base + 42);
    let w = w + le_bits(p.evolved_at_1 as nat, 7);
    assert(w == bits.subrange(base, base + 42));
    lemma_field(bits, base + 42, base + 49);
    lemma_join(bits, base, base + 42, base + 49);
    let w = w + le_bits(p.evolved_at_2 as nat, 7);
    assert(w == bits.subrange(base, base + 49));
    lemma_field(bits, base + 49, base + 59);
    lemma_join(bits, base, base + 49, base + 59);
    let w = w + le_bits(p.iq as nat, 10);
    assert(w == bits.subrange(base, base + 59));
    lemma_field(bits, base + 59, base + 69);
    lemma_join(bits, base, base + 59, base + 69);
    let w = w + le_bits(p.hp as nat, 10);
    assert(w == bits.subrange(base, base + 69));
    lemma_field(bits, base + 69, base + 77);
    lemma_join(bits, base, base + 69, base + 77);
    let w = w + le_bits(p.attack as nat, 8);
    assert(w == bits.subrange(base, base + 77));
    lemma_field(bits, base + 77, base + 85);
    lemma_join(bits, base, base + 77, base + 85);
    let w = w + le_bits(p.sp_attack as nat, 8);
    assert(w == bits.subrange(base, base + 85));
    lemma_field(bits, base + 85, base + 93);
    lemma_join(bits, base, base + 85, base + 93);
    let w = w + le_bits(p.defense as nat, 8);
    assert(w == bits.subrange(base, base + 93));
    lemma_field(bits, base + 93, base + 101);
    lemma_join(bits, base, base + 93, base + 101);
    let w = w + le_bits(p.sp_defense as nat, 8);
    assert(w == bits.subrange(base, base + 101));
    lemma_field(bits, base + 101, base + 125);
    lemma_join(bits, base, base + 101, base + 125);
    let w = w + le_bits(p.exp as nat, 24);
    assert(w == bits.subrange(base, base + 125));
    lemma_join(bits, base, base + 125, base + 194);
    let w = w + p.iq_map@;
    assert(w == bits.subrange(base, base + 194));
    lemma_field(bits, base + 194, base + 198);
    lemma_join(bits, base, base + 194, base + 198);
    let w = w + le_bits(p.tactic as nat, 4);
    assert(w == bits.subrange(base, base + 198));
    lemma_stored_move_round_trip(bits, base + 198);
    lemma_join(bits, base, base + 198, base + 219);
    let w = w + p.move_1.encode();
    assert(w == bits.subrange(base, base + 219));
    lemma_stored_move_round_trip(bits, base + 219);
    lemma_join(bits, base, base + 219, base + 240);
    let w = w + p.move_2.encode();
    assert(w == bits.subrange(base, base + 240));
    lemma_stored_move_round_trip(bits, base + 240);
    lemma_join(bits, base, base + 240, base + 261);
    let w = w + p.move_3.encode();
    assert(w == bits.subrange(base, base + 261));
    lemma_stored_move_round_trip(bits, base + 261);
    lemma_join(bits, base, base + 261, base + 282);
    let w = w + p.move_4.encode();
    assert(w == bits.subrange(base, base + 282));
    lemma_save_bytes_of_decoded(bytes_of(bits.subrange(base + 282, base + 362)));
    lemma_bits_of_bytes_of(bits.subrange(base + 282, base + 362));
    lemma_join(bits, base, base + 282, base + 362);
    let w = w + bits_of(save_bytes(p.name@));
    assert(w == bits.subrange(base, base + 362));
    assert(p.encode() == w);
}

/// A stored creature is written as 362 bits.
pub proof fn lemma_stored_encode_len(p: StoredPokemon)
    ensures
        p.encode().len() == 362,
{
    lemma_le_bits_len(p.level as nat, 7);
    lemma_le_bits_len(p.id as nat, 11);
    lemma_le_bits_len(p.met_at as nat, 8);
    lemma_le_bits_len(p.met_floor as nat, 7);
    lemma_le_bits_len(p.evolved_at_1 as nat, 7);
    lemma_le_bits_len(p.evolved_at_2 as nat, 7);
    lemma_le_bits_len(p.iq as nat, 10);
    lemma_le_bits_len(p.hp as nat, 10);
    lemma_le_bits_len(p.attack as nat, 8);
    lemma_le_bits_len(p.sp_attack as nat, 8);
    lemma_le_bits_len(p.defense as nat, 8);
    lemma_le_bits_len(p.sp_defense as nat, 8);
    lemma_le_bits_len(p.exp as nat, 24);
    lemma_le_bits_len(p.tactic as nat, 4);
    lemma_stored_move_encode_len(p.move_1);
    lemma_stored_move_encode_len(p.move_2);
    lemma_stored_move_encode_len(p.move_3);
    lemma_stored_move_encode_len(p.move_4);
}

/// A move of a stored creature is written as 21 bits.
pub proof fn lemma_stored_move_encode_len(m: StoredMove)
    ensures
        m.encode().len() == 21,
{
    lemma_le_bits_len(m.id as nat, 10);
    lemma_le_bits_len(m.power_boost as nat, 7);
}

/// The bits of stored creatures, one record after the other.
pub open spec fn stored_bits(records: Seq<StoredPokemon>) -> Seq<bool>
    decreases records.len(),
{
    if records.len() == 0 {
        Seq::empty()
    } else {
        stored_bits(records.drop_last()) + records.last().encode()
    }
}

/// Stored creatures are written as 362 bits each.
pub proof fn lemma_stored_bits_len(records: Seq<StoredPokemon>)
    ensures
        stored_bits(records).len() == 362 * records.len(),
    decreases records.len(),
{
    if records.len() > 0 {
        lemma_stored_bits_len(records.drop_last());
        lemma_stored_encode_len(records.last());
    }
}

/// Reading stored creatures one record after the other and writing them
/// back gives the bits they were read from.
pub proof fn lemma_stored_bits_round_trip(records: Seq<StoredPokemon>, bits: Seq<bool>, base: int)
    requires
        0 <= base,
        base + 362 * records.len() <= bits.len(),
        forall|i: int| 0 <= i < records.len() ==> (#[trigger] records[i]).decodes(bits, base + 362 * i),
    ensures
        stored_bits(records) == bits.subrange(base, base + 362 * records.len()),
    decreases records.len(),
{
    if records.len() == 0 {
        assert(stored_bits(records) =~= bits.subrange(base, base));
    } else {
        let n = records.len() - 1;
        let front = records.drop_last();
        assert forall|i: int| 0 <= i < front.len() implies (#[trigger] front[i]).decodes(
            bits,
            base + 362 * i,
        ) by {
            assert(front[i] == records[i]);
        }
        lemma_stored_bits_round_trip(front, bits, base);
        assert(records.last() == records[n]);
        lemma_stored_round_trip(records[n], bits, base + 362 * n);
        lemma_join(bits, base, base + 362 * n, base + 362 * (n + 1));
    }
}

/// Two moves whose fields fit and that are written as the same bits are the
/// same move.
pub proof fn lemma_stored_move_same_bits(a: StoredMove, b: StoredMove)
    requires
        a.fits(),
        b.fits(),
        a.encode() == b.encode(),
    ensures
        a == b,
{
    lemma2_to64();
    let a0 = seq![a.valid, a.linked, a.switched, a.set];
    let b0 = seq![b.valid, b.linked, b.switched, b.set];
    let a1 = a0 + le_bits(a.id as nat, 10);
    let b1 = b0 + le_bits(b.id as nat, 10);
    lemma_le_bits_len(a.id as nat, 10);
    lemma_le_bits_len(b.id as nat, 10);
    let a2 = a1 + le_bits(a.power_boost as nat, 7);
    let b2 = b1 + le_bits(b.power_boost as nat, 7);
    lemma_le_bits_len(a.power_boost as nat, 7);
    lemma_le_bits_len(b.power_boost as nat, 7);
    lemma_concat_split(a1, le_bits(a.power_boost as nat, 7), b1, le_bits(b.power_boost as nat, 7));
    lemma_le_bits_injective(a.power_boost as nat, b.power_boost as nat, 7);
    lemma_concat_split(a0, le_bits(a.id as nat, 10), b0, le_bits(b.id as nat, 10));
    lemma_le_bits_injective(a.id as nat, b.id as nat, 10);
    assert(a0[0] == b0[0]);
    assert(a0[1] == b0[1]);
    assert(a0[2] == b0[2]);
    assert(a0[3] == b0[3]);
}

impl StoredPokemon {
    /// The creature is what is read back where `written` was written: every
    /// field is the same, and the name is the ten characters of the bytes
    /// kept for the name of `written`.
    pub open spec fn reads_back(&self, written: &StoredPokemon) -> bool {
        &&& self.valid == written.valid
        &&& self.level == written.level
        &&& self.id == written.id
        &&& self.met_at == written.met_at
        &&& self.met_floor == written.met_floor
        &&& self.unknown == written.unknown
        &&& self.evolved_at_1 == written.evolved_at_1
        &&& self.evolved_at_2 == written.evolved_at_2
        &&& self.iq == written.iq
        &&& self.hp == written.hp
        &&& self.attack == written.attack
        &&& self.sp_attack == written.sp_attack
        &&& self.defense == written.defense
        &&& self.sp_defense == written.sp_defense
        &&& self.exp == written.exp
        &&& self.iq_map@ == written.iq_map@
        &&& self.tactic == written.tactic
        &&& self.move_1 == written.move_1
        &&& self.move_2 == written.move_2
        &&& self.move_3 == written.move_3
        &&& self.move_4 == written.move_4
        &&& self.name@ == decode_string(save_bytes(written.name@))
    }
}

/// What is read from bits fits the bits it was read from.
pub proof fn lemma_stored_decoded_fits(t: StoredPokemon, bits: Seq<bool>, base: int)
    requires
        0 <= base,
        base + 362 <= bits.len(),
        t.decodes(bits, base),
    ensures
        t.fits(),
{
    lemma2_to64();
    lemma_field(bits, base + 1, base + 8);
    lemma_field(bits, base + 8, base + 19);
    lemma_field(bits, base + 27, base + 34);
    lemma_field(bits, base + 35, base + 42);
    lemma_field(bits, base + 42, base + 49);
    lemma_field(bits, base + 49, base + 59);
    lemma_field(bits, base + 59, base + 69);
    lemma_field(bits, base + 101, base + 125);
    lemma_field(bits, base + 194, base + 198);
    lemma_stored_move_round_trip(bits, base + 198);
    lemma_stored_move_round_trip(bits, base + 219);
    lemma_stored_move_round_trip(bits, base + 240);
    lemma_stored_move_round_trip(bits, base + 261);
}

/// Two creatures whose fields fit and that are written as the same bits have
/// the same fields, and the same ten bytes kept for their names.
pub proof fn lemma_stored_same_bits(p: StoredPokemon, t: StoredPokemon)
    requires
        p.fits(),
        t.fits(),
        p.encode() == t.encode(),
    ensures
        t.valid == p.valid,
        t.level == p.level,
        t.id == p.id,
        t.met_at == p.met_at,
        t.met_floor == p.met_floor,
        t.unknown == p.unknown,
        t.evolved_at_1 == p.evolved_at_1,
        t.evolved_at_2 == p.evolved_at_2,
        t.iq == p.iq,
        t.hp == p.hp,
        t.attack == p.attack,
        t.sp_attack == p.sp_attack,
        t.defense == p.defense,
        t.sp_defense == p.sp_defense,
        t.exp == p.exp,
        t.iq_map@ == p.iq_map@,
        t.tactic == p.tactic,
        t.move_1 == p.move_1,
        t.move_2 == p.move_2,
        t.move_3 == p.move_3,
        t.move_4 == p.move_4,
        save_bytes(t.name@) == save_bytes(p.name@),
{
    lemma2_to64();
    let p0 = seq![p.valid];
    let t0 = seq![t.valid];
    let p1 = p0 + le_bits(p.level as nat, 7);
    let t1 = t0 + le_bits(t.level as nat, 7);
    lemma_le_bits_len(p.level as nat, 7);
    lemma_le_bits_len(t.level as nat, 7);
    let p2 = p1 + le_bits(p.id as nat, 11);
    let t2 = t1 + le_bits(t.id as nat, 11);
    lemma_le_bits_len(p.id as nat, 11);
    lemma_le_bits_len(t.id as nat, 11);
    let p3 = p2 + le_bits(p.met_at as nat, 8);
    let t3 = t2 + le_bits(t.met_at as nat, 8);
    lemma_le_bits_len(p.met_at as nat, 8);
    lemma_le_bits_len(t.met_at as nat, 8);
    let p4 = p3 + le_bits(p.met_floor as nat, 7);
    let t4 = t3 + le_bits(t.met_floor as nat, 7);
    lemma_le_bits_len(p.met_floor as nat, 7);
    lemma_le_bits_len(t.met_floor as nat, 7);
    let p5 = p4 + seq![p.unknown];
    let t5 = t4 + seq![t.unknown];
    let p6 = p5 + le_bits(p.evolved_at_1 as nat, 7);
    let t6 = t5 + le_bits(t.evolved_at_1 as nat, 7);
    lemma_le_bits_len(p.evolved_at_1 as nat, 7);
    lemma_le_bits_len(t.evolved_at_1 as nat, 7);
    let p7 = p6 + le_bits(p.evolved_at_2 as nat, 7);
    let t7 = t6 + le_bits(t.evolved_at_2 as nat, 7);
    lemma_le_bits_len(p.evolved_at_2 as nat, 7);
    lemma_le_bits_len(t.evolved_at_2 as nat, 7);
    let p8 = p7 + le_bits(p.iq as nat, 10);
    let t8 = t7 + le_bits(t.iq as nat, 10);
    lemma_le_bits_len(p.iq as nat, 10);
    lemma_le_bits_len(t.iq as nat, 10);
    let p9 = p8 + le_bits(p.hp as nat, 10);
    let t9 = t8 + le_bits(t.hp as nat, 10);
    lemma_le_bits_len(p.hp as nat, 10);
    lemma_le_bits_len(t.hp as nat, 10);
    let p10 = p9 + le_bits(p.attack as nat, 8);
    let t10 = t9 + le_bits(t.attack as nat, 8);
    lemma_le_bits_len(p.attack as nat, 8);
    lemma_le_bits_len(t.attack as nat, 8);
    let p11 = p10 + le_bits(p.sp_attack as nat, 8);
    let t11 = t10 + le_bits(t.sp_attack as nat, 8);
    lemma_le_bits_len(p.sp_attack as nat, 8);
    lemma_le_bits_len(t.sp_attack as nat, 8);
    let p12 = p11 + le_bits(p.defense as nat, 8);
    let t12 = t11 + le_bits(t.defense as nat, 8);
    lemma_le_bits_len(p.defense as nat, 8);
    lemma_le_bits_len(t.defense as nat, 8);
    let p13 = p12 + le_bits(p.sp_defense as nat, 8);
    let t13 = t12 + le_bits(t.sp_defense as nat, 8);
    lemma_le_bits_len(p.sp_defense as nat, 8);
    lemma_le_bits_len(t.sp_defense as nat, 8);
    let p14 = p13 + le_bits(p.exp as nat, 24);
    let t14 = t13 + le_bits(t.exp as nat, 24);
    lemma_le_bits_len(p.exp as nat, 24);
    lemma_le_bits_len(t.exp as nat, 24);
    let p15 = p14 + p.iq_map@;
    let t15 = t14 + t.iq_map@;
    let p16 = p15 + le_bits(p.tactic as nat, 4);
    let t16 = t15 + le_bits(t.tactic as nat, 4);
    lemma_le_bits_len(p.tactic as nat, 4);
    lemma_le_bits_len(t.tactic as nat, 4);
    let p17 = p16 + p.move_1.encode();
    let t17 = t16 + t.move_1.encode();
    lemma_stored_move_encode_len(p.move_1);
    lemma_stored_move_encode_len(t.move_1);
    let p18 = p17 + p.move_2.encode();
    let t18 = t17 + t.move_2.encode();
    lemma_stored_move_encode_len(p.move_2);
    lemma_stored_move_encode_len(t.move_2);
    let p19 = p18 + p.move_3.encode();
    let t19 = t18 + t.move_3.encode();
    lemma_stored_move_encode_len(p.move_3);
    lemma_stored_move_encode_len(t.move_3);
    let p20 = p19 + p.move_4.encode();
    let t20 = t19 + t.move_4.encode();
    lemma_stored_move_encode_len(p.move_4);
    lemma_stored_move_encode_len(t.move_4);
    let p21 = p20 + bits_of(save_bytes(p.name@));
    let t21 = t20 + bits_of(save_bytes(t.name@));
    assert(p21 == p.encode());
    assert(t21 == t.encode());
    lemma_concat_split(p20, bits_of(save_bytes(p.name@)), t20, bits_of(save_bytes(t.name@)));
    lemma_bits_of_injective(save_bytes(p.name@), save_bytes(t.name@));
    lemma_concat_split(p19, p.move_4.encode(), t19, t.move_4.encode());
    lemma_stored_move_same_bits(p.move_4, t.move_4);
    lemma_concat_split(p18, p.move_3.encode(), t18, t.move_3.encode());
    lemma_stored_move_same_bits(p.move_3, t.move_3);
    lemma_concat_split(p17, p.move_2.encode(), t17, t.move_2.encode());
    lemma_stored_move_same_bits(p.move_2, t.move_2);
    lemma_concat_split(p16, p.move_1.encode(), t16, t.move_1.encode());
    lemma_stored_move_same_bits(p.move_1, t.move_1);
    lemma_concat_split(p15, le_bits(p.tactic as nat, 4), t15, le_bits(t.tactic as nat, 4));
    lemma_le_bits_injective(p.tactic as nat, t.tactic as nat, 4);
    lemma_concat_split(p14, p.iq_map@, t14, t.iq_map@);
    lemma_concat_split(p13, le_bits(p.exp as nat, 24), t13, le_bits(t.exp as nat, 24));
    lemma_le_bits_injective(p.exp as nat, t.exp as nat, 24);
    lemma_concat_split(p12, le_bits(p.sp_defense as nat, 8), t12, le_bits(t.sp_defense as nat, 8));
    lemma_le_bits_injective(p.sp_defense as nat, t.sp_defense as nat, 8);
    lemma_concat_split(p11, le_bits(p.defense as nat, 8), t11, le_bits(t.defense as nat, 8));
    lemma_le_bits_injective(p.defense as nat, t.defense as nat, 8);
    lemma_concat_split(p10, le_bits(p.sp_attack as nat, 8), t10, le_bits(t.sp_attack as nat, 8));
    lemma_le_bits_injective(p.sp_attack as nat, t.sp_attack as nat, 8);
    lemma_concat_split(p9, le_bits(p.attack as nat, 8), t9, le_bits(t.attack as nat, 8));
    lemma_le_bits_injective(p.attack as nat, t.attack as nat, 8);
    lemma_concat_split(p8, le_bits(p.hp as nat, 10), t8, le_bits(t.hp as nat, 10));
    lemma_le_bits_injective(p.hp as nat, t.hp as nat, 10);
    lemma_concat_split(p7, le_bits(p.iq as nat, 10), t7, le_bits(t.iq as nat, 10));
    lemma_le_bits_injective(p.iq as nat, t.iq as nat, 10);
    lemma_concat_split(p6, le_bits(p.evolved_at_2 as nat, 7), t6, le_bits(t.evolved_at_2 as nat, 7));
    lemma_le_bits_injective(p.evolved_at_2 as nat, t.evolved_at_2 as nat, 7);
    lemma_concat_split(p5, le_bits(p.evolved_at_1 as nat, 7), t5, le_bits(t.evolved_at_1 as nat, 7));
    lemma_le_bits_injective(p.evolved_at_1 as nat, t.evolved_at_1 as nat, 7);
    lemma_concat_split(p4, seq![p.unknown], t4, seq![t.unknown]);
    assert(seq![p.unknown][0] == seq![t.unknown][0]);
    lemma_concat_split(p3, le_bits(p.met_floor as nat, 7), t3, le_bits(t.met_floor as nat, 7));
    lemma_le_bits_injective(p.met_floor as nat, t.met_floor as nat, 7);
    lemma_concat_split(p2, le_bits(p.met_at as nat, 8), t2, le_bits(t.met_at as nat, 8));
    lemma_le_bits_injective(p.met_at as nat, t.met_at as nat, 8);
    lemma_concat_split(p1, le_bits(p.id as nat, 11), t1, le_bits(t.id as nat, 11));
    lemma_le_bits_injective(p.id as nat, t.id as nat, 11);
    lemma_concat_split(p0, le_bits(p.level as nat, 7), t0, le_bits(t.level as nat, 7));
    lemma_le_bits_injective(p.level as nat, t.level as nat, 7);
    assert(p0[0] == t0[0]);
}

/// What is read from the bits that a creature whose fields fit was written
/// as is that creature.
pub proof fn lemma_stored_read_back(p: StoredPokemon, t: StoredPokemon, bits: Seq<bool>, base: int)
    requires
        0 <= base,
        base + 362 <= bits.len(),
        p.fits(),
        bits.subrange(base, base + 362) == p.encode(),
        t.decodes(bits, base),
    ensures
        t.reads_back(&p),
{
    lemma_stored_decoded_fits(t, bits, base);
    lemma_stored_round_trip(t, bits, base);
    lemma_stored_same_bits(p, t);
    lemma_save_bytes_of_decoded(bytes_of(bits.subrange(base + 282, base + 362)));
}

/// The bits of the creature at `index` among the bits of all.
pub proof fn lemma_stored_bits_at(records: Seq<StoredPokemon>, index: int)
    requires
        0 <= index < records.len(),
    ensures
        stored_bits(records).subrange(362 * index, 362 * index + 362) == records[index].encode(),
    decreases records.len(),
{
    let front = records.drop_last();
    let last = records.last();
    lemma_stored_bits_len(front);
    lemma_stored_encode_len(last);
    if index == records.len() - 1 {
        assert(stored_bits(records).subrange(362 * index, 362 * index + 362) =~= last.encode());
    } else {
        lemma_stored_bits_at(front, index);
        assert(front[index] == records[index]);
        assert(stored_bits(records).subrange(362 * index, 362 * index + 362) =~= stored_bits(front).subrange(
            362 * index,
            362 * index + 362,
        ));
    }
}

} // verus!
