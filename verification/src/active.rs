//! The creatures of the active party: 546 bits each, with four moves of 29
//! bits.

use crate::bits::{
    bits_of, bytes_of, fill_bit, fill_bits, fill_u128, fill_uint, filled, le_bits,
    lemma_bits_of_bytes_of, lemma_bits_of_injective, lemma_concat_split, lemma_field, lemma_join,
    lemma_le_bits_injective, lemma_le_bits_len, load_bit, load_u128_le, load_uint_le, max_buf_len,
    uint_at, zeroed, zeros,
};
use crate::encoding::{PmdString, decode_string, lemma_save_bytes_of_decoded, save_bytes};
use crate::offsets::active::{moves, pokemon};
use crate::stored::{IqMapBits, fill_iq_map, read_iq_map};
use vstd::arithmetic::power2::lemma2_to64;
use vstd::arithmetic::power2::pow2;
use vstd::prelude::*;

verus! {

/// One of the four moves of an active creature.
#[derive(Debug, Clone, Copy, PartialEq, Eq, Structural)]
pub struct ActiveMove {
    pub valid: bool,
    pub linked: bool,
    pub switched: bool,
    pub set: bool,
    pub sealed: bool,
    /// Ten bits in the save.
    pub id: u16,
    /// Seven bits in the save.
    pub pp: u8,
    /// Seven bits in the save.
    pub power_boost: u8,
}

impl ActiveMove {
    /// The move in the 29 bits of `bits` from `base` on.
    pub open spec fn decode(bits: Seq<bool>, base: int) -> ActiveMove {
        ActiveMove {
            valid: bits[base + moves::VALID],
            linked: bits[base + moves::LINKED],
            switched: bits[base + moves::SWITCHED],
            set: bits[base + moves::SET],
            sealed: bits[base + moves::SEALED],
            id: uint_at(bits, base + moves::ID.start, base + moves::ID.end) as u16,
            pp: uint_at(bits, base + moves::PP.start, base + moves::PP.end) as u8,
            power_boost: uint_at(
                bits,
                base + moves::POWER_BOOST.start,
                base + moves::POWER_BOOST.end,
            ) as u8,
        }
    }

    /// The 29 bits of the move: the five flags, then the low ten bits of the
    /// id and the low seven of the power points and of the power boost.
    pub open spec fn encode(self) -> Seq<bool> {
        seq![self.valid, self.linked, self.switched, self.set, self.sealed] + le_bits(
            self.id as nat,
            10,
        ) + le_bits(self.pp as nat, 7) + le_bits(self.power_boost as nat, 7)
    }

    /// Every field fits the bits that the save has for it.
    pub open spec fn fits(self) -> bool {
        self.id < 0x400 && self.pp < 0x80 && self.power_boost < 0x80
    }

    /// Reads the move in the 29 bits of `data` from bit `offset` on.
    pub fn from_bitslice(data: &[u8], offset: usize) -> (r: Self)
        requires
            data@.len() <= max_buf_len(),
            offset + 29 <= 8 * data@.len(),
        ensures
            r == ActiveMove::decode(bits_of(data@), offset as int),
            r.fits(),
    {
        proof {
            lemma2_to64();
        }
        ActiveMove {
            valid: load_bit(data, offset + moves::VALID),
            linked: load_bit(data, offset + moves::LINKED),
            switched: load_bit(data, offset + moves::SWITCHED),
            set: load_bit(data, offset + moves::SET),
            sealed: load_bit(data, offset + moves::SEALED),
            id: load_uint_le(data, offset + moves::ID.start, offset + moves::ID.end) as u16,
            pp: load_uint_le(data, offset + moves::PP.start, offset + moves::PP.end) as u8,
            power_boost: load_uint_le(
                data,
                offset + moves::POWER_BOOST.start,
                offset + moves::POWER_BOOST.end,
            ) as u8,
        }
    }

    /// Writes the move as 29 bits, in four bytes whose last three bits are
    /// clear.
    pub fn to_bitvec(&self) -> (r: Vec<u8>)
        ensures
            r@.len() == 4,
            bits_of(r@) == self.encode() + zeros(3),
            bits_of(r@).subrange(0, 29) == self.encode(),
    {
        let mut bits = zeroed(4);
        let ghost empty = Seq::<bool>::empty();
        assert(filled(bits@, empty)) by {
            assert(bits_of(bits@) =~= empty + zeros(32));
        }
        fill_bit(&mut bits, Ghost(empty), moves::VALID, self.valid);
        let ghost w1 = seq![self.valid];
        assert(empty + seq![self.valid] =~= w1);
        fill_bit(&mut bits, Ghost(w1), moves::LINKED, self.linked);
        let ghost w2 = w1 + seq![self.linked];
        fill_bit(&mut bits, Ghost(w2), moves::SWITCHED, self.switched);
        let ghost w3 = w2 + seq![self.switched];
        fill_bit(&mut bits, Ghost(w3), moves::SET, self.set);
        let ghost w4 = w3 + seq![self.set];
        fill_bit(&mut bits, Ghost(w4), moves::SEALED, self.sealed);
        let ghost w5 = w4 + seq![self.sealed];
        fill_uint(&mut bits, Ghost(w5), moves::ID.start, moves::ID.end, self.id as u64);
        let ghost w6 = w5 + le_bits(self.id as nat, 10);
        fill_uint(&mut bits, Ghost(w6), moves::PP.start, moves::PP.end, self.pp as u64);
        let ghost w7 = w6 + le_bits(self.pp as nat, 7);
        fill_uint(
            &mut bits,
            Ghost(w7),
            moves::POWER_BOOST.start,
            moves::POWER_BOOST.end,
            self.power_boost as u64,
        );
        proof {
            assert(w5 =~= seq![self.valid, self.linked, self.switched, self.set, self.sealed]);
            assert(bits_of(bits@).subrange(0, 29) =~= self.encode());
        }
        bits
    }
}

impl ActiveMove {
    /// Whether the slot holds a move.
    pub fn valid(&self) -> (r: bool)
        ensures
            r == self.valid,
    {
        self.valid
    }

    /// Whether the move is linked to the one before it.
    pub fn linked(&self) -> (r: bool)
        ensures
            r == self.linked,
    {
        self.linked
    }

    /// Whether the move is switched on.
    pub fn switched(&self) -> (r: bool)
        ensures
            r == self.switched,
    {
        self.switched
    }

    /// Whether the move is the set move.
    pub fn set(&self) -> (r: bool)
        ensures
            r == self.set,
    {
        self.set
    }

    /// Whether the move is sealed.
    pub fn sealed(&self) -> (r: bool)
        ensures
            r == self.sealed,
    {
        self.sealed
    }

    /// Which move it is.
    pub fn id(&self) -> (r: u16)
        ensures
            r == self.id,
    {
        self.id
    }

    /// The power points left.
    pub fn pp(&self) -> (r: u8)
        ensures
            r == self.pp,
    {
        self.pp
    }

    /// By how much the move was made stronger.
    pub fn power_boost(&self) -> (r: u8)
        ensures
            r == self.power_boost,
    {
        self.power_boost
    }
}

/// Reading a move and writing it back gives the bits it was read from.
pub proof fn lemma_active_move_round_trip(bits: Seq<bool>, base: int)
    requires
        0 <= base,
        base + 29 <= bits.len(),
    ensures
        ActiveMove::decode(bits, base).encode() == bits.subrange(base, base + 29),
        ActiveMove::decode(bits, base).fits(),
{
    lemma2_to64();
    lemma_field(bits, base + 5, base + 15);
    lemma_field(bits, base + 15, base + 22);
    lemma_field(bits, base + 22, base + 29);
    assert(ActiveMove::decode(bits, base).encode() =~= bits.subrange(base, base + 29));
}

/// Writing a move whose fields fit and reading it back gives the move.
pub proof fn lemma_active_move_decode_encode(m: ActiveMove, before: Seq<bool>, after: Seq<bool>)
    requires
        m.fits(),
    ensures
        ActiveMove::decode(before + m.encode() + after, before.len() as int) == m,
{
    let bits = before + m.encode() + after;
    let base = before.len() as int;
    lemma2_to64();
    crate::bits::lemma_le_value_of_bits(m.id as nat, 10);
    crate::bits::lemma_le_value_of_bits(m.pp as nat, 7);
    crate::bits::lemma_le_value_of_bits(m.power_boost as nat, 7);
    assert(bits.subrange(base + 5, base + 15) =~= le_bits(m.id as nat, 10));
    assert(bits.subrange(base + 15, base + 22) =~= le_bits(m.pp as nat, 7));
    assert(bits.subrange(base + 22, base + 29) =~= le_bits(m.power_boost as nat, 7));
    vstd::arithmetic::div_mod::lemma_small_mod(m.id as nat, 0x400);
    vstd::arithmetic::div_mod::lemma_small_mod(m.pp as nat, 0x80);
    vstd::arithmetic::div_mod::lemma_small_mod(m.power_boost as nat, 0x80);
}

/// A creature of the active party.
#[derive(Debug)]
pub struct ActivePokemon {
    pub valid: bool,
    /// Four bits of unknown meaning, kept as they are.
    pub unknown_1: u8,
    /// Seven bits in the save.
    pub level: u8,
    pub met_at: u8,
    /// Seven bits in the save.
    pub met_floor: u8,
    /// A bit of unknown meaning, kept as it is.
    pub unknown_2: bool,
    /// Ten bits in the save.
    pub iq: u16,
    /// Ten bits in the save.
    pub roaster_number: u16,
    /// Twenty-two bits of unknown meaning, kept as they are.
    pub unknown_3: u32,
    /// Eleven bits in the save.
    pub id: u16,
    /// Ten bits in the save.
    pub current_hp: u16,
    /// Ten bits in the save.
    pub max_hp: u16,
    pub attack: u8,
    pub sp_attack: u8,
    pub defense: u8,
    pub sp_defense: u8,
    /// Twenty-four bits in the save.
    pub exp: u32,
    pub move_1: ActiveMove,
    pub move_2: ActiveMove,
    pub move_3: ActiveMove,
    pub move_4: ActiveMove,
    /// 105 bits of unknown meaning, kept as they are.
    pub unknown_4: u128,
    pub iq_map: IqMapBits,
    /// Four bits in the save.
    pub tactic: u8,
    /// Fifteen bits of unknown meaning, kept as they are.
    pub unknown_5: u16,
    pub name: PmdString,
}

impl Clone for ActivePokemon {
    fn clone(&self) -> (r: Self)
        ensures
            r.valid == self.valid,
            r.unknown_1 == self.unknown_1,
            r.level == self.level,
            r.met_at == self.met_at,
            r.met_floor == self.met_floor,
            r.unknown_2 == self.unknown_2,
            r.iq == self.iq,
            r.roaster_number == self.roaster_number,
            r.unknown_3 == self.unknown_3,
            r.id == self.id,
            r.current_hp == self.current_hp,
            r.max_hp == self.max_hp,
            r.attack == self.attack,
            r.sp_attack == self.sp_attack,
            r.defense == self.defense,
            r.sp_defense == self.sp_defense,
            r.exp == self.exp,
            r.move_1 == self.move_1,
            r.move_2 == self.move_2,
            r.move_3 == self.move_3,
            r.move_4 == self.move_4,
            r.unknown_4 == self.unknown_4,
            r.iq_map@ == self.iq_map@,
            r.tactic == self.tactic,
            r.unknown_5 == self.unknown_5,
            r.name@ == self.name@,
    {
        ActivePokemon {
            valid: self.valid,
            unknown_1: self.unknown_1,
            level: self.level,
            met_at: self.met_at,
            met_floor: self.met_floor,
            unknown_2: self.unknown_2,
            iq: self.iq,
            roaster_number: self.roaster_number,
            unknown_3: self.unknown_3,
            id: self.id,
            current_hp: self.current_hp,
            max_hp: self.max_hp,
            attack: self.attack,
            sp_attack: self.sp_attack,
            defense: self.defense,
            sp_defense: self.sp_defense,
            exp: self.exp,
            move_1: self.move_1,
            move_2: self.move_2,
            move_3: self.move_3,
            move_4: self.move_4,
            unknown_4: self.unknown_4,
            iq_map: self.iq_map,
            tactic: self.tactic,
            unknown_5: self.unknown_5,
            name: self.name.clone(),
        }
    }
}

impl ActivePokemon {
    /// The creature is the one in the 546 bits of `bits` from `base` on.
    pub open spec fn decodes(&self, bits: Seq<bool>, base: int) -> bool {
        &&& self.valid == bits[base + pokemon::VALID]
        &&& self.unknown_1 == uint_at(bits, base + pokemon::UNKNOWN_1.start, base + pokemon::UNKNOWN_1.end)
        &&& self.level == uint_at(bits, base + pokemon::LEVEL.start, base + pokemon::LEVEL.end)
        &&& self.met_at == uint_at(bits, base + pokemon::MET_AT.start, base + pokemon::MET_AT.end)
        &&& self.met_floor == uint_at(bits, base + pokemon::MET_FLOOR.start, base + pokemon::MET_FLOOR.end)
        &&& self.unknown_2 == bits[base + pokemon::UNKNOWN_2]
        &&& self.iq == uint_at(bits, base + pokemon::IQ.start, base + pokemon::IQ.end)
        &&& self.roaster_number == uint_at(bits, base + pokemon::ROASTER_NUMBER.start, base + pokemon::ROASTER_NUMBER.end)
        &&& self.unknown_3 == uint_at(bits, base + pokemon::UNKNOWN_3.start, base + pokemon::UNKNOWN_3.end)
        &&& self.id == uint_at(bits, base + pokemon::ID.start, base + pokemon::ID.end)
        &&& self.current_hp == uint_at(bits, base + pokemon::CURRENT_HP.start, base + pokemon::CURRENT_HP.end)
        &&& self.max_hp == uint_at(bits, base + pokemon::MAX_HP.start, base + pokemon::MAX_HP.end)
        &&& self.attack == uint_at(bits, base + pokemon::ATTACK.start, base + pokemon::ATTACK.end)
        &&& self.sp_attack == uint_at(bits, base + pokemon::SP_ATTACK.start, base + pokemon::SP_ATTACK.end)
        &&& self.defense == uint_at(bits, base + pokemon::DEFENSE.start, base + pokemon::DEFENSE.end)
        &&& self.sp_defense == uint_at(bits, base + pokemon::SP_DEFENSE.start, base + pokemon::SP_DEFENSE.end)
        &&& self.exp == uint_at(bits, base + pokemon::EXP.start, base + pokemon::EXP.end)
        &&& self.move_1 == ActiveMove::decode(bits, base + pokemon::MOVE_1.start)
        &&& self.move_2 == ActiveMove::decode(bits, base + pokemon::MOVE_2.start)
        &&& self.move_3 == ActiveMove::decode(bits, base + pokemon::MOVE_3.start)
        &&& self.move_4 == ActiveMove::decode(bits, base + pokemon::MOVE_4.start)
        &&& self.unknown_4 == uint_at(bits, base + pokemon::UNKNOWN_4.start, base + pokemon::UNKNOWN_4.end)
        &&& self.iq_map@ == bits.subrange(base + pokemon::IQ_MAP.start, base + pokemon::IQ_MAP.end)
        &&& self.tactic == uint_at(bits, base + pokemon::TACTIC.start, base + pokemon::TACTIC.end)
        &&& self.unknown_5 == uint_at(bits, base + pokemon::UNKNOWN_5.start, base + pokemon::UNKNOWN_5.end)
        &&& self.name@ == decode_string(
            bytes_of(bits.subrange(base + pokemon::NAME.start, base + pokemon::NAME.end)),
        )
    }

    /// The 546 bits of the creature: its fields in the order of the save,
    /// each cut to the bits that the save has for it.
    pub open spec fn encode(&self) -> Seq<bool> {
        seq![self.valid]
            + le_bits(self.unknown_1 as nat, 4)
            + le_bits(self.level as nat, 7)
            + le_bits(self.met_at as nat, 8)
            + le_bits(self.met_floor as nat, 7)
            + seq![self.unknown_2]
            + le_bits(self.iq as nat, 10)
            + le_bits(self.roaster_number as nat, 10)
            + le_bits(self.unknown_3 as nat, 22)
            + le_bits(self.id as nat, 11)
            + le_bits(self.current_hp as nat, 10)
            + le_bits(self.max_hp as nat, 10)
            + le_bits(self.attack as nat, 8)
            + le_bits(self.sp_attack as nat, 8)
            + le_bits(self.defense as nat, 8)
            + le_bits(self.sp_defense as nat, 8)
            + le_bits(self.exp as nat, 24)
            + self.move_1.encode()
            + self.move_2.encode()
            + self.move_3.encode()
            + self.move_4.encode()
            + le_bits(self.unknown_4 as nat, 105)
            + self.iq_map@
            + le_bits(self.tactic as nat, 4)
            + le_bits(self.unknown_5 as nat, 15)
            + bits_of(save_bytes(self.name@))
    }

    /// Every field fits the bits that the save has for it.
    pub open spec fn fits(&self) -> bool {
        &&& self.unknown_1 < 0x10
        &&& self.level < 0x80
        &&& self.met_floor < 0x80
        &&& self.iq < 0x400
        &&& self.roaster_number < 0x400
        &&& self.unknown_3 < 0x400000
        &&& self.id < 0x800
        &&& self.current_hp < 0x400
        &&& self.max_hp < 0x400
        &&& self.exp < 0x1000000
        &&& self.move_1.fits()
        &&& self.move_2.fits()
        &&& self.move_3.fits()
        &&& self.move_4.fits()
        &&& self.unknown_4 < 0x200000000000000000000000000
        &&& self.tactic < 0x10
        &&& self.unknown_5 < 0x8000
    }

    /// Reads the creature in the 546 bits of `data` from bit `offset` on.
    pub fn from_bitslice(data: &[u8], offset: usize) -> (r: Self)
        requires
            data@.len() <= max_buf_len(),
            offset + 546 <= 8 * data@.len(),
        ensures
            r.decodes(bits_of(data@), offset as int),
            r.fits(),
    {
        proof {
            lemma2_to64();
            assert(pow2(105) == 0x200_0000_0000_0000_0000_0000_0000) by {
                vstd::arithmetic::power2::lemma2_to64_rest();
                vstd::arithmetic::power2::lemma_pow2_adds(64, 41);
            }
        }
        ActivePokemon {
            valid: load_bit(data, offset + pokemon::VALID),
            unknown_1: load_uint_le(data, offset + pokemon::UNKNOWN_1.start, offset + pokemon::UNKNOWN_1.end) as u8,
            level: load_uint_le(data, offset + pokemon::LEVEL.start, offset + pokemon::LEVEL.end) as u8,
            met_at: load_uint_le(data, offset + pokemon::MET_AT.start, offset + pokemon::MET_AT.end) as u8,
            met_floor: load_uint_le(data, offset + pokemon::MET_FLOOR.start, offset + pokemon::MET_FLOOR.end) as u8,
            unknown_2: load_bit(data, offset + pokemon::UNKNOWN_2),
            iq: load_uint_le(data, offset + pokemon::IQ.start, offset + pokemon::IQ.end) as u16,
            roaster_number: load_uint_le(data, offset + pokemon::ROASTER_NUMBER.start, offset + pokemon::ROASTER_NUMBER.end) as u16,
            unknown_3: load_uint_le(data, offset + pokemon::UNKNOWN_3.start, offset + pokemon::UNKNOWN_3.end) as u32,
            id: load_uint_le(data, offset + pokemon::ID.start, offset + pokemon::ID.end) as u16,
            current_hp: load_uint_le(data, offset + pokemon::CURRENT_HP.start, offset + pokemon::CURRENT_HP.end) as u16,
            max_hp: load_uint_le(data, offset + pokemon::MAX_HP.start, offset + pokemon::MAX_HP.end) as u16,
            attack: load_uint_le(data, offset + pokemon::ATTACK.start, offset + pokemon::ATTACK.end) as u8,
            sp_attack: load_uint_le(data, offset + pokemon::SP_ATTACK.start, offset + pokemon::SP_ATTACK.end) as u8,
            defense: load_uint_le(data, offset + pokemon::DEFENSE.start, offset + pokemon::DEFENSE.end) as u8,
            sp_defense: load_uint_le(data, offset + pokemon::SP_DEFENSE.start, offset + pokemon::SP_DEFENSE.end) as u8,
            exp: load_uint_le(data, offset + pokemon::EXP.start, offset + pokemon::EXP.end) as u32,
            move_1: ActiveMove::from_bitslice(data, offset + pokemon::MOVE_1.start),
            move_2: ActiveMove::from_bitslice(data, offset + pokemon::MOVE_2.start),
            move_3: ActiveMove::from_bitslice(data, offset + pokemon::MOVE_3.start),
            move_4: ActiveMove::from_bitslice(data, offset + pokemon::MOVE_4.start),
            unknown_4: load_u128_le(
                data,
                offset + pokemon::UNKNOWN_4.start,
                offset + pokemon::UNKNOWN_4.end,
            ),
            iq_map: read_iq_map(data, offset + pokemon::IQ_MAP.start),
            tactic: load_uint_le(data, offset + pokemon::TACTIC.start, offset + pokemon::TACTIC.end) as u8,
            unknown_5: load_uint_le(data, offset + pokemon::UNKNOWN_5.start, offset + pokemon::UNKNOWN_5.end) as u16,
            name: PmdString::from_bitslice(data, offset + pokemon::NAME.start),
        }
    }

    /// Writes the creature as 546 bits, in 69 bytes whose last six bits are
    /// clear.
    pub fn to_bitvec(&self) -> (r: Vec<u8>)
        ensures
            r@.len() == 69,
            bits_of(r@) == self.encode() + zeros(6),
            bits_of(r@).subrange(0, 546) == self.encode(),
    {
        proof {
            lemma2_to64();
        }
        let mut bits = zeroed(69);
        let ghost empty = Seq::<bool>::empty();
        assert(filled(bits@, empty)) by {
            assert(bits_of(bits@) =~= empty + zeros(552));
        }
        fill_bit(&mut bits, Ghost(empty), pokemon::VALID, self.valid);
        let ghost w = seq![self.valid];
        assert(empty + seq![self.valid] =~= w);
        fill_uint(&mut bits, Ghost(w), pokemon::UNKNOWN_1.start, pokemon::UNKNOWN_1.end, self.unknown_1 as u64);
        let ghost w = w + le_bits(self.unknown_1 as nat, 4);
        fill_uint(&mut bits, Ghost(w), pokemon::LEVEL.start, pokemon::LEVEL.end, self.level as u64);
        let ghost w = w + le_bits(self.level as nat, 7);
        fill_uint(&mut bits, Ghost(w), pokemon::MET_AT.start, pokemon::MET_AT.end, self.met_at as u64);
        let ghost w = w + le_bits(self.met_at as nat, 8);
        fill_uint(&mut bits, Ghost(w), pokemon::MET_FLOOR.start, pokemon::MET_FLOOR.end, self.met_floor as u64);
        let ghost w = w + le_bits(self.met_floor as nat, 7);
        fill_bit(&mut bits, Ghost(w), pokemon::UNKNOWN_2, self.unknown_2);
        let ghost w = w + seq![self.unknown_2];
        fill_uint(&mut bits, Ghost(w), pokemon::IQ.start, pokemon::IQ.end, self.iq as u64);
        let ghost w = w + le_bits(self.iq as nat, 10);
        fill_uint(&mut bits, Ghost(w), pokemon::ROASTER_NUMBER.start, pokemon::ROASTER_NUMBER.end, self.roaster_number as u64);
        let ghost w = w + le_bits(self.roaster_number as nat, 10);
        fill_uint(&mut bits, Ghost(w), pokemon::UNKNOWN_3.start, pokemon::UNKNOWN_3.end, self.unknown_3 as u64);
        let ghost w = w + le_bits(self.unknown_3 as nat, 22);
        fill_uint(&mut bits, Ghost(w), pokemon::ID.start, pokemon::ID.end, self.id as u64);
        let ghost w = w + le_bits(self.id as nat, 11);
        fill_uint(&mut bits, Ghost(w), pokemon::CURRENT_HP.start, pokemon::CURRENT_HP.end, self.current_hp as u64);
        let ghost w = w + le_bits(self.current_hp as nat, 10);
        fill_uint(&mut bits, Ghost(w), pokemon::MAX_HP.start, pokemon::MAX_HP.end, self.max_hp as u64);
        let ghost w = w + le_bits(self.max_hp as nat, 10);
        fill_uint(&mut bits, Ghost(w), pokemon::ATTACK.start, pokemon::ATTACK.end, self.attack as u64);
        let ghost w = w + le_bits(self.attack as nat, 8);
        fill_uint(&mut bits, Ghost(w), pokemon::SP_ATTACK.start, pokemon::SP_ATTACK.end, self.sp_attack as u64);
        let ghost w = w + le_bits(self.sp_attack as nat, 8);
        fill_uint(&mut bits, Ghost(w), pokemon::DEFENSE.start, pokemon::DEFENSE.end, self.defense as u64);
        let ghost w = w + le_bits(self.defense as nat, 8);
        fill_uint(&mut bits, Ghost(w), pokemon::SP_DEFENSE.start, pokemon::SP_DEFENSE.end, self.sp_defense as u64);
        let ghost w = w + le_bits(self.sp_defense as nat, 8);
        fill_uint(&mut bits, Ghost(w), pokemon::EXP.start, pokemon::EXP.end, self.exp as u64);
        let ghost w = w + le_bits(self.exp as nat, 24);
        let move_1 = self.move_1.to_bitvec();
        fill_bits(&mut bits, Ghost(w), pokemon::MOVE_1.start, pokemon::MOVE_1.end, move_1.as_slice());
        let ghost w = w + self.move_1.encode();
        let move_2 = self.move_2.to_bitvec();
        fill_bits(&mut bits, Ghost(w), pokemon::MOVE_2.start, pokemon::MOVE_2.end, move_2.as_slice());
        let ghost w = w + self.move_2.encode();
        let move_3 = self.move_3.to_bitvec();
        fill_bits(&mut bits, Ghost(w), pokemon::MOVE_3.start, pokemon::MOVE_3.end, move_3.as_slice());
        let ghost w = w + self.move_3.encode();
        let move_4 = self.move_4.to_bitvec();
        fill_bits(&mut bits, Ghost(w), pokemon::MOVE_4.start, pokemon::MOVE_4.end, move_4.as_slice());
        let ghost w = w + self.move_4.encode();
        fill_u128(
            &mut bits,
            Ghost(w),
            pokemon::UNKNOWN_4.start,
            pokemon::UNKNOWN_4.end,
            self.unknown_4,
        );
        let ghost w = w + le_bits(self.unknown_4 as nat, 105);
        fill_iq_map(&mut bits, Ghost(w), pokemon::IQ_MAP.start, &self.iq_map);
        let ghost w = w + self.iq_map@;
        fill_uint(&mut bits, Ghost(w), pokemon::TACTIC.start, pokemon::TACTIC.end, self.tactic as u64);
        let ghost w = w + le_bits(self.tactic as nat, 4);
        fill_uint(&mut bits, Ghost(w), pokemon::UNKNOWN_5.start, pokemon::UNKNOWN_5.end, self.unknown_5 as u64);
        let ghost w = w + le_bits(self.unknown_5 as nat, 15);
        let name = self.name.to_save_bytes();
        fill_bits(&mut bits, Ghost(w), pokemon::NAME.start, pokemon::NAME.end, name.as_slice());
        assert(bits_of(name@).subrange(0, 80) =~= bits_of(save_bytes(self.name@)));
        proof {
            lemma_active_encode_len(*self);
            assert(bits_of(bits@).subrange(0, 546) =~= self.encode());
        }
        bits
    }
}

impl ActivePokemon {
    /// Whether the slot holds a creature.
    pub fn valid(&self) -> (r: bool)
        ensures
            r == self.valid,
    {
        self.valid
    }

    /// The level.
    pub fn level(&self) -> (r: u8)
        ensures
            r == self.level,
    {
        self.level
    }

    /// The place where the creature was met.
    pub fn met_at(&self) -> (r: u8)
        ensures
            r == self.met_at,
    {
        self.met_at
    }

    /// The floor on which the creature was met.
    pub fn met_floor(&self) -> (r: u8)
        ensures
            r == self.met_floor,
    {
        self.met_floor
    }

    /// The IQ.
    pub fn iq(&self) -> (r: u16)
        ensures
            r == self.iq,
    {
        self.iq
    }

    /// The place in the roster.
    pub fn roaster_number(&self) -> (r: u16)
        ensures
            r == self.roaster_number,
    {
        self.roaster_number
    }

    /// Which kind of creature it is.
    pub fn id(&self) -> (r: u16)
        ensures
            r == self.id,
    {
        self.id
    }

    /// The hit points left.
    pub fn current_hp(&self) -> (r: u16)
        ensures
            r == self.current_hp,
    {
        self.current_hp
    }

    /// The hit points when unhurt.
    pub fn max_hp(&self) -> (r: u16)
        ensures
            r == self.max_hp,
    {
        self.max_hp
    }

    /// The attack.
    pub fn attack(&self) -> (r: u8)
        ensures
            r == self.attack,
    {
        self.attack
    }

    /// The special attack.
    pub fn sp_attack(&self) -> (r: u8)
        ensures
            r == self.sp_attack,
    {
        self.sp_attack
    }

    /// The defense.
    pub fn defense(&self) -> (r: u8)
        ensures
            r == self.defense,
    {
        self.defense
    }

    /// The special defense.
    pub fn sp_defense(&self) -> (r: u8)
        ensures
            r == self.sp_defense,
    {
        self.sp_defense
    }

    /// The experience points.
    pub fn exp(&self) -> (r: u32)
        ensures
            r == self.exp,
    {
        self.exp
    }

    /// The skills, each learnt or not.
    pub fn iq_map(&self) -> (r: IqMapBits)
        ensures
            r == self.iq_map,
    {
        self.iq_map
    }

    /// The tactic.
    pub fn tactic(&self) -> (r: u8)
        ensures
            r == self.tactic,
    {
        self.tactic
    }
}

impl ActivePokemon {
    /// The four moves.
    pub fn moves(&self) -> (r: [ActiveMove; 4])
        ensures
            r@ == seq![self.move_1, self.move_2, self.move_3, self.move_4],
    {
        let r = [self.move_1, self.move_2, self.move_3, self.move_4];
        assert(r@ =~= seq![self.move_1, self.move_2, self.move_3, self.move_4]);
        r
    }

    /// The name as the game shows it: up to the first zero byte.
    pub fn name(&self) -> (r: String)
        ensures
            r@ == crate::encoding::text_until_nul(self.name@),
    {
        self.name.to_string_until_nul()
    }
}

/// Reading an active creature and writing it back gives the bits it was read
/// from, those of unknown meaning too.
pub proof fn lemma_active_round_trip(p: ActivePokemon, bits: Seq<bool>, base: int)
    requires
        0 <= base,
        base + 546 <= bits.len(),
        p.decodes(bits, base),
    ensures
        p.encode() == bits.subrange(base, base + 546),
{
    lemma2_to64();
    let w = seq![p.valid];
    assert(w =~= bits.subrange(base, base + 1));
    lemma_field(bits, base + 1, base + 5);
    lemma_join(bits, base, base + 1, base + 5);
    let w = w + le_bits(p.unknown_1 as nat, 4);
    assert(w == bits.subrange(base, base + 5));
    lemma_field(bits, base + 5, base + 12);
    lemma_join(bits, base, base + 5, base + 12);
    let w = w + le_bits(p.level as nat, 7);
    assert(w == bits.subrange(base, base + 12));
    lemma_field(bits, base + 12, base + 20);
    lemma_join(bits, base, base + 12, base + 20);
    let w = w + le_bits(p.met_at as nat, 8);
    assert(w == bits.subrange(base, base + 20));
    lemma_field(bits, base + 20, base + 27);
    lemma_join(bits, base, base + 20, base + 27);
    let w = w + le_bits(p.met_floor as nat, 7);
    assert(w == bits.subrange(base, base + 27));
    assert(seq![p.unknown_2] =~= bits.subrange(base + 27, base + 28));
    lemma_join(bits, base, base + 27, base + 28);
    let w = w + seq![p.unknown_2];
    assert(w == bits.subrange(base, base + 28));
    lemma_field(bits, base + 28, base + 38);
    lemma_join(bits, base, base + 28, base + 38);
    let w = w + le_bits(p.iq as nat, 10);
    assert(w == bits.subrange(base, base + 38));
    lemma_field(bits, base + 38, base + 48);
    lemma_join(bits, base, base + 38, base + 48);
    let w = w + le_bits(p.roaster_number as nat, 10);
    assert(w == bits.subrange(base, base + 48));
    lemma_field(bits, base + 48, base + 70);
    lemma_join(bits, base, base + 48, base + 70);
    let w = w + le_bits(p.unknown_3 as nat, 22);
    assert(w == bits.subrange(base, base + 70));
    lemma_field(bits, base + 70, base + 81);
    lemma_join(bits, base, base + 70, base + 81);
    let w = w + le_bits(p.id as nat, 11);
    assert(w == bits.subrange(base, base + 81));
    lemma_field(bits, base + 81, base + 91);
    lemma_join(bits, base, base + 81, base + 91);
    let w = w + le_bits(p.current_hp as nat, 10);
    assert(w == bits.subrange(base, base + 91));
    lemma_field(bits, base + 91, base + 101);
    lemma_join(bits, base, base + 91, base + 101);
    let w = w + le_bits(p.max_hp as nat, 10);
    assert(w == bits.subrange(base, base + 101));
    lemma_field(bits, base + 101, base + 109);
    lemma_join(bits, base, base + 101, base + 109);
    let w = w + le_bits(p.attack as nat, 8);
    assert(w == bits.subrange(base, base + 109));
    lemma_field(bits, base + 109, base + 117);
    lemma_join(bits, base, base + 109, base + 117);
    let w = w + le_bits(p.sp_attack as nat, 8);
    assert(w == bits.subrange(base, base + 117));
    lemma_field(bits, base + 117, base + 125);
    lemma_join(bits, base, base + 117, base + 125);
    let w = w + le_bits(p.defense as nat, 8);
    assert(w == bits.subrange(base, base + 125));
    lemma_field(bits, base + 125, base + 133);
    lemma_join(bits, base, base + 125, base + 133);
    let w = w + le_bits(p.sp_defense as nat, 8);
    assert(w == bits.subrange(base, base + 133));
    lemma_field(bits, base + 133, base + 157);
    lemma_join(bits, base, base + 133, base + 157);
    let w = w + le_bits(p.exp as nat, 24);
    assert(w == bits.subrange(base, base + 157));
    lemma_active_move_round_trip(bits, base + 157);
    lemma_join(bits, base, base + 157, base + 186);
    let w = w + p.move_1.encode();
    assert(w == bits.subrange(base, base + 186));
    lemma_active_move_round_trip(bits, base + 186);
    lemma_join(bits, base, base + 186, base + 215);
    let w = w + p.move_2.encode();
    assert(w == bits.subrange(base, base + 215));
    lemma_active_move_round_trip(bits, base + 215);
    lemma_join(bits, base, base + 215, base + 244);
    let w = w + p.move_3.encode();
    assert(w == bits.subrange(base, base + 244));
    lemma_active_move_round_trip(bits, base + 244);
    lemma_join(bits, base, base + 244, base + 273);
    let w = w + p.move_4.encode();
    assert(w == bits.subrange(base, base + 273));
    lemma_field(bits, base + 273, base + 378);
    lemma_join(bits, base, base + 273, base + 378);
    let w = w + le_bits(p.unknown_4 as nat, 105);
    assert(w == bits.subrange(base, base + 378));
    lemma_join(bits, base, base + 378, base + 447);
    let w = w + p.iq_map@;
    assert(w == bits.subrange(base, base + 447));
    lemma_field(bits, base + 447, base + 451);
    lemma_join(bits, base, base + 447, base + 451);
    let w = w + le_bits(p.tactic as nat, 4);
    assert(w == bits.subrange(base, base + 451));
    lemma_field(bits, base + 451, base + 466);
    lemma_join(bits, base, base + 451, base + 466);
    let w = w + le_bits(p.unknown_5 as nat, 15);
    assert(w == bits.subrange(base, base + 466));
    lemma_save_bytes_of_decoded(bytes_of(bits.subrange(base + 466, base + 546)));
    lemma_bits_of_bytes_of(bits.subrange(base + 466, base + 546));
    lemma_join(bits, base, base + 466, base + 546);
    let w = w + bits_of(save_bytes(p.name@));
    assert(w == bits.subrange(base, base + 546));
    assert(p.encode() == w);
}

/// An active creature is written as 546 bits.
pub proof fn lemma_active_encode_len(p: ActivePokemon)
    ensures
        p.encode().len() == 546,
{
    lemma_le_bits_len(p.unknown_1 as nat, 4);
    lemma_le_bits_len(p.level as nat, 7);
    lemma_le_bits_len(p.met_at as nat, 8);
    lemma_le_bits_len(p.met_floor as nat, 7);
    lemma_le_bits_len(p.iq as nat, 10);
    lemma_le_bits_len(p.roaster_number as nat, 10);
    lemma_le_bits_len(p.unknown_3 as nat, 22);
    lemma_le_bits_len(p.id as nat, 11);
    lemma_le_bits_len(p.current_hp as nat, 10);
    lemma_le_bits_len(p.max_hp as nat, 10);
    lemma_le_bits_len(p.attack as nat, 8);
    lemma_le_bits_len(p.sp_attack as nat, 8);
    lemma_le_bits_len(p.defense as nat, 8);
    lemma_le_bits_len(p.sp_defense as nat, 8);
    lemma_le_bits_len(p.exp as nat, 24);
    lemma_active_move_encode_len(p.move_1);
    lemma_active_move_encode_len(p.move_2);
    lemma_active_move_encode_len(p.move_3);
    lemma_active_move_encode_len(p.move_4);
    lemma_le_bits_len(p.unknown_4 as nat, 105);
    lemma_le_bits_len(p.tactic as nat, 4);
    lemma_le_bits_len(p.unknown_5 as nat, 15);
}

/// A move of an active creature is written as 29 bits.
pub proof fn lemma_active_move_encode_len(m: ActiveMove)
    ensures
        m.encode().len() == 29,
{
    lemma_le_bits_len(m.id as nat, 10);
    lemma_le_bits_len(m.pp as nat, 7);
    lemma_le_bits_len(m.power_boost as nat, 7);
}

/// The bits of active creatures, one record after the other.
pub open spec fn active_bits(records: Seq<ActivePokemon>) -> Seq<bool>
    decreases records.len(),
{
    if records.len() == 0 {
        Seq::empty()
    } else {
        active_bits(records.drop_last()) + records.last().encode()
    }
}

/// Active creatures are written as 546 bits each.
pub proof fn lemma_active_bits_len(records: Seq<ActivePokemon>)
    ensures
        active_bits(records).len() == 546 * records.len(),
    decreases records.len(),
{
    if records.len() > 0 {
        lemma_active_bits_len(records.drop_last());
        lemma_active_encode_len(records.last());
    }
}

/// Reading active creatures one record after the other and writing them
/// back gives the bits they were read from.
pub proof fn lemma_active_bits_round_trip(records: Seq<ActivePokemon>, bits: Seq<bool>, base: int)
    requires
        0 <= base,
        base + 546 * records.len() <= bits.len(),
        forall|i: int| 0 <= i < records.len() ==> (#[trigger] records[i]).decodes(bits, base + 546 * i),
    ensures
        active_bits(records) == bits.subrange(base, base + 546 * records.len()),
    decreases records.len(),
{
    if records.len() == 0 {
        assert(active_bits(records) =~= bits.subrange(base, base));
    } else {
        let n = records.len() - 1;
        let front = records.drop_last();
        assert forall|i: int| 0 <= i < front.len() implies (#[trigger] front[i]).decodes(
            bits,
            base + 546 * i,
        ) by {
            assert(front[i] == records[i]);
        }
        lemma_active_bits_round_trip(front, bits, base);
        assert(records.last() == records[n]);
        lemma_active_round_trip(records[n], bits, base + 546 * n);
        lemma_join(bits, base, base + 546 * n, base + 546 * (n + 1));
    }
}

/// Two moves whose fields fit and that are written as the same bits are the
/// same move.
pub proof fn lemma_active_move_same_bits(a: ActiveMove, b: ActiveMove)
    requires
        a.fits(),
        b.fits(),
        a.encode() == b.encode(),
    ensures
        a == b,
{
    lemma2_to64();
    let a0 = seq![a.valid, a.linked, a.switched, a.set, a.sealed];
    let b0 = seq![b.valid, b.linked, b.switched, b.set, b.sealed];
    let a1 = a0 + le_bits(a.id as nat, 10);
    let b1 = b0 + le_bits(b.id as nat, 10);
    lemma_le_bits_len(a.id as nat, 10);
    lemma_le_bits_len(b.id as nat, 10);
    let a2 = a1 + le_bits(a.pp as nat, 7);
    let b2 = b1 + le_bits(b.pp as nat, 7);
    lemma_le_bits_len(a.pp as nat, 7);
    lemma_le_bits_len(b.pp as nat, 7);
    let a3 = a2 + le_bits(a.power_boost as nat, 7);
    let b3 = b2 + le_bits(b.power_boost as nat, 7);
    lemma_le_bits_len(a.power_boost as nat, 7);
    lemma_le_bits_len(b.power_boost as nat, 7);
    lemma_concat_split(a2, le_bits(a.power_boost as nat, 7), b2, le_bits(b.power_boost as nat, 7));
    lemma_le_bits_injective(a.power_boost as nat, b.power_boost as nat, 7);
    lemma_concat_split(a1, le_bits(a.pp as nat, 7), b1, le_bits(b.pp as nat, 7));
    lemma_le_bits_injective(a.pp as nat, b.pp as nat, 7);
    lemma_concat_split(a0, le_bits(a.id as nat, 10), b0, le_bits(b.id as nat, 10));
    lemma_le_bits_injective(a.id as nat, b.id as nat, 10);
    assert(a0[0] == b0[0]);
    assert(a0[1] == b0[1]);
    assert(a0[2] == b0[2]);
    assert(a0[3] == b0[3]);
    assert(a0[4] == b0[4]);
}

impl ActivePokemon {
    /// The creature is what is read back where `written` was written: every
    /// field is the same, and the name is the ten characters of the bytes
    /// kept for the name of `written`.
    pub open spec fn reads_back(&self, written: &ActivePokemon) -> bool {
        &&& self.valid == written.valid
        &&& self.unknown_1 == written.unknown_1
        &&& self.level == written.level
        &&& self.met_at == written.met_at
        &&& self.met_floor == written.met_floor
        &&& self.unknown_2 == written.unknown_2
        &&& self.iq == written.iq
        &&& self.roaster_number == written.roaster_number
        &&& self.unknown_3 == written.unknown_3
        &&& self.id == written.id
        &&& self.current_hp == written.current_hp
        &&& self.max_hp == written.max_hp
        &&& self.attack == written.attack
        &&& self.sp_attack == written.sp_attack
        &&& self.defense == written.defense
        &&& self.sp_defense == written.sp_defense
        &&& self.exp == written.exp
        &&& self.move_1 == written.move_1
        &&& self.move_2 == written.move_2
        &&& self.move_3 == written.move_3
        &&& self.move_4 == written.move_4
        &&& self.unknown_4 == written.unknown_4
        &&& self.iq_map@ == written.iq_map@
        &&& self.tactic == written.tactic
        &&& self.unknown_5 == written.unknown_5
        &&& self.name@ == decode_string(save_bytes(written.name@))
    }
}

/// What is read from bits fits the bits it was read from.
pub proof fn lemma_active_decoded_fits(t: ActivePokemon, bits: Seq<bool>, base: int)
    requires
        0 <= base,
        base + 546 <= bits.len(),
        t.decodes(bits, base),
    ensures
        t.fits(),
{
    lemma2_to64();
    lemma_field(bits, base + 1, base + 5);
    lemma_field(bits, base + 5, base + 12);
    lemma_field(bits, base + 20, base + 27);
    lemma_field(bits, base + 28, base + 38);
    lemma_field(bits, base + 38, base + 48);
    lemma_field(bits, base + 48, base + 70);
    lemma_field(bits, base + 70, base + 81);
    lemma_field(bits, base + 81, base + 91);
    lemma_field(bits, base + 91, base + 101);
    lemma_field(bits, base + 133, base + 157);
    lemma_active_move_round_trip(bits, base + 157);
    lemma_active_move_round_trip(bits, base + 186);
    lemma_active_move_round_trip(bits, base + 215);
    lemma_active_move_round_trip(bits, base + 244);
    lemma_field(bits, base + 273, base + 378);
    assert(pow2(105) == 0x200_0000_0000_0000_0000_0000_0000) by {
        vstd::arithmetic::power2::lemma2_to64_rest();
        vstd::arithmetic::power2::lemma_pow2_adds(64, 41);
    }
    lemma_field(bits, base + 447, base + 451);
    lemma_field(bits, base + 451, base + 466);
}

/// Two creatures whose fields fit and that are written as the same bits have
/// the same fields, and the same ten bytes kept for their names.
pub proof fn lemma_active_same_bits(p: ActivePokemon, t: ActivePokemon)
    requires
        p.fits(),
        t.fits(),
        p.encode() == t.encode(),
    ensures
        t.valid == p.valid,
        t.unknown_1 == p.unknown_1,
        t.level == p.level,
        t.met_at == p.met_at,
        t.met_floor == p.met_floor,
        t.unknown_2 == p.unknown_2,
        t.iq == p.iq,
        t.roaster_number == p.roaster_number,
        t.unknown_3 == p.unknown_3,
        t.id == p.id,
        t.current_hp == p.current_hp,
        t.max_hp == p.max_hp,
        t.attack == p.attack,
        t.sp_attack == p.sp_attack,
        t.defense == p.defense,
        t.sp_defense == p.sp_defense,
        t.exp == p.exp,
        t.move_1 == p.move_1,
        t.move_2 == p.move_2,
        t.move_3 == p.move_3,
        t.move_4 == p.move_4,
        t.unknown_4 == p.unknown_4,
        t.iq_map@ == p.iq_map@,
        t.tactic == p.tactic,
        t.unknown_5 == p.unknown_5,
        save_bytes(t.name@) == save_bytes(p.name@),
{
    lemma2_to64();
    assert(pow2(105) == 0x200_0000_0000_0000_0000_0000_0000) by {
        vstd::arithmetic::power2::lemma2_to64_rest();
        vstd::arithmetic::power2::lemma_pow2_adds(64, 41);
    }
    let p0 = seq![p.valid];
    let t0 = seq![t.valid];
    let p1 = p0 + le_bits(p.unknown_1 as nat, 4);
    let t1 = t0 + le_bits(t.unknown_1 as nat, 4);
    lemma_le_bits_len(p.unknown_1 as nat, 4);
    lemma_le_bits_len(t.unknown_1 as nat, 4);
    let p2 = p1 + le_bits(p.level as nat, 7);
    let t2 = t1 + le_bits(t.level as nat, 7);
    lemma_le_bits_len(p.level as nat, 7);
    lemma_le_bits_len(t.level as nat, 7);
    let p3 = p2 + le_bits(p.met_at as nat, 8);
    let t3 = t2 + le_bits(t.met_at as nat, 8);
    lemma_le_bits_len(p.met_at as nat, 8);
    lemma_le_bits_len(t.met_at as nat, 8);
    let p4 = p3 + le_bits(p.met_floor as nat, 7);
    let t4 = t3 + le_bits(t.met_floor as nat, 7);
    lemma_le_bits_len(p.met_floor as nat, 7);
    lemma_le_bits_len(t.met_floor as nat, 7);
    let p5 = p4 + seq![p.unknown_2];
    let t5 = t4 + seq![t.unknown_2];
    let p6 = p5 + le_bits(p.iq as nat, 10);
    let t6 = t5 + le_bits(t.iq as nat, 10);
    lemma_le_bits_len(p.iq as nat, 10);
    lemma_le_bits_len(t.iq as nat, 10);
    let p7 = p6 + le_bits(p.roaster_number as nat, 10);
    let t7 = t6 + le_bits(t.roaster_number as nat, 10);
    lemma_le_bits_len(p.roaster_number as nat, 10);
    lemma_le_bits_len(t.roaster_number as nat, 10);
    let p8 = p7 + le_bits(p.unknown_3 as nat, 22);
    let t8 = t7 + le_bits(t.unknown_3 as nat, 22);
    lemma_le_bits_len(p.unknown_3 as nat, 22);
    lemma_le_bits_len(t.unknown_3 as nat, 22);
    let p9 = p8 + le_bits(p.id as nat, 11);
    let t9 = t8 + le_bits(t.id as nat, 11);
    lemma_le_bits_len(p.id as nat, 11);
    lemma_le_bits_len(t.id as nat, 11);
    let p10 = p9 + le_bits(p.current_hp as nat, 10);
    let t10 = t9 + le_bits(t.current_hp as nat, 10);
    lemma_le_bits_len(p.current_hp as nat, 10);
    lemma_le_bits_len(t.current_hp as nat, 10);
    let p11 = p10 + le_bits(p.max_hp as nat, 10);
    let t11 = t10 + le_bits(t.max_hp as nat, 10);
    lemma_le_bits_len(p.max_hp as nat, 10);
    lemma_le_bits_len(t.max_hp as nat, 10);
    let p12 = p11 + le_bits(p.attack as nat, 8);
    let t12 = t11 + le_bits(t.attack as nat, 8);
    lemma_le_bits_len(p.attack as nat, 8);
    lemma_le_bits_len(t.attack as nat, 8);
    let p13 = p12 + le_bits(p.sp_attack as nat, 8);
    let t13 = t12 + le_bits(t.sp_attack as nat, 8);
    lemma_le_bits_len(p.sp_attack as nat, 8);
    lemma_le_bits_len(t.sp_attack as nat, 8);
    let p14 = p13 + le_bits(p.defense as nat, 8);
    let t14 = t13 + le_bits(t.defense as nat, 8);
    lemma_le_bits_len(p.defense as nat, 8);
    lemma_le_bits_len(t.defense as nat, 8);
    let p15 = p14 + le_bits(p.sp_defense as nat, 8);
    let t15 = t14 + le_bits(t.sp_defense as nat, 8);
    lemma_le_bits_len(p.sp_defense as nat, 8);
    lemma_le_bits_len(t.sp_defense as nat, 8);
    let p16 = p15 + le_bits(p.exp as nat, 24);
    let t16 = t15 + le_bits(t.exp as nat, 24);
    lemma_le_bits_len(p.exp as nat, 24);
    lemma_le_bits_len(t.exp as nat, 24);
    let p17 = p16 + p.move_1.encode();
    let t17 = t16 + t.move_1.encode();
    lemma_active_move_encode_len(p.move_1);
    lemma_active_move_encode_len(t.move_1);
    let p18 = p17 + p.move_2.encode();
    let t18 = t17 + t.move_2.encode();
    lemma_active_move_encode_len(p.move_2);
    lemma_active_move_encode_len(t.move_2);
    let p19 = p18 + p.move_3.encode();
    let t19 = t18 + t.move_3.encode();
    lemma_active_move_encode_len(p.move_3);
    lemma_active_move_encode_len(t.move_3);
    let p20 = p19 + p.move_4.encode();
    let t20 = t19 + t.move_4.encode();
    lemma_active_move_encode_len(p.move_4);
    lemma_active_move_encode_len(t.move_4);
    let p21 = p20 + le_bits(p.unknown_4 as nat, 105);
    let t21 = t20 + le_bits(t.unknown_4 as nat, 105);
    lemma_le_bits_len(p.unknown_4 as nat, 105);
    lemma_le_bits_len(t.unknown_4 as nat, 105);
    let p22 = p21 + p.iq_map@;
    let t22 = t21 + t.iq_map@;
    let p23 = p22 + le_bits(p.tactic as nat, 4);
    let t23 = t22 + le_bits(t.tactic as nat, 4);
    lemma_le_bits_len(p.tactic as nat, 4);
    lemma_le_bits_len(t.tactic as nat, 4);
    let p24 = p23 + le_bits(p.unknown_5 as nat, 15);
    let t24 = t23 + le_bits(t.unknown_5 as nat, 15);
    lemma_le_bits_len(p.unknown_5 as nat, 15);
    lemma_le_bits_len(t.unknown_5 as nat, 15);
    let p25 = p24 + bits_of(save_bytes(p.name@));
    let t25 = t24 + bits_of(save_bytes(t.name@));
    assert(p25 == p.encode());
    assert(t25 == t.encode());
    lemma_concat_split(p24, bits_of(save_bytes(p.name@)), t24, bits_of(save_bytes(t.name@)));
    lemma_bits_of_injective(save_bytes(p.name@), save_bytes(t.name@));
    lemma_concat_split(p23, le_bits(p.unknown_5 as nat, 15), t23, le_bits(t.unknown_5 as nat, 15));
    lemma_le_bits_injective(p.unknown_5 as nat, t.unknown_5 as nat, 15);
    lemma_concat_split(p22, le_bits(p.tactic as nat, 4), t22, le_bits(t.tactic as nat, 4));
    lemma_le_bits_injective(p.tactic as nat, t.tactic as nat, 4);
    lemma_concat_split(p21, p.iq_map@, t21, t.iq_map@);
    lemma_concat_split(p20, le_bits(p.unknown_4 as nat, 105), t20, le_bits(t.unknown_4 as nat, 105));
    lemma_le_bits_injective(p.unknown_4 as nat, t.unknown_4 as nat, 105);
    lemma_concat_split(p19, p.move_4.encode(), t19, t.move_4.encode());
    lemma_active_move_same_bits(p.move_4, t.move_4);
    lemma_concat_split(p18, p.move_3.encode(), t18, t.move_3.encode());
    lemma_active_move_same_bits(p.move_3, t.move_3);
    lemma_concat_split(p17, p.move_2.encode(), t17, t.move_2.encode());
    lemma_active_move_same_bits(p.move_2, t.move_2);
    lemma_concat_split(p16, p.move_1.encode(), t16, t.move_1.encode());
    lemma_active_move_same_bits(p.move_1, t.move_1);
    lemma_concat_split(p15, le_bits(p.exp as nat, 24), t15, le_bits(t.exp as nat, 24));
    lemma_le_bits_injective(p.exp as nat, t.exp as nat, 24);
    lemma_concat_split(p14, le_bits(p.sp_defense as nat, 8), t14, le_bits(t.sp_defense as nat, 8));
    lemma_le_bits_injective(p.sp_defense as nat, t.sp_defense as nat, 8);
    lemma_concat_split(p13, le_bits(p.defense as nat, 8), t13, le_bits(t.defense as nat, 8));
    lemma_le_bits_injective(p.defense as nat, t.defense as nat, 8);
    lemma_concat_split(p12, le_bits(p.sp_attack as nat, 8), t12, le_bits(t.sp_attack as nat, 8));
    lemma_le_bits_injective(p.sp_attack as nat, t.sp_attack as nat, 8);
    lemma_concat_split(p11, le_bits(p.attack as nat, 8), t11, le_bits(t.attack as nat, 8));
    lemma_le_bits_injective(p.attack as nat, t.attack as nat, 8);
    lemma_concat_split(p10, le_bits(p.max_hp as nat, 10), t10, le_bits(t.max_hp as nat, 10));
    lemma_le_bits_injective(p.max_hp as nat, t.max_hp as nat, 10);
    lemma_concat_split(p9, le_bits(p.current_hp as nat, 10), t9, le_bits(t.current_hp as nat, 10));
    lemma_le_bits_injective(p.current_hp as nat, t.current_hp as nat, 10);
    lemma_concat_split(p8, le_bits(p.id as nat, 11), t8, le_bits(t.id as nat, 11));
    lemma_le_bits_injective(p.id as nat, t.id as nat, 11);
    lemma_concat_split(p7, le_bits(p.unknown_3 as nat, 22), t7, le_bits(t.unknown_3 as nat, 22));
    lemma_le_bits_injective(p.unknown_3 as nat, t.unknown_3 as nat, 22);
    lemma_concat_split(p6, le_bits(p.roaster_number as nat, 10), t6, le_bits(t.roaster_number as nat, 10));
    lemma_le_bits_injective(p.roaster_number as nat, t.roaster_number as nat, 10);
    lemma_concat_split(p5, le_bits(p.iq as nat, 10), t5, le_bits(t.iq as nat, 10));
    lemma_le_bits_injective(p.iq as nat, t.iq as nat, 10);
    lemma_concat_split(p4, seq![p.unknown_2], t4, seq![t.unknown_2]);
    assert(seq![p.unknown_2][0] == seq![t.unknown_2][0]);
    lemma_concat_split(p3, le_bits(p.met_floor as nat, 7), t3, le_bits(t.met_floor as nat, 7));
    lemma_le_bits_injective(p.met_floor as nat, t.met_floor as nat, 7);
    lemma_concat_split(p2, le_bits(p.met_at as nat, 8), t2, le_bits(t.met_at as nat, 8));
    lemma_le_bits_injective(p.met_at as nat, t.met_at as nat, 8);
    lemma_concat_split(p1, le_bits(p.level as nat, 7), t1, le_bits(t.level as nat, 7));
    lemma_le_bits_injective(p.level as nat, t.level as nat, 7);
    lemma_concat_split(p0, le_bits(p.unknown_1 as nat, 4), t0, le_bits(t.unknown_1 as nat, 4));
    lemma_le_bits_injective(p.unknown_1 as nat, t.unknown_1 as nat, 4);
    assert(p0[0] == t0[0]);
}

/// What is read from the bits that a creature whose fields fit was written
/// as is that creature.
pub proof fn lemma_active_read_back(p: ActivePokemon, t: ActivePokemon, bits: Seq<bool>, base: int)
    requires
        0 <= base,
        base + 546 <= bits.len(),
        p.fits(),
        bits.subrange(base, base + 546) == p.encode(),
        t.decodes(bits, base),
    ensures
        t.reads_back(&p),
{
    lemma_active_decoded_fits(t, bits, base);
    lemma_active_round_trip(t, bits, base);
    lemma_active_same_bits(p, t);
    lemma_save_bytes_of_decoded(bytes_of(bits.subrange(base + 466, base + 546)));
}

/// The bits of the creature at `index` among the bits of all.
pub proof fn lemma_active_bits_at(records: Seq<ActivePokemon>, index: int)
    requires
        0 <= index < records.len(),
    ensures
        active_bits(records).subrange(546 * index, 546 * index + 546) == records[index].encode(),
    decreases records.len(),
{
    let front = records.drop_last();
    let last = records.last();
    lemma_active_bits_len(front);
    lemma_active_encode_len(last);
    if index == records.len() - 1 {
        assert(active_bits(records).subrange(546 * index, 546 * index + 546) =~= last.encode());
    } else {
        lemma_active_bits_at(front, index);
        assert(front[index] == records[index]);
        assert(active_bits(records).subrange(546 * index, 546 * index + 546) =~= active_bits(front).subrange(
            546 * index,
            546 * index + 546,
        ));
    }
}

} // verus!
