use sky_save::bits::{copy_bits, load_bit, load_u128_le, load_uint_le, store_bit, store_u128_le, store_uint_le};
use sky_save::{ActiveMove, ActivePokemon, PmdString, StoredMove, StoredPokemon};

/// `len` bytes of a fixed pattern.
fn pattern(len: usize, seed: u32) -> Vec<u8> {
    let mut state = seed;
    let mut data = Vec::with_capacity(len);
    for _ in 0..len {
        state = state.wrapping_mul(1_664_525).wrapping_add(1_013_904_223);
        data.push((state >> 24) as u8);
    }
    data
}

/// Bit `i` of `data`, counted from the least significant bit of byte 0.
fn bit(data: &[u8], i: usize) -> bool {
    data[i / 8] >> (i % 8) & 1 == 1
}

/// The little-endian number in bits `start..end` of `data`.
fn field(data: &[u8], start: usize, end: usize) -> u128 {
    let mut value = 0u128;
    for i in (start..end).rev() {
        value = value << 1 | bit(data, i) as u128;
    }
    value
}

#[test]
fn load_uint_reads_little_endian_fields() {
    let raw = [0x8F, 0x01, 0xF2];
    assert_eq!(load_uint_le(&raw, 4, 20), 0x2018);
    assert_eq!(load_uint_le(&[0b0010_1100], 1, 6), 0b10110);
    let data = pattern(16, 7);
    assert_eq!(load_uint_le(&data, 3, 67) as u128, field(&data, 3, 67));
    assert_eq!(load_uint_le(&data, 64, 128) as u128, field(&data, 64, 128));
    assert_eq!(load_u128_le(&data, 5, 110), field(&data, 5, 110));
    assert_eq!(load_u128_le(&data, 0, 128), field(&data, 0, 128));
}

#[test]
fn store_uint_writes_the_low_bits_and_nothing_else() {
    let mut raw = vec![0xFF, 0xFF, 0xFF];
    store_uint_le(&mut raw, 4, 20, 0x2018);
    assert_eq!(raw, [0x8F, 0x01, 0xF2]);
    let mut raw = vec![0x00];
    store_uint_le(&mut raw, 1, 6, 0xFFFF_FF16);
    assert_eq!(raw, [0b0010_1100]);
    let mut wide = vec![0xFFu8; 16];
    store_u128_le(&mut wide, 3, 108, 0x0123_4567_89AB_CDEF_0011_2233_4455);
    assert_eq!(field(&wide, 3, 108), 0x0123_4567_89AB_CDEF_0011_2233_4455 & ((1 << 105) - 1));
    assert_eq!(field(&wide, 0, 3), 0b111);
    assert_eq!(field(&wide, 108, 128), 0xF_FFFF);
}

#[test]
fn bits_are_counted_from_the_least_significant() {
    let data = [0b0000_0001, 0b1000_0000];
    assert!(load_bit(&data, 0));
    assert!(!load_bit(&data, 1));
    assert!(!load_bit(&data, 8));
    assert!(load_bit(&data, 15));
    let mut buf = vec![0u8, 0xFF];
    store_bit(&mut buf, 3, true);
    store_bit(&mut buf, 9, false);
    assert_eq!(buf, [0b0000_1000, 0b1111_1101]);
}

#[test]
fn copy_bits_moves_a_run_between_offsets() {
    let src = pattern(8, 99);
    let mut dst = vec![0xFFu8; 8];
    copy_bits(&mut dst, 5, 42, &src, 11, 48);
    for i in 0..64 {
        let expected = if (5..42).contains(&i) { bit(&src, i + 6) } else { true };
        assert_eq!(bit(&dst, i), expected, "bit {}", i);
    }
}

#[test]
fn stored_move_is_read_from_its_bits() {
    // valid, not linked, switched, not set; id 0x2A5; power boost 0x51.
    let value: u32 = 0b101 | 0x2A5 << 4 | 0x51 << 14;
    let raw = (value << 3).to_le_bytes();
    let m = StoredMove::from_bitslice(&raw, 3);
    assert_eq!(
        m,
        StoredMove { valid: true, linked: false, switched: true, set: false, id: 0x2A5, power_boost: 0x51 }
    );
    assert_eq!(m.to_bits(), value.to_le_bytes()[..3].to_vec());
}

#[test]
fn active_move_is_read_from_its_bits_and_keeps_the_sealed_flag() {
    // flags valid, linked, sealed; id 0x155; pp 0x33; power boost 0x7F.
    let value: u32 = 0b10011 | 0x155 << 5 | 0x33 << 15 | 0x7F << 22;
    let raw = value.to_le_bytes();
    let m = ActiveMove::from_bitslice(&raw, 0);
    assert_eq!(
        m,
        ActiveMove {
            valid: true,
            linked: true,
            switched: false,
            set: false,
            sealed: true,
            id: 0x155,
            pp: 0x33,
            power_boost: 0x7F,
        }
    );
    assert_eq!(m.to_bitvec(), raw.to_vec());
}

#[test]
fn fields_too_large_are_cut_to_their_bits() {
    let m = StoredMove { valid: false, linked: false, switched: false, set: false, id: 0xFFFF, power_boost: 0xFF };
    let bits = m.to_bits();
    assert_eq!(bits, [0xF0, 0xFF, 0x1F]);
    let back = StoredMove::from_bitslice(&bits, 0);
    assert_eq!(back.id, 0x3FF);
    assert_eq!(back.power_boost, 0x7F);
}

#[test]
fn stored_creature_fields_lie_where_the_catalog_says() {
    let data = pattern(64, 3);
    let offset = 13;
    let p = StoredPokemon::from_bitslice(&data, offset);
    let f = |a: usize, b: usize| field(&data, offset + a, offset + b);
    assert_eq!(p.valid, bit(&data, offset));
    assert_eq!(p.level as u128, f(1, 8));
    assert_eq!(p.id as u128, f(8, 19));
    assert_eq!(p.met_at as u128, f(19, 27));
    assert_eq!(p.met_floor as u128, f(27, 34));
    assert_eq!(p.unknown, bit(&data, offset + 34));
    assert_eq!(p.evolved_at_1 as u128, f(35, 42));
    assert_eq!(p.evolved_at_2 as u128, f(42, 49));
    assert_eq!(p.iq as u128, f(49, 59));
    assert_eq!(p.hp as u128, f(59, 69));
    assert_eq!(p.attack as u128, f(69, 77));
    assert_eq!(p.sp_attack as u128, f(77, 85));
    assert_eq!(p.defense as u128, f(85, 93));
    assert_eq!(p.sp_defense as u128, f(93, 101));
    assert_eq!(p.exp as u128, f(101, 125));
    for k in 0..69 {
        assert_eq!(p.iq_map[k], bit(&data, offset + 125 + k));
    }
    assert_eq!(p.tactic as u128, f(194, 198));
    assert_eq!(p.move_1, StoredMove::from_bitslice(&data, offset + 198));
    assert_eq!(p.move_2, StoredMove::from_bitslice(&data, offset + 219));
    assert_eq!(p.move_3, StoredMove::from_bitslice(&data, offset + 240));
    assert_eq!(p.move_4, StoredMove::from_bitslice(&data, offset + 261));
    let name: Vec<u8> = (0..10).map(|k| f(282 + 8 * k, 290 + 8 * k) as u8).collect();
    assert_eq!(p.name.to_save_bytes().to_vec(), name);
}

#[test]
fn stored_creature_round_trip_is_bit_exact() {
    for seed in 0..20u32 {
        let data = pattern(64, seed);
        let offset = (seed as usize * 7) % 100;
        let p = StoredPokemon::from_bitslice(&data, offset);
        let bits = p.to_bits();
        assert_eq!(bits.len(), 46);
        for i in 0..362 {
            assert_eq!(bit(&bits, i), bit(&data, offset + i), "seed {} bit {}", seed, i);
        }
        for i in 362..368 {
            assert!(!bit(&bits, i));
        }
    }
}

#[test]
fn active_creature_fields_lie_where_the_catalog_says() {
    let data = pattern(80, 11);
    let offset = 5;
    let p = ActivePokemon::from_bitslice(&data, offset);
    let f = |a: usize, b: usize| field(&data, offset + a, offset + b);
    assert_eq!(p.valid, bit(&data, offset));
    assert_eq!(p.unknown_1 as u128, f(1, 5));
    assert_eq!(p.level as u128, f(5, 12));
    assert_eq!(p.met_at as u128, f(12, 20));
    assert_eq!(p.met_floor as u128, f(20, 27));
    assert_eq!(p.unknown_2, bit(&data, offset + 27));
    assert_eq!(p.iq as u128, f(28, 38));
    assert_eq!(p.roaster_number as u128, f(38, 48));
    assert_eq!(p.unknown_3 as u128, f(48, 70));
    assert_eq!(p.id as u128, f(70, 81));
    assert_eq!(p.current_hp as u128, f(81, 91));
    assert_eq!(p.max_hp as u128, f(91, 101));
    assert_eq!(p.attack as u128, f(101, 109));
    assert_eq!(p.sp_attack as u128, f(109, 117));
    assert_eq!(p.defense as u128, f(117, 125));
    assert_eq!(p.sp_defense as u128, f(125, 133));
    assert_eq!(p.exp as u128, f(133, 157));
    assert_eq!(p.move_1, ActiveMove::from_bitslice(&data, offset + 157));
    assert_eq!(p.move_2, ActiveMove::from_bitslice(&data, offset + 186));
    assert_eq!(p.move_3, ActiveMove::from_bitslice(&data, offset + 215));
    assert_eq!(p.move_4, ActiveMove::from_bitslice(&data, offset + 244));
    assert_eq!(p.unknown_4, f(273, 378));
    for k in 0..69 {
        assert_eq!(p.iq_map[k], bit(&data, offset + 378 + k));
    }
    assert_eq!(p.tactic as u128, f(447, 451));
    assert_eq!(p.unknown_5 as u128, f(451, 466));
    let name: Vec<u8> = (0..10).map(|k| f(466 + 8 * k, 474 + 8 * k) as u8).collect();
    assert_eq!(p.name.to_save_bytes().to_vec(), name);
}

#[test]
fn active_creature_round_trip_is_bit_exact() {
    for seed in 0..20u32 {
        let data = pattern(80, seed + 100);
        let offset = (seed as usize * 3) % 90;
        let p = ActivePokemon::from_bitslice(&data, offset);
        let bits = p.to_bitvec();
        assert_eq!(bits.len(), 69);
        for i in 0..546 {
            assert_eq!(bit(&bits, i), bit(&data, offset + i), "seed {} bit {}", seed, i);
        }
        for i in 546..552 {
            assert!(!bit(&bits, i));
        }
    }
}

#[test]
fn name_with_duplicate_bytes_is_kept_as_it_is() {
    let bytes = [0x90, 0x95, 0xA0, 0x9D, 0x20, 0x00, 0x41, 0x00, 0x00, 0x00];
    let name = PmdString::from(bytes.as_slice());
    assert_eq!(name.to_save_bytes(), bytes);
    assert_eq!(
        name.to_sequence(),
        "\u{2022}\u{2022} \u{2022} [END]A[END][END][END]"
    );
    let written = PmdString::try_from(name.to_sequence().as_str()).unwrap();
    assert_eq!(
        written.to_save_bytes(),
        [0x9D, 0x9D, 0x20, 0x9D, 0x20, 0x00, 0x41, 0x00, 0x00, 0x00]
    );
}

#[test]
fn default_stored_creature_is_all_clear() {
    let p = StoredPokemon::default();
    assert_eq!(p.to_bits(), vec![0u8; 46]);
}
