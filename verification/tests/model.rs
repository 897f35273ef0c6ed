use sky_save::offsets::{active, general, save as blocks, stored};
use sky_save::{
    checksum, load_save_bits, load_save_slice, store_save_bits, store_save_slice, ActiveMove,
    ActivePokemon, ActiveSaveBlock, General, PmdString, SaveError, SkySave, StoredMove,
    StoredPokemon,
};

/// `len` bytes of a fixed pattern.
fn pattern(len: usize, seed: u32) -> Vec<u8> {
    let mut state = seed;
    let mut data = Vec::with_capacity(len);
    for _ in 0..len {
        state = state.wrapping_mul(1_664_525).wrapping_add(1_013_904_223);
        data.push((state >> 24) as u8);
    }
    data
}

/// A container whose three blocks all store the checksum of their payload.
fn valid_container(seed: u32) -> Vec<u8> {
    let mut data = pattern(131_072, seed);
    for block in [blocks::PRIMARY_SAVE, blocks::BACKUP_SAVE, blocks::QUICKSAVE] {
        let sum = checksum(&data, block.start + 4..block.end);
        data[block.start..block.start + 4].copy_from_slice(&sum);
    }
    data
}

#[test]
fn catalog_ranges_have_the_widths_of_the_format() {
    assert_eq!(stored::STORED_PKM_BITS, 0x464 * 8..0x464 * 8 + 362 * 720);
    assert_eq!(active::ACTIVE_PKM_BITS, 0x83D9 * 8 + 1..0x83D9 * 8 + 1 + 546 * 4);
    assert_eq!(stored::pokemon::NAME.end, stored::STORED_PKM_BIT_LEN);
    assert_eq!(active::pokemon::NAME.end, active::ACTIVE_PKM_BIT_LEN);
    assert_eq!(stored::moves::POWER_BOOST.end, stored::STORED_MOVE_BIT_LEN);
    assert_eq!(active::moves::POWER_BOOST.end, active::ACTIVE_MOVE_BIT_LEN);
    assert_eq!(stored::pokemon::IQ_MAP.len(), 69);
    assert_eq!(active::pokemon::IQ_MAP.len(), 69);
    assert_eq!(active::pokemon::UNKNOWN_4.len(), 105);
    assert_eq!(general::HELD_MONEY_BITS, 0x4C866..0x4C87E);
    assert_eq!(general::SP_EPISODE_HELD_MONEY_BITS.len(), 24);
    assert_eq!(general::STORED_MONEY_BITS.start, 0x9915 * 8 + 6);
    assert_eq!(blocks::PRIMARY_CHECKSUM, 0x4..0xB65C);
    assert_eq!(blocks::BACKUP_READ_CHECKSUM, 0xC800..0xC804);
    assert_eq!(blocks::QUICKSAVE_CHECKSUM, 0x19004..0x1E800);
}

#[test]
fn block_offset_is_added_to_every_range() {
    assert_eq!(ActiveSaveBlock::Primary.offset(), 0);
    assert_eq!(ActiveSaveBlock::Backup.offset(), 0xC800);
    let mut data = pattern(0x20000, 5);
    assert_eq!(
        load_save_slice(&data, ActiveSaveBlock::Primary, 0x10..0x14),
        &data[0x10..0x14]
    );
    assert_eq!(
        load_save_slice(&data, ActiveSaveBlock::Backup, 0x10..0x14),
        &data[0xC810..0xC814]
    );
    let before = data.clone();
    store_save_slice(&mut data, ActiveSaveBlock::Backup, 0x20..0x23, &[1, 2, 3]);
    assert_eq!(&data[0xC820..0xC823], &[1, 2, 3]);
    assert_eq!(&data[..0xC820], &before[..0xC820]);
    assert_eq!(&data[0xC823..], &before[0xC823..]);

    store_save_bits(&mut data, ActiveSaveBlock::Backup, 13..37, 0xFFAB_CDEF);
    assert_eq!(load_save_bits(&data, ActiveSaveBlock::Backup, 13..37), 0xAB_CDEF);
    assert_eq!(data[0xC801] & 0x1F, before[0xC801] & 0x1F);
    assert_eq!(data[0xC804] & 0xE0, before[0xC804] & 0xE0);
    assert_eq!(
        load_save_bits(&data, ActiveSaveBlock::Primary, 13..37),
        load_save_bits(&before, ActiveSaveBlock::Primary, 13..37)
    );
}

#[test]
fn general_record_is_loaded_from_and_saved_to_either_block() {
    for block in [ActiveSaveBlock::Primary, ActiveSaveBlock::Backup] {
        let data = pattern(0x20000, 21);
        let g = General::load(&data, block);
        let at = block.offset();
        assert_eq!(g.team_name.to_save_bytes(), data[at + 0x994E..at + 0x9958]);
        assert_eq!(g.held_money as u64, load_save_bits(&data, block, general::HELD_MONEY_BITS));
        assert_eq!(
            g.explorer_rank,
            u32::from_le_bytes(data[at + 0x9958..at + 0x995C].try_into().unwrap())
        );
        assert_eq!(
            g.number_of_adventures,
            i32::from_le_bytes(data[at + 0x8B70..at + 0x8B74].try_into().unwrap())
        );
        let mut copy = data.clone();
        g.save(&mut copy, block);
        assert_eq!(copy, data);

        let changed = General {
            team_name: PmdString::try_from("Mew").unwrap(),
            held_money: 0x0100_0001,
            sp_episode_held_money: 2,
            stored_money: 0x00FF_FFFF,
            number_of_adventures: i32::MIN,
            explorer_rank: u32::MAX,
        };
        changed.save(&mut copy, block);
        let back = General::load(&copy, block);
        assert_eq!(back.team_name.to_save_bytes(), [0x4D, 0x65, 0x77, 0, 0, 0, 0, 0, 0, 0]);
        assert_eq!(back.held_money, 1);
        assert_eq!(back.sp_episode_held_money, 2);
        assert_eq!(back.stored_money, 0x00FF_FFFF);
        assert_eq!(back.number_of_adventures, i32::MIN);
        assert_eq!(back.explorer_rank, u32::MAX);
    }
}

#[test]
fn validate_names_the_block_to_read() {
    let data = valid_container(1);
    assert!(matches!(SkySave::validate(&data), Ok((ActiveSaveBlock::Primary, true))));
    let mut backup_only = data.clone();
    backup_only[4] ^= 1;
    backup_only[0x19004] ^= 1;
    assert!(matches!(
        SkySave::validate(&backup_only),
        Ok((ActiveSaveBlock::Backup, false))
    ));
    let mut primary_only = data.clone();
    primary_only[0xC900] ^= 1;
    assert!(matches!(
        SkySave::validate(&primary_only),
        Ok((ActiveSaveBlock::Primary, true))
    ));
    assert!(matches!(SkySave::validate(&data[..100]), Err(SaveError::InvalidSize)));
    assert!(matches!(SkySave::validate(&[]), Err(SaveError::InvalidSize)));
    assert!(matches!(SaveError::default(), SaveError::Unknown));
}

#[test]
fn creatures_are_read_from_the_active_block() {
    let mut data = valid_container(2);
    data[0x3000] ^= 0x10;
    let save = SkySave::from_slice(&data).unwrap();
    assert_eq!(save.active_save_block, ActiveSaveBlock::Backup);
    for i in [0usize, 1, 359, 719] {
        let expected = StoredPokemon::from_bitslice(&data, 0xC800 * 8 + 0x464 * 8 + 362 * i);
        assert_eq!(save.stored_pokemon[i].to_bits(), expected.to_bits());
        assert_eq!(save.stored_at(i).to_bits(), expected.to_bits());
    }
    for i in 0..4 {
        let expected = ActivePokemon::from_bitslice(&data, 0xC800 * 8 + 0x83D9 * 8 + 1 + 546 * i);
        assert_eq!(save.active_pokemon[i].to_bitvec(), expected.to_bitvec());
        assert_eq!(save.active_at(i).to_bitvec(), expected.to_bitvec());
    }
    assert_eq!(save.team_name(), save.general.team_name.to_string_until_nul());
    assert_eq!(save.held_money(), save.general.held_money);
    assert_eq!(save.sp_episode_held_money(), save.general.sp_episode_held_money);
    assert_eq!(save.stored_money(), save.general.stored_money);
    assert_eq!(save.number_of_adventurers(), save.general.number_of_adventures);
    assert_eq!(save.explorer_rank(), save.general.explorer_rank);
}

#[test]
fn creature_put_in_place_is_saved_and_read_back() {
    let data = valid_container(3);
    let mut save = SkySave::from_slice(&data).unwrap();
    let mut stored = save.stored_at(700).clone();
    stored.valid = true;
    stored.level = 100;
    stored.id = 0x7FF;
    stored.exp = 0xAB_CDEF;
    stored.iq_map[68] = !stored.iq_map[68];
    stored.move_3 = StoredMove { valid: true, linked: true, switched: false, set: true, id: 1, power_boost: 2 };
    stored.name = PmdString::try_from("[e]lectrode").unwrap();
    let stored_bits = stored.to_bits();
    save.set_stored_at(700, stored);

    let mut active = save.active_at(3).clone();
    active.unknown_4 = (1u128 << 105) - 1;
    active.roaster_number = 4;
    active.move_1 = ActiveMove {
        valid: true,
        linked: false,
        switched: true,
        set: false,
        sealed: true,
        id: 0x3FF,
        pp: 0x7F,
        power_boost: 0,
    };
    let active_bits = active.to_bitvec();
    save.set_active_at(3, active);
    save.save();

    let again = SkySave::from_slice(&save.data).unwrap();
    assert_eq!(again.active_save_block, ActiveSaveBlock::Primary);
    let read = again.stored_at(700);
    assert_eq!(read.to_bits(), stored_bits);
    assert!(read.valid());
    assert_eq!(read.level(), 100);
    assert_eq!(read.id(), 0x7FF);
    assert_eq!(read.exp(), 0xAB_CDEF);
    assert_eq!(read.met_at(), read.met_at);
    assert_eq!(read.met_floor(), read.met_floor);
    assert_eq!(read.evolved_at(), (read.evolved_at_1, read.evolved_at_2));
    assert_eq!(read.iq(), read.iq);
    assert_eq!(read.hp(), read.hp);
    assert_eq!(read.attack(), read.attack);
    assert_eq!(read.sp_attack(), read.sp_attack);
    assert_eq!(read.defense(), read.defense);
    assert_eq!(read.sp_defense(), read.sp_defense);
    assert_eq!(read.tactic(), read.tactic);
    assert_eq!(read.iq_map(), read.iq_map);
    assert_eq!(read.moves(), [read.move_1, read.move_2, read.move_3, read.move_4]);
    assert_eq!(read.moves()[2].id(), 1);
    assert_eq!(read.moves()[2].power_boost(), 2);
    assert!(read.moves()[2].valid() && read.moves()[2].linked() && read.moves()[2].set());
    assert!(!read.moves()[2].switched());
    assert_eq!(read.name(), "\u{8d}lectrode");
    assert_eq!(read.name.to_sequence(), "[e]lectrode[END]");

    let read = again.active_at(3);
    assert_eq!(read.to_bitvec(), active_bits);
    assert_eq!(read.unknown_4, (1u128 << 105) - 1);
    assert_eq!(read.roaster_number(), 4);
    assert_eq!(read.valid(), read.valid);
    assert_eq!(read.level(), read.level);
    assert_eq!(read.met_at(), read.met_at);
    assert_eq!(read.met_floor(), read.met_floor);
    assert_eq!(read.iq(), read.iq);
    assert_eq!(read.id(), read.id);
    assert_eq!(read.current_hp(), read.current_hp);
    assert_eq!(read.max_hp(), read.max_hp);
    assert_eq!(read.attack(), read.attack);
    assert_eq!(read.sp_attack(), read.sp_attack);
    assert_eq!(read.defense(), read.defense);
    assert_eq!(read.sp_defense(), read.sp_defense);
    assert_eq!(read.exp(), read.exp);
    assert_eq!(read.tactic(), read.tactic);
    assert_eq!(read.iq_map(), read.iq_map);
    assert_eq!(read.name(), read.name.to_string_until_nul());
    let m = read.moves()[0];
    assert!(m.valid() && m.switched() && m.sealed() && !m.linked() && !m.set());
    assert_eq!((m.id(), m.pp(), m.power_boost()), (0x3FF, 0x7F, 0));

    for i in (0..720).filter(|&i| i != 700) {
        assert_eq!(again.stored_at(i).to_bits(), save.stored_at(i).to_bits());
    }
}

#[test]
fn clone_of_a_creature_is_written_as_the_same_bits() {
    let data = pattern(80, 77);
    let stored = StoredPokemon::from_bitslice(&data, 3);
    assert_eq!(stored.clone().to_bits(), stored.to_bits());
    let active = ActivePokemon::from_bitslice(&data, 9);
    assert_eq!(active.clone().to_bitvec(), active.to_bitvec());
}
