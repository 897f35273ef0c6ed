use sky_save::offsets::save as blocks;
use sky_save::{checksum, ActiveSaveBlock, PmdString, SaveError, SkySave};

/// A container of `len` bytes filled with a fixed pattern, checksums not set.
fn pattern(len: usize) -> Vec<u8> {
    let mut state: u32 = 0x1234_5678;
    let mut data = Vec::with_capacity(len);
    for _ in 0..len {
        state = state.wrapping_mul(1_664_525).wrapping_add(1_013_904_223);
        data.push((state >> 24) as u8);
    }
    data
}

fn set_checksum(data: &mut [u8], start: usize, end: usize) {
    let sum = checksum(data, start + 4..end);
    data[start..start + 4].copy_from_slice(&sum);
}

/// A container whose three blocks all store the checksum of their payload.
fn valid_container(len: usize) -> Vec<u8> {
    let mut data = pattern(len);
    set_checksum(&mut data, blocks::PRIMARY_SAVE.start, blocks::PRIMARY_SAVE.end);
    set_checksum(&mut data, blocks::BACKUP_SAVE.start, blocks::BACKUP_SAVE.end);
    set_checksum(&mut data, blocks::QUICKSAVE.start, blocks::QUICKSAVE.end);
    data
}

#[test]
fn container_of_exactly_128_kib_loads() {
    let data = valid_container(131_072);
    let save = SkySave::from_slice(&data).unwrap();
    assert_eq!(save.active_save_block, ActiveSaveBlock::Primary);
    assert!(save.quicksave_valid);
    assert_eq!(save.data, data);
    assert_eq!(save.stored_pokemon.len(), 720);
    assert_eq!(save.active_pokemon.len(), 4);
}

#[test]
fn container_one_byte_short_is_invalid_size() {
    let data = valid_container(131_072);
    assert!(matches!(
        SkySave::from_slice(&data[..131_071]),
        Err(SaveError::InvalidSize)
    ));
}

#[test]
fn both_checksums_invalid_reports_all_four_values() {
    let mut data = valid_container(131_072);
    let pri_found = [data[0], data[1], data[2], data[3]];
    let bak_found = [data[0xC800], data[0xC801], data[0xC802], data[0xC803]];
    data[0] ^= 0xFF;
    data[0xC801] ^= 0x01;
    let pri_expected = [data[0], data[1], data[2], data[3]];
    let bak_expected = [data[0xC800], data[0xC801], data[0xC802], data[0xC803]];
    match SkySave::from_slice(&data) {
        Err(SaveError::InvalidChecksum {
            pri_expected: pe,
            pri_found: pf,
            bak_expected: be,
            bak_found: bf,
        }) => {
            assert_eq!(pe, pri_expected);
            assert_eq!(pf, pri_found);
            assert_eq!(be, bak_expected);
            assert_eq!(bf, bak_found);
        }
        other => panic!("unexpected: {:?}", other.map(|_| ())),
    }
}

#[test]
fn only_backup_valid_selects_backup() {
    let mut data = valid_container(131_072);
    data[0x100] ^= 0x01;
    let save = SkySave::from_slice(&data).unwrap();
    assert_eq!(save.active_save_block, ActiveSaveBlock::Backup);
}

#[test]
fn quicksave_invalid_does_not_stop_loading() {
    let mut data = valid_container(131_072);
    data[0x19010] ^= 0x80;
    let save = SkySave::from_slice(&data).unwrap();
    assert_eq!(save.active_save_block, ActiveSaveBlock::Primary);
    assert!(!save.quicksave_valid);
}

#[test]
fn checksum_of_zero_payload_is_zero() {
    for len in [0usize, 4, 8, 400, 46_680] {
        let data = vec![0u8; len];
        assert_eq!(checksum(&data, 0..len), [0, 0, 0, 0]);
    }
}

#[test]
fn checksum_of_one_word_is_the_word() {
    assert_eq!(checksum(&[0x01, 0x02, 0x03, 0x04], 0..4), [0x01, 0x02, 0x03, 0x04]);
}

#[test]
fn checksum_wraps_at_32_bits_and_skips_trailing_bytes() {
    let data = [0xFF, 0xFF, 0xFF, 0xFF, 0x02, 0x00, 0x00, 0x00, 0x07, 0x07];
    assert_eq!(checksum(&data, 0..10), [0x01, 0x00, 0x00, 0x00]);
    assert_eq!(checksum(&data, 4..9), [0x02, 0x00, 0x00, 0x00]);
}

#[test]
fn saving_an_unchanged_save_keeps_the_primary_block() {
    let mut data = valid_container(131_072 + 5);
    // A backup block that differs from the primary one, and a quicksave
    // block whose checksum is wrong.
    data[0x19004] ^= 0x55;
    let mut save = SkySave::from_slice(&data).unwrap();
    assert_eq!(save.active_save_block, ActiveSaveBlock::Primary);
    save.save();
    assert_eq!(save.data.len(), data.len());
    assert_eq!(&save.data[..0xB65C], &data[..0xB65C]);
    assert_eq!(&save.data[0xB65C..0xC800], &data[0xB65C..0xC800]);
    assert_eq!(&save.data[0xC800..0x17E5C], &data[..0xB65C]);
    assert_eq!(&save.data[0x17E5C..0x19000], &data[0x17E5C..0x19000]);
    assert_eq!(&save.data[0x19004..], &data[0x19004..]);
    assert_eq!(&save.data[0x19000..0x19004], &checksum(&data, 0x19004..0x1E800));
}

#[test]
fn saving_from_the_backup_block_restores_the_primary_block() {
    let mut data = valid_container(131_072);
    data[0x2000] ^= 0x01;
    let mut save = SkySave::from_slice(&data).unwrap();
    assert_eq!(save.active_save_block, ActiveSaveBlock::Backup);
    save.save();
    assert_eq!(&save.data[..0xB65C], &data[0xC800..0x17E5C]);
    assert_eq!(&save.data[0xC800..0x17E5C], &data[0xC800..0x17E5C]);
    let again = SkySave::from_slice(&save.data).unwrap();
    assert_eq!(again.active_save_block, ActiveSaveBlock::Primary);
    assert!(again.quicksave_valid);
}

#[test]
fn edit_of_one_level_changes_nothing_else() {
    let data = valid_container(131_072);
    let mut save = SkySave::from_slice(&data).unwrap();
    let before: Vec<Vec<u8>> = save.stored_pokemon.iter().map(|p| p.to_bits()).collect();
    let active_before: Vec<Vec<u8>> = save.active_pokemon.iter().map(|p| p.to_bitvec()).collect();
    assert_ne!(save.stored_pokemon[0].level, 50);
    save.stored_pokemon[0].level = 50;
    save.save();

    let again = SkySave::from_slice(&save.data).unwrap();
    assert_eq!(again.active_save_block, ActiveSaveBlock::Primary);
    assert_eq!(again.stored_pokemon[0].level, 50);
    let mut expected = SkySave::from_slice(&data).unwrap();
    expected.stored_pokemon[0].level = 50;
    assert_eq!(again.stored_pokemon[0].to_bits(), expected.stored_pokemon[0].to_bits());
    for i in 1..720 {
        assert_eq!(again.stored_pokemon[i].to_bits(), before[i], "stored creature {}", i);
    }
    for i in 0..4 {
        assert_eq!(again.active_pokemon[i].to_bitvec(), active_before[i], "active creature {}", i);
    }
    assert_eq!(again.general.held_money, expected.general.held_money);
    assert_eq!(again.general.sp_episode_held_money, expected.general.sp_episode_held_money);
    assert_eq!(again.general.stored_money, expected.general.stored_money);
    assert_eq!(again.general.number_of_adventures, expected.general.number_of_adventures);
    assert_eq!(again.general.explorer_rank, expected.general.explorer_rank);
    assert_eq!(again.general.team_name, expected.general.team_name);
    // Only the seven bits of the level differ in the primary block, and the
    // checksum that covers them.
    let first = 0x464;
    assert_eq!(&save.data[4..first], &data[4..first]);
    assert_eq!(&save.data[first + 1..0xB65C], &data[first + 1..0xB65C]);
    assert_eq!(save.data[first] & 0x01, data[first] & 0x01);
    assert_eq!(save.data[first] >> 1, 50);
}

#[test]
fn general_record_is_read_from_its_place() {
    let mut data = vec![0u8; 131_072];
    data[0x994E..0x9952].copy_from_slice(&[0x4F, 0x61, 0x6B, 0x73]);
    // Held money: 24 bits from bit 6 of byte 0x990C.
    let money: u32 = 0x00AB_CDEF;
    let word = (money as u64) << 6;
    for k in 0..4 {
        data[0x990C + k] |= (word >> (8 * k)) as u8;
    }
    data[0x8B70..0x8B74].copy_from_slice(&(-2i32).to_le_bytes());
    data[0x9958..0x995C].copy_from_slice(&0x0102_0304u32.to_le_bytes());
    set_checksum(&mut data, 0, 0xB65C);
    let mut save = SkySave::from_slice(&data).unwrap();
    assert_eq!(save.active_save_block, ActiveSaveBlock::Primary);
    assert_eq!(save.general.held_money, 0x00AB_CDEF);
    assert_eq!(save.general.sp_episode_held_money, 0);
    assert_eq!(save.general.stored_money, 0);
    assert_eq!(save.general.number_of_adventures, -2);
    assert_eq!(save.general.explorer_rank, 0x0102_0304);
    assert_eq!(save.general.team_name.to_string_until_nul(), "Oaks");

    save.general.team_name = PmdString::try_from("Team[END]").unwrap();
    save.general.stored_money = 0x0012_3456;
    save.general.number_of_adventures = -77;
    save.save();
    let again = SkySave::from_slice(&save.data).unwrap();
    assert_eq!(again.general.team_name.to_string_until_nul(), "Team");
    assert_eq!(
        again.general.team_name.to_save_bytes(),
        [0x54, 0x65, 0x61, 0x6D, 0, 0, 0, 0, 0, 0]
    );
    assert_eq!(again.general.held_money, 0x00AB_CDEF);
    assert_eq!(again.general.stored_money, 0x0012_3456);
    assert_eq!(again.general.number_of_adventures, -77);
    assert_eq!(again.general.explorer_rank, 0x0102_0304);
}

#[test]
fn fix_checksums_makes_every_block_valid() {
    let mut data = pattern(131_072);
    set_checksum(&mut data, 0, 0xB65C);
    let mut save = SkySave::from_slice(&data).unwrap();
    assert_eq!(save.active_save_block, ActiveSaveBlock::Primary);
    assert!(!save.quicksave_valid);
    save.fix_checksums();
    assert_eq!(&save.data[..0xC800], &data[..0xC800]);
    assert_eq!(&save.data[0xC804..0x19000], &data[0xC804..0x19000]);
    assert_eq!(&save.data[0x19004..], &data[0x19004..]);
    let again = SkySave::from_slice(&save.data).unwrap();
    assert!(again.quicksave_valid);
    assert_eq!(&save.data[0xC800..0xC804], &checksum(&data, 0xC804..0x17E5C));
    assert_eq!(&save.data[0x19000..0x19004], &checksum(&data, 0x19004..0x1E800));
}
