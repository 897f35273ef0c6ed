use sky_save::{byte_to_pmd_seq, pmd_seq_to_byte, EncodingError, PmdChar, PmdString};

#[test]
fn test_char_round_trip() {
    let ch = PmdChar::from_sequence("A").unwrap();
    assert_eq!(ch.utf8, 'A');
    assert_eq!(ch.pmd, 0x41);
    let pmd = PmdChar::from(0x41);
    assert_eq!(ch, pmd);
}

#[test]
fn test_char_special_trip() {
    let ch = PmdChar::from_sequence("[er]").unwrap();
    assert_eq!(ch.utf8, '\u{96}');
    assert_eq!(ch.pmd, 0x96);
    let pmd = PmdChar::from(0x96);
    assert_eq!(ch, pmd);
}

#[test]
#[should_panic]
fn test_char_invalid_sequence() {
    PmdChar::from_sequence("[LOL]").unwrap();
}

#[test]
fn test_char_to_sequence() {
    let ch = PmdChar::from(0x8D);
    assert_eq!(ch.to_sequence(), "[e]");
}

#[test]
fn test_pmd_string_parse() {
    let seq = "Oak[END]";
    PmdString::try_from(seq).unwrap();
}

#[test]
#[should_panic]
fn test_pmd_string_invalid_len() {
    PmdString::try_from("OakOakOakOak").unwrap();
}

#[test]
fn test_pmd_string_to_sequence() {
    let pmd = PmdString::from([0x00, 0x00, 0x00, 0xC4, 0x88, 0x7E].as_slice());
    assert_eq!(pmd.to_sequence(), "[END][END][END]Äˆ[$7E]");
}

#[test]
fn test_pmd_string_to_string() {
    let pmd = PmdString::from([0x00, 0x00, 0x00, 0xC4, 0x88, 0x7E].as_slice());
    assert_eq!(pmd.to_string(), "\0\0\0Äˆ~");
}

#[test]
fn test_pmd_string_to_save_bytes() {
    let pmd = PmdString::from([0x00, 0x00, 0x00, 0xC4, 0x88, 0x7E].as_slice());
    assert_eq!(
        pmd.to_save_bytes(),
        [0x00, 0x00, 0x00, 0xC4, 0x88, 0x7E, 0x00, 0x00, 0x00, 0x00]
    );
}

#[test]
fn test_pmd_string_to_vec() {
    let pmd = PmdString::from([0xC4, 0x88, 0x7E].as_slice());
    let vec = Vec::from(pmd);

    assert_eq!(vec.as_slice(), &[0xC4, 0x88, 0x7E]);
}

#[test]
fn char_invalid_sequence_is_an_error() {
    match PmdChar::from_sequence("[LOL]") {
        Err(EncodingError::InvalidPmdCharacter(s)) => assert_eq!(s, "[LOL]"),
        other => panic!("unexpected: {:?}", other),
    }
}

#[test]
fn string_of_twelve_characters_is_too_long() {
    assert!(matches!(
        PmdString::try_from("OakOakOakOak"),
        Err(EncodingError::InvalidPmdStringLen)
    ));
}

#[test]
fn every_byte_is_shown_and_written_back() {
    for b in 0u16..=255 {
        let b = b as u8;
        let shown = byte_to_pmd_seq(b).unwrap();
        let back = pmd_seq_to_byte(shown).unwrap();
        let expected = match b {
            0x90 | 0x95 => 0x9D,
            0xA0 => 0x20,
            _ => b,
        };
        assert_eq!(back, expected, "byte {:#04x} shown as {:?}", b, shown);
    }
}

#[test]
fn text_decodes_with_escapes_and_is_cut_at_the_first_zero() {
    let bytes = [0x41, 0x62, 0x63, 0x64, 0x00, 0x00, 0x00, 0x00, 0x00, 0x00];
    let name = PmdString::from(bytes.as_slice());
    assert_eq!(name.to_sequence(), "Abcd[END][END][END][END][END][END]");
    assert_eq!(name.to_string_until_nul(), "Abcd");
    assert_eq!(name.to_save_bytes(), bytes);
}

#[test]
fn text_encodes_without_padding() {
    let name = PmdString::try_from("Oak[END]").unwrap();
    assert_eq!(Vec::from(name.clone()), vec![0x4F, 0x61, 0x6B, 0x00]);
    assert_eq!(
        name.to_save_bytes(),
        [0x4F, 0x61, 0x6B, 0x00, 0x00, 0x00, 0x00, 0x00, 0x00, 0x00]
    );
}

#[test]
fn ten_characters_fit_and_eleven_do_not() {
    let ten = PmdString::try_from("0123456789").unwrap();
    assert_eq!(ten.to_save_bytes(), *b"0123456789");
    assert!(matches!(
        PmdString::try_from("0123456789A"),
        Err(EncodingError::InvalidPmdStringLen)
    ));
    // The character that cannot be written is reported before the length.
    match PmdString::try_from("0123456789[") {
        Err(EncodingError::InvalidPmdCharacter(s)) => assert_eq!(s, "[]"),
        other => panic!("unexpected: {:?}", other),
    }
}

#[test]
fn escapes_are_read_up_to_the_closing_bracket() {
    let name = PmdString::try_from("[$01][e]][re][\u{e8}]~[$7E]").unwrap();
    assert_eq!(Vec::from(name), vec![0x01, 0x8D, 0x5D, 0x97, 0x8F, 0x98, 0x7E]);
    // An escape that the text ends in the middle of counts as closed.
    let open = PmdString::try_from("A[END").unwrap();
    assert_eq!(Vec::from(open), vec![0x41, 0x00]);
    match PmdString::try_from("ab[$zz]cd") {
        Err(EncodingError::InvalidPmdCharacter(s)) => assert_eq!(s, "[$zz]"),
        other => panic!("unexpected: {:?}", other),
    }
    match PmdString::try_from("a\u{4e2d}") {
        Err(EncodingError::InvalidPmdCharacter(s)) => assert_eq!(s, "\u{4e2d}"),
        other => panic!("unexpected: {:?}", other),
    }
}

#[test]
fn hex_escapes_exist_only_for_bytes_without_a_glyph() {
    assert!(pmd_seq_to_byte("[$41]").is_err());
    assert!(pmd_seq_to_byte("[$0a]").is_err());
    assert!(pmd_seq_to_byte("[").is_err());
    assert!(pmd_seq_to_byte("").is_err());
    assert!(pmd_seq_to_byte("AB").is_err());
    assert_eq!(pmd_seq_to_byte("[$0A]").unwrap(), 0x0A);
    assert_eq!(pmd_seq_to_byte("[$5B]").unwrap(), 0x5B);
    assert_eq!(pmd_seq_to_byte("]").unwrap(), 0x5D);
    assert_eq!(pmd_seq_to_byte("\u{2022}").unwrap(), 0x9D);
    assert_eq!(pmd_seq_to_byte(" ").unwrap(), 0x20);
    assert_eq!(pmd_seq_to_byte("\u{20AC}").unwrap(), 0x80);
    assert_eq!(pmd_seq_to_byte("\u{2640}").unwrap(), 0xBE);
    assert!(pmd_seq_to_byte("\u{00B7}").is_err());
}

#[test]
fn single_character_of_a_byte_is_its_glyph_or_its_number() {
    assert_eq!(PmdChar::from(0x7E).utf8, '~');
    assert_eq!(PmdChar::from(0x98).utf8, '~');
    assert_eq!(PmdChar::from(0x00).utf8, '\0');
    assert_eq!(PmdChar::from(0x90), PmdChar { pmd: 0x90, utf8: '\u{2022}' });
    assert_eq!(PmdChar::from(0xBD).utf8, '\u{2642}');
    assert_eq!(PmdChar::from(0xE9).utf8, '\u{e9}');
    assert_eq!(PmdChar::from_sequence("\u{2022}").unwrap().pmd, 0x9D);
}

#[test]
fn name_of_ten_bytes_is_shown_and_written_back() {
    let bytes = [0x50, 0x69, 0x6B, 0x61, 0xE9, 0x01, 0x8D, 0x5D, 0x00, 0xFF];
    let name = PmdString::from(bytes.as_slice());
    let shown = name.to_sequence();
    assert_eq!(shown, "Pika\u{e9}[$01][e]][END]\u{ff}");
    let back = PmdString::try_from(shown.as_str()).unwrap();
    assert_eq!(back.to_save_bytes(), bytes);
    assert_eq!(back, name);
}

#[test]
fn new_and_default_names_are_empty() {
    assert_eq!(PmdString::new().to_sequence(), "");
    assert_eq!(PmdString::default().to_save_bytes(), [0u8; 10]);
    assert_eq!(PmdString::new().to_string(), "");
}
