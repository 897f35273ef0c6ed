//! The game's one-byte character set, and names written in it.
//!
//! A byte is shown either as one character or, where it has none of its own,
//! as an escape in square brackets: `[END]` for the zero byte, `[$1F]` with two
//! upper-case hexadecimal digits, or one of four named escapes. `[` itself is
//! never shown bare, so a bracket in a text always opens an escape.
//!
//! Three bytes are shown like another byte: 0x90 and 0x95 like 0x9D (a
//! bullet), and 0xA0 like 0x20 (a space). A bullet is always written as 0x9D
//! and a space as 0x20; a name read from a save keeps the bytes it has.

use crate::arrays::{chars_clone, chars_get, chars_in, chars_len, chars_new, chars_try_push};
use crate::bits::{bits_of, bytes_of, copy_bits, lemma_bytes_of_bits_of, max_buf_len, zeroed};
use crate::error::{EncodingError, EncodingFailure};
use arrayvec::ArrayVec;
use vstd::prelude::*;
use vstd::std_specs::iter::IteratorSpec;
use vstd::string::StringExecFns;

verus! {

/// The bytes shown as `[$XX]`.
pub open spec fn is_hex_escape(byte: u8) -> bool {
    ||| 0x01 <= byte <= 0x1F
    ||| byte == 0x5B
    ||| byte == 0x7E
    ||| byte == 0x7F
    ||| 0x81 <= byte <= 0x84
    ||| byte == 0x87
}

/// The bytes shown in square brackets.
pub open spec fn is_escape(byte: u8) -> bool {
    ||| is_hex_escape(byte)
    ||| byte == 0x00
    ||| byte == 0x8D
    ||| byte == 0x8F
    ||| byte == 0x96
    ||| byte == 0x97
}

/// The upper-case hexadecimal digit for `n`, which is below 16.
pub open spec fn hex_digit(n: int) -> char {
    if n < 10 {
        (0x30 + n) as char
    } else {
        (0x37 + n) as char
    }
}

/// The character that shows `byte`, for a byte that is no escape: the
/// character with the byte's own number, but for the bytes listed.
pub open spec fn glyph(byte: u8) -> char {
    match byte {
        0x80 => '\u{20AC}',
        0x85 => '\u{2026}',
        0x86 => '\u{2020}',
        0x88 => '\u{02C6}',
        0x89 => '\u{2030}',
        0x8A => '\u{0160}',
        0x8B => '\u{2039}',
        0x8C => '\u{0152}',
        0x8E => '\u{017D}',
        0x90 => '\u{2022}',
        0x91 => '\u{2018}',
        0x92 => '\u{2019}',
        0x93 => '\u{201C}',
        0x94 => '\u{201D}',
        0x95 => '\u{2022}',
        0x98 => '~',
        0x99 => '\u{2122}',
        0x9A => '\u{0161}',
        0x9B => '\u{203A}',
        0x9C => '\u{0153}',
        0x9D => '\u{2022}',
        0x9E => '\u{017E}',
        0x9F => '\u{0178}',
        0xA0 => ' ',
        0xB7 => '\u{201E}',
        0xB8 => '\u{201A}',
        0xBC => '\u{2190}',
        0xBD => '\u{2642}',
        0xBE => '\u{2640}',
        _ => byte as char,
    }
}

/// How `byte` is shown.
pub open spec fn display_of(byte: u8) -> Seq<char> {
    if byte == 0x00 {
        seq!['[', 'E', 'N', 'D', ']']
    } else if byte == 0x8D {
        seq!['[', 'e', ']']
    } else if byte == 0x8F {
        seq!['[', '\u{00E8}', ']']
    } else if byte == 0x96 {
        seq!['[', 'e', 'r', ']']
    } else if byte == 0x97 {
        seq!['[', 'r', 'e', ']']
    } else if is_hex_escape(byte) {
        seq!['[', '$', hex_digit(byte as int / 16), hex_digit(byte as int % 16), ']']
    } else {
        seq![glyph(byte)]
    }
}

/// The bytes that are shown like another byte, and so are never written.
pub open spec fn is_duplicate(byte: u8) -> bool {
    byte == 0x90 || byte == 0x95 || byte == 0xA0
}

/// The byte that is written for what shows `byte`.
pub open spec fn canonical(byte: u8) -> u8 {
    if byte == 0x90 || byte == 0x95 {
        0x9D
    } else if byte == 0xA0 {
        0x20
    } else {
        byte
    }
}

/// `text` is written as `byte`.
pub open spec fn encodes(byte: u8, text: Seq<char>) -> bool {
    !is_duplicate(byte) && display_of(byte) == text
}

/// The byte that `text` is written as, if it shows one.
pub open spec fn byte_of_display(text: Seq<char>) -> Option<u8> {
    if exists|byte: u8| encodes(byte, text) {
        Some(choose|byte: u8| encodes(byte, text))
    } else {
        None
    }
}

/// The single character kept beside `byte`: the one that shows it, or for an
/// escape the character with the byte's own number.
pub open spec fn utf8_of(byte: u8) -> char {
    if is_escape(byte) {
        byte as char
    } else {
        glyph(byte)
    }
}

/// The byte found for `text` by its shape: one character, or an escape.
spec fn lookup(text: Seq<char>) -> Option<u8> {
    if text.len() == 1 {
        lookup_glyph(text[0])
    } else if text == seq!['[', 'E', 'N', 'D', ']'] {
        Some(0x00u8)
    } else if text == seq!['[', 'e', ']'] {
        Some(0x8Du8)
    } else if text == seq!['[', '\u{00E8}', ']'] {
        Some(0x8Fu8)
    } else if text == seq!['[', 'e', 'r', ']'] {
        Some(0x96u8)
    } else if text == seq!['[', 'r', 'e', ']'] {
        Some(0x97u8)
    } else if text.len() == 5 && text[0] == '[' && text[1] == '$' && text[4] == ']' {
        match (hex_value(text[2]), hex_value(text[3])) {
            (Some(high), Some(low)) => {
                let byte = (16 * high + low) as u8;
                if is_hex_escape(byte) {
                    Some(byte)
                } else {
                    None
                }
            },
            _ => None,
        }
    } else {
        None
    }
}

/// The byte whose glyph is `c`, if one is written so.
spec fn lookup_glyph(c: char) -> Option<u8> {
    match c {
        '\u{20AC}' => Some(0x80u8),
        '\u{2026}' => Some(0x85u8),
        '\u{2020}' => Some(0x86u8),
        '\u{02C6}' => Some(0x88u8),
        '\u{2030}' => Some(0x89u8),
        '\u{0160}' => Some(0x8Au8),
        '\u{2039}' => Some(0x8Bu8),
        '\u{0152}' => Some(0x8Cu8),
        '\u{017D}' => Some(0x8Eu8),
        '\u{2018}' => Some(0x91u8),
        '\u{2019}' => Some(0x92u8),
        '\u{201C}' => Some(0x93u8),
        '\u{201D}' => Some(0x94u8),
        '~' => Some(0x98u8),
        '\u{2122}' => Some(0x99u8),
        '\u{0161}' => Some(0x9Au8),
        '\u{203A}' => Some(0x9Bu8),
        '\u{0153}' => Some(0x9Cu8),
        '\u{2022}' => Some(0x9Du8),
        '\u{017E}' => Some(0x9Eu8),
        '\u{0178}' => Some(0x9Fu8),
        '\u{201E}' => Some(0xB7u8),
        '\u{201A}' => Some(0xB8u8),
        '\u{2190}' => Some(0xBCu8),
        '\u{2642}' => Some(0xBDu8),
        '\u{2640}' => Some(0xBEu8),
        _ => {
            let n = c as int;
            if (0x20 <= n <= 0x5A) || (0x5C <= n <= 0x7D) || (0xA1 <= n <= 0xB6) || (0xB9 <= n
                <= 0xBB) || (0xBF <= n <= 0xFF) {
                Some(n as u8)
            } else {
                None
            }
        },
    }
}

/// The number that an upper-case hexadecimal digit stands for.
spec fn hex_value(c: char) -> Option<int> {
    let n = c as int;
    if 0x30 <= n <= 0x39 {
        Some(n - 0x30)
    } else if 0x41 <= n <= 0x46 {
        Some(n - 0x37)
    } else {
        None
    }
}

/// What is found by shape for the display of a byte is the byte that is
/// written for it.
proof fn lemma_lookup_display(byte: u8)
    ensures
        lookup(display_of(byte)) == Some(canonical(byte)),
{
    let text = display_of(byte);
    if is_hex_escape(byte) {
        let high = byte as int / 16;
        let low = byte as int % 16;
        assert(hex_value(hex_digit(high)) == Some(high));
        assert(hex_value(hex_digit(low)) == Some(low));
        assert(text[2] == hex_digit(high));
        assert(text[3] == hex_digit(low));
        assert(text.len() == 5);
        assert(text[1] == '$');
        assert(text[3] != ']');
    } else if is_escape(byte) {
    } else {
        assert(text.len() == 1);
        assert(text[0] == glyph(byte));
    }
}

/// What is found by shape for a text is shown as that text, and is no
/// duplicate.
proof fn lemma_lookup_sound(text: Seq<char>)
    ensures
        lookup(text) matches Some(byte) ==> encodes(byte, text),
{
    if let Some(byte) = lookup(text) {
        if text.len() == 1 {
            let c = text[0];
            assert(lookup_glyph(c) == Some(byte));
            assert(!is_escape(byte));
            assert(glyph(byte) == c);
            assert(display_of(byte) =~= text);
        } else if text.len() == 5 && text[0] == '[' && text[1] == '$' && text[4] == ']' {
            assert(text != seq!['[', 'E', 'N', 'D', ']']);
            let high = hex_value(text[2])->0;
            let low = hex_value(text[3])->0;
            assert(0 <= high < 16);
            assert(0 <= low < 16);
            assert(byte == 16 * high + low);
            assert(byte as int / 16 == high);
            assert(byte as int % 16 == low);
            assert(hex_digit(high) == text[2]);
            assert(hex_digit(low) == text[3]);
            assert(display_of(byte) =~= text);
        } else {
        }
    }
}

/// The byte that a text is written as is the one found by its shape.
proof fn lemma_byte_of_display_is_lookup(text: Seq<char>)
    ensures
        byte_of_display(text) == lookup(text),
{
    lemma_lookup_sound(text);
    assert forall|byte: u8| encodes(byte, text) implies lookup(text) == Some(byte) by {
        lemma_lookup_display(byte);
    }
}

/// A text is written as `byte` exactly if it is how `byte` is shown and
/// `byte` is no duplicate.
pub proof fn lemma_byte_of_display(byte: u8, text: Seq<char>)
    ensures
        byte_of_display(text) == Some(byte) <==> encodes(byte, text),
{
    lemma_byte_of_display_is_lookup(text);
    lemma_lookup_sound(text);
    lemma_lookup_display(byte);
}

/// Showing a byte and writing the text back gives the byte, or for a
/// duplicate the byte that it is shown like.
pub proof fn lemma_encode_decode_char(byte: u8)
    ensures
        byte_of_display(display_of(byte)) == Some(canonical(byte)),
        !is_duplicate(byte) ==> canonical(byte) == byte,
        is_duplicate(byte) ==> display_of(canonical(byte)) == display_of(byte),
{
    lemma_byte_of_display_is_lookup(display_of(byte));
    lemma_lookup_display(byte);
}

/// An escape opens with a bracket, closes with the only closing bracket in
/// it, and is at least three characters long; anything else is one character
/// that is no opening bracket.
pub proof fn lemma_display_shape(byte: u8)
    ensures
        is_escape(byte) ==> {
            let text = display_of(byte);
            &&& 3 <= text.len() <= 5
            &&& text[0] == '['
            &&& text.last() == ']'
            &&& forall|i: int| 0 <= i < text.len() - 1 ==> text[i] != ']'
        },
        !is_escape(byte) ==> display_of(byte) == seq![glyph(byte)] && glyph(byte) != '[',
{
    if is_hex_escape(byte) {
        let high = byte as int / 16;
        let low = byte as int % 16;
        assert(hex_digit(high) != ']');
        assert(hex_digit(low) != ']');
    }
}

/// The number that the upper-case hexadecimal digit `c` stands for.
fn hex_value_of(c: char) -> (r: Option<u8>)
    ensures
        match hex_value(c) {
            Some(n) => r == Some(n as u8) && 0 <= n < 16,
            None => r is None,
        },
{
    let n = c as u32;
    if 0x30 <= n && n <= 0x39 {
        Some((n - 0x30) as u8)
    } else if 0x41 <= n && n <= 0x46 {
        Some((n - 0x37) as u8)
    } else {
        None
    }
}

/// Whether `byte` is shown as `[$XX]`.
fn hex_escaped(byte: u8) -> (r: bool)
    ensures
        r == is_hex_escape(byte),
{
    (0x01 <= byte && byte <= 0x1F) || byte == 0x5B || byte == 0x7E || byte == 0x7F || (0x81 <= byte
        && byte <= 0x84) || byte == 0x87
}

/// Whether `byte` is shown in square brackets.
fn escaped(byte: u8) -> (r: bool)
    ensures
        r == is_escape(byte),
{
    hex_escaped(byte) || byte == 0x00 || byte == 0x8D || byte == 0x8F || byte == 0x96 || byte
        == 0x97
}

/// The character that shows `byte`.
fn glyph_of(byte: u8) -> (c: char)
    ensures
        c == glyph(byte),
{
    match byte {
        0x80 => '\u{20AC}',
        0x85 => '\u{2026}',
        0x86 => '\u{2020}',
        0x88 => '\u{02C6}',
        0x89 => '\u{2030}',
        0x8A => '\u{0160}',
        0x8B => '\u{2039}',
        0x8C => '\u{0152}',
        0x8E => '\u{017D}',
        0x90 => '\u{2022}',
        0x91 => '\u{2018}',
        0x92 => '\u{2019}',
        0x93 => '\u{201C}',
        0x94 => '\u{201D}',
        0x95 => '\u{2022}',
        0x98 => '~',
        0x99 => '\u{2122}',
        0x9A => '\u{0161}',
        0x9B => '\u{203A}',
        0x9C => '\u{0153}',
        0x9D => '\u{2022}',
        0x9E => '\u{017E}',
        0x9F => '\u{0178}',
        0xA0 => ' ',
        0xB7 => '\u{201E}',
        0xB8 => '\u{201A}',
        0xBC => '\u{2190}',
        0xBD => '\u{2642}',
        0xBE => '\u{2640}',
        _ => byte as char,
    }
}

/// The byte whose glyph is `c`, if one is written so.
fn glyph_to_byte(c: char) -> (r: Option<u8>)
    ensures
        r == lookup_glyph(c),
{
    match c {
        '\u{20AC}' => Some(0x80),
        '\u{2026}' => Some(0x85),
        '\u{2020}' => Some(0x86),
        '\u{02C6}' => Some(0x88),
        '\u{2030}' => Some(0x89),
        '\u{0160}' => Some(0x8A),
        '\u{2039}' => Some(0x8B),
        '\u{0152}' => Some(0x8C),
        '\u{017D}' => Some(0x8E),
        '\u{2018}' => Some(0x91),
        '\u{2019}' => Some(0x92),
        '\u{201C}' => Some(0x93),
        '\u{201D}' => Some(0x94),
        '~' => Some(0x98),
        '\u{2122}' => Some(0x99),
        '\u{0161}' => Some(0x9A),
        '\u{203A}' => Some(0x9B),
        '\u{0153}' => Some(0x9C),
        '\u{2022}' => Some(0x9D),
        '\u{017E}' => Some(0x9E),
        '\u{0178}' => Some(0x9F),
        '\u{201E}' => Some(0xB7),
        '\u{201A}' => Some(0xB8),
        '\u{2190}' => Some(0xBC),
        '\u{2642}' => Some(0xBD),
        '\u{2640}' => Some(0xBE),
        _ => {
            let n = c as u32;
            if (0x20 <= n && n <= 0x5A) || (0x5C <= n && n <= 0x7D) || (0xA1 <= n && n <= 0xB6)
                || (0xB9 <= n && n <= 0xBB) || (0xBF <= n && n <= 0xFF) {
                Some(n as u8)
            } else {
                None
            }
        },
    }
}

/// The byte that the characters `text` are written as, if they show one.
pub fn pmd_chars_to_byte(text: &[char]) -> (r: Option<u8>)
    ensures
        r == byte_of_display(text@),
{
    proof {
        lemma_byte_of_display_is_lookup(text@);
    }
    let n = text.len();
    if n == 1 {
        glyph_to_byte(text[0])
    } else if n == 5 && text[0] == '[' && text[4] == ']' {
        if text[1] == 'E' && text[2] == 'N' && text[3] == 'D' {
            assert(text@ =~= seq!['[', 'E', 'N', 'D', ']']);
            Some(0x00)
        } else if text[1] == '$' {
            match (hex_value_of(text[2]), hex_value_of(text[3])) {
                (Some(high), Some(low)) => {
                    let byte = 16 * high + low;
                    if hex_escaped(byte) {
                        Some(byte)
                    } else {
                        None
                    }
                },
                _ => None,
            }
        } else {
            None
        }
    } else if n == 3 && text[0] == '[' && text[2] == ']' {
        if text[1] == 'e' {
            assert(text@ =~= seq!['[', 'e', ']']);
            Some(0x8D)
        } else if text[1] == '\u{00E8}' {
            assert(text@ =~= seq!['[', '\u{00E8}', ']']);
            Some(0x8F)
        } else {
            None
        }
    } else if n == 4 && text[0] == '[' && text[3] == ']' {
        if text[1] == 'e' && text[2] == 'r' {
            assert(text@ =~= seq!['[', 'e', 'r', ']']);
            Some(0x96)
        } else if text[1] == 'r' && text[2] == 'e' {
            assert(text@ =~= seq!['[', 'r', 'e', ']']);
            Some(0x97)
        } else {
            None
        }
    } else {
        None
    }
}

/// The characters of a text, one by one.
pub fn chars_of(text: &str) -> (r: Vec<char>)
    ensures
        r@ == text@,
{
    let mut out: Vec<char> = Vec::new();
    let mut rest = text.chars();
    let ghost mut done: int = 0;
    proof {
        broadcast use vstd::string::axiom_spec_iter;

        assert(rest.remaining() == text@);
        assert(text@.subrange(0, text@.len() as int) =~= text@);
    }
    loop
        invariant
            0 <= done <= text@.len(),
            rest.remaining() == text@.subrange(done, text@.len() as int),
            out@ == text@.subrange(0, done),
        decreases text@.len() - done,
    {
        let ghost before = rest;
        match rest.next() {
            None => {
                proof {
                    broadcast use vstd::string::next_postcondition;

                    assert(before.remaining().len() == 0);
                    assert(out@ =~= text@);
                }
                return out;
            },
            Some(c) => {
                proof {
                    broadcast use vstd::string::next_postcondition;

                    assert(before.remaining().len() > 0);
                    assert(c == text@[done]);
                    assert(rest.remaining() =~= text@.subrange(done + 1, text@.len() as int));
                }
                out.push(c);
                proof {
                    assert(out@ =~= text@.subrange(0, done + 1));
                    done = done + 1;
                }
            },
        }
    }
}

/// Trusted: `String::push` of std. Claimed: the character is added at the
/// end of the text.
pub assume_specification[ String::push ](text: &mut String, c: char)
    ensures
        final(text)@ == old(text)@.push(c),
;

/// A text made of the characters `chars`.
pub fn string_of(chars: &[char]) -> (r: String)
    ensures
        r@ == chars@,
{
    let mut out = String::new();
    let mut i: usize = 0;
    while i < chars.len()
        invariant
            i <= chars@.len(),
            out@ == chars@.subrange(0, i as int),
        decreases chars@.len() - i,
    {
        out.push(chars[i]);
        i += 1;
        assert(out@ =~= chars@.subrange(0, i as int));
    }
    assert(out@ =~= chars@);
    out
}

/// The byte that `s` is written as: `s` is one character, or one escape in
/// square brackets.
pub fn pmd_seq_to_byte(s: &str) -> (r: Result<u8, EncodingError>)
    ensures
        match byte_of_display(s@) {
            Some(byte) => r == Ok::<u8, EncodingError>(byte),
            None => r is Err && r->Err_0@ == EncodingFailure::InvalidPmdCharacter(s@),
        },
{
    let chars = chars_of(s);
    match pmd_chars_to_byte(chars.as_slice()) {
        Some(byte) => Ok(byte),
        None => Err(EncodingError::InvalidPmdCharacter(string_of(chars.as_slice()))),
    }
}

/// How `byte` is shown. Every byte is shown somehow.
pub fn byte_to_pmd_seq(byte: u8) -> (r: Result<&'static str, EncodingError>)
    ensures
        r is Ok,
        r->Ok_0@ == display_of(byte),
{
    proof {
        reveal_strlit("[END]");
        reveal_strlit("[$01]");
        reveal_strlit("[$02]");
        reveal_strlit("[$03]");
        reveal_strlit("[$04]");
        reveal_strlit("[$05]");
        reveal_strlit("[$06]");
        reveal_strlit("[$07]");
        reveal_strlit("[$08]");
        reveal_strlit("[$09]");
        reveal_strlit("[$0A]");
        reveal_strlit("[$0B]");
        reveal_strlit("[$0C]");
        reveal_strlit("[$0D]");
        reveal_strlit("[$0E]");
        reveal_strlit("[$0F]");
        reveal_strlit("[$10]");
        reveal_strlit("[$11]");
        reveal_strlit("[$12]");
        reveal_strlit("[$13]");
        reveal_strlit("[$14]");
        reveal_strlit("[$15]");
        reveal_strlit("[$16]");
        reveal_strlit("[$17]");
        reveal_strlit("[$18]");
        reveal_strlit("[$19]");
        reveal_strlit("[$1A]");
        reveal_strlit("[$1B]");
        reveal_strlit("[$1C]");
        reveal_strlit("[$1D]");
        reveal_strlit("[$1E]");
        reveal_strlit("[$1F]");
        reveal_strlit(" ");
        reveal_strlit("!");
        reveal_strlit("\"");
        reveal_strlit("#");
        reveal_strlit("$");
        reveal_strlit("%");
        reveal_strlit("&");
        reveal_strlit("'");
        reveal_strlit("(");
        reveal_strlit(")");
        reveal_strlit("*");
        reveal_strlit("+");
        reveal_strlit(",");
        reveal_strlit("-");
        reveal_strlit(".");
        reveal_strlit("/");
        reveal_strlit("0");
        reveal_strlit("1");
        reveal_strlit("2");
        reveal_strlit("3");
        reveal_strlit("4");
        reveal_strlit("5");
        reveal_strlit("6");
        reveal_strlit("7");
        reveal_strlit("8");
        reveal_strlit("9");
        reveal_strlit(":");
        reveal_strlit(";");
        reveal_strlit("<");
        reveal_strlit("=");
        reveal_strlit(">");
        reveal_strlit("?");
        reveal_strlit("@");
        reveal_strlit("A");
        reveal_strlit("B");
        reveal_strlit("C");
        reveal_strlit("D");
        reveal_strlit("E");
        reveal_strlit("F");
        reveal_strlit("G");
        reveal_strlit("H");
        reveal_strlit("I");
        reveal_strlit("J");
        reveal_strlit("K");
        reveal_strlit("L");
        reveal_strlit("M");
        reveal_strlit("N");
        reveal_strlit("O");
        reveal_strlit("P");
        reveal_strlit("Q");
        reveal_strlit("R");
        reveal_strlit("S");
        reveal_strlit("T");
        reveal_strlit("U");
        reveal_strlit("V");
        reveal_strlit("W");
        reveal_strlit("X");
        reveal_strlit("Y");
        reveal_strlit("Z");
        reveal_strlit("[$5B]");
        reveal_strlit("\\");
        reveal_strlit("]");
        reveal_strlit("^");
        reveal_strlit("_");
        reveal_strlit("`");
        reveal_strlit("a");
        reveal_strlit("b");
        reveal_strlit("c");
        reveal_strlit("d");
        reveal_strlit("e");
        reveal_strlit("f");
        reveal_strlit("g");
        reveal_strlit("h");
        reveal_strlit("i");
        reveal_strlit("j");
        reveal_strlit("k");
        reveal_strlit("l");
        reveal_strlit("m");
        reveal_strlit("n");
        reveal_strlit("o");
        reveal_strlit("p");
        reveal_strlit("q");
        reveal_strlit("r");
        reveal_strlit("s");
        reveal_strlit("t");
        reveal_strlit("u");
        reveal_strlit("v");
        reveal_strlit("w");
        reveal_strlit("x");
        reveal_strlit("y");
        reveal_strlit("z");
        reveal_strlit("{");
        reveal_strlit("|");
        reveal_strlit("}");
        reveal_strlit("[$7E]");
        reveal_strlit("[$7F]");
        reveal_strlit("\u{20AC}");
        reveal_strlit("[$81]");
        reveal_strlit("[$82]");
        reveal_strlit("[$83]");
        reveal_strlit("[$84]");
        reveal_strlit("\u{2026}");
        reveal_strlit("\u{2020}");
        reveal_strlit("[$87]");
        reveal_strlit("\u{02C6}");
        reveal_strlit("\u{2030}");
        reveal_strlit("\u{0160}");
        reveal_strlit("\u{2039}");
        reveal_strlit("\u{0152}");
        reveal_strlit("[e]");
        reveal_strlit("\u{017D}");
        reveal_strlit("[\u{00E8}]");
        reveal_strlit("\u{2022}");
        reveal_strlit("\u{2018}");
        reveal_strlit("\u{2019}");
        reveal_strlit("\u{201C}");
        reveal_strlit("\u{201D}");
        reveal_strlit("\u{2022}");
        reveal_strlit("[er]");
        reveal_strlit("[re]");
        reveal_strlit("~");
        reveal_strlit("\u{2122}");
        reveal_strlit("\u{0161}");
        reveal_strlit("\u{203A}");
        reveal_strlit("\u{0153}");
        reveal_strlit("\u{2022}");
        reveal_strlit("\u{017E}");
        reveal_strlit("\u{0178}");
        reveal_strlit(" ");
        reveal_strlit("\u{00A1}");
        reveal_strlit("\u{00A2}");
        reveal_strlit("\u{00A3}");
        reveal_strlit("\u{00A4}");
        reveal_strlit("\u{00A5}");
        reveal_strlit("\u{00A6}");
        reveal_strlit("\u{00A7}");
        reveal_strlit("\u{00A8}");
        reveal_strlit("\u{00A9}");
        reveal_strlit("\u{00AA}");
        reveal_strlit("\u{00AB}");
        reveal_strlit("\u{00AC}");
        reveal_strlit("\u{00AD}");
        reveal_strlit("\u{00AE}");
        reveal_strlit("\u{00AF}");
        reveal_strlit("\u{00B0}");
        reveal_strlit("\u{00B1}");
        reveal_strlit("\u{00B2}");
        reveal_strlit("\u{00B3}");
        reveal_strlit("\u{00B4}");
        reveal_strlit("\u{00B5}");
        reveal_strlit("\u{00B6}");
        reveal_strlit("\u{201E}");
        reveal_strlit("\u{201A}");
        reveal_strlit("\u{00B9}");
        reveal_strlit("\u{00BA}");
        reveal_strlit("\u{00BB}");
        reveal_strlit("\u{2190}");
        reveal_strlit("\u{2642}");
        reveal_strlit("\u{2640}");
        reveal_strlit("\u{00BF}");
        reveal_strlit("\u{00C0}");
        reveal_strlit("\u{00C1}");
        reveal_strlit("\u{00C2}");
        reveal_strlit("\u{00C3}");
        reveal_strlit("\u{00C4}");
        reveal_strlit("\u{00C5}");
        reveal_strlit("\u{00C6}");
        reveal_strlit("\u{00C7}");
        reveal_strlit("\u{00C8}");
        reveal_strlit("\u{00C9}");
        reveal_strlit("\u{00CA}");
        reveal_strlit("\u{00CB}");
        reveal_strlit("\u{00CC}");
        reveal_strlit("\u{00CD}");
        reveal_strlit("\u{00CE}");
        reveal_strlit("\u{00CF}");
        reveal_strlit("\u{00D0}");
        reveal_strlit("\u{00D1}");
        reveal_strlit("\u{00D2}");
        reveal_strlit("\u{00D3}");
        reveal_strlit("\u{00D4}");
        reveal_strlit("\u{00D5}");
        reveal_strlit("\u{00D6}");
        reveal_strlit("\u{00D7}");
        reveal_strlit("\u{00D8}");
        reveal_strlit("\u{00D9}");
        reveal_strlit("\u{00DA}");
        reveal_strlit("\u{00DB}");
        reveal_strlit("\u{00DC}");
        reveal_strlit("\u{00DD}");
        reveal_strlit("\u{00DE}");
        reveal_strlit("\u{00DF}");
        reveal_strlit("\u{00E0}");
        reveal_strlit("\u{00E1}");
        reveal_strlit("\u{00E2}");
        reveal_strlit("\u{00E3}");
        reveal_strlit("\u{00E4}");
        reveal_strlit("\u{00E5}");
        reveal_strlit("\u{00E6}");
        reveal_strlit("\u{00E7}");
        reveal_strlit("\u{00E8}");
        reveal_strlit("\u{00E9}");
        reveal_strlit("\u{00EA}");
        reveal_strlit("\u{00EB}");
        reveal_strlit("\u{00EC}");
        reveal_strlit("\u{00ED}");
        reveal_strlit("\u{00EE}");
        reveal_strlit("\u{00EF}");
        reveal_strlit("\u{00F0}");
        reveal_strlit("\u{00F1}");
        reveal_strlit("\u{00F2}");
        reveal_strlit("\u{00F3}");
        reveal_strlit("\u{00F4}");
        reveal_strlit("\u{00F5}");
        reveal_strlit("\u{00F6}");
        reveal_strlit("\u{00F7}");
        reveal_strlit("\u{00F8}");
        reveal_strlit("\u{00F9}");
        reveal_strlit("\u{00FA}");
        reveal_strlit("\u{00FB}");
        reveal_strlit("\u{00FC}");
        reveal_strlit("\u{00FD}");
        reveal_strlit("\u{00FE}");
        reveal_strlit("\u{00FF}");
    }
    let shown = match byte {
        0x00 => "[END]",
        0x01 => "[$01]",
        0x02 => "[$02]",
        0x03 => "[$03]",
        0x04 => "[$04]",
        0x05 => "[$05]",
        0x06 => "[$06]",
        0x07 => "[$07]",
        0x08 => "[$08]",
        0x09 => "[$09]",
        0x0A => "[$0A]",
        0x0B => "[$0B]",
        0x0C => "[$0C]",
        0x0D => "[$0D]",
        0x0E => "[$0E]",
        0x0F => "[$0F]",
        0x10 => "[$10]",
        0x11 => "[$11]",
        0x12 => "[$12]",
        0x13 => "[$13]",
        0x14 => "[$14]",
        0x15 => "[$15]",
        0x16 => "[$16]",
        0x17 => "[$17]",
        0x18 => "[$18]",
        0x19 => "[$19]",
        0x1A => "[$1A]",
        0x1B => "[$1B]",
        0x1C => "[$1C]",
        0x1D => "[$1D]",
        0x1E => "[$1E]",
        0x1F => "[$1F]",
        0x20 => " ",
        0x21 => "!",
        0x22 => "\"",
        0x23 => "#",
        0x24 => "$",
        0x25 => "%",
        0x26 => "&",
        0x27 => "'",
        0x28 => "(",
        0x29 => ")",
        0x2A => "*",
        0x2B => "+",
        0x2C => ",",
        0x2D => "-",
        0x2E => ".",
        0x2F => "/",
        0x30 => "0",
        0x31 => "1",
        0x32 => "2",
        0x33 => "3",
        0x34 => "4",
        0x35 => "5",
        0x36 => "6",
        0x37 => "7",
        0x38 => "8",
        0x39 => "9",
        0x3A => ":",
        0x3B => ";",
        0x3C => "<",
        0x3D => "=",
        0x3E => ">",
        0x3F => "?",
        0x40 => "@",
        0x41 => "A",
        0x42 => "B",
        0x43 => "C",
        0x44 => "D",
        0x45 => "E",
        0x46 => "F",
        0x47 => "G",
        0x48 => "H",
        0x49 => "I",
        0x4A => "J",
        0x4B => "K",
        0x4C => "L",
        0x4D => "M",
        0x4E => "N",
        0x4F => "O",
        0x50 => "P",
        0x51 => "Q",
        0x52 => "R",
        0x53 => "S",
        0x54 => "T",
        0x55 => "U",
        0x56 => "V",
        0x57 => "W",
        0x58 => "X",
        0x59 => "Y",
        0x5A => "Z",
        0x5B => "[$5B]",
        0x5C => "\\",
        0x5D => "]",
        0x5E => "^",
        0x5F => "_",
        0x60 => "`",
        0x61 => "a",
        0x62 => "b",
        0x63 => "c",
        0x64 => "d",
        0x65 => "e",
        0x66 => "f",
        0x67 => "g",
        0x68 => "h",
        0x69 => "i",
        0x6A => "j",
        0x6B => "k",
        0x6C => "l",
        0x6D => "m",
        0x6E => "n",
        0x6F => "o",
        0x70 => "p",
        0x71 => "q",
        0x72 => "r",
        0x73 => "s",
        0x74 => "t",
        0x75 => "u",
        0x76 => "v",
        0x77 => "w",
        0x78 => "x",
        0x79 => "y",
        0x7A => "z",
        0x7B => "{",
        0x7C => "|",
        0x7D => "}",
        0x7E => "[$7E]",
        0x7F => "[$7F]",
        0x80 => "\u{20AC}",
        0x81 => "[$81]",
        0x82 => "[$82]",
        0x83 => "[$83]",
        0x84 => "[$84]",
        0x85 => "\u{2026}",
        0x86 => "\u{2020}",
        0x87 => "[$87]",
        0x88 => "\u{02C6}",
        0x89 => "\u{2030}",
        0x8A => "\u{0160}",
        0x8B => "\u{2039}",
        0x8C => "\u{0152}",
        0x8D => "[e]",
        0x8E => "\u{017D}",
        0x8F => "[\u{00E8}]",
        0x90 => "\u{2022}",
        0x91 => "\u{2018}",
        0x92 => "\u{2019}",
        0x93 => "\u{201C}",
        0x94 => "\u{201D}",
        0x95 => "\u{2022}",
        0x96 => "[er]",
        0x97 => "[re]",
        0x98 => "~",
        0x99 => "\u{2122}",
        0x9A => "\u{0161}",
        0x9B => "\u{203A}",
        0x9C => "\u{0153}",
        0x9D => "\u{2022}",
        0x9E => "\u{017E}",
        0x9F => "\u{0178}",
        0xA0 => " ",
        0xA1 => "\u{00A1}",
        0xA2 => "\u{00A2}",
        0xA3 => "\u{00A3}",
        0xA4 => "\u{00A4}",
        0xA5 => "\u{00A5}",
        0xA6 => "\u{00A6}",
        0xA7 => "\u{00A7}",
        0xA8 => "\u{00A8}",
        0xA9 => "\u{00A9}",
        0xAA => "\u{00AA}",
        0xAB => "\u{00AB}",
        0xAC => "\u{00AC}",
        0xAD => "\u{00AD}",
        0xAE => "\u{00AE}",
        0xAF => "\u{00AF}",
        0xB0 => "\u{00B0}",
        0xB1 => "\u{00B1}",
        0xB2 => "\u{00B2}",
        0xB3 => "\u{00B3}",
        0xB4 => "\u{00B4}",
        0xB5 => "\u{00B5}",
        0xB6 => "\u{00B6}",
        0xB7 => "\u{201E}",
        0xB8 => "\u{201A}",
        0xB9 => "\u{00B9}",
        0xBA => "\u{00BA}",
        0xBB => "\u{00BB}",
        0xBC => "\u{2190}",
        0xBD => "\u{2642}",
        0xBE => "\u{2640}",
        0xBF => "\u{00BF}",
        0xC0 => "\u{00C0}",
        0xC1 => "\u{00C1}",
        0xC2 => "\u{00C2}",
        0xC3 => "\u{00C3}",
        0xC4 => "\u{00C4}",
        0xC5 => "\u{00C5}",
        0xC6 => "\u{00C6}",
        0xC7 => "\u{00C7}",
        0xC8 => "\u{00C8}",
        0xC9 => "\u{00C9}",
        0xCA => "\u{00CA}",
        0xCB => "\u{00CB}",
        0xCC => "\u{00CC}",
        0xCD => "\u{00CD}",
        0xCE => "\u{00CE}",
        0xCF => "\u{00CF}",
        0xD0 => "\u{00D0}",
        0xD1 => "\u{00D1}",
        0xD2 => "\u{00D2}",
        0xD3 => "\u{00D3}",
        0xD4 => "\u{00D4}",
        0xD5 => "\u{00D5}",
        0xD6 => "\u{00D6}",
        0xD7 => "\u{00D7}",
        0xD8 => "\u{00D8}",
        0xD9 => "\u{00D9}",
        0xDA => "\u{00DA}",
        0xDB => "\u{00DB}",
        0xDC => "\u{00DC}",
        0xDD => "\u{00DD}",
        0xDE => "\u{00DE}",
        0xDF => "\u{00DF}",
        0xE0 => "\u{00E0}",
        0xE1 => "\u{00E1}",
        0xE2 => "\u{00E2}",
        0xE3 => "\u{00E3}",
        0xE4 => "\u{00E4}",
        0xE5 => "\u{00E5}",
        0xE6 => "\u{00E6}",
        0xE7 => "\u{00E7}",
        0xE8 => "\u{00E8}",
        0xE9 => "\u{00E9}",
        0xEA => "\u{00EA}",
        0xEB => "\u{00EB}",
        0xEC => "\u{00EC}",
        0xED => "\u{00ED}",
        0xEE => "\u{00EE}",
        0xEF => "\u{00EF}",
        0xF0 => "\u{00F0}",
        0xF1 => "\u{00F1}",
        0xF2 => "\u{00F2}",
        0xF3 => "\u{00F3}",
        0xF4 => "\u{00F4}",
        0xF5 => "\u{00F5}",
        0xF6 => "\u{00F6}",
        0xF7 => "\u{00F7}",
        0xF8 => "\u{00F8}",
        0xF9 => "\u{00F9}",
        0xFA => "\u{00FA}",
        0xFB => "\u{00FB}",
        0xFC => "\u{00FC}",
        0xFD => "\u{00FD}",
        0xFE => "\u{00FE}",
        0xFF => "\u{00FF}",
    };
    assert(shown@ =~= display_of(byte));
    Ok(shown)
}

/// One character of a name: the byte that the save holds, and a single
/// character that stands for it.
#[derive(Debug, Clone, Copy, PartialEq, Eq, PartialOrd, Ord, Hash, Structural)]
pub struct PmdChar {
    /// The byte in the save.
    pub pmd: u8,
    /// The character that shows the byte, or for an escape the character with
    /// the byte's own number.
    pub utf8: char,
}

impl PmdChar {
    /// The character that stands for `byte`.
    pub open spec fn of_byte(byte: u8) -> PmdChar {
        PmdChar { pmd: byte, utf8: utf8_of(byte) }
    }

    /// The character that `seq` is written as: `seq` is one character, or one
    /// escape in square brackets.
    pub fn from_sequence(seq: &str) -> (r: Result<Self, EncodingError>)
        ensures
            match byte_of_display(seq@) {
                Some(byte) => r == Ok::<PmdChar, EncodingError>(PmdChar::of_byte(byte)),
                None => r is Err && r->Err_0@ == EncodingFailure::InvalidPmdCharacter(seq@),
            },
    {
        let chars = chars_of(seq);
        match pmd_chars_to_byte(chars.as_slice()) {
            Some(pmd) => {
                proof {
                    lemma_byte_of_display(pmd, seq@);
                    lemma_display_shape(pmd);
                }
                let first = chars[0];
                let utf8 = if first == '[' {
                    pmd as char
                } else {
                    first
                };
                Ok(PmdChar { pmd, utf8 })
            },
            None => Err(EncodingError::InvalidPmdCharacter(string_of(chars.as_slice()))),
        }
    }

    /// How the character is shown.
    pub fn to_sequence(&self) -> (r: String)
        ensures
            r@ == display_of(self.pmd),
    {
        broadcast use vstd::string::to_string_from_display_ensures_for_str;

        byte_to_pmd_seq(self.pmd).unwrap().to_string()
    }
}

impl From<u8> for PmdChar {
    /// The character that stands for the byte `value` of a save.
    fn from(value: u8) -> (r: Self) {
        let utf8 = if escaped(value) {
            value as char
        } else {
            glyph_of(value)
        };
        PmdChar { pmd: value, utf8 }
    }
}

impl vstd::std_specs::convert::FromSpecImpl<u8> for PmdChar {
    open spec fn obeys_from_spec() -> bool {
        true
    }

    open spec fn from_spec(value: u8) -> Self {
        PmdChar::of_byte(value)
    }
}

/// The characters that stand for `bytes`, one for each byte.
pub open spec fn decode_string(bytes: Seq<u8>) -> Seq<PmdChar> {
    Seq::new(bytes.len(), |i: int| PmdChar::of_byte(bytes[i]))
}

/// The bytes that `chars` are written as, without padding.
pub open spec fn bytes_of_chars(chars: Seq<PmdChar>) -> Seq<u8> {
    Seq::new(chars.len(), |i: int| chars[i].pmd)
}

/// The ten bytes of the save that hold `chars`: their bytes, then zeros.
pub open spec fn save_bytes(chars: Seq<PmdChar>) -> Seq<u8> {
    Seq::new(
        10,
        |i: int|
            if i < chars.len() {
                chars[i].pmd
            } else {
                0u8
            },
    )
}

/// How `chars` are shown, one after the other, escapes included.
pub open spec fn display_text(chars: Seq<PmdChar>) -> Seq<char>
    decreases chars.len(),
{
    if chars.len() == 0 {
        Seq::empty()
    } else {
        display_of(chars[0].pmd) + display_text(chars.drop_first())
    }
}

/// The single characters of `chars`, one for each.
pub open spec fn plain_text(chars: Seq<PmdChar>) -> Seq<char> {
    Seq::new(chars.len(), |i: int| chars[i].utf8)
}

/// The single characters of `chars` up to the first whose byte is zero.
pub open spec fn text_until_nul(chars: Seq<PmdChar>) -> Seq<char>
    decreases chars.len(),
{
    if chars.len() == 0 || chars[0].pmd == 0 {
        Seq::empty()
    } else {
        seq![chars[0].utf8] + text_until_nul(chars.drop_first())
    }
}

/// How many characters of `text`, from `from` on, come before the next
/// closing bracket, or before the end where there is none.
pub open spec fn run_len(text: Seq<char>, from: int) -> nat
    decreases text.len() - from,
{
    if from < 0 || from >= text.len() || text[from] == ']' {
        0
    } else {
        1 + run_len(text, from + 1)
    }
}

/// The first character or escape of a text that is not empty. An escape
/// that the text ends in the middle of counts as closed.
pub open spec fn first_token(text: Seq<char>) -> Seq<char> {
    if text[0] == '[' {
        text.subrange(0, 1 + run_len(text, 1) as int) + seq![']']
    } else {
        text.subrange(0, 1)
    }
}

/// How many characters of a text that is not empty its first token takes.
pub open spec fn first_token_len(text: Seq<char>) -> int {
    if text[0] == '[' {
        if 1 + run_len(text, 1) < text.len() {
            2 + run_len(text, 1) as int
        } else {
            text.len() as int
        }
    } else {
        1
    }
}

/// What a text is written as, with room for `room` more characters: token by
/// token from the left, up to the first token that is written as no byte or
/// that there is no room for.
pub open spec fn encode_text(text: Seq<char>, room: nat) -> Result<Seq<PmdChar>, EncodingFailure>
    decreases text.len(),
{
    if text.len() == 0 {
        Ok(Seq::empty())
    } else {
        let token = first_token(text);
        let rest = text.subrange(first_token_len(text), text.len() as int);
        match byte_of_display(token) {
            None => Err(EncodingFailure::InvalidPmdCharacter(token)),
            Some(byte) => if room == 0 {
                Err(EncodingFailure::InvalidPmdStringLen)
            } else {
                match encode_text(rest, (room - 1) as nat) {
                    Ok(chars) => Ok(seq![PmdChar::of_byte(byte)] + chars),
                    Err(e) => Err(e),
                }
            },
        }
    }
}

/// `found` after the characters `before`, where it is no failure.
pub open spec fn after(before: Seq<PmdChar>, found: Result<Seq<PmdChar>, EncodingFailure>) -> Result<
    Seq<PmdChar>,
    EncodingFailure,
> {
    match found {
        Ok(chars) => Ok(before + chars),
        Err(e) => Err(e),
    }
}

/// A name in the game's character set: at most ten characters. The save
/// keeps ten bytes for it, and the game shows it up to the first zero byte.
#[derive(Debug, Eq, PartialEq, Ord, PartialOrd, Hash)]
pub struct PmdString(ArrayVec<PmdChar, 10>);

impl View for PmdString {
    type V = Seq<PmdChar>;

    closed spec fn view(&self) -> Seq<PmdChar> {
        chars_in(self.0)
    }
}

impl Clone for PmdString {
    fn clone(&self) -> (r: Self)
        ensures
            r@ == self@,
    {
        PmdString(chars_clone(&self.0))
    }
}

impl PmdString {
    /// A name without characters.
    pub fn new() -> (r: Self)
        ensures
            r@ == Seq::<PmdChar>::empty(),
    {
        PmdString(chars_new())
    }
}

/// Where the next closing bracket is at `close`, `run_len` counts up to it.
pub proof fn lemma_run_len_to(text: Seq<char>, from: int, close: int)
    requires
        0 <= from <= close < text.len(),
        forall|k: int| from <= k < close ==> text[k] != ']',
        text[close] == ']',
    ensures
        run_len(text, from) == close - from,
    decreases close - from,
{
    if from < close {
        lemma_run_len_to(text, from + 1, close);
    }
}

/// A text that opens with how a byte is shown has that as its first token.
pub proof fn lemma_first_token_of_display(byte: u8, tail: Seq<char>)
    ensures
        first_token(display_of(byte) + tail) == display_of(byte),
        first_token_len(display_of(byte) + tail) == display_of(byte).len(),
        (display_of(byte) + tail).subrange(
            display_of(byte).len() as int,
            (display_of(byte) + tail).len() as int,
        ) == tail,
{
    let shown = display_of(byte);
    let text = shown + tail;
    lemma_display_shape(byte);
    if is_escape(byte) {
        let close = shown.len() - 1;
        assert forall|k: int| 1 <= k < close implies text[k] != ']' by {
            assert(text[k] == shown[k]);
        }
        assert(text[close] == shown[close]);
        lemma_run_len_to(text, 1, close);
        assert(first_token(text) =~= shown);
    } else {
        assert(text[0] == glyph(byte));
        assert(first_token(text) =~= shown);
    }
    assert(text.subrange(shown.len() as int, text.len() as int) =~= tail);
}

/// How characters are shown, where one more is added at the end.
pub proof fn lemma_display_text_push(chars: Seq<PmdChar>, c: PmdChar)
    ensures
        display_text(chars.push(c)) == display_text(chars) + display_of(c.pmd),
    decreases chars.len(),
{
    if chars.len() == 0 {
        assert(chars.push(c).drop_first() =~= Seq::<PmdChar>::empty());
        assert(display_text(Seq::<PmdChar>::empty()) =~= Seq::<char>::empty());
        assert(display_text(chars.push(c)) =~= display_of(c.pmd));
        assert(display_text(chars) + display_of(c.pmd) =~= display_of(c.pmd));
    } else {
        lemma_display_text_push(chars.drop_first(), c);
        assert(chars.push(c).drop_first() =~= chars.drop_first().push(c));
        assert(display_text(chars.push(c)) =~= display_text(chars) + display_of(c.pmd));
    }
}

/// Each byte replaced by the byte that is written for what shows it.
pub open spec fn canonical_bytes(bytes: Seq<u8>) -> Seq<u8> {
    Seq::new(bytes.len(), |i: int| canonical(bytes[i]))
}

/// The text that shows `bytes` is written as the characters of `bytes`, each
/// duplicate replaced by the byte that it is shown like, where there is room
/// for them.
pub proof fn lemma_encode_display(bytes: Seq<u8>, room: nat)
    requires
        bytes.len() <= room,
    ensures
        encode_text(display_text(decode_string(bytes)), room) == Ok::<
            Seq<PmdChar>,
            EncodingFailure,
        >(decode_string(canonical_bytes(bytes))),
    decreases bytes.len(),
{
    let chars = decode_string(bytes);
    let text = display_text(chars);
    let wanted = decode_string(canonical_bytes(bytes));
    if bytes.len() == 0 {
        assert(wanted =~= Seq::<PmdChar>::empty());
    } else {
        let tail_bytes = bytes.drop_first();
        let tail = display_text(decode_string(tail_bytes));
        assert(chars.drop_first() =~= decode_string(tail_bytes));
        assert(text == display_of(bytes[0]) + tail);
        lemma_first_token_of_display(bytes[0], tail);
        lemma_encode_decode_char(bytes[0]);
        lemma_display_shape(bytes[0]);
        lemma_encode_display(tail_bytes, (room - 1) as nat);
        assert(seq![PmdChar::of_byte(canonical(bytes[0]))] + decode_string(
            canonical_bytes(tail_bytes),
        ) =~= wanted);
    }
}

/// Showing the bytes of a name and writing the text back gives the bytes,
/// each duplicate replaced by the byte that it is shown like; so it gives the
/// bytes themselves where none is a duplicate.
pub proof fn lemma_encode_decode_string(bytes: Seq<u8>)
    requires
        bytes.len() <= 10,
    ensures
        encode_text(display_text(decode_string(bytes)), 10) == Ok::<Seq<PmdChar>, EncodingFailure>(
            decode_string(canonical_bytes(bytes)),
        ),
        bytes.len() == 10 ==> save_bytes(decode_string(canonical_bytes(bytes))) == canonical_bytes(
            bytes,
        ),
        (forall|i: int| 0 <= i < bytes.len() ==> !is_duplicate(bytes[i])) ==> canonical_bytes(bytes)
            == bytes,
{
    lemma_encode_display(bytes, 10);
    if bytes.len() == 10 {
        assert(save_bytes(decode_string(canonical_bytes(bytes))) =~= canonical_bytes(bytes));
    }
    if forall|i: int| 0 <= i < bytes.len() ==> !is_duplicate(bytes[i]) {
        assert(canonical_bytes(bytes) =~= bytes);
    }
}

/// The ten bytes kept for a name read from ten bytes are those bytes.
pub proof fn lemma_save_bytes_of_decoded(bytes: Seq<u8>)
    requires
        bytes.len() == 10,
    ensures
        save_bytes(decode_string(bytes)) == bytes,
{
    assert(save_bytes(decode_string(bytes)) =~= bytes);
}

impl PmdString {
    /// How the name is shown, escapes included: every character, also those
    /// after a zero byte.
    pub fn to_sequence(&self) -> (r: String)
        ensures
            r@ == display_text(self@),
    {
        let n = chars_len(&self.0);
        let mut out = String::new();
        let mut i: usize = 0;
        assert(self@.subrange(0, 0) =~= Seq::<PmdChar>::empty());
        while i < n
            invariant
                n == self@.len(),
                i <= n,
                out@ == display_text(self@.subrange(0, i as int)),
            decreases n - i,
        {
            let c = chars_get(&self.0, i);
            let shown = c.to_sequence();
            out.append(shown.as_str());
            proof {
                lemma_display_text_push(self@.subrange(0, i as int), c);
                assert(self@.subrange(0, i as int).push(c) =~= self@.subrange(0, i + 1));
            }
            i += 1;
        }
        assert(self@.subrange(0, n as int) =~= self@);
        out
    }

    /// The ten bytes that the save keeps for the name: the bytes of its
    /// characters, then zeros.
    pub fn to_save_bytes(&self) -> (r: [u8; 10])
        ensures
            r@ == save_bytes(self@),
    {
        let n = chars_len(&self.0);
        let mut result = [0u8; 10];
        let mut i: usize = 0;
        while i < n
            invariant
                n == self@.len(),
                n <= 10,
                i <= n,
                forall|k: int| 0 <= k < i ==> result@[k] == self@[k].pmd,
                forall|k: int| i <= k < 10 ==> result@[k] == 0,
            decreases n - i,
        {
            let c = chars_get(&self.0, i);
            result[i] = c.pmd;
            i += 1;
        }
        assert(result@ =~= save_bytes(self@));
        result
    }

    /// The name as the game shows it: the single characters up to the first
    /// zero byte.
    pub fn to_string_until_nul(&self) -> (r: String)
        ensures
            r@ == text_until_nul(self@),
    {
        let n = chars_len(&self.0);
        let mut out = String::new();
        let mut i: usize = 0;
        assert(self@.subrange(0, n as int) =~= self@);
        while i < n
            invariant
                n == self@.len(),
                i <= n,
                text_until_nul(self@) == out@ + text_until_nul(self@.subrange(i as int, n as int)),
            decreases n - i,
        {
            let c = chars_get(&self.0, i);
            let ghost rest = self@.subrange(i as int, n as int);
            assert(rest[0] == c);
            if c.pmd == 0 {
                assert(out@ + Seq::<char>::empty() =~= out@);
                return out;
            }
            let ghost before = out@;
            out.push(c.utf8);
            proof {
                assert(rest.drop_first() =~= self@.subrange(i + 1, n as int));
                assert(before + (seq![c.utf8] + text_until_nul(rest.drop_first())) =~= before.push(
                    c.utf8,
                ) + text_until_nul(rest.drop_first()));
            }
            i += 1;
        }
        assert(out@ + Seq::<char>::empty() =~= out@);
        out
    }

    /// The single characters of the name, all of them, zero bytes included.
    pub fn to_string(&self) -> (r: String)
        ensures
            r@ == plain_text(self@),
    {
        let n = chars_len(&self.0);
        let mut out = String::new();
        let mut i: usize = 0;
        while i < n
            invariant
                n == self@.len(),
                i <= n,
                out@ == plain_text(self@).subrange(0, i as int),
            decreases n - i,
        {
            let c = chars_get(&self.0, i);
            out.push(c.utf8);
            i += 1;
            assert(out@ =~= plain_text(self@).subrange(0, i as int));
        }
        assert(out@ =~= plain_text(self@));
        out
    }

    /// The name that at most ten bytes of a save hold: one character for
    /// each byte, zero bytes included.
    pub fn from(value: &[u8]) -> (r: Self)
        requires
            value@.len() <= 10,
        ensures
            r@ == decode_string(value@),
    {
        let mut result = PmdString::new();
        let mut i: usize = 0;
        while i < value.len()
            invariant
                value@.len() <= 10,
                i <= value@.len(),
                result@ == decode_string(value@).subrange(0, i as int),
            decreases value@.len() - i,
        {
            let c = PmdChar::from(value[i]);
            match chars_try_push(&mut result.0, c) {
                Ok(()) => {},
                Err(_) => {
                    assert(false);
                },
            }
            i += 1;
            assert(result@ =~= decode_string(value@).subrange(0, i as int));
        }
        assert(result@ =~= decode_string(value@));
        result
    }

    /// The name in the eighty bits of `data` that start at bit `start`.
    pub fn from_bitslice(data: &[u8], start: usize) -> (r: Self)
        requires
            data@.len() <= max_buf_len(),
            start + 80 <= 8 * data@.len(),
        ensures
            r@ == decode_string(bytes_of(bits_of(data@).subrange(start as int, start + 80))),
    {
        let mut bytes = zeroed(10);
        let ghost field = bits_of(data@).subrange(start as int, start + 80);
        copy_bits(&mut bytes, 0, 80, data, start, start + 80);
        proof {
            assert(bits_of(bytes@) =~= field);
            lemma_bytes_of_bits_of(bytes@);
        }
        PmdString::from(bytes.as_slice())
    }
}

impl From<PmdString> for Vec<u8> {
    /// The bytes of the name's characters, without padding.
    fn from(value: PmdString) -> (r: Vec<u8>)
        ensures
            r@ == bytes_of_chars(value@),
    {
        let n = chars_len(&value.0);
        let mut out: Vec<u8> = Vec::new();
        let mut i: usize = 0;
        while i < n
            invariant
                n == value@.len(),
                i <= n,
                out@ == bytes_of_chars(value@).subrange(0, i as int),
            decreases n - i,
        {
            let c = chars_get(&value.0, i);
            out.push(c.pmd);
            i += 1;
            assert(out@ =~= bytes_of_chars(value@).subrange(0, i as int));
        }
        assert(out@ =~= bytes_of_chars(value@));
        out
    }
}

impl vstd::std_specs::convert::FromSpecImpl<PmdString> for Vec<u8> {
    open spec fn obeys_from_spec() -> bool {
        false
    }

    open spec fn from_spec(value: PmdString) -> Vec<u8> {
        arbitrary()
    }
}

impl TryFrom<&str> for PmdString {
    type Error = EncodingError;

    /// The name that a text is written as. The text is read from the left: an
    /// opening bracket starts an escape that runs to the next closing
    /// bracket, any other character stands for itself. The first token that
    /// is written as no byte, or that is the eleventh, ends it with an error.
    fn try_from(value: &str) -> (r: Result<Self, EncodingError>)
        ensures
            match encode_text(value@, 10) {
                Ok(chars) => r is Ok && r->Ok_0@ == chars,
                Err(e) => r is Err && r->Err_0@ == e,
            },
    {
        let chars = chars_of(value);
        let text = chars.as_slice();
        let n = text.len();
        let mut result = PmdString::new();
        let mut i: usize = 0;
        proof {
            assert(value@.subrange(0, n as int) =~= value@);
            assert(Seq::<PmdChar>::empty() + encode_text(value@, 10)->Ok_0 =~= encode_text(
                value@,
                10,
            )->Ok_0);
        }
        while i < n
            invariant
                n == text@.len(),
                text@ == value@,
                i <= n,
                result@.len() <= 10,
                encode_text(value@, 10) == after(
                    result@,
                    encode_text(value@.subrange(i as int, n as int), (10 - result@.len()) as nat),
                ),
            decreases n - i,
        {
            let ghost rest = value@.subrange(i as int, n as int);
            let ghost room = (10 - result@.len()) as nat;
            let ghost before = result@;
            let mut token: Vec<char> = Vec::new();
            let first = text[i];
            token.push(first);
            let next: usize;
            if first == '[' {
                let mut j: usize = i + 1;
                while j < n && text[j] != ']'
                    invariant
                        n == text@.len(),
                        text@ == value@,
                        rest == value@.subrange(i as int, n as int),
                        i < j <= n,
                        token@ == rest.subrange(0, j - i),
                        run_len(rest, 1) == (j - i - 1) + run_len(rest, j - i),
                    decreases n - j,
                {
                    token.push(text[j]);
                    assert(token@ =~= rest.subrange(0, j + 1 - i));
                    j += 1;
                }
                token.push(']');
                next = if j < n {
                    j + 1
                } else {
                    j
                };
                assert(token@ =~= first_token(rest));
            } else {
                next = i + 1;
                assert(token@ =~= first_token(rest));
            }
            assert(next - i == first_token_len(rest));
            assert(rest.subrange(first_token_len(rest), rest.len() as int) =~= value@.subrange(
                next as int,
                n as int,
            ));
            match pmd_chars_to_byte(token.as_slice()) {
                None => {
                    return Err(EncodingError::InvalidPmdCharacter(string_of(token.as_slice())));
                },
                Some(pmd) => {
                    proof {
                        lemma_byte_of_display(pmd, token@);
                        lemma_display_shape(pmd);
                    }
                    let utf8 = if first == '[' {
                        pmd as char
                    } else {
                        first
                    };
                    let c = PmdChar { pmd, utf8 };
                    assert(token@[0] == first);
                    assert(c == PmdChar::of_byte(pmd));
                    match chars_try_push(&mut result.0, c) {
                        Ok(()) => {},
                        Err(_) => {
                            return Err(EncodingError::InvalidPmdStringLen);
                        },
                    }
                    proof {
                        let found = encode_text(value@.subrange(next as int, n as int), (room - 1) as nat);
                        if found is Ok {
                            let tail = found->Ok_0;
                            let one = seq![c];
                            assert(before.push(c) =~= before + one);
                            assert(before + (one + tail) =~= (before + one) + tail);
                        }
                    }
                },
            }
            i = next;
        }
        proof {
            assert(result@ + Seq::<PmdChar>::empty() =~= result@);
        }
        Ok(result)
    }
}

impl vstd::std_specs::convert::TryFromSpecImpl<&str> for PmdString {
    open spec fn obeys_try_from_spec() -> bool {
        false
    }

    open spec fn try_from_spec(value: &str) -> Result<Self, EncodingError> {
        arbitrary()
    }
}

impl Default for PmdString {
    fn default() -> (r: Self)
        ensures
            r@ == Seq::<PmdChar>::empty(),
    {
        PmdString::new()
    }
}

} // verus!
