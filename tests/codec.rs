use hex_bytes::decode::{chars_of, consume_hex_buffer, decode_from_hex, hex_digit_value, parse_chunk, white_space};
use hex_bytes::encode::{encode_bytes_to_hex, encode_to_hex, hex_digit};
use hex_bytes::model::{Model, Msg};

#[test]
fn encode_empty() {
    assert_eq!(encode_to_hex(""), "");
}

#[test]
fn decode_empty() {
    assert_eq!(decode_from_hex(""), "");
}

#[test]
fn encode_single_byte() {
    assert_eq!(encode_to_hex("A"), "41");
}

#[test]
fn encode_two_bytes() {
    assert_eq!(encode_to_hex("AB"), "41 42");
}

#[test]
fn decode_two_bytes() {
    assert_eq!(decode_from_hex("41 42"), "AB");
}

#[test]
fn decode_single_leftover_digit() {
    assert_eq!(decode_from_hex("4"), "\u{4}");
    assert_eq!(decode_from_hex("f"), "\u{f}");
}

#[test]
fn decode_not_hex() {
    assert_eq!(decode_from_hex("zz"), "<NO_HEX>");
}

#[test]
fn decode_half_hex_chunk_fails_whole() {
    assert_eq!(decode_from_hex("4z"), "<NO_HEX>");
}

#[test]
fn decode_tokens_joined_without_separator() {
    assert_eq!(decode_from_hex("41 zz 42"), "A<NO_HEX>B");
}

#[test]
fn encode_multibyte_utf8() {
    assert_eq!(encode_to_hex("é"), "c3 a9");
    assert_eq!(encode_to_hex("€"), "e2 82 ac");
    assert_eq!(encode_to_hex("a\n"), "61 0a");
}

#[test]
fn encode_bytes_lowercase_and_padded() {
    assert_eq!(encode_bytes_to_hex(&[0x00, 0x0f, 0xab, 0xff]), "00 0f ab ff");
    assert_eq!(encode_bytes_to_hex(&[]), "");
}

#[test]
fn decode_latin1_not_utf8() {
    let r = decode_from_hex("c3 a9");
    let cs: Vec<char> = r.chars().collect();
    assert_eq!(cs, vec!['\u{c3}', '\u{a9}']);
}

#[test]
fn decode_uppercase_digits() {
    assert_eq!(decode_from_hex("4A 4a"), "JJ");
}

#[test]
fn decode_runs_without_spaces() {
    assert_eq!(decode_from_hex("414243"), "ABC");
    assert_eq!(decode_from_hex("41424"), "AB\u{4}");
}

#[test]
fn decode_odd_token_does_not_merge_with_next() {
    assert_eq!(decode_from_hex("414 1"), "A\u{4}\u{1}");
}

#[test]
fn decode_irregular_whitespace() {
    assert_eq!(decode_from_hex("  41\t\t42\n\r\n43  "), "ABC");
    assert_eq!(decode_from_hex("41\u{3000}42\u{a0}43"), "ABC");
}

#[test]
fn decode_sign_is_not_hex() {
    assert_eq!(decode_from_hex("+4"), "<NO_HEX>");
    assert_eq!(decode_from_hex("-"), "<NO_HEX>");
}

#[test]
fn decode_marker_per_chunk() {
    assert_eq!(decode_from_hex("zzzz"), "<NO_HEX><NO_HEX>");
    assert_eq!(decode_from_hex("41g"), "A<NO_HEX>");
}

#[test]
fn round_trip_every_byte() {
    let bytes: Vec<u8> = (0..=255u8).collect();
    let hex = encode_bytes_to_hex(&bytes);
    let back: Vec<char> = decode_from_hex(&hex).chars().collect();
    let expected: Vec<char> = bytes.iter().map(|b| *b as char).collect();
    assert_eq!(back, expected);
}

#[test]
fn round_trip_text() {
    let hex = encode_to_hex("Hé!");
    assert_eq!(hex, "48 c3 a9 21");
    assert_eq!(decode_from_hex(&hex), "H\u{c3}\u{a9}!");
}

#[test]
fn hex_digits_both_ways() {
    assert_eq!(hex_digit(0), '0');
    assert_eq!(hex_digit(9), '9');
    assert_eq!(hex_digit(10), 'a');
    assert_eq!(hex_digit(15), 'f');
    assert_eq!(hex_digit_value('7'), Some(7));
    assert_eq!(hex_digit_value('b'), Some(11));
    assert_eq!(hex_digit_value('F'), Some(15));
    assert_eq!(hex_digit_value('g'), None);
}

#[test]
fn parse_chunks() {
    assert_eq!(parse_chunk(&vec!['f']), Some(15));
    assert_eq!(parse_chunk(&vec!['f', 'f']), Some(255));
    assert_eq!(parse_chunk(&vec!['1', '0']), Some(16));
    assert_eq!(parse_chunk(&vec!['x']), None);
    assert_eq!(parse_chunk(&vec![]), None);
    assert_eq!(parse_chunk(&vec!['1', '2', '3']), None);
}

#[test]
fn consume_buffer_appends_and_clears() {
    let mut ascii = String::from("x");
    let mut buffer = vec!['4', '1'];
    consume_hex_buffer(&mut ascii, &mut buffer);
    assert_eq!(ascii, "xA");
    assert!(buffer.is_empty());
    let mut buffer = vec!['q'];
    consume_hex_buffer(&mut ascii, &mut buffer);
    assert_eq!(ascii, "xA<NO_HEX>");
    assert!(buffer.is_empty());
}

#[test]
fn whitespace_classes() {
    assert!(white_space(' '));
    assert!(white_space('\t'));
    assert!(white_space('\u{85}'));
    assert!(white_space('\u{2029}'));
    assert!(!white_space('a'));
    assert!(!white_space('\u{200b}'));
}

#[test]
fn chars_in_order() {
    assert_eq!(chars_of("aé€"), vec!['a', 'é', '€']);
    assert_eq!(chars_of(""), Vec::<char>::new());
}

#[test]
fn model_starts_empty() {
    let m = Model::create();
    assert_eq!(m.utf8_input, "");
    assert_eq!(m.hex_from_utf8, "");
    assert_eq!(m.hex_input, "");
    assert_eq!(m.ascii_from_hex, "");
}

#[test]
fn model_updates_one_side() {
    let mut m = Model::create();
    assert!(m.update(Msg::Utf8Typed(String::from("AB"))));
    assert_eq!(m.utf8_input, "AB");
    assert_eq!(m.hex_from_utf8, "41 42");
    assert_eq!(m.hex_input, "");
    assert_eq!(m.ascii_from_hex, "");
    assert!(m.update(Msg::HexTyped(String::from("41 zz 42"))));
    assert_eq!(m.utf8_input, "AB");
    assert_eq!(m.hex_from_utf8, "41 42");
    assert_eq!(m.hex_input, "41 zz 42");
    assert_eq!(m.ascii_from_hex, "A<NO_HEX>B");
}
