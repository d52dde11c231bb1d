//! Tests of the fallback encoder: buffers that match no escape sequence
//! are re-read as plain text, control, and Alt-modified events.

use terminal_input::fallback::encode_extended_string;
use terminal_input::keys::ExtendedChar;

fn txt(s: &str) -> ExtendedChar {
    ExtendedChar::CharString(s.to_string())
}

#[test]
fn printable_run_round_trips() {
    // A buffer of printable characters comes back as one plain-text run
    // holding exactly the input content.
    assert_eq!(encode_extended_string(b"Hello, world!"), vec![txt("Hello, world!")]);
    assert_eq!(encode_extended_string(b"A"), vec![txt("A")]);
    assert_eq!(encode_extended_string(b" ~"), vec![txt(" ~")]);
}

#[test]
fn empty_buffer_yields_nothing() {
    assert_eq!(encode_extended_string(b""), vec![]);
}

#[test]
fn lone_escape_is_its_own_event() {
    assert_eq!(encode_extended_string(b"\x1b"), vec![ExtendedChar::Byte(0x1b)]);
}

#[test]
fn escape_binds_to_next_character() {
    assert_eq!(encode_extended_string(b"\x1ba"), vec![ExtendedChar::AltByte(b'a')]);
    // A doubled escape reads as Alt + ESC.
    assert_eq!(encode_extended_string(b"\x1b\x1b"), vec![ExtendedChar::AltByte(0x1b)]);
    // An escape before a control byte reads as Ctrl-Alt of that letter.
    assert_eq!(encode_extended_string(b"\x1b\x03"), vec![ExtendedChar::AltByte(3)]);
}

#[test]
fn control_bytes_come_out_alone() {
    assert_eq!(encode_extended_string(b"\x03"), vec![ExtendedChar::Byte(3)]);
    assert_eq!(encode_extended_string(b"\x7f"), vec![ExtendedChar::Byte(0x7f)]);
    assert_eq!(
        encode_extended_string(b"ab\x03cd"),
        vec![txt("ab"), ExtendedChar::Byte(3), txt("cd")]
    );
}

#[test]
fn trailing_escape_is_kept() {
    assert_eq!(encode_extended_string(b"ab\x1b"), vec![txt("ab"), ExtendedChar::Byte(0x1b)]);
}

#[test]
fn latin1_characters_become_bytes() {
    // "é" is U+00E9: within the byte range, so it reads as a raw byte.
    assert_eq!(encode_extended_string("é".as_bytes()), vec![ExtendedChar::Byte(0xe9)]);
}

#[test]
fn wide_characters_stay_characters() {
    // "€" is U+20AC: beyond the byte range, so it stays a character.
    assert_eq!(encode_extended_string("€".as_bytes()), vec![ExtendedChar::Char('€')]);
    // After an escape, the escape stands alone and the character follows.
    let mut buf = vec![0x1b];
    buf.extend_from_slice("€".as_bytes());
    assert_eq!(
        encode_extended_string(&buf),
        vec![ExtendedChar::Byte(0x1b), ExtendedChar::Char('€')]
    );
}

#[test]
fn invalid_encoding_takes_the_byte_path() {
    // Bytes that are not valid UTF-8 are read byte for byte, without
    // grouping.
    assert_eq!(
        encode_extended_string(&[0xff, b'A']),
        vec![ExtendedChar::Byte(0xff), ExtendedChar::Byte(b'A')]
    );
    assert_eq!(encode_extended_string(&[0x1b, 0xff]), vec![ExtendedChar::AltByte(0xff)]);
    // A truncated two-byte encoding is invalid.
    assert_eq!(encode_extended_string(&[0xc3]), vec![ExtendedChar::Byte(0xc3)]);
    // An overlong encoding is invalid.
    assert_eq!(
        encode_extended_string(&[0xc0, 0x80]),
        vec![ExtendedChar::Byte(0xc0), ExtendedChar::Byte(0x80)]
    );
}
