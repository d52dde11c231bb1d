//! Tests of the incremental decoder as a whole: accumulation, timeout
//! flushes, stream end, and the quit watcher driving shutdown.

use terminal_input::decoder::Decoder;
use terminal_input::keys::{ExtendedChar, SpecialChar};
use terminal_input::quit::check_quit_buffer;

fn txt(s: &str) -> ExtendedChar {
    ExtendedChar::CharString(s.to_string())
}

#[test]
fn timeout_flush_equals_fallback() {
    // A lone ESC leaves the decoder pending; when the quiet window
    // elapses, exactly one flush produces what the fallback encoder gives
    // for that buffer alone.
    let mut d = Decoder::new();
    assert_eq!(d.feed(0x1b), vec![]);
    assert_eq!(d.pending_len(), 1);
    assert_eq!(d.flush(), vec![ExtendedChar::Byte(0x1b)]);
    assert_eq!(d.pending_len(), 0);
    // A second flush has nothing left to say.
    assert_eq!(d.flush(), vec![]);
}

#[test]
fn arrow_completes_before_timeout() {
    // Input A, ESC, [, A with the sequence completing in time: a
    // plain-text run, then the decoded arrow key.
    let mut d = Decoder::new();
    assert_eq!(d.feed(b'A'), vec![txt("A")]);
    assert_eq!(d.feed(0x1b), vec![]);
    assert_eq!(d.feed(b'['), vec![]);
    assert_eq!(d.feed(b'A'), vec![ExtendedChar::Normal(SpecialChar::UpArrow)]);
    assert_eq!(d.pending_len(), 0);
}

#[test]
fn timeout_between_escape_and_bracket() {
    // The same input when the quiet window fires between ESC and [: the
    // escape comes out alone and the rest reads as plain text.
    let mut d = Decoder::new();
    assert_eq!(d.feed(b'A'), vec![txt("A")]);
    assert_eq!(d.feed(0x1b), vec![]);
    assert_eq!(d.flush(), vec![ExtendedChar::Byte(0x1b)]);
    assert_eq!(d.feed(b'['), vec![txt("[")]);
    assert_eq!(d.feed(b'A'), vec![txt("A")]);
}

#[test]
fn replaying_a_stream_gives_the_same_events() {
    // Two freshly constructed decoders fed the same byte stream, with
    // flushes at the same points, emit identical event sequences.
    let stream: &[u8] = b"hi\x1b[1;5C\x1b\x03x\xff\x1b[15~tail\x1b";
    let mut first: Vec<ExtendedChar> = Vec::new();
    let mut second: Vec<ExtendedChar> = Vec::new();
    for out in [&mut first, &mut second] {
        let mut d = Decoder::new();
        for b in stream {
            out.extend(d.feed(*b));
        }
        out.extend(d.flush());
    }
    assert_eq!(first, second);
    assert_eq!(
        first,
        vec![
            txt("h"),
            txt("i"),
            ExtendedChar::Ctrl(SpecialChar::RightArrow),
            ExtendedChar::AltByte(3),
            txt("x"),
            ExtendedChar::Byte(0xff),
            ExtendedChar::Normal(SpecialChar::F5),
            txt("t"),
            txt("a"),
            txt("i"),
            txt("l"),
            ExtendedChar::Byte(0x1b),
        ]
    );
}

#[test]
fn finish_flushes_and_closes_with_quit() {
    let mut d = Decoder::new();
    assert_eq!(d.feed(0x1b), vec![]);
    assert_eq!(d.finish(), vec![ExtendedChar::Byte(0x1b), ExtendedChar::Quit]);
    assert_eq!(d.pending_len(), 0);
}

#[test]
fn quit_sequence_ends_the_stream() {
    // The decoder task's loop: every raw byte goes through the decoder
    // and the quit watcher; when the watcher fires, pending input is
    // flushed and the stream closes with the Quit sentinel.
    let quit_seq = [24u8, 3];
    let input: &[u8] = &[b'h', b'i', 24, 3];
    let mut quit_buf = Vec::new();
    let mut d = Decoder::new();
    let mut events = Vec::new();
    for b in input {
        events.extend(d.feed(*b));
        if check_quit_buffer(*b, &mut quit_buf, &quit_seq) {
            events.extend(d.finish());
            break;
        }
    }
    assert_eq!(
        events,
        vec![
            txt("h"),
            txt("i"),
            ExtendedChar::Byte(24),
            ExtendedChar::Byte(3),
            ExtendedChar::Quit,
        ]
    );
}
