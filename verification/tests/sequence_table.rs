//! Tests of the sequence table: every entry of the catalog, fed byte by
//! byte, decodes to exactly its value.

use terminal_input::decoder::Decoder;
use terminal_input::keys::ExtendedChar::{
    self, Alt, Ctrl, CtrlAlt, CtrlShift, CtrlShiftAlt, Normal, Partial, Shift, ShiftAlt,
};
use terminal_input::keys::SpecialChar::{
    self, Delete, DownArrow, End, Home, Insert, LeftArrow, PageDown, PageUp, RightArrow, Tab,
    UpArrow, F1, F10, F11, F12, F2, F3, F4, F5, F6, F7, F8, F9,
};
use terminal_input::table::lookup;

/// The full catalog, written out the same way the escape sequences group
/// themselves: the `ESC O` function keys, the CSI keys with their
/// modifier parameters, and the doubled-escape Ctrl-Alt-Delete.
fn catalog() -> Vec<(Vec<u8>, ExtendedChar)> {
    let mods: [(u8, fn(SpecialChar) -> ExtendedChar); 7] = [
        (b'2', Shift),
        (b'3', Alt),
        (b'4', ShiftAlt),
        (b'5', Ctrl),
        (b'6', CtrlShift),
        (b'7', CtrlAlt),
        (b'8', CtrlShiftAlt),
    ];
    let one_digit: [(u8, SpecialChar); 6] = [
        (b'1', Home),
        (b'2', Insert),
        (b'3', Delete),
        (b'4', End),
        (b'5', PageUp),
        (b'6', PageDown),
    ];
    let two_digit: [([u8; 2], SpecialChar); 8] = [
        ([b'1', b'5'], F5),
        ([b'1', b'7'], F6),
        ([b'1', b'8'], F7),
        ([b'1', b'9'], F8),
        ([b'2', b'0'], F9),
        ([b'2', b'1'], F10),
        ([b'2', b'3'], F11),
        ([b'2', b'4'], F12),
    ];
    let letters: [(u8, SpecialChar); 10] = [
        (b'A', UpArrow),
        (b'B', DownArrow),
        (b'C', RightArrow),
        (b'D', LeftArrow),
        (b'F', End),
        (b'H', Home),
        (b'P', F1),
        (b'Q', F2),
        (b'R', F3),
        (b'S', F4),
    ];

    let mut t: Vec<(Vec<u8>, ExtendedChar)> = Vec::new();
    t.push((vec![0x1b], Partial));
    t.push((vec![0x1b, b'O'], Partial));
    t.push((vec![0x1b, b'O', b'P'], Normal(F1)));
    t.push((vec![0x1b, b'O', b'Q'], Normal(F2)));
    t.push((vec![0x1b, b'O', b'R'], Normal(F3)));
    t.push((vec![0x1b, b'O', b'S'], Normal(F4)));
    t.push((vec![0x1b, b'['], Partial));
    t.push((vec![0x1b, b'[', b'A'], Normal(UpArrow)));
    t.push((vec![0x1b, b'[', b'B'], Normal(DownArrow)));
    t.push((vec![0x1b, b'[', b'C'], Normal(RightArrow)));
    t.push((vec![0x1b, b'[', b'D'], Normal(LeftArrow)));
    t.push((vec![0x1b, b'[', b'F'], Normal(End)));
    t.push((vec![0x1b, b'[', b'H'], Normal(Home)));
    t.push((vec![0x1b, b'[', b'Z'], Shift(Tab)));
    for (d, k) in one_digit {
        t.push((vec![0x1b, b'[', d], Partial));
        t.push((vec![0x1b, b'[', d, b'~'], Normal(k)));
        if d != b'4' {
            t.push((vec![0x1b, b'[', d, b';'], Partial));
            for (m, f) in mods {
                t.push((vec![0x1b, b'[', d, b';', m], Partial));
                if d == b'1' {
                    for (l, lk) in letters {
                        t.push((vec![0x1b, b'[', b'1', b';', m, l], f(lk)));
                    }
                } else {
                    t.push((vec![0x1b, b'[', d, b';', m, b'~'], f(k)));
                }
            }
        }
    }
    for (xy, k) in two_digit {
        t.push((vec![0x1b, b'[', xy[0], xy[1]], Partial));
        t.push((vec![0x1b, b'[', xy[0], xy[1], b'~'], Normal(k)));
        t.push((vec![0x1b, b'[', xy[0], xy[1], b';'], Partial));
        for (m, f) in mods {
            t.push((vec![0x1b, b'[', xy[0], xy[1], b';', m], Partial));
            t.push((vec![0x1b, b'[', xy[0], xy[1], b';', m, b'~'], f(k)));
        }
    }
    t.push((vec![0x1b, 0x1b], Partial));
    t.push((vec![0x1b, 0x1b, b'['], Partial));
    t.push((vec![0x1b, 0x1b, b'[', b'3'], Partial));
    t.push((vec![0x1b, 0x1b, b'[', b'3', b';'], Partial));
    t.push((vec![0x1b, 0x1b, b'[', b'3', b';', b'5'], Partial));
    t.push((vec![0x1b, 0x1b, b'[', b'3', b';', b'5', b'~'], CtrlAlt(Delete)));
    t
}

#[test]
fn catalog_size_is_complete() {
    assert_eq!(catalog().len(), 306);
}

#[test]
fn lookup_matches_catalog() {
    for (key, value) in catalog() {
        assert_eq!(lookup(&key), Some(value.clone()), "lookup of {:?}", key);
    }
}

#[test]
fn concrete_entries_decode_to_their_event() {
    // Feeding exactly the bytes of an entry with a concrete event yields
    // that event exactly once, with the pending buffer empty afterward.
    for (key, value) in catalog() {
        if value == ExtendedChar::Partial {
            continue;
        }
        let mut d = Decoder::new();
        let mut last = Vec::new();
        for (idx, b) in key.iter().enumerate() {
            let evs = d.feed(*b);
            if idx + 1 < key.len() {
                assert!(evs.is_empty(), "prefix of {:?} emitted {:?}", key, evs);
            } else {
                last = evs;
            }
        }
        assert_eq!(last, vec![value], "entry {:?}", key);
        assert_eq!(d.pending_len(), 0);
    }
}

#[test]
fn partial_entries_keep_pending() {
    // Feeding exactly the bytes of a Partial entry emits nothing and
    // leaves all of them pending.
    for (key, value) in catalog() {
        if value != ExtendedChar::Partial {
            continue;
        }
        let mut d = Decoder::new();
        for b in key.iter() {
            let evs = d.feed(*b);
            assert!(evs.is_empty(), "prefix {:?} emitted {:?}", key, evs);
        }
        assert_eq!(d.pending_len(), key.len());
    }
}

#[test]
fn lookup_misses() {
    assert_eq!(lookup(b""), None);
    assert_eq!(lookup(b"A"), None);
    assert_eq!(lookup(b"\x1bA"), None);
    assert_eq!(lookup(b"\x1bOA"), None);
    assert_eq!(lookup(b"\x1b[9"), None);
    assert_eq!(lookup(b"\x1b[25"), None);
    assert_eq!(lookup(b"\x1b[4;"), None);
    assert_eq!(lookup(b"\x1b[1;2~"), None);
    assert_eq!(lookup(b"\x1b[1;9A"), None);
    assert_eq!(lookup(b"\x1b[15;2A"), None);
    assert_eq!(lookup(b"\x1b[15;2~~"), None);
    assert_eq!(lookup(b"\x1b\x1b[3;5~~"), None);
    assert_eq!(lookup(b"\x1b[\xff"), None);
}

#[test]
fn from_str_finds_and_rejects() {
    assert_eq!(
        ExtendedChar::from_str("\x1b[A"),
        Ok(ExtendedChar::Normal(SpecialChar::UpArrow))
    );
    assert_eq!(ExtendedChar::from_str("\x1b"), Ok(ExtendedChar::Partial));
    assert_eq!(
        ExtendedChar::from_str("\x1b[15;2~"),
        Ok(ExtendedChar::Shift(SpecialChar::F5))
    );
    let miss = ExtendedChar::from_str("nope");
    assert!(miss.is_err());
    assert_eq!(miss.unwrap_err().__description(), "input doesn't match");
}
