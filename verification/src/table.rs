//! The sequence table: an exact-match catalog of the escape sequences the
//! decoder recognizes.
//!
//! A lookup of a byte buffer yields `Some(ExtendedChar::Partial)` when the
//! buffer is a strict prefix of at least one longer recognized sequence,
//! `Some` of a concrete event when the buffer is exactly a recognized
//! sequence, and `None` when no recognized sequence starts with the buffer.
//! The catalog covers the `ESC O` function keys, the CSI (`ESC [`)
//! navigation and function keys with their modifier parameters, and one
//! doubled-escape sequence.
//!
//! [`lookup_spec`] is the mathematical form of the catalog; [`lookup`] is
//! the executable lookup, proved to agree with it entry by entry.

use vstd::prelude::*;
use vstd::string::StringSliceAdditionalSpecFns;
use crate::keys::{ExtendedChar, MapErrorKind, ParseMapError, SpecialChar};

verus! {

/// The escape byte that introduces every sequence of the catalog.
pub const ESC: u8 = 0x1b;

/// The key named by a final letter in a CSI sequence without parameters:
/// `ESC [ A` through `ESC [ D` are the arrows, `ESC [ F` and `ESC [ H` are
/// end and home.
pub open spec fn nav_letter_key(l: u8) -> Option<SpecialChar> {
    if l == 0x41 {
        Some(SpecialChar::UpArrow)
    } else if l == 0x42 {
        Some(SpecialChar::DownArrow)
    } else if l == 0x43 {
        Some(SpecialChar::RightArrow)
    } else if l == 0x44 {
        Some(SpecialChar::LeftArrow)
    } else if l == 0x46 {
        Some(SpecialChar::End)
    } else if l == 0x48 {
        Some(SpecialChar::Home)
    } else {
        None
    }
}

/// The function key named by the final letter of an `ESC O` sequence:
/// `P` through `S` are F1 through F4.
pub open spec fn pqrs_key(l: u8) -> Option<SpecialChar> {
    if l == 0x50 {
        Some(SpecialChar::F1)
    } else if l == 0x51 {
        Some(SpecialChar::F2)
    } else if l == 0x52 {
        Some(SpecialChar::F3)
    } else if l == 0x53 {
        Some(SpecialChar::F4)
    } else {
        None
    }
}

/// The key named by the final letter of a modified CSI sequence
/// `ESC [ 1 ; <m> <l>`: the navigation letters plus `P` through `S`.
pub open spec fn mod_letter_key(l: u8) -> Option<SpecialChar> {
    if nav_letter_key(l) is Some {
        nav_letter_key(l)
    } else {
        pqrs_key(l)
    }
}

/// The key named by a one-digit CSI code, as in `ESC [ 3 ~`.
pub open spec fn one_digit_key(d: u8) -> Option<SpecialChar> {
    if d == 0x31 {
        Some(SpecialChar::Home)
    } else if d == 0x32 {
        Some(SpecialChar::Insert)
    } else if d == 0x33 {
        Some(SpecialChar::Delete)
    } else if d == 0x34 {
        Some(SpecialChar::End)
    } else if d == 0x35 {
        Some(SpecialChar::PageUp)
    } else if d == 0x36 {
        Some(SpecialChar::PageDown)
    } else {
        None
    }
}

/// The function key named by a two-digit CSI code, as in `ESC [ 1 5 ~`:
/// codes 15, 17, 18, 19, 20, 21, 23 and 24 are F5 through F12.
pub open spec fn two_digit_key(x: u8, y: u8) -> Option<SpecialChar> {
    if x == 0x31 && y == 0x35 {
        Some(SpecialChar::F5)
    } else if x == 0x31 && y == 0x37 {
        Some(SpecialChar::F6)
    } else if x == 0x31 && y == 0x38 {
        Some(SpecialChar::F7)
    } else if x == 0x31 && y == 0x39 {
        Some(SpecialChar::F8)
    } else if x == 0x32 && y == 0x30 {
        Some(SpecialChar::F9)
    } else if x == 0x32 && y == 0x31 {
        Some(SpecialChar::F10)
    } else if x == 0x32 && y == 0x33 {
        Some(SpecialChar::F11)
    } else if x == 0x32 && y == 0x34 {
        Some(SpecialChar::F12)
    } else {
        None
    }
}

/// True when `m` is the digit of a modifier parameter, `2` through `8`.
pub open spec fn is_modifier_digit(m: u8) -> bool {
    0x32 <= m <= 0x38
}

/// The modifier combination encoded by parameter digit `m`, applied to `k`:
/// 2 is Shift, 3 is Alt, 4 is Shift-Alt, 5 is Ctrl, 6 is Ctrl-Shift,
/// 7 is Ctrl-Alt and 8 is Ctrl-Shift-Alt.
pub open spec fn modifier_key(m: u8, k: SpecialChar) -> Option<ExtendedChar> {
    if m == 0x32 {
        Some(ExtendedChar::Shift(k))
    } else if m == 0x33 {
        Some(ExtendedChar::Alt(k))
    } else if m == 0x34 {
        Some(ExtendedChar::ShiftAlt(k))
    } else if m == 0x35 {
        Some(ExtendedChar::Ctrl(k))
    } else if m == 0x36 {
        Some(ExtendedChar::CtrlShift(k))
    } else if m == 0x37 {
        Some(ExtendedChar::CtrlAlt(k))
    } else if m == 0x38 {
        Some(ExtendedChar::CtrlShiftAlt(k))
    } else {
        None
    }
}

/// The catalog entries under a `ESC [` introducer, keyed by the bytes `t`
/// that follow it.
pub open spec fn csi_lookup(t: Seq<u8>) -> Option<ExtendedChar> {
    if t.len() == 0 {
        Some(ExtendedChar::Partial)
    } else if t.len() == 1 {
        let x = t[0];
        if x == 0x5a {
            // 'Z': the back-tab sequence
            Some(ExtendedChar::Shift(SpecialChar::Tab))
        } else if nav_letter_key(x) is Some {
            Some(ExtendedChar::Normal(nav_letter_key(x)->0))
        } else if one_digit_key(x) is Some {
            Some(ExtendedChar::Partial)
        } else {
            None
        }
    } else if t.len() == 2 {
        let x = t[0];
        let y = t[1];
        if y == 0x7e && one_digit_key(x) is Some {
            // '~' closes a one-digit code
            Some(ExtendedChar::Normal(one_digit_key(x)->0))
        } else if y == 0x3b && one_digit_key(x) is Some && x != 0x34 {
            // ';' announces a modifier; code 4 takes none
            Some(ExtendedChar::Partial)
        } else if two_digit_key(x, y) is Some {
            Some(ExtendedChar::Partial)
        } else {
            None
        }
    } else if t.len() == 3 {
        let x = t[0];
        let y = t[1];
        let z = t[2];
        if z == 0x7e && two_digit_key(x, y) is Some {
            Some(ExtendedChar::Normal(two_digit_key(x, y)->0))
        } else if z == 0x3b && two_digit_key(x, y) is Some {
            Some(ExtendedChar::Partial)
        } else if y == 0x3b && one_digit_key(x) is Some && x != 0x34 && is_modifier_digit(z) {
            Some(ExtendedChar::Partial)
        } else {
            None
        }
    } else if t.len() == 4 {
        let x = t[0];
        let y = t[1];
        let z = t[2];
        let w = t[3];
        if y == 0x3b && x == 0x31 && is_modifier_digit(z) && mod_letter_key(w) is Some {
            // code 1 closes with a letter, not with '~'
            modifier_key(z, mod_letter_key(w)->0)
        } else if y == 0x3b && w == 0x7e && one_digit_key(x) is Some && x != 0x34 && x != 0x31
            && is_modifier_digit(z) {
            modifier_key(z, one_digit_key(x)->0)
        } else if z == 0x3b && two_digit_key(x, y) is Some && is_modifier_digit(w) {
            Some(ExtendedChar::Partial)
        } else {
            None
        }
    } else if t.len() == 5 {
        let x = t[0];
        let y = t[1];
        let z = t[2];
        let m = t[3];
        let w = t[4];
        if z == 0x3b && w == 0x7e && two_digit_key(x, y) is Some && is_modifier_digit(m) {
            modifier_key(m, two_digit_key(x, y)->0)
        } else {
            None
        }
    } else {
        None
    }
}

/// The doubled-escape entries of the catalog: `ESC ESC [ 3 ; 5 ~` and its
/// prefixes, for the one Ctrl-Alt-Delete encoding that repeats the escape.
pub open spec fn doubled_escape_lookup(s: Seq<u8>) -> Option<ExtendedChar> {
    if s.len() == 2 {
        Some(ExtendedChar::Partial)
    } else if s[2] != 0x5b {
        None
    } else if s.len() == 3 {
        Some(ExtendedChar::Partial)
    } else if s[3] != 0x33 {
        None
    } else if s.len() == 4 {
        Some(ExtendedChar::Partial)
    } else if s[4] != 0x3b {
        None
    } else if s.len() == 5 {
        Some(ExtendedChar::Partial)
    } else if s[5] != 0x35 {
        None
    } else if s.len() == 6 {
        Some(ExtendedChar::Partial)
    } else if s[6] != 0x7e {
        None
    } else if s.len() == 7 {
        Some(ExtendedChar::CtrlAlt(SpecialChar::Delete))
    } else {
        None
    }
}

/// The whole catalog: `Some(Partial)` for a strict prefix of a longer
/// entry, `Some` of the event for an exact entry, `None` when no entry
/// starts with `s`.
pub open spec fn lookup_spec(s: Seq<u8>) -> Option<ExtendedChar> {
    if s.len() == 0 || s[0] != ESC {
        None
    } else if s.len() == 1 {
        Some(ExtendedChar::Partial)
    } else if s[1] == 0x4f {
        // 'O': the function-key introducer
        if s.len() == 2 {
            Some(ExtendedChar::Partial)
        } else if s.len() == 3 && pqrs_key(s[2]) is Some {
            Some(ExtendedChar::Normal(pqrs_key(s[2])->0))
        } else {
            None
        }
    } else if s[1] == 0x5b {
        // '[': the CSI introducer
        csi_lookup(s.skip(2))
    } else if s[1] == ESC {
        doubled_escape_lookup(s)
    } else {
        None
    }
}

/// The catalog's values are the `Partial` marker and decoded keys alone:
/// never the `Quit` sentinel, and never a text, byte or Alt-byte event.
pub proof fn lemma_lookup_values(s: Seq<u8>)
    ensures
        lookup_spec(s) matches Some(e) ==> {
            &&& e != ExtendedChar::Quit
            &&& !(e matches ExtendedChar::CharString(_))
            &&& !(e matches ExtendedChar::Byte(_))
            &&& !(e matches ExtendedChar::AltByte(_))
            &&& !(e matches ExtendedChar::Char(_))
        },
{
}

/// Every `Partial` value under a `ESC [` introducer can be completed: the
/// bytes are a strict prefix of a longer catalog entry with a concrete
/// event.
proof fn lemma_csi_partial_completable(u: Seq<u8>)
    requires
        csi_lookup(u) == Some(ExtendedChar::Partial),
    ensures
        exists|w: Seq<u8>|
            {
                &&& #[trigger] csi_lookup(w) is Some
                &&& csi_lookup(w) != Some(ExtendedChar::Partial)
                &&& u.is_prefix_of(w)
                &&& u.len() < w.len()
            },
{
    if u.len() == 0 {
        let w = seq![0x41u8];
        assert(csi_lookup(w) == Some(ExtendedChar::Normal(SpecialChar::UpArrow)));
        assert(u.is_prefix_of(w) && u.len() < w.len());
    } else if u.len() == 1 {
        let w = u.push(0x7e);
        assert(w[0] == u[0] && w.len() == 2);
        assert(csi_lookup(w) == Some(ExtendedChar::Normal(one_digit_key(u[0])->0)));
        assert(u =~= w.subrange(0, 1));
        assert(u.is_prefix_of(w) && u.len() < w.len());
    } else if u.len() == 2 {
        if u[1] == 0x3b {
            if u[0] == 0x31 {
                let w = u.push(0x32).push(0x41);
                assert(w[0] == u[0] && w[1] == u[1] && w[2] == 0x32 && w[3] == 0x41 && w.len()
                    == 4);
                assert(csi_lookup(w) == Some(ExtendedChar::Shift(SpecialChar::UpArrow)));
                assert(u =~= w.subrange(0, 2));
                assert(u.is_prefix_of(w) && u.len() < w.len());
            } else {
                let w = u.push(0x32).push(0x7e);
                assert(w[0] == u[0] && w[1] == u[1] && w[2] == 0x32 && w[3] == 0x7e && w.len()
                    == 4);
                assert(csi_lookup(w) == Some(ExtendedChar::Shift(one_digit_key(u[0])->0)));
                assert(u =~= w.subrange(0, 2));
                assert(u.is_prefix_of(w) && u.len() < w.len());
            }
        } else {
            let w = u.push(0x7e);
            assert(w[0] == u[0] && w[1] == u[1] && w.len() == 3);
            assert(csi_lookup(w) == Some(ExtendedChar::Normal(two_digit_key(u[0], u[1])->0)));
            assert(u =~= w.subrange(0, 2));
            assert(u.is_prefix_of(w) && u.len() < w.len());
        }
    } else if u.len() == 3 {
        if u[1] == 0x3b {
            if u[0] == 0x31 {
                let w = u.push(0x41);
                assert(w[0] == u[0] && w[1] == u[1] && w[2] == u[2] && w[3] == 0x41 && w.len()
                    == 4);
                assert(csi_lookup(w) == modifier_key(u[2], SpecialChar::UpArrow));
                assert(u =~= w.subrange(0, 3));
                assert(u.is_prefix_of(w) && u.len() < w.len());
            } else {
                let w = u.push(0x7e);
                assert(w[0] == u[0] && w[1] == u[1] && w[2] == u[2] && w[3] == 0x7e && w.len()
                    == 4);
                assert(csi_lookup(w) == modifier_key(u[2], one_digit_key(u[0])->0));
                assert(u =~= w.subrange(0, 3));
                assert(u.is_prefix_of(w) && u.len() < w.len());
            }
        } else {
            let w = u.push(0x32).push(0x7e);
            assert(w[0] == u[0] && w[1] == u[1] && w[2] == u[2] && w[3] == 0x32 && w[4] == 0x7e
                && w.len() == 5);
            assert(csi_lookup(w) == Some(ExtendedChar::Shift(two_digit_key(u[0], u[1])->0)));
            assert(u =~= w.subrange(0, 3));
            assert(u.is_prefix_of(w) && u.len() < w.len());
        }
    } else {
        let w = u.push(0x7e);
        assert(w[0] == u[0] && w[1] == u[1] && w[2] == u[2] && w[3] == u[3] && w[4] == 0x7e
            && w.len() == 5);
        assert(csi_lookup(w) == modifier_key(u[3], two_digit_key(u[0], u[1])->0));
        assert(u =~= w.subrange(0, 4));
        assert(u.is_prefix_of(w) && u.len() < w.len());
    }
}

/// A buffer marked `Partial` is what the marker claims: a strict prefix
/// of at least one longer catalog entry whose value is a concrete event.
pub proof fn lemma_partial_completable(s: Seq<u8>)
    requires
        lookup_spec(s) == Some(ExtendedChar::Partial),
    ensures
        exists|t: Seq<u8>|
            {
                &&& #[trigger] lookup_spec(t) is Some
                &&& lookup_spec(t) != Some(ExtendedChar::Partial)
                &&& s.is_prefix_of(t)
                &&& s.len() < t.len()
            },
{
    if s.len() == 1 {
        let t = seq![ESC, 0x5bu8, 0x41u8];
        assert(t.skip(2) =~= seq![0x41u8]);
        assert(lookup_spec(t) == Some(ExtendedChar::Normal(SpecialChar::UpArrow)));
        assert(s =~= t.subrange(0, 1));
        assert(s.is_prefix_of(t) && s.len() < t.len());
    } else if s[1] == 0x4f {
        let t = seq![ESC, 0x4fu8, 0x50u8];
        assert(lookup_spec(t) == Some(ExtendedChar::Normal(SpecialChar::F1)));
        assert(s =~= t.subrange(0, 2));
        assert(s.is_prefix_of(t) && s.len() < t.len());
    } else if s[1] == 0x5b {
        let u = s.skip(2);
        lemma_csi_partial_completable(u);
        let w = choose|w: Seq<u8>|
            {
                &&& #[trigger] csi_lookup(w) is Some
                &&& csi_lookup(w) != Some(ExtendedChar::Partial)
                &&& u.is_prefix_of(w)
                &&& u.len() < w.len()
            };
        let t = seq![ESC, 0x5bu8] + w;
        assert(t[0] == ESC && t[1] == 0x5b);
        assert(t.skip(2) =~= w);
        assert(lookup_spec(t) == csi_lookup(w));
        assert(s =~= t.subrange(0, s.len() as int));
        assert(s.is_prefix_of(t) && s.len() < t.len());
    } else {
        let t = seq![ESC, ESC, 0x5bu8, 0x33u8, 0x3bu8, 0x35u8, 0x7eu8];
        assert(lookup_spec(t) == Some(ExtendedChar::CtrlAlt(SpecialChar::Delete)));
        assert(s =~= t.subrange(0, s.len() as int));
        assert(s.is_prefix_of(t) && s.len() < t.len());
    }
}

fn nav_letter_key_exec(l: u8) -> (r: Option<SpecialChar>)
    ensures
        r == nav_letter_key(l),
{
    if l == 0x41 {
        Some(SpecialChar::UpArrow)
    } else if l == 0x42 {
        Some(SpecialChar::DownArrow)
    } else if l == 0x43 {
        Some(SpecialChar::RightArrow)
    } else if l == 0x44 {
        Some(SpecialChar::LeftArrow)
    } else if l == 0x46 {
        Some(SpecialChar::End)
    } else if l == 0x48 {
        Some(SpecialChar::Home)
    } else {
        None
    }
}

fn pqrs_key_exec(l: u8) -> (r: Option<SpecialChar>)
    ensures
        r == pqrs_key(l),
{
    if l == 0x50 {
        Some(SpecialChar::F1)
    } else if l == 0x51 {
        Some(SpecialChar::F2)
    } else if l == 0x52 {
        Some(SpecialChar::F3)
    } else if l == 0x53 {
        Some(SpecialChar::F4)
    } else {
        None
    }
}

fn mod_letter_key_exec(l: u8) -> (r: Option<SpecialChar>)
    ensures
        r == mod_letter_key(l),
{
    let nav = nav_letter_key_exec(l);
    if nav.is_some() {
        nav
    } else {
        pqrs_key_exec(l)
    }
}

fn one_digit_key_exec(d: u8) -> (r: Option<SpecialChar>)
    ensures
        r == one_digit_key(d),
{
    if d == 0x31 {
        Some(SpecialChar::Home)
    } else if d == 0x32 {
        Some(SpecialChar::Insert)
    } else if d == 0x33 {
        Some(SpecialChar::Delete)
    } else if d == 0x34 {
        Some(SpecialChar::End)
    } else if d == 0x35 {
        Some(SpecialChar::PageUp)
    } else if d == 0x36 {
        Some(SpecialChar::PageDown)
    } else {
        None
    }
}

fn two_digit_key_exec(x: u8, y: u8) -> (r: Option<SpecialChar>)
    ensures
        r == two_digit_key(x, y),
{
    if x == 0x31 && y == 0x35 {
        Some(SpecialChar::F5)
    } else if x == 0x31 && y == 0x37 {
        Some(SpecialChar::F6)
    } else if x == 0x31 && y == 0x38 {
        Some(SpecialChar::F7)
    } else if x == 0x31 && y == 0x39 {
        Some(SpecialChar::F8)
    } else if x == 0x32 && y == 0x30 {
        Some(SpecialChar::F9)
    } else if x == 0x32 && y == 0x31 {
        Some(SpecialChar::F10)
    } else if x == 0x32 && y == 0x33 {
        Some(SpecialChar::F11)
    } else if x == 0x32 && y == 0x34 {
        Some(SpecialChar::F12)
    } else {
        None
    }
}

fn modifier_key_exec(m: u8, k: SpecialChar) -> (r: Option<ExtendedChar>)
    ensures
        r == modifier_key(m, k),
{
    if m == 0x32 {
        Some(ExtendedChar::Shift(k))
    } else if m == 0x33 {
        Some(ExtendedChar::Alt(k))
    } else if m == 0x34 {
        Some(ExtendedChar::ShiftAlt(k))
    } else if m == 0x35 {
        Some(ExtendedChar::Ctrl(k))
    } else if m == 0x36 {
        Some(ExtendedChar::CtrlShift(k))
    } else if m == 0x37 {
        Some(ExtendedChar::CtrlAlt(k))
    } else if m == 0x38 {
        Some(ExtendedChar::CtrlShiftAlt(k))
    } else {
        None
    }
}

fn csi_lookup_exec(t: &[u8]) -> (r: Option<ExtendedChar>)
    ensures
        r == csi_lookup(t@),
{
    let n = t.len();
    if n == 0 {
        Some(ExtendedChar::Partial)
    } else if n == 1 {
        let x = t[0];
        if x == 0x5a {
            Some(ExtendedChar::Shift(SpecialChar::Tab))
        } else {
            match nav_letter_key_exec(x) {
                Some(k) => Some(ExtendedChar::Normal(k)),
                None => {
                    if one_digit_key_exec(x).is_some() {
                        Some(ExtendedChar::Partial)
                    } else {
                        None
                    }
                },
            }
        }
    } else if n == 2 {
        let x = t[0];
        let y = t[1];
        if y == 0x7e {
            match one_digit_key_exec(x) {
                Some(k) => Some(ExtendedChar::Normal(k)),
                None => None,
            }
        } else if y == 0x3b && one_digit_key_exec(x).is_some() && x != 0x34 {
            Some(ExtendedChar::Partial)
        } else if two_digit_key_exec(x, y).is_some() {
            Some(ExtendedChar::Partial)
        } else {
            None
        }
    } else if n == 3 {
        let x = t[0];
        let y = t[1];
        let z = t[2];
        if z == 0x7e {
            match two_digit_key_exec(x, y) {
                Some(k) => Some(ExtendedChar::Normal(k)),
                None => None,
            }
        } else if z == 0x3b && two_digit_key_exec(x, y).is_some() {
            Some(ExtendedChar::Partial)
        } else if y == 0x3b && one_digit_key_exec(x).is_some() && x != 0x34 && 0x32 <= z
            && z <= 0x38 {
            Some(ExtendedChar::Partial)
        } else {
            None
        }
    } else if n == 4 {
        let x = t[0];
        let y = t[1];
        let z = t[2];
        let w = t[3];
        if y == 0x3b && x == 0x31 && 0x32 <= z && z <= 0x38 {
            match mod_letter_key_exec(w) {
                Some(k) => modifier_key_exec(z, k),
                None => None,
            }
        } else if y == 0x3b && w == 0x7e && x != 0x34 && x != 0x31 && 0x32 <= z && z <= 0x38 {
            match one_digit_key_exec(x) {
                Some(k) => modifier_key_exec(z, k),
                None => None,
            }
        } else if z == 0x3b && 0x32 <= w && w <= 0x38 && two_digit_key_exec(x, y).is_some() {
            Some(ExtendedChar::Partial)
        } else {
            None
        }
    } else if n == 5 {
        let x = t[0];
        let y = t[1];
        let z = t[2];
        let m = t[3];
        let w = t[4];
        if z == 0x3b && w == 0x7e && 0x32 <= m && m <= 0x38 {
            match two_digit_key_exec(x, y) {
                Some(k) => modifier_key_exec(m, k),
                None => None,
            }
        } else {
            None
        }
    } else {
        None
    }
}

/// Looks a byte buffer up in the sequence table.
pub fn lookup(buf: &[u8]) -> (r: Option<ExtendedChar>)
    ensures
        r == lookup_spec(buf@),
{
    let n = buf.len();
    if n == 0 {
        return None;
    }
    if buf[0] != ESC {
        return None;
    }
    if n == 1 {
        return Some(ExtendedChar::Partial);
    }
    let b1 = buf[1];
    if b1 == 0x4f {
        if n == 2 {
            Some(ExtendedChar::Partial)
        } else if n == 3 {
            match pqrs_key_exec(buf[2]) {
                Some(k) => Some(ExtendedChar::Normal(k)),
                None => None,
            }
        } else {
            None
        }
    } else if b1 == 0x5b {
        let rest = vstd::slice::slice_subrange(buf, 2, n);
        assert(rest@ =~= buf@.skip(2));
        csi_lookup_exec(rest)
    } else if b1 == ESC {
        if n == 2 {
            Some(ExtendedChar::Partial)
        } else if buf[2] != 0x5b {
            None
        } else if n == 3 {
            Some(ExtendedChar::Partial)
        } else if buf[3] != 0x33 {
            None
        } else if n == 4 {
            Some(ExtendedChar::Partial)
        } else if buf[4] != 0x3b {
            None
        } else if n == 5 {
            Some(ExtendedChar::Partial)
        } else if buf[5] != 0x35 {
            None
        } else if n == 6 {
            Some(ExtendedChar::Partial)
        } else if buf[6] != 0x7e {
            None
        } else if n == 7 {
            Some(ExtendedChar::CtrlAlt(SpecialChar::Delete))
        } else {
            None
        }
    } else {
        None
    }
}

impl ExtendedChar {
    /// Looks the exact string `s` up in the sequence table, the string-keyed
    /// form of [`lookup`].
    pub fn from_str(s: &str) -> (r: Result<ExtendedChar, ParseMapError>)
        ensures
            match r {
                Ok(e) => lookup_spec(s.spec_bytes()) == Some(e),
                Err(_) => lookup_spec(s.spec_bytes()) is None,
            },
    {
        match lookup(s.as_bytes()) {
            Some(e) => Ok(e),
            None => Err(ParseMapError { kind: MapErrorKind::NotFound }),
        }
    }
}

} // verus!
