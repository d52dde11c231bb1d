//! The event types that decoding produces, and the error type of a failed
//! sequence lookup.

use vstd::prelude::*;

verus! {

/// The named non-printing keys that escape sequences can encode.
#[derive(Clone, Copy, Debug, Hash, PartialEq, Eq)]
pub enum SpecialChar {
    Backspace,
    Tab,
    Delete,
    Insert,
    Home,
    End,
    PageUp,
    PageDown,
    UpArrow,
    DownArrow,
    RightArrow,
    LeftArrow,
    F1,
    F2,
    F3,
    F4,
    F5,
    F6,
    F7,
    F8,
    F9,
    F10,
    F11,
    F12,
}

/// A decoded input event.
///
/// `Partial` never leaves the decoder: it is the sequence table's marker for
/// a strict prefix of a longer sequence.  `Quit` is the sentinel that closes
/// the event stream when the termination sequence has been seen.  The
/// remaining variants are the events a consumer sees: a batched run of
/// printable text, a single character outside the byte range, a raw or
/// control byte, an Alt-modified byte, and the named keys under each
/// modifier combination.
#[derive(Clone, Debug, Hash, PartialEq, Eq)]
pub enum ExtendedChar {
    Partial,
    Byte(u8),
    AltByte(u8),
    Char(char),
    CharString(String),
    Normal(SpecialChar),
    Shift(SpecialChar),
    Alt(SpecialChar),
    Ctrl(SpecialChar),
    ShiftAlt(SpecialChar),
    CtrlShift(SpecialChar),
    CtrlAlt(SpecialChar),
    CtrlShiftAlt(SpecialChar),
    Quit,
}

/// The mathematical value of an [`ExtendedChar`]: the same shape, with the
/// plain-text run carried as a sequence of characters.
pub enum ExtendedCharView {
    Partial,
    Byte(u8),
    AltByte(u8),
    Char(char),
    CharString(Seq<char>),
    Normal(SpecialChar),
    Shift(SpecialChar),
    Alt(SpecialChar),
    Ctrl(SpecialChar),
    ShiftAlt(SpecialChar),
    CtrlShift(SpecialChar),
    CtrlAlt(SpecialChar),
    CtrlShiftAlt(SpecialChar),
    Quit,
}

impl View for ExtendedChar {
    type V = ExtendedCharView;

    open spec fn view(&self) -> ExtendedCharView {
        match self {
            ExtendedChar::Partial => ExtendedCharView::Partial,
            ExtendedChar::Byte(b) => ExtendedCharView::Byte(*b),
            ExtendedChar::AltByte(b) => ExtendedCharView::AltByte(*b),
            ExtendedChar::Char(c) => ExtendedCharView::Char(*c),
            ExtendedChar::CharString(s) => ExtendedCharView::CharString(s@),
            ExtendedChar::Normal(k) => ExtendedCharView::Normal(*k),
            ExtendedChar::Shift(k) => ExtendedCharView::Shift(*k),
            ExtendedChar::Alt(k) => ExtendedCharView::Alt(*k),
            ExtendedChar::Ctrl(k) => ExtendedCharView::Ctrl(*k),
            ExtendedChar::ShiftAlt(k) => ExtendedCharView::ShiftAlt(*k),
            ExtendedChar::CtrlShift(k) => ExtendedCharView::CtrlShift(*k),
            ExtendedChar::CtrlAlt(k) => ExtendedCharView::CtrlAlt(*k),
            ExtendedChar::CtrlShiftAlt(k) => ExtendedCharView::CtrlShiftAlt(*k),
            ExtendedChar::Quit => ExtendedCharView::Quit,
        }
    }
}

impl DeepView for ExtendedChar {
    type V = ExtendedCharView;

    open spec fn deep_view(&self) -> ExtendedCharView {
        self.view()
    }
}

/// Error of a sequence-table lookup that found no entry.
#[derive(Debug, Clone, PartialEq, Eq)]
pub struct ParseMapError {
    pub(crate) kind: MapErrorKind,
}

/// The ways a sequence-table lookup can fail.
#[derive(Debug, Clone, PartialEq, Eq)]
pub enum MapErrorKind {
    NotFound,
}

impl ParseMapError {
    /// A fixed human-readable description of the error.
    pub fn __description(&self) -> (r: &'static str)
        ensures
            r@ == "input doesn't match"@,
    {
        match self.kind {
            MapErrorKind::NotFound => "input doesn't match",
        }
    }
}

} // verus!
