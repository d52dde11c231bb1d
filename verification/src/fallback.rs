//! The fallback encoder: re-reads a buffer that matched no escape sequence
//! as plain text, control, and Alt-modified events.
//!
//! A buffer that is valid UTF-8 is read character by character: maximal
//! runs of ordinary printable characters are batched into one plain-text
//! event, an ESC binds to the character after it as an Alt combination
//! (or stands alone as its own byte event at the end of the buffer), and
//! everything else becomes a raw-byte or single-character event.  A buffer
//! that is not valid UTF-8 is read byte by byte, with only the ESC-binding
//! rule applied.  Every byte of the input is accounted for by exactly one
//! emitted event, except an ESC consumed as an Alt marker.

use vstd::prelude::*;
use vstd::utf8::{
    decode_first_scalar, decode_utf8, is_leading_byte_width_1, length_of_first_scalar,
    partial_valid_utf8, partial_valid_utf8_extend_ascii_block, pop_first_scalar, valid_utf8,
};
use crate::keys::{ExtendedChar, ExtendedCharView};
use crate::unicode::try_decode_utf8;

verus! {

/// Relies on String::push: appends the given character to the end of the
/// string.
#[verifier::external_body]
fn push_char(s: &mut String, c: char)
    ensures
        final(s)@ == old(s)@.push(c),
{
    s.push(c)
}

/// True for the ordinary printable characters that join a plain-text run:
/// the code points from space (0x20) through tilde (0x7e).
pub open spec fn is_printable(c: char) -> bool {
    0x20 <= (c as u32) <= 0x7e
}

/// The low eight bits of a character's code point: the byte a character in
/// the byte range stands for.
pub open spec fn char_byte(c: char) -> u8 {
    (c as u32) as u8
}

/// The single-character event for the character with `c`'s code point.
pub open spec fn char_event(c: char) -> ExtendedCharView {
    ExtendedCharView::Char((c as u32) as char)
}

/// The length of the maximal printable prefix of `cs`.
pub open spec fn run_len(cs: Seq<char>) -> int
    decreases cs.len(),
{
    if cs.len() == 0 || !is_printable(cs[0]) {
        0
    } else {
        1 + run_len(cs.drop_first())
    }
}

/// [`run_len`] stays within the sequence, and a printable first character
/// makes it positive.
pub proof fn lemma_run_len_bounds(cs: Seq<char>)
    ensures
        0 <= run_len(cs) <= cs.len(),
        cs.len() > 0 && is_printable(cs[0]) ==> 1 <= run_len(cs),
    decreases cs.len(),
{
    if cs.len() == 0 || !is_printable(cs[0]) {
    } else {
        lemma_run_len_bounds(cs.drop_first());
    }
}

/// [`run_len`] is the unique boundary with printable characters before it
/// and none (or the sequence's end) at it.
pub proof fn lemma_run_len_exact(cs: Seq<char>, j: int)
    requires
        0 <= j <= cs.len(),
        forall|t: int| 0 <= t < j ==> is_printable(#[trigger] cs[t]),
        j < cs.len() ==> !is_printable(cs[j]),
    ensures
        run_len(cs) == j,
    decreases j,
{
    if j == 0 {
    } else {
        assert(is_printable(cs[0]));
        lemma_run_len_exact(cs.drop_first(), j - 1);
    }
}

/// The fallback events of a decoded character sequence.
pub open spec fn fallback_chars(cs: Seq<char>) -> Seq<ExtendedCharView>
    decreases cs.len(),
    via fallback_chars_decreases
{
    if cs.len() == 0 {
        seq![]
    } else if cs[0] == '\x1b' {
        if cs.len() == 1 {
            seq![ExtendedCharView::Byte(0x1b)]
        } else if (cs[1] as u32) <= 0xff {
            seq![ExtendedCharView::AltByte(char_byte(cs[1]))] + fallback_chars(cs.skip(2))
        } else {
            seq![ExtendedCharView::Byte(0x1b), char_event(cs[1])] + fallback_chars(cs.skip(2))
        }
    } else if is_printable(cs[0]) {
        seq![ExtendedCharView::CharString(cs.take(run_len(cs)))] + fallback_chars(
            cs.skip(run_len(cs)),
        )
    } else if (cs[0] as u32) <= 0xff {
        seq![ExtendedCharView::Byte(char_byte(cs[0]))] + fallback_chars(cs.skip(1))
    } else {
        seq![char_event(cs[0])] + fallback_chars(cs.skip(1))
    }
}

#[via_fn]
proof fn fallback_chars_decreases(cs: Seq<char>) {
    lemma_run_len_bounds(cs);
}

/// The fallback events of a buffer that is not valid UTF-8, read byte by
/// byte.
pub open spec fn fallback_bytes(v: Seq<u8>) -> Seq<ExtendedCharView>
    decreases v.len(),
{
    if v.len() == 0 {
        seq![]
    } else if v[0] == 0x1b {
        if v.len() == 1 {
            seq![ExtendedCharView::Byte(0x1b)]
        } else {
            seq![ExtendedCharView::AltByte(v[1])] + fallback_bytes(v.skip(2))
        }
    } else {
        seq![ExtendedCharView::Byte(v[0])] + fallback_bytes(v.skip(1))
    }
}

/// What the fallback encoder produces for a buffer: the character path
/// when the buffer is valid UTF-8, the raw-byte path otherwise.
pub open spec fn fallback_spec(v: Seq<u8>) -> Seq<ExtendedCharView> {
    if valid_utf8(v) {
        fallback_chars(decode_utf8(v))
    } else {
        fallback_bytes(v)
    }
}

/// A sequence of printable ASCII bytes decodes character for character.
proof fn lemma_ascii_decode(v: Seq<u8>)
    requires
        valid_utf8(v),
        forall|i: int| 0 <= i < v.len() ==> #[trigger] v[i] <= 0x7f,
    ensures
        decode_utf8(v).len() == v.len(),
        forall|i: int|
            0 <= i < v.len() ==> (#[trigger] decode_utf8(v)[i]) as u32 == v[i] as u32,
    decreases v.len(),
{
    if v.len() == 0 {
    } else {
        let b = v[0];
        assert(b & 0x7f == b) by (bit_vector)
            requires
                b <= 0x7f,
        ;
        assert(is_leading_byte_width_1(b));
        assert(length_of_first_scalar(v) == 1);
        assert(decode_first_scalar(v) == b as u32);
        let u = b as u32;
        assert((u as char) as u32 == u);
        let rest = pop_first_scalar(v);
        assert(rest =~= v.skip(1));
        lemma_ascii_decode(rest);
        assert(decode_utf8(v) == seq![decode_first_scalar(v) as char] + decode_utf8(rest));
        assert(forall|i: int|
            1 <= i < v.len() ==> (#[trigger] decode_utf8(v)[i]) == decode_utf8(rest)[i - 1]);
        assert(forall|i: int| 1 <= i < v.len() ==> rest[i - 1] == v[i]);
    }
}

/// Law: a nonempty buffer of printable bytes (no escape byte can occur in
/// that range) falls back to exactly one plain-text run, holding the
/// buffer's bytes character for character.
pub proof fn lemma_printable_roundtrip(v: Seq<u8>)
    requires
        v.len() > 0,
        forall|i: int| 0 <= i < v.len() ==> 0x20 <= #[trigger] v[i] <= 0x7e,
    ensures
        valid_utf8(v),
        decode_utf8(v).len() == v.len(),
        forall|i: int|
            0 <= i < v.len() ==> (#[trigger] decode_utf8(v)[i]) as u32 == v[i] as u32,
        fallback_spec(v) == seq![ExtendedCharView::CharString(decode_utf8(v))],
{
    let n = v.len() as int;
    assert(v.subrange(0, 0) =~= Seq::<u8>::empty());
    assert(valid_utf8(v.subrange(0, 0)));
    assert(partial_valid_utf8(v, 0));
    assert(forall|i: int| 0 <= i < n ==> #[trigger] is_leading_byte_width_1(v[i]));
    partial_valid_utf8_extend_ascii_block(v, 0, n);
    assert(v.subrange(0, n) =~= v);
    assert(valid_utf8(v));
    lemma_ascii_decode(v);
    let cs = decode_utf8(v);
    assert(forall|i: int| 0 <= i < cs.len() ==> is_printable(#[trigger] cs[i]));
    lemma_run_len_exact(cs, cs.len() as int);
    assert(cs[0] != '\x1b') by {
        assert('\x1b' as u32 == 0x1b);
        assert(cs[0] as u32 >= 0x20);
    }
    assert(cs.take(cs.len() as int) =~= cs);
    assert(cs.skip(cs.len() as int) =~= Seq::<char>::empty());
    assert(fallback_chars(cs) == seq![ExtendedCharView::CharString(cs)] + fallback_chars(
        Seq::<char>::empty(),
    ));
    assert(seq![ExtendedCharView::CharString(cs)] + Seq::<ExtendedCharView>::empty()
        =~= seq![ExtendedCharView::CharString(cs)]);
}

/// No event of the character path is the `Partial` marker or the `Quit`
/// sentinel.
proof fn lemma_fallback_chars_no_marker(cs: Seq<char>)
    ensures
        forall|k: int|
            0 <= k < fallback_chars(cs).len() ==> (#[trigger] fallback_chars(cs)[k])
                != ExtendedCharView::Partial && fallback_chars(cs)[k] != ExtendedCharView::Quit,
    decreases cs.len(),
{
    if cs.len() == 0 {
    } else if cs[0] == '\x1b' {
        if cs.len() == 1 {
        } else {
            lemma_fallback_chars_no_marker(cs.skip(2));
        }
    } else if is_printable(cs[0]) {
        lemma_run_len_bounds(cs);
        lemma_fallback_chars_no_marker(cs.skip(run_len(cs)));
    } else {
        lemma_fallback_chars_no_marker(cs.skip(1));
    }
}

/// No event of the byte path is the `Partial` marker or the `Quit`
/// sentinel.
proof fn lemma_fallback_bytes_no_marker(v: Seq<u8>)
    ensures
        forall|k: int|
            0 <= k < fallback_bytes(v).len() ==> (#[trigger] fallback_bytes(v)[k])
                != ExtendedCharView::Partial && fallback_bytes(v)[k] != ExtendedCharView::Quit,
    decreases v.len(),
{
    if v.len() == 0 {
    } else if v[0] == 0x1b {
        if v.len() == 1 {
        } else {
            lemma_fallback_bytes_no_marker(v.skip(2));
        }
    } else {
        lemma_fallback_bytes_no_marker(v.skip(1));
    }
}

/// Law: the fallback encoder only re-tags input bytes.  No event it emits
/// is the internal `Partial` marker, and none is the `Quit` sentinel.
pub proof fn lemma_fallback_no_marker(v: Seq<u8>)
    ensures
        forall|k: int|
            0 <= k < fallback_spec(v).len() ==> (#[trigger] fallback_spec(v)[k])
                != ExtendedCharView::Partial && fallback_spec(v)[k] != ExtendedCharView::Quit,
{
    if valid_utf8(v) {
        lemma_fallback_chars_no_marker(decode_utf8(v));
    } else {
        lemma_fallback_bytes_no_marker(v);
    }
}

/// The raw bytes a fallback event of the byte path stands for: an
/// Alt-modified byte restores the consumed ESC marker before it.
pub open spec fn event_bytes(ev: ExtendedCharView) -> Seq<u8> {
    match ev {
        ExtendedCharView::Byte(b) => seq![b],
        ExtendedCharView::AltByte(b) => seq![0x1b, b],
        _ => seq![],
    }
}

/// The concatenated raw bytes of a sequence of fallback events.
pub open spec fn events_bytes(evs: Seq<ExtendedCharView>) -> Seq<u8>
    decreases evs.len(),
{
    if evs.len() == 0 {
        seq![]
    } else {
        event_bytes(evs[0]) + events_bytes(evs.drop_first())
    }
}

proof fn lemma_events_bytes_one(ev: ExtendedCharView)
    ensures
        events_bytes(seq![ev]) == event_bytes(ev),
{
    assert(seq![ev].drop_first() =~= Seq::<ExtendedCharView>::empty());
    assert(events_bytes(Seq::<ExtendedCharView>::empty()) =~= Seq::<u8>::empty());
    assert(event_bytes(ev) + Seq::<u8>::empty() =~= event_bytes(ev));
}

proof fn lemma_events_bytes_concat(a: Seq<ExtendedCharView>, b: Seq<ExtendedCharView>)
    ensures
        events_bytes(a + b) == events_bytes(a) + events_bytes(b),
    decreases a.len(),
{
    if a.len() == 0 {
        assert(a + b =~= b);
        assert(events_bytes(a) + events_bytes(b) =~= events_bytes(b));
    } else {
        assert((a + b).drop_first() =~= a.drop_first() + b);
        lemma_events_bytes_concat(a.drop_first(), b);
        assert(event_bytes(a[0]) + (events_bytes(a.drop_first()) + events_bytes(b)) =~= (
        event_bytes(a[0]) + events_bytes(a.drop_first())) + events_bytes(b));
    }
}

/// Law: the byte path of the fallback encoder loses nothing.  The raw
/// bytes of its events, with each consumed ESC marker restored, are
/// exactly the input buffer.
pub proof fn lemma_bytes_path_conserves(v: Seq<u8>)
    ensures
        events_bytes(fallback_bytes(v)) == v,
    decreases v.len(),
{
    if v.len() == 0 {
        assert(events_bytes(fallback_bytes(v)) =~= v);
    } else if v[0] == 0x1b {
        if v.len() == 1 {
            assert(fallback_bytes(v) =~= seq![ExtendedCharView::Byte(0x1b)]);
            lemma_events_bytes_one(ExtendedCharView::Byte(0x1b));
            assert(event_bytes(ExtendedCharView::Byte(0x1b)) =~= v);
        } else {
            let head = seq![ExtendedCharView::AltByte(v[1])];
            assert(fallback_bytes(v) == head + fallback_bytes(v.skip(2)));
            lemma_events_bytes_concat(head, fallback_bytes(v.skip(2)));
            lemma_events_bytes_one(ExtendedCharView::AltByte(v[1]));
            lemma_bytes_path_conserves(v.skip(2));
            assert(events_bytes(head) =~= seq![0x1b, v[1]]);
            assert(seq![0x1bu8, v[1]] + v.skip(2) =~= v);
        }
    } else {
        let head = seq![ExtendedCharView::Byte(v[0])];
        assert(fallback_bytes(v) == head + fallback_bytes(v.skip(1)));
        lemma_events_bytes_concat(head, fallback_bytes(v.skip(1)));
        lemma_events_bytes_one(ExtendedCharView::Byte(v[0]));
        lemma_bytes_path_conserves(v.skip(1));
        assert(events_bytes(head) =~= seq![v[0]]);
        assert(seq![v[0]] + v.skip(1) =~= v);
    }
}

/// The code points a fallback event of the character path stands for: an
/// Alt-modified byte restores the consumed ESC marker before it.
pub open spec fn event_points(ev: ExtendedCharView) -> Seq<u32> {
    match ev {
        ExtendedCharView::Byte(b) => seq![b as u32],
        ExtendedCharView::AltByte(b) => seq![0x1b, b as u32],
        ExtendedCharView::Char(c) => seq![c as u32],
        ExtendedCharView::CharString(s) => s.map_values(|c: char| c as u32),
        _ => seq![],
    }
}

/// The concatenated code points of a sequence of fallback events.
pub open spec fn events_points(evs: Seq<ExtendedCharView>) -> Seq<u32>
    decreases evs.len(),
{
    if evs.len() == 0 {
        seq![]
    } else {
        event_points(evs[0]) + events_points(evs.drop_first())
    }
}

proof fn lemma_events_points_one(ev: ExtendedCharView)
    ensures
        events_points(seq![ev]) == event_points(ev),
{
    assert(seq![ev].drop_first() =~= Seq::<ExtendedCharView>::empty());
    assert(events_points(Seq::<ExtendedCharView>::empty()) =~= Seq::<u32>::empty());
    assert(event_points(ev) + Seq::<u32>::empty() =~= event_points(ev));
}

proof fn lemma_events_points_concat(a: Seq<ExtendedCharView>, b: Seq<ExtendedCharView>)
    ensures
        events_points(a + b) == events_points(a) + events_points(b),
    decreases a.len(),
{
    if a.len() == 0 {
        assert(a + b =~= b);
        assert(events_points(a) + events_points(b) =~= events_points(b));
    } else {
        assert((a + b).drop_first() =~= a.drop_first() + b);
        lemma_events_points_concat(a.drop_first(), b);
        assert(event_points(a[0]) + (events_points(a.drop_first()) + events_points(b)) =~= (
        event_points(a[0]) + events_points(a.drop_first())) + events_points(b));
    }
}

/// The code points of a character sequence.
pub open spec fn points_of(cs: Seq<char>) -> Seq<u32> {
    cs.map_values(|c: char| c as u32)
}

/// Law: the character path of the fallback encoder loses nothing.  For a
/// character sequence whose code points are Unicode scalars — which every
/// decoded sequence is — the code points of its fallback events, with each
/// consumed ESC marker restored, are exactly the sequence's own code
/// points.
pub proof fn lemma_chars_path_conserves(cs: Seq<char>)
    requires
        forall|i: int| 0 <= i < cs.len() ==> vstd::utf8::is_scalar(#[trigger] (cs[i] as u32)),
    ensures
        events_points(fallback_chars(cs)) == points_of(cs),
    decreases cs.len(),
{
    if cs.len() == 0 {
        assert(events_points(fallback_chars(cs)) =~= points_of(cs));
    } else if cs[0] == '\x1b' {
        assert(cs[0] as u32 == 0x1b);
        if cs.len() == 1 {
            lemma_events_points_one(ExtendedCharView::Byte(0x1b));
            assert(events_points(fallback_chars(cs)) =~= points_of(cs));
        } else if (cs[1] as u32) <= 0xff {
            let head = seq![ExtendedCharView::AltByte(char_byte(cs[1]))];
            lemma_events_points_concat(head, fallback_chars(cs.skip(2)));
            lemma_events_points_one(ExtendedCharView::AltByte(char_byte(cs[1])));
            lemma_chars_path_conserves(cs.skip(2));
            assert(char_byte(cs[1]) as u32 == cs[1] as u32);
            assert(points_of(cs.skip(2)) =~= points_of(cs).skip(2));
            assert(seq![0x1bu32, cs[1] as u32] + points_of(cs).skip(2) =~= points_of(cs));
            assert(event_points(ExtendedCharView::AltByte(char_byte(cs[1]))) =~= seq![
                0x1bu32,
                cs[1] as u32,
            ]);
        } else {
            let e1 = ExtendedCharView::Byte(0x1b);
            let e2 = char_event(cs[1]);
            let head = seq![e1, e2];
            lemma_events_points_concat(head, fallback_chars(cs.skip(2)));
            lemma_chars_path_conserves(cs.skip(2));
            let u = cs[1] as u32;
            assert((u as char) as u32 == u);
            assert(head.drop_first() =~= seq![e2]);
            lemma_events_points_one(e2);
            assert(events_points(head) =~= seq![0x1bu32, u]);
            assert(points_of(cs.skip(2)) =~= points_of(cs).skip(2));
            assert(seq![0x1bu32, u] + points_of(cs).skip(2) =~= points_of(cs));
        }
    } else if is_printable(cs[0]) {
        lemma_run_len_bounds(cs);
        let k = run_len(cs);
        let head = seq![ExtendedCharView::CharString(cs.take(k))];
        lemma_events_points_concat(head, fallback_chars(cs.skip(k)));
        lemma_events_points_one(ExtendedCharView::CharString(cs.take(k)));
        lemma_chars_path_conserves(cs.skip(k));
        assert(event_points(ExtendedCharView::CharString(cs.take(k))) =~= points_of(cs).take(k));
        assert(points_of(cs.skip(k)) =~= points_of(cs).skip(k));
        assert(points_of(cs).take(k) + points_of(cs).skip(k) =~= points_of(cs));
    } else {
        let ev = if (cs[0] as u32) <= 0xff {
            ExtendedCharView::Byte(char_byte(cs[0]))
        } else {
            char_event(cs[0])
        };
        let head = seq![ev];
        lemma_events_points_concat(head, fallback_chars(cs.skip(1)));
        lemma_events_points_one(ev);
        lemma_chars_path_conserves(cs.skip(1));
        if (cs[0] as u32) <= 0xff {
            assert(char_byte(cs[0]) as u32 == cs[0] as u32);
        } else {
            let u = cs[0] as u32;
            assert((u as char) as u32 == u);
        }
        assert(event_points(ev) =~= seq![cs[0] as u32]);
        assert(points_of(cs.skip(1)) =~= points_of(cs).skip(1));
        assert(seq![cs[0] as u32] + points_of(cs).skip(1) =~= points_of(cs));
    }
}

/// Every character that [`vstd::utf8::decode_utf8`] yields is a Unicode
/// scalar.
proof fn lemma_decoded_scalars(v: Seq<u8>)
    requires
        valid_utf8(v),
    ensures
        forall|i: int|
            0 <= i < decode_utf8(v).len() ==> vstd::utf8::is_scalar(
                #[trigger] (decode_utf8(v)[i] as u32),
            ),
    decreases v.len(),
{
    if v.len() == 0 {
    } else {
        let u = decode_first_scalar(v);
        let b1 = v[0];
        if is_leading_byte_width_1(b1) {
            assert((b1 & 0x7f) <= 0x7f) by (bit_vector);
            assert(u <= 0x7f);
        } else if vstd::utf8::is_leading_byte_width_2(b1) {
            let b2 = v[1];
            assert((((b1 & 0x1f) as u32) << 6u32) | ((b2 & 0x3f) as u32) <= 0x7ff)
                by (bit_vector);
            assert(u <= 0x7ff);
        } else if vstd::utf8::is_leading_byte_width_3(b1) {
            let b2 = v[1];
            let b3 = v[2];
            assert((((b1 & 0x0f) as u32) << 12u32) | (((b2 & 0x3f) as u32) << 6u32) | ((b3
                & 0x3f) as u32) <= 0xffff) by (bit_vector);
            assert(u <= 0xffff);
        } else {
            assert(vstd::utf8::not_overlong_encoding(u, 4));
        }
        assert(vstd::utf8::is_scalar(u));
        assert((u as char) as u32 == u);
        let rest = pop_first_scalar(v);
        lemma_decoded_scalars(rest);
        assert(decode_utf8(v) == seq![u as char] + decode_utf8(rest));
        assert(forall|i: int|
            1 <= i < decode_utf8(v).len() ==> (#[trigger] decode_utf8(v)[i]) == decode_utf8(
                rest,
            )[i - 1]);
    }
}

/// Law: the fallback encoder only re-tags its input.  A buffer of valid
/// UTF-8 keeps every decoded code point, and any other buffer keeps every
/// byte, with each ESC consumed as an Alt marker restored by its event.
pub proof fn lemma_fallback_conserves(v: Seq<u8>)
    ensures
        valid_utf8(v) ==> events_points(fallback_spec(v)) == points_of(decode_utf8(v)),
        !valid_utf8(v) ==> events_bytes(fallback_spec(v)) == v,
{
    if valid_utf8(v) {
        lemma_decoded_scalars(v);
        lemma_chars_path_conserves(decode_utf8(v));
    } else {
        lemma_bytes_path_conserves(v);
    }
}

/// Scans the maximal printable run of `cs` from `start` and collects it
/// into a string.
fn take_run(cs: &Vec<char>, start: usize) -> (res: (usize, String))
    requires
        start < cs@.len(),
        is_printable(cs@[start as int]),
    ensures
        start < res.0 <= cs@.len(),
        forall|t: int| start <= t < res.0 ==> is_printable(#[trigger] cs@[t]),
        res.0 < cs@.len() ==> !is_printable(cs@[res.0 as int]),
        res.1@ == cs@.subrange(start as int, res.0 as int),
{
    let n = cs.len();
    let mut s = String::new();
    let mut j = start;
    loop
        invariant
            start <= j <= n,
            n == cs@.len(),
            start < n,
            forall|t: int| start <= t < j ==> is_printable(#[trigger] cs@[t]),
            s@ == cs@.subrange(start as int, j as int),
        ensures
            start <= j <= n,
            forall|t: int| start <= t < j ==> is_printable(#[trigger] cs@[t]),
            j < n ==> !is_printable(cs@[j as int]),
            s@ == cs@.subrange(start as int, j as int),
        decreases n - j,
    {
        if j == n {
            break;
        }
        let c = cs[j];
        let cu = c as u32;
        if !(0x20 <= cu && cu <= 0x7e) {
            break;
        }
        push_char(&mut s, c);
        assert(s@ =~= cs@.subrange(start as int, j + 1 as int));
        j = j + 1;
    }
    assert(start < j) by {
        assert(is_printable(cs@[start as int]));
    }
    (j, s)
}

/// Re-encodes a buffer that matched no escape sequence as fallback events.
pub fn encode_extended_string(v: &[u8]) -> (r: Vec<ExtendedChar>)
    ensures
        r.deep_view() == fallback_spec(v@),
{
    let mut out: Vec<ExtendedChar> = Vec::new();
    match try_decode_utf8(v) {
        Some(cs) => {
            let n = cs.len();
            let mut i: usize = 0;
            proof {
                assert(cs@.skip(0) =~= cs@);
                assert(out.deep_view() + fallback_chars(cs@) =~= fallback_chars(cs@));
            }
            while i < n
                invariant
                    0 <= i <= n,
                    n == cs@.len(),
                    cs@ == decode_utf8(v@),
                    valid_utf8(v@),
                    fallback_chars(cs@) == out.deep_view() + fallback_chars(cs@.skip(i as int)),
                decreases n - i,
            {
                let ghost rest = cs@.skip(i as int);
                let ghost prev = out.deep_view();
                let ghost prev_vec = out@;
                assert(rest[0] == cs@[i as int]);
                let c = cs[i];
                let cu = c as u32;
                if c == '\x1b' {
                    if i + 1 == n {
                        assert(rest.len() == 1);
                        out.push(ExtendedChar::Byte(0x1b));
                        proof {
                            let ev = ExtendedCharView::Byte(0x1b);
                            assert(out.deep_view() =~= prev.push(ev));
                            assert(cs@.skip(n as int) =~= Seq::<char>::empty());
                            assert(fallback_chars(rest) =~= seq![ev]);
                            assert(prev + seq![ev] =~= prev.push(ev) + fallback_chars(
                                cs@.skip(n as int),
                            ));
                        }
                        i = i + 1;
                    } else {
                        assert(rest[1] == cs@[i + 1]);
                        let c2 = cs[i + 1];
                        assert(rest.skip(2) =~= cs@.skip(i + 2));
                        if (c2 as u32) <= 0xff {
                            out.push(ExtendedChar::AltByte((c2 as u32) as u8));
                            proof {
                                let ev = ExtendedCharView::AltByte(char_byte(c2));
                                assert(out.deep_view() =~= prev.push(ev));
                                assert(fallback_chars(rest) == seq![ev] + fallback_chars(
                                    rest.skip(2),
                                ));
                                assert(prev + (seq![ev] + fallback_chars(rest.skip(2)))
                                    =~= prev.push(ev) + fallback_chars(rest.skip(2)));
                            }
                        } else {
                            out.push(ExtendedChar::Byte(0x1b));
                            out.push(ExtendedChar::Char(c2));
                            proof {
                                vstd::utf8::char_u32_cast(c2, c2 as u32);
                                let e1 = ExtendedCharView::Byte(0x1b);
                                let e2 = char_event(c2);
                                assert(e2 == ExtendedCharView::Char(c2));
                                assert(out@ == prev_vec.push(ExtendedChar::Byte(0x1b)).push(
                                    ExtendedChar::Char(c2),
                                ));
                                assert(out.deep_view() =~= prev.push(e1).push(e2));
                                assert(fallback_chars(rest) == seq![e1, char_event(rest[1])]
                                    + fallback_chars(rest.skip(2)));
                                assert(seq![e1, char_event(rest[1])] =~= seq![e1, e2]);
                                assert(prev + (seq![e1, e2] + fallback_chars(rest.skip(2)))
                                    =~= prev.push(e1).push(e2) + fallback_chars(rest.skip(2)));
                            }
                        }
                        i = i + 2;
                    }
                } else if 0x20 <= cu && cu <= 0x7e {
                    let (j, s) = take_run(&cs, i);
                    proof {
                        lemma_run_len_exact(rest, j - i);
                        assert(rest.take(j - i) =~= cs@.subrange(i as int, j as int));
                        assert(rest.skip(j - i) =~= cs@.skip(j as int));
                    }
                    out.push(ExtendedChar::CharString(s));
                    proof {
                        let ev = ExtendedCharView::CharString(rest.take(j - i));
                        assert(out.deep_view() =~= prev.push(ev));
                        assert(fallback_chars(rest) == seq![ev] + fallback_chars(
                            rest.skip(j - i),
                        ));
                        assert(prev + (seq![ev] + fallback_chars(rest.skip(j - i))) =~= prev.push(
                            ev,
                        ) + fallback_chars(rest.skip(j - i)));
                    }
                    i = j;
                } else if cu <= 0xff {
                    assert(rest.skip(1) =~= cs@.skip(i + 1));
                    out.push(ExtendedChar::Byte((c as u32) as u8));
                    proof {
                        let ev = ExtendedCharView::Byte(char_byte(c));
                        assert(out.deep_view() =~= prev.push(ev));
                        assert(fallback_chars(rest) == seq![ev] + fallback_chars(rest.skip(1)));
                        assert(prev + (seq![ev] + fallback_chars(rest.skip(1))) =~= prev.push(ev)
                            + fallback_chars(rest.skip(1)));
                    }
                    i = i + 1;
                } else {
                    assert(rest.skip(1) =~= cs@.skip(i + 1));
                    out.push(ExtendedChar::Char(c));
                    proof {
                        vstd::utf8::char_u32_cast(c, c as u32);
                        let ev = char_event(c);
                        assert(ev == ExtendedCharView::Char(c));
                        assert(out.deep_view() =~= prev.push(ev));
                        assert(fallback_chars(rest) == seq![char_event(rest[0])] + fallback_chars(
                            rest.skip(1),
                        ));
                        assert(prev + (seq![ev] + fallback_chars(rest.skip(1))) =~= prev.push(ev)
                            + fallback_chars(rest.skip(1)));
                    }
                    i = i + 1;
                }
            }
            proof {
                assert(cs@.skip(n as int) =~= Seq::<char>::empty());
                assert(out.deep_view() + fallback_chars(Seq::<char>::empty()) =~= out.deep_view());
            }
        },
        None => {
            let n = v.len();
            let mut i: usize = 0;
            proof {
                assert(v@.skip(0) =~= v@);
                assert(out.deep_view() + fallback_bytes(v@) =~= fallback_bytes(v@));
            }
            while i < n
                invariant
                    0 <= i <= n,
                    n == v@.len(),
                    !valid_utf8(v@),
                    fallback_bytes(v@) == out.deep_view() + fallback_bytes(v@.skip(i as int)),
                decreases n - i,
            {
                let ghost rest = v@.skip(i as int);
                let ghost prev = out.deep_view();
                assert(rest[0] == v@[i as int]);
                let b = v[i];
                if b == 0x1b {
                    if i + 1 == n {
                        assert(rest.len() == 1);
                        out.push(ExtendedChar::Byte(0x1b));
                        proof {
                            let ev = ExtendedCharView::Byte(0x1b);
                            assert(out.deep_view() =~= prev.push(ev));
                            assert(v@.skip(n as int) =~= Seq::<u8>::empty());
                            assert(fallback_bytes(rest) =~= seq![ev]);
                            assert(prev + seq![ev] =~= prev.push(ev) + fallback_bytes(
                                v@.skip(n as int),
                            ));
                        }
                        i = i + 1;
                    } else {
                        assert(rest[1] == v@[i + 1]);
                        let b2 = v[i + 1];
                        assert(rest.skip(2) =~= v@.skip(i + 2));
                        out.push(ExtendedChar::AltByte(b2));
                        proof {
                            let ev = ExtendedCharView::AltByte(b2);
                            assert(out.deep_view() =~= prev.push(ev));
                            assert(fallback_bytes(rest) == seq![ev] + fallback_bytes(
                                rest.skip(2),
                            ));
                            assert(prev + (seq![ev] + fallback_bytes(rest.skip(2))) =~= prev.push(
                                ev,
                            ) + fallback_bytes(rest.skip(2)));
                        }
                        i = i + 2;
                    }
                } else {
                    assert(rest.skip(1) =~= v@.skip(i + 1));
                    out.push(ExtendedChar::Byte(b));
                    proof {
                        let ev = ExtendedCharView::Byte(b);
                        assert(out.deep_view() =~= prev.push(ev));
                        assert(fallback_bytes(rest) == seq![ev] + fallback_bytes(rest.skip(1)));
                        assert(prev + (seq![ev] + fallback_bytes(rest.skip(1))) =~= prev.push(ev)
                            + fallback_bytes(rest.skip(1)));
                    }
                    i = i + 1;
                }
            }
            proof {
                assert(v@.skip(n as int) =~= Seq::<u8>::empty());
                assert(out.deep_view() + fallback_bytes(Seq::<u8>::empty()) =~= out.deep_view());
            }
        },
    }
    out
}

} // verus!
