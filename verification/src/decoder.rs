//! The incremental decoder: accumulates bytes while they form a prefix of
//! a recognized escape sequence, emits the decoded event on a complete
//! match, and falls back to plain-text encoding when no sequence can match
//! any more.
//!
//! The decoder itself is purely a state machine from (pending buffer, next
//! byte) to (new pending buffer, emitted events).  The caller decides when
//! to wait for more bytes and when to give up: whenever the pending buffer
//! is nonempty, the quiet-window policy is to wait a bounded time for the
//! next byte and call [`Decoder::flush`] if none arrives, so that a lone
//! ESC (or a truncated sequence) is resolved after one window instead of
//! hanging forever.

use vstd::prelude::*;
use crate::fallback::{encode_extended_string, fallback_spec};
use crate::keys::{ExtendedChar, ExtendedCharView};
use crate::table::{lookup, lookup_spec};

verus! {

/// The decoder's reaction to one more byte: the new pending buffer and the
/// events emitted, in order.
///
/// The byte is appended to the pending buffer and the result is looked up
/// in the sequence table: a strict prefix of a longer entry keeps
/// accumulating and emits nothing, an exact entry emits its event and
/// clears the buffer, and a buffer no entry starts with is re-encoded
/// through the fallback path and cleared.
pub open spec fn feed_spec(pending: Seq<u8>, b: u8) -> (Seq<u8>, Seq<ExtendedCharView>) {
    let q = pending.push(b);
    match lookup_spec(q) {
        Some(e) => if e == ExtendedChar::Partial {
            (q, Seq::empty())
        } else {
            (Seq::empty(), seq![e@])
        },
        None => (Seq::empty(), fallback_spec(q)),
    }
}

/// The final pending buffer and all events of feeding the bytes of `s`, in
/// order, into a decoder whose pending buffer holds `pending`.
pub open spec fn run_spec(pending: Seq<u8>, s: Seq<u8>) -> (Seq<u8>, Seq<ExtendedCharView>)
    decreases s.len(),
{
    if s.len() == 0 {
        (pending, Seq::empty())
    } else {
        let step = feed_spec(pending, s[0]);
        let rest = run_spec(step.0, s.drop_first());
        (rest.0, step.1 + rest.1)
    }
}

/// The incremental decoder; it owns the pending buffer of bytes received
/// since the last event or flush.
pub struct Decoder {
    pending: Vec<u8>,
}

impl View for Decoder {
    type V = Seq<u8>;

    closed spec fn view(&self) -> Seq<u8> {
        self.pending@
    }
}

impl Decoder {
    /// A decoder with an empty pending buffer.
    pub fn new() -> (d: Decoder)
        ensures
            d@ == Seq::<u8>::empty(),
    {
        Decoder { pending: Vec::new() }
    }

    /// The number of bytes pending; the caller waits with a bounded quiet
    /// window exactly when this is nonzero.
    pub fn pending_len(&self) -> (n: usize)
        ensures
            n == self@.len(),
    {
        self.pending.len()
    }

    /// Feeds one byte, returning the events it settles, as [`feed_spec`]
    /// says.
    pub fn feed(&mut self, b: u8) -> (evs: Vec<ExtendedChar>)
        ensures
            final(self)@ == feed_spec(old(self)@, b).0,
            evs.deep_view() == feed_spec(old(self)@, b).1,
    {
        self.pending.push(b);
        match lookup(self.pending.as_slice()) {
            Some(ExtendedChar::Partial) => {
                let evs: Vec<ExtendedChar> = Vec::new();
                assert(evs.deep_view() =~= Seq::<ExtendedCharView>::empty());
                evs
            },
            Some(e) => {
                self.pending.clear();
                let mut evs: Vec<ExtendedChar> = Vec::new();
                let ghost ev = e@;
                evs.push(e);
                assert(evs.deep_view() =~= seq![ev]);
                evs
            },
            None => {
                let evs = encode_extended_string(self.pending.as_slice());
                self.pending.clear();
                evs
            },
        }
    }

    /// Force-flushes the pending buffer through the fallback encoder: what
    /// the caller does when the quiet window elapses with no further byte,
    /// or when the byte stream ends.  Exactly the fallback events of the
    /// buffer are returned, and the buffer is cleared; an empty buffer
    /// yields no event.
    pub fn flush(&mut self) -> (evs: Vec<ExtendedChar>)
        ensures
            final(self)@ == Seq::<u8>::empty(),
            evs.deep_view() == fallback_spec(old(self)@),
    {
        let evs = encode_extended_string(self.pending.as_slice());
        self.pending.clear();
        evs
    }

    /// Ends the stream: flushes whatever is pending and closes with the
    /// `Quit` sentinel.
    pub fn finish(&mut self) -> (evs: Vec<ExtendedChar>)
        ensures
            final(self)@ == Seq::<u8>::empty(),
            evs.deep_view() == fallback_spec(old(self)@).push(ExtendedCharView::Quit),
    {
        let ghost before = self@;
        let mut evs = self.flush();
        evs.push(ExtendedChar::Quit);
        assert(evs.deep_view() =~= fallback_spec(before).push(ExtendedCharView::Quit));
        evs
    }
}

/// Every strict nonempty prefix of a catalog entry under `ESC [` is itself
/// a `Partial` entry.
proof fn lemma_csi_prefix(t: Seq<u8>, j: int)
    requires
        crate::table::csi_lookup(t) is Some,
        0 <= j < t.len(),
    ensures
        crate::table::csi_lookup(t.take(j)) == Some(ExtendedChar::Partial),
{
    let p = t.take(j);
    assert(p.len() == j);
    assert(forall|k: int| 0 <= k < j ==> p[k] == t[k]);
}

/// Every strict nonempty prefix of a catalog entry is itself a `Partial`
/// entry: the catalog is closed under prefixes.
pub proof fn lemma_entry_prefix_partial(s: Seq<u8>, i: int)
    requires
        lookup_spec(s) is Some,
        1 <= i < s.len(),
    ensures
        lookup_spec(s.take(i)) == Some(ExtendedChar::Partial),
{
    let p = s.take(i);
    assert(p.len() == i);
    assert(forall|k: int| 0 <= k < i ==> p[k] == s[k]);
    if s[1] == 0x5b && i >= 2 {
        assert(p.skip(2) =~= s.skip(2).take(i - 2));
        if i == 2 {
            assert(s.skip(2).take(0) =~= Seq::<u8>::empty());
        } else {
            lemma_csi_prefix(s.skip(2), i - 2);
        }
    }
}

/// Feeding the remaining bytes of a catalog entry, from a pending buffer
/// that already holds its first `i` bytes, runs through `Partial` states
/// and ends as the entry's own lookup result says: the buffer keeps the
/// whole entry when the entry is `Partial`, and otherwise the event is
/// emitted with the buffer cleared.
proof fn lemma_run_entry(s: Seq<u8>, i: int)
    requires
        lookup_spec(s) is Some,
        0 <= i < s.len(),
    ensures
        run_spec(s.take(i), s.skip(i)) == if lookup_spec(s) == Some(ExtendedChar::Partial) {
            (s, Seq::<ExtendedCharView>::empty())
        } else {
            (Seq::<u8>::empty(), seq![lookup_spec(s)->0@])
        },
    decreases s.len() - i,
{
    let rem = s.skip(i);
    assert(rem[0] == s[i]);
    assert(rem.len() == s.len() - i);
    let q = s.take(i).push(s[i]);
    assert(q =~= s.take(i + 1));
    let step = feed_spec(s.take(i), rem[0]);
    let rest = run_spec(step.0, rem.drop_first());
    assert(run_spec(s.take(i), rem) == (rest.0, step.1 + rest.1));
    assert(rem.drop_first() =~= s.skip(i + 1));
    if i + 1 == s.len() {
        assert(q =~= s);
        assert(s.skip(i + 1).len() == 0);
        if lookup_spec(s) == Some(ExtendedChar::Partial) {
            assert(step == (s, Seq::<ExtendedCharView>::empty()));
            assert(rest == (s, Seq::<ExtendedCharView>::empty()));
            assert(step.1 + rest.1 =~= Seq::<ExtendedCharView>::empty());
        } else {
            let ev = lookup_spec(s)->0@;
            assert(step == (Seq::<u8>::empty(), seq![ev]));
            assert(rest == (Seq::<u8>::empty(), Seq::<ExtendedCharView>::empty()));
            assert(step.1 + rest.1 =~= seq![ev]);
        }
    } else {
        lemma_entry_prefix_partial(s, i + 1);
        assert(lookup_spec(q) == Some(ExtendedChar::Partial));
        assert(step == (s.take(i + 1), Seq::<ExtendedCharView>::empty()));
        lemma_run_entry(s, i + 1);
        assert(rest == run_spec(s.take(i + 1), s.skip(i + 1)));
        assert(step.1 + rest.1 =~= rest.1);
    }
}

/// Law: feeding exactly the byte sequence of a catalog entry whose value
/// is a concrete event into a fresh decoder yields that event exactly
/// once, with the pending buffer empty afterward.
pub proof fn lemma_entry_event(s: Seq<u8>, e: ExtendedChar)
    requires
        lookup_spec(s) == Some(e),
        e != ExtendedChar::Partial,
    ensures
        run_spec(Seq::empty(), s) == (Seq::<u8>::empty(), seq![e@]),
{
    assert(s.len() > 0);
    assert(s.take(0) =~= Seq::<u8>::empty());
    assert(s.skip(0) =~= s);
    lemma_run_entry(s, 0);
}

/// Law: feeding exactly the byte sequence of a `Partial` catalog entry
/// into a fresh decoder emits nothing and leaves exactly those bytes
/// pending.
pub proof fn lemma_entry_partial(s: Seq<u8>)
    requires
        lookup_spec(s) == Some(ExtendedChar::Partial),
    ensures
        run_spec(Seq::empty(), s) == (s, Seq::<ExtendedCharView>::empty()),
{
    assert(s.len() > 0);
    assert(s.take(0) =~= Seq::<u8>::empty());
    assert(s.skip(0) =~= s);
    lemma_run_entry(s, 0);
}

/// Law: the `Partial` marker never leaves the decoder, and the `Quit`
/// sentinel comes only from ending the stream: feeding a byte emits
/// neither.
pub proof fn lemma_feed_no_marker(pending: Seq<u8>, b: u8)
    ensures
        forall|k: int|
            0 <= k < feed_spec(pending, b).1.len() ==> (#[trigger] feed_spec(pending, b).1[k])
                != ExtendedCharView::Partial && feed_spec(pending, b).1[k]
                != ExtendedCharView::Quit,
{
    let q = pending.push(b);
    match lookup_spec(q) {
        Some(e) => {
            crate::table::lemma_lookup_values(q);
        },
        None => {
            crate::fallback::lemma_fallback_no_marker(q);
        },
    }
}

/// Law: decoding has no hidden state.  The events and the final pending
/// buffer are a function of the starting buffer and the byte stream alone,
/// so replaying a stream through a second decoder in the same starting
/// state yields the same event sequence.
pub proof fn lemma_replay_deterministic(first: Seq<u8>, second: Seq<u8>, s: Seq<u8>)
    requires
        first == second,
    ensures
        run_spec(first, s) == run_spec(second, s),
{
}

} // verus!
