//! Sliding-window watcher for the caller-configured quit sequence.
//!
//! Every raw byte is fed through [`check_quit_buffer`], independently of the
//! decoder's state.  The watcher keeps the most recent bytes that still form
//! a prefix of the quit sequence; on a mismatch it resynchronizes by
//! dropping bytes from the front, so that overlapping occurrences of a
//! self-similar quit sequence are not missed.

use vstd::prelude::*;

verus! {

/// The longest suffix of `t` that is a prefix of `s`, found by dropping
/// elements from the front of `t` one at a time; empty when no suffix
/// matches.
pub open spec fn resync(t: Seq<u8>, s: Seq<u8>) -> Seq<u8>
    decreases t.len(),
{
    if t.len() == 0 {
        t
    } else if t.is_prefix_of(s) {
        t
    } else {
        resync(t.drop_first(), s)
    }
}

/// The result of [`resync`] is a prefix of `s` (an empty one when no
/// suffix matches), and never longer than what was given.
pub proof fn lemma_resync_is_prefix(t: Seq<u8>, s: Seq<u8>)
    ensures
        resync(t, s).is_prefix_of(s) || resync(t, s).len() == 0,
        resync(t, s).len() <= t.len(),
    decreases t.len(),
{
    if t.len() == 0 {
    } else if t.is_prefix_of(s) {
    } else {
        lemma_resync_is_prefix(t.drop_first(), s);
    }
}

/// The watcher's sliding window always stays a prefix of the quit
/// sequence: starting from a window that is a proper prefix, the window
/// that [`check_quit_buffer`] leaves behind is again a prefix — the whole
/// sequence exactly when the match is reported, and a proper prefix
/// otherwise.
pub proof fn lemma_window_stays_prefix(buf: Seq<u8>, c: u8, s: Seq<u8>)
    requires
        buf.is_prefix_of(s),
        buf.len() < s.len(),
    ensures
        ({
            let pushed = buf.push(c);
            if c == s[buf.len() as int] {
                pushed.is_prefix_of(s)
            } else {
                let w = resync(pushed.drop_first(), s);
                &&& (w.is_prefix_of(s) || w.len() == 0)
                &&& w.len() < s.len()
            }
        }),
{
    let pushed = buf.push(c);
    if c == s[buf.len() as int] {
        assert(pushed =~= s.subrange(0, pushed.len() as int));
    } else {
        lemma_resync_is_prefix(pushed.drop_first(), s);
    }
}

/// True when `buf` is an exact prefix of `seq`.
pub fn substr_cmp(buf: &[u8], seq: &[u8]) -> (r: bool)
    ensures
        r == buf@.is_prefix_of(seq@),
{
    if seq.len() < buf.len() {
        return false;
    }
    let mut i: usize = 0;
    while i < buf.len()
        invariant
            0 <= i <= buf@.len() <= seq@.len(),
            forall|j: int| 0 <= j < i ==> buf@[j] == seq@[j],
        decreases buf@.len() - i,
    {
        if buf[i] != seq[i] {
            assert(buf@[i as int] != seq@.subrange(0, buf@.len() as int)[i as int]);
            return false;
        }
        i += 1;
    }
    assert(buf@ =~= seq@.subrange(0, buf@.len() as int));
    true
}

/// Feeds one raw byte to the sliding-window quit watcher.
///
/// `buf` holds the most recent bytes that still match a prefix of `seq`.
/// The byte is appended; when it equals the next expected byte of `seq` the
/// result says whether the whole sequence is now present, and on a mismatch
/// the buffer resynchronizes to the longest suffix (after dropping its
/// oldest byte) that is still a prefix of `seq`.  A buffer already at the
/// sequence's length — in particular, any buffer against an empty `seq` —
/// reports no match and stays unchanged, so an empty quit sequence never
/// triggers.
pub fn check_quit_buffer(c: u8, buf: &mut Vec<u8>, seq: &[u8]) -> (r: bool)
    ensures
        old(buf)@.len() >= seq@.len() ==> {
            &&& r == false
            &&& final(buf)@ == old(buf)@
        },
        old(buf)@.len() < seq@.len() ==> {
            let pushed = old(buf)@.push(c);
            if c == seq@[old(buf)@.len() as int] {
                &&& final(buf)@ == pushed
                &&& r == (pushed.len() == seq@.len())
            } else {
                &&& r == false
                &&& final(buf)@ == resync(pushed.drop_first(), seq@)
            }
        },
{
    let i = buf.len();
    if i >= seq.len() {
        return false;
    }
    buf.push(c);
    if c == seq[i] {
        buf.len() == seq.len()
    } else {
        let ghost pushed = buf@;
        buf.remove(0);
        assert(buf@ =~= pushed.drop_first());
        loop
            invariant
                resync(buf@, seq@) == resync(pushed.drop_first(), seq@),
            ensures
                buf@ == resync(pushed.drop_first(), seq@),
            decreases buf@.len(),
        {
            if buf.len() == 0 {
                break;
            }
            if substr_cmp(buf.as_slice(), seq) {
                break;
            }
            let ghost before = buf@;
            buf.remove(0);
            assert(buf@ =~= before.drop_first());
        }
        false
    }
}

} // verus!
