//! An executable UTF-8 decoder, proved against vstd's UTF-8 specification.
//!
//! The fallback encoder wants the characters of an accumulated buffer when
//! the buffer is valid UTF-8, and the raw bytes otherwise.
//! [`try_decode_utf8`] makes that decision: it returns the decoded
//! characters exactly when the bytes satisfy [`vstd::utf8::valid_utf8`],
//! and `None` exactly when they do not.

use vstd::prelude::*;
use vstd::utf8::*;

verus! {

broadcast use vstd::utf8::group_utf8_lib;

/// Relies on char::from_u32: `Some` exactly for Unicode scalar values, and
/// the returned character carries the given code point.
#[verifier::external_body]
fn char_of_u32(v: u32) -> (r: Option<char>)
    ensures
        r is Some <==> is_scalar(v),
        r matches Some(c) ==> c as u32 == v,
{
    char::from_u32(v)
}

/// A valid UTF-8 prefix followed by bytes that do not begin a well-formed
/// scalar encoding makes the whole sequence invalid.
proof fn lemma_invalid_at(v: Seq<u8>, i: int)
    requires
        0 <= i < v.len(),
        valid_utf8(v.subrange(0, i)),
        !valid_first_scalar(v.subrange(i, v.len() as int)),
    ensures
        !valid_utf8(v),
{
    let s = v.subrange(i, v.len() as int);
    assert(s.len() != 0);
    assert(!valid_utf8(s));
    partial_valid_partial_invalid_utf8(v, i);
}

/// Extending a decoded prefix by one well-formed scalar encoding appends
/// exactly that scalar's character to the decoded sequence.
proof fn lemma_decode_step(v: Seq<u8>, i: int)
    requires
        0 <= i < v.len(),
        valid_utf8(v.subrange(0, i)),
        valid_first_scalar(v.subrange(i, v.len() as int)),
        i + length_of_first_scalar(v.subrange(i, v.len() as int)) <= v.len(),
    ensures
        ({
            let s = v.subrange(i, v.len() as int);
            let k = length_of_first_scalar(s);
            &&& valid_utf8(v.subrange(0, i + k))
            &&& decode_utf8(v.subrange(0, i + k)) == decode_utf8(v.subrange(0, i)).push(
                decode_first_scalar(s) as char,
            )
        }),
{
    let s = v.subrange(i, v.len() as int);
    let k = length_of_first_scalar(s);
    let p = v.subrange(0, i);
    let q = v.subrange(i, i + k);
    assert(1 <= k <= s.len());
    // the first-scalar functions of `s` and of `q` read the same bytes
    assert(q.len() == k);
    assert(forall|j: int| 0 <= j < k ==> q[j] == s[j]);
    assert(valid_first_scalar(q));
    assert(length_of_first_scalar(q) == k);
    assert(decode_first_scalar(q) == decode_first_scalar(s));
    // `q` on its own is valid UTF-8 and decodes to its one scalar
    assert(pop_first_scalar(q) =~= Seq::<u8>::empty());
    assert(valid_utf8(pop_first_scalar(q)));
    assert(valid_utf8(q));
    assert(decode_utf8(pop_first_scalar(q)) =~= Seq::<char>::empty());
    assert(decode_utf8(q) =~= seq![decode_first_scalar(q) as char]);
    // the extended prefix is the concatenation of `p` and `q`
    let e = v.subrange(0, i + k);
    assert(e =~= p + q);
    assert(valid_utf8(e)) by {
        valid_utf8_concat(p, q);
    }
    // `i` is a character boundary of the extended prefix, so decoding splits there
    assert(0 <= i < e.len());
    assert(e[i] == s[0]);
    assert(is_char_boundary(e, i)) by {
        is_char_boundary_iff_is_leading_byte(e, i);
    }
    assert(decode_utf8(e) =~= decode_utf8(e.subrange(0, i)) + decode_utf8(
        e.subrange(i, e.len() as int),
    )) by {
        decode_utf8_split(e, i);
    }
    assert(e.subrange(0, i) =~= p);
    assert(e.subrange(i, e.len() as int) =~= q);
    assert(decode_utf8(e) =~= decode_utf8(p).push(decode_first_scalar(s) as char));
}

/// Decodes `v` as UTF-8: the characters when `v` is a valid encoding,
/// `None` exactly when it is not.
pub fn try_decode_utf8(v: &[u8]) -> (r: Option<Vec<char>>)
    ensures
        r is Some <==> valid_utf8(v@),
        r matches Some(cs) ==> cs@ == decode_utf8(v@),
{
    let n = v.len();
    let mut out: Vec<char> = Vec::new();
    let mut i: usize = 0;
    while i < n
        invariant
            0 <= i <= n,
            n == v@.len(),
            valid_utf8(v@.subrange(0, i as int)),
            out@ == decode_utf8(v@.subrange(0, i as int)),
        decreases n - i,
    {
        let ghost s = v@.subrange(i as int, n as int);
        let b1 = v[i];
        assert(s[0] == b1);
        if b1 < 0x80 {
            // one-byte encoding
            let scalar: u32 = b1 as u32;
            assert(b1 & 0x7f == b1) by (bit_vector)
                requires
                    b1 < 0x80,
            ;
            assert(codepoint_width_1(b1) == scalar);
            assert(valid_first_scalar(s));
            assert(length_of_first_scalar(s) == 1);
            assert(decode_first_scalar(s) == scalar);
            let c = match char_of_u32(scalar) {
                Some(c) => c,
                None => {
                    proof {
                        assert(false);
                    }
                    ' '
                },
            };
            proof {
                lemma_decode_step(v@, i as int);
                char_u32_cast(c, scalar);
            }
            out.push(c);
            i = i + 1;
        } else if b1 < 0xc0 {
            // a continuation byte cannot lead
            proof {
                assert(!valid_leading_and_continuation_bytes_first_codepoint(s));
                lemma_invalid_at(v@, i as int);
            }
            return None;
        } else if b1 < 0xe0 {
            // two-byte encoding
            if i + 1 >= n {
                proof {
                    lemma_invalid_at(v@, i as int);
                }
                return None;
            }
            let b2 = v[i + 1];
            assert(s[1] == b2);
            if b2 < 0x80 || b2 > 0xbf {
                proof {
                    lemma_invalid_at(v@, i as int);
                }
                return None;
            }
            let scalar: u32 = (((b1 & 0x1f) as u32) << 6u32) | ((b2 & 0x3f) as u32);
            assert(codepoint_width_2(b1, b2) == scalar);
            assert(scalar <= 0x7ff) by (bit_vector)
                requires
                    scalar == (((b1 & 0x1f) as u32) << 6u32) | ((b2 & 0x3f) as u32),
            ;
            if scalar < 0x80 {
                // overlong encoding
                proof {
                    assert(length_of_first_codepoint(s) == 2);
                    assert(!not_overlong_encoding(decode_first_codepoint(s), 2));
                    lemma_invalid_at(v@, i as int);
                }
                return None;
            }
            assert(valid_first_scalar(s));
            assert(length_of_first_scalar(s) == 2);
            assert(decode_first_scalar(s) == scalar);
            let c = match char_of_u32(scalar) {
                Some(c) => c,
                None => {
                    proof {
                        assert(false);
                    }
                    ' '
                },
            };
            proof {
                lemma_decode_step(v@, i as int);
                char_u32_cast(c, scalar);
            }
            out.push(c);
            i = i + 2;
        } else if b1 < 0xf0 {
            // three-byte encoding
            if n - i < 3 {
                proof {
                    lemma_invalid_at(v@, i as int);
                }
                return None;
            }
            let b2 = v[i + 1];
            let b3 = v[i + 2];
            assert(s[1] == b2 && s[2] == b3);
            if b2 < 0x80 || b2 > 0xbf || b3 < 0x80 || b3 > 0xbf {
                proof {
                    lemma_invalid_at(v@, i as int);
                }
                return None;
            }
            let scalar: u32 = (((b1 & 0x0f) as u32) << 12u32) | (((b2 & 0x3f) as u32) << 6u32) | ((
            b3 & 0x3f) as u32);
            assert(codepoint_width_3(b1, b2, b3) == scalar);
            assert(scalar <= 0xffff) by (bit_vector)
                requires
                    scalar == (((b1 & 0x0f) as u32) << 12u32) | (((b2 & 0x3f) as u32) << 6u32) | ((
                    b3 & 0x3f) as u32),
            ;
            if scalar < 0x800 || (0xd800 <= scalar && scalar <= 0xdfff) {
                // overlong encoding or surrogate
                proof {
                    assert(length_of_first_codepoint(s) == 3);
                    lemma_invalid_at(v@, i as int);
                }
                return None;
            }
            assert(valid_first_scalar(s));
            assert(length_of_first_scalar(s) == 3);
            assert(decode_first_scalar(s) == scalar);
            let c = match char_of_u32(scalar) {
                Some(c) => c,
                None => {
                    proof {
                        assert(false);
                    }
                    ' '
                },
            };
            proof {
                lemma_decode_step(v@, i as int);
                char_u32_cast(c, scalar);
            }
            out.push(c);
            i = i + 3;
        } else if b1 < 0xf8 {
            // four-byte encoding
            if n - i < 4 {
                proof {
                    lemma_invalid_at(v@, i as int);
                }
                return None;
            }
            let b2 = v[i + 1];
            let b3 = v[i + 2];
            let b4 = v[i + 3];
            assert(s[1] == b2 && s[2] == b3 && s[3] == b4);
            if b2 < 0x80 || b2 > 0xbf || b3 < 0x80 || b3 > 0xbf || b4 < 0x80 || b4 > 0xbf {
                proof {
                    lemma_invalid_at(v@, i as int);
                }
                return None;
            }
            let scalar: u32 = (((b1 & 0x07) as u32) << 18u32) | (((b2 & 0x3f) as u32) << 12u32) | ((
            (b3 & 0x3f) as u32) << 6u32) | ((b4 & 0x3f) as u32);
            assert(codepoint_width_4(b1, b2, b3, b4) == scalar);
            if scalar < 0x10000 || scalar > 0x10ffff {
                // overlong encoding or beyond the last scalar
                proof {
                    assert(length_of_first_codepoint(s) == 4);
                    lemma_invalid_at(v@, i as int);
                }
                return None;
            }
            assert(valid_first_scalar(s));
            assert(length_of_first_scalar(s) == 4);
            assert(decode_first_scalar(s) == scalar);
            let c = match char_of_u32(scalar) {
                Some(c) => c,
                None => {
                    proof {
                        assert(false);
                    }
                    ' '
                },
            };
            proof {
                lemma_decode_step(v@, i as int);
                char_u32_cast(c, scalar);
            }
            out.push(c);
            i = i + 4;
        } else {
            // 0xf8 through 0xff lead nothing
            proof {
                assert(!valid_leading_and_continuation_bytes_first_codepoint(s));
                lemma_invalid_at(v@, i as int);
            }
            return None;
        }
    }
    assert(v@.subrange(0, n as int) =~= v@);
    Some(out)
}

} // verus!
