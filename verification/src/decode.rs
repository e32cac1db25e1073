//! Chunk decoding: the longest valid UTF-8 prefix of a byte buffer, and the
//! carry-tail scheme that repairs multi-byte characters split across chunk
//! boundaries.
//!
//! A physical read hands the decoder a fresh byte buffer.  The decoder
//! prepends the carry tail left over from the previous read, takes the
//! longest prefix that is a sequence of whole, valid UTF-8 scalar encodings,
//! and keeps the remaining suffix as the new carry tail.  A suffix of more
//! than three bytes cannot be the start of a single split character, so it
//! signals corrupt input rather than a boundary split.

use vstd::prelude::*;
use vstd::utf8::*;

verus! {

/// Length of the longest prefix of `s` that is a concatenation of whole,
/// valid UTF-8 scalar encodings.
pub open spec fn utf8_prefix_len(s: Seq<u8>) -> int
    decreases s.len(),
{
    if s.len() != 0 && valid_first_scalar(s) {
        length_of_first_scalar(s) + utf8_prefix_len(pop_first_scalar(s))
    } else {
        0
    }
}

/// The number of bytes (1 to 4) of the valid scalar encoding at the front of
/// `s`, written out as decidable range checks over the leading bytes; 0 when
/// `s` does not begin with a whole, valid scalar encoding.
pub open spec fn front_scalar_width(s: Seq<u8>) -> int {
    if s.len() >= 1 && s[0] < 0x80 {
        1
    } else if s.len() >= 2 && 0xc2 <= s[0] <= 0xdf && is_continuation_byte(s[1]) {
        2
    } else if s.len() >= 3 && 0xe0 <= s[0] <= 0xef && is_continuation_byte(s[1])
        && is_continuation_byte(s[2]) && (s[0] == 0xe0 ==> s[1] >= 0xa0) && (s[0] == 0xed ==> s[1]
        <= 0x9f) {
        3
    } else if s.len() >= 4 && 0xf0 <= s[0] <= 0xf4 && is_continuation_byte(s[1])
        && is_continuation_byte(s[2]) && is_continuation_byte(s[3]) && (s[0] == 0xf0 ==> s[1]
        >= 0x90) && (s[0] == 0xf4 ==> s[1] <= 0x8f) {
        4
    } else {
        0
    }
}

/// The range checks of `front_scalar_width` agree exactly with the UTF-8
/// validity of the first scalar encoding.
pub proof fn lemma_front_scalar_width(s: Seq<u8>)
    ensures
        front_scalar_width(s) > 0 ==> valid_first_scalar(s) && length_of_first_scalar(s)
            == front_scalar_width(s),
        front_scalar_width(s) == 0 && s.len() > 0 ==> !valid_first_scalar(s),
{
    if s.len() == 0 {
        return ;
    }
    let b0 = s[0];
    if b0 < 0x80 {
        assert(((b0 & 0x7f) as u32) < 0xd800) by (bit_vector);
    } else if 0xc0 <= b0 <= 0xdf {
        if s.len() >= 2 && is_continuation_byte(s[1]) {
            let b1 = s[1];
            if b0 >= 0xc2 {
                assert((((b0 & 0x1f) as u32) << 6 | ((b1 & 0x3f) as u32)) >= 0x80) by (bit_vector)
                    requires
                        0xc2 <= b0 && b0 <= 0xdf,
                ;
                assert((((b0 & 0x1f) as u32) << 6 | ((b1 & 0x3f) as u32)) <= 0x7ff) by (bit_vector);
            } else {
                assert((((b0 & 0x1f) as u32) << 6 | ((b1 & 0x3f) as u32)) < 0x80) by (bit_vector)
                    requires
                        0xc0 <= b0 && b0 <= 0xc1,
                ;
            }
        }
    } else if 0xe0 <= b0 <= 0xef {
        if s.len() >= 3 && is_continuation_byte(s[1]) && is_continuation_byte(s[2]) {
            let b1 = s[1];
            let b2 = s[2];
            let c = ((b0 & 0x0f) as u32) << 12 | ((b1 & 0x3f) as u32) << 6 | ((b2 & 0x3f) as u32);
            assert(codepoint_width_3(b0, b1, b2) == c);
            if (b0 == 0xe0 && b1 < 0xa0) {
                assert(((b0 & 0x0f) as u32) << 12 | ((b1 & 0x3f) as u32) << 6 | ((b2
                    & 0x3f) as u32) < 0x800) by (bit_vector)
                    requires
                        b0 == 0xe0 && 0x80 <= b1 && b1 < 0xa0 && b2 <= 0xbf,
                ;
            } else if (b0 == 0xed && b1 >= 0xa0) {
                assert(0xd800 <= (((b0 & 0x0f) as u32) << 12 | ((b1 & 0x3f) as u32) << 6 | ((b2
                    & 0x3f) as u32)) <= 0xdfff) by (bit_vector)
                    requires
                        b0 == 0xed && 0xa0 <= b1 <= 0xbf,
                ;
            } else {
                assert(((b0 & 0x0f) as u32) << 12 | ((b1 & 0x3f) as u32) << 6 | ((b2
                    & 0x3f) as u32) >= 0x800) by (bit_vector)
                    requires
                        0xe0 <= b0 <= 0xef && 0x80 <= b1 <= 0xbf && (b0 == 0xe0 ==> b1 >= 0xa0),
                ;
                assert(!(0xd800 <= (((b0 & 0x0f) as u32) << 12 | ((b1 & 0x3f) as u32) << 6 | ((b2
                    & 0x3f) as u32)) <= 0xdfff)) by (bit_vector)
                    requires
                        0xe0 <= b0 <= 0xef && 0x80 <= b1 <= 0xbf && b2 <= 0xbf && (b0 == 0xed
                            ==> b1 <= 0x9f),
                ;
            }
        }
    } else if 0xf0 <= b0 <= 0xf7 {
        if s.len() >= 4 && is_continuation_byte(s[1]) && is_continuation_byte(s[2])
            && is_continuation_byte(s[3]) {
            let b1 = s[1];
            let b2 = s[2];
            let b3 = s[3];
            let c = ((b0 & 0x07) as u32) << 18 | ((b1 & 0x3f) as u32) << 12 | ((b2
                & 0x3f) as u32) << 6 | ((b3 & 0x3f) as u32);
            assert(codepoint_width_4(b0, b1, b2, b3) == c);
            if b0 >= 0xf5 {
                assert(((b0 & 0x07) as u32) << 18 | ((b1 & 0x3f) as u32) << 12 | ((b2
                    & 0x3f) as u32) << 6 | ((b3 & 0x3f) as u32) > 0x10ffff) by (bit_vector)
                    requires
                        0xf5 <= b0 && b0 <= 0xf7,
                ;
            } else if b0 == 0xf0 && b1 < 0x90 {
                assert(((b0 & 0x07) as u32) << 18 | ((b1 & 0x3f) as u32) << 12 | ((b2
                    & 0x3f) as u32) << 6 | ((b3 & 0x3f) as u32) < 0x10000) by (bit_vector)
                    requires
                        b0 == 0xf0 && 0x80 <= b1 && b1 < 0x90 && b2 <= 0xbf && b3 <= 0xbf,
                ;
            } else if b0 == 0xf4 && b1 > 0x8f {
                assert(((b0 & 0x07) as u32) << 18 | ((b1 & 0x3f) as u32) << 12 | ((b2
                    & 0x3f) as u32) << 6 | ((b3 & 0x3f) as u32) > 0x10ffff) by (bit_vector)
                    requires
                        b0 == 0xf4 && 0x8f < b1 <= 0xbf,
                ;
            } else {
                assert(0x10000 <= (((b0 & 0x07) as u32) << 18 | ((b1 & 0x3f) as u32) << 12 | ((b2
                    & 0x3f) as u32) << 6 | ((b3 & 0x3f) as u32)) <= 0x10ffff) by (bit_vector)
                    requires
                        0xf0 <= b0 <= 0xf4 && 0x80 <= b1 <= 0xbf && b2 <= 0xbf && b3 <= 0xbf && (b0
                            == 0xf0 ==> b1 >= 0x90) && (b0 == 0xf4 ==> b1 <= 0x8f),
                ;
            }
        }
    } else {
        // 0x80 to 0xbf: a continuation byte cannot lead; 0xf8 to 0xff: no
        // leading pattern exists.
    }
}

/// A valid first scalar encoding fits inside the sequence.
proof fn lemma_first_scalar_len(s: Seq<u8>)
    requires
        valid_first_scalar(s),
    ensures
        1 <= length_of_first_scalar(s) <= s.len(),
{
}

/// The prefix length is a position within the sequence.
pub proof fn lemma_prefix_len_bounds(s: Seq<u8>)
    ensures
        0 <= utf8_prefix_len(s) <= s.len(),
    decreases s.len(),
{
    if s.len() != 0 && valid_first_scalar(s) {
        lemma_first_scalar_len(s);
        lemma_prefix_len_bounds(pop_first_scalar(s));
    }
}

/// The prefix that the scan accepts is valid UTF-8.
pub proof fn lemma_prefix_valid(s: Seq<u8>)
    ensures
        valid_utf8(s.subrange(0, utf8_prefix_len(s))),
    decreases s.len(),
{
    broadcast use valid_utf8_concat;

    lemma_prefix_len_bounds(s);
    if s.len() != 0 && valid_first_scalar(s) {
        let w = length_of_first_scalar(s);
        lemma_first_scalar_len(s);
        let rest = pop_first_scalar(s);
        lemma_prefix_valid(rest);
        lemma_prefix_len_bounds(rest);
        let p2 = utf8_prefix_len(rest);
        let head = s.subrange(0, w);
        assert(valid_first_scalar(head)) by {
            lemma_first_scalar_same_prefix(s, head, w);
        }
        assert(valid_utf8(head)) by {
            reveal_with_fuel(valid_utf8, 2);
            assert(pop_first_scalar(head) =~= Seq::<u8>::empty());
        }
        assert(s.subrange(0, w + p2) =~= head + rest.subrange(0, p2));
    }
}

/// A sequence is valid UTF-8 exactly when the scan accepts all of it.
pub proof fn lemma_valid_iff_prefix_full(s: Seq<u8>)
    ensures
        valid_utf8(s) <==> utf8_prefix_len(s) == s.len(),
    decreases s.len(),
{
    if s.len() != 0 && valid_first_scalar(s) {
        lemma_first_scalar_len(s);
        lemma_valid_iff_prefix_full(pop_first_scalar(s));
        lemma_prefix_len_bounds(pop_first_scalar(s));
    }
}

/// The scan stops at a point where no further whole scalar begins.
pub proof fn lemma_prefix_stop(s: Seq<u8>)
    ensures
        utf8_prefix_len(s.subrange(utf8_prefix_len(s), s.len() as int)) == 0,
    decreases s.len(),
{
    lemma_prefix_len_bounds(s);
    if s.len() != 0 && valid_first_scalar(s) {
        let w = length_of_first_scalar(s);
        lemma_first_scalar_len(s);
        let rest = pop_first_scalar(s);
        lemma_prefix_stop(rest);
        lemma_prefix_len_bounds(rest);
        let p2 = utf8_prefix_len(rest);
        assert(s.subrange(w + p2, s.len() as int) =~= rest.subrange(p2, rest.len() as int));
    }
}

/// Validity of the first scalar depends only on its own bytes: a sequence
/// that agrees with `a` on the first scalar's bytes and is long enough to
/// hold them carries the same first scalar.
proof fn lemma_first_scalar_same_prefix(a: Seq<u8>, b: Seq<u8>, w: int)
    requires
        valid_first_scalar(a),
        length_of_first_scalar(a) == w,
        b.len() >= w,
        forall|i: int| 0 <= i < w ==> a[i] == b[i],
    ensures
        valid_first_scalar(b),
        length_of_first_scalar(b) == w,
        decode_first_codepoint(b) == decode_first_codepoint(a),
{
    lemma_first_scalar_len(a);
    assert(a[0] == b[0]);
    if is_leading_byte_width_1(a[0]) {
    } else if is_leading_byte_width_2(a[0]) {
        assert(a[1] == b[1]);
    } else if is_leading_byte_width_3(a[0]) {
        assert(a[1] == b[1] && a[2] == b[2]);
    } else {
        assert(a[1] == b[1] && a[2] == b[2] && a[3] == b[3]);
    }
}

/// Scanning a truncation of a valid UTF-8 stream accepts everything up to
/// the last whole character before the cut: at most three bytes (a proper
/// prefix of one multi-byte character) remain, the accepted part is valid,
/// and the rest of the stream after the accepted part is still valid.
pub proof fn lemma_prefix_scan_of_valid(u: Seq<u8>, m: int)
    requires
        valid_utf8(u),
        0 <= m <= u.len(),
    ensures
        ({
            let p = utf8_prefix_len(u.subrange(0, m));
            &&& 0 <= p <= m
            &&& m - p <= 3
            &&& valid_utf8(u.subrange(0, p))
            &&& valid_utf8(u.subrange(p, u.len() as int))
            &&& (m == u.len() ==> p == m)
        }),
    decreases u.len(),
{
    let t = u.subrange(0, m);
    lemma_prefix_len_bounds(t);
    if m == 0 {
        assert(u.subrange(0, u.len() as int) =~= u);
        return ;
    }
    let w = length_of_first_scalar(u);
    lemma_first_scalar_len(u);
    if m < w {
        // `t` is a proper prefix of the first character: no leading pattern
        // both matches `t[0]` and fits in fewer than `w` bytes.
        assert(!valid_first_scalar(t)) by {
            if valid_first_scalar(t) {
                lemma_first_scalar_same_prefix(t, u, length_of_first_scalar(t));
            }
        }
        assert(utf8_prefix_len(t) == 0);
        assert(u.subrange(0, 0) =~= Seq::<u8>::empty());
        assert(u.subrange(0, u.len() as int) =~= u);
    } else {
        assert(valid_first_scalar(t) && length_of_first_scalar(t) == w) by {
            lemma_first_scalar_same_prefix(u, t, w);
        }
        let u2 = pop_first_scalar(u);
        let m2 = m - w;
        lemma_prefix_scan_of_valid(u2, m2);
        assert(pop_first_scalar(t) =~= u2.subrange(0, m2));
        let p2 = utf8_prefix_len(u2.subrange(0, m2));
        let p = w + p2;
        assert(utf8_prefix_len(t) == p);
        assert(valid_utf8(u.subrange(0, p))) by {
            broadcast use valid_utf8_concat;

            let head = u.subrange(0, w);
            assert(valid_first_scalar(head)) by {
                lemma_first_scalar_same_prefix(u, head, w);
            }
            assert(valid_utf8(head)) by {
                reveal_with_fuel(valid_utf8, 2);
                assert(pop_first_scalar(head) =~= Seq::<u8>::empty());
            }
            assert(u.subrange(0, p) =~= head + u2.subrange(0, p2));
        }
        assert(u.subrange(p, u.len() as int) =~= u2.subrange(p2, u2.len() as int));
    }
}

/// True when `b` has the form of a UTF-8 continuation byte.
fn byte_is_continuation(b: u8) -> (r: bool)
    ensures
        r == is_continuation_byte(b),
{
    0x80 <= b && b <= 0xbf
}

/// Length in bytes of the longest prefix of `v` that is a sequence of whole,
/// valid UTF-8 scalar encodings.
pub fn utf8_prefix_scan(v: &Vec<u8>) -> (r: usize)
    ensures
        r as int == utf8_prefix_len(v@),
        0 <= r <= v.len(),
{
    let n = v.len();
    let mut i: usize = 0;
    proof {
        lemma_prefix_len_bounds(v@);
        assert(v@.subrange(0, n as int) =~= v@);
    }
    loop
        invariant
            0 <= i <= n,
            n == v@.len(),
            utf8_prefix_len(v@) == i + utf8_prefix_len(v@.subrange(i as int, n as int)),
            0 <= utf8_prefix_len(v@.subrange(i as int, n as int)) <= n - i,
        decreases n - i,
    {
        let ghost t = v@.subrange(i as int, n as int);
        proof {
            lemma_front_scalar_width(t);
        }
        let w: usize = if i >= n {
            0
        } else {
            let b0 = v[i];
            if b0 < 0x80 {
                1
            } else if 0xc2 <= b0 && b0 <= 0xdf {
                if n - i >= 2 && byte_is_continuation(v[i + 1]) {
                    2
                } else {
                    0
                }
            } else if 0xe0 <= b0 && b0 <= 0xef {
                if n - i >= 3 && byte_is_continuation(v[i + 1]) && byte_is_continuation(v[i + 2])
                    && (b0 != 0xe0 || v[i + 1] >= 0xa0) && (b0 != 0xed || v[i + 1] <= 0x9f) {
                    3
                } else {
                    0
                }
            } else if 0xf0 <= b0 && b0 <= 0xf4 {
                if n - i >= 4 && byte_is_continuation(v[i + 1]) && byte_is_continuation(v[i + 2])
                    && byte_is_continuation(v[i + 3]) && (b0 != 0xf0 || v[i + 1] >= 0x90) && (b0
                    != 0xf4 || v[i + 1] <= 0x8f) {
                    4
                } else {
                    0
                }
            } else {
                0
            }
        };
        proof {
            if i < n {
                assert(t[0] == v@[i as int]);
                if n - i >= 2 {
                    assert(t[1] == v@[i as int + 1]);
                }
                if n - i >= 3 {
                    assert(t[2] == v@[i as int + 2]);
                }
                if n - i >= 4 {
                    assert(t[3] == v@[i as int + 3]);
                }
            }
        }
        assert(w as int == front_scalar_width(t));
        if w == 0 {
            assert(utf8_prefix_len(t) == 0);
            return i;
        }
        proof {
            lemma_prefix_len_bounds(pop_first_scalar(t));
            assert(v@.subrange(i + w, n as int) =~= pop_first_scalar(t));
        }
        i = i + w;
    }
}

/// One decoding step: the carry tail from the previous read is prepended to
/// the fresh bytes, the longest valid prefix becomes the decoded output, and
/// the remainder becomes the new carry tail.
pub open spec fn decode_step(carry: Seq<u8>, fresh: Seq<u8>) -> (Seq<u8>, Seq<u8>) {
    let c = carry + fresh;
    let p = utf8_prefix_len(c);
    (c.subrange(0, p), c.subrange(p, c.len() as int))
}

/// A decoding step succeeds when the undecoded suffix is at most three
/// bytes: anything longer cannot be a proper prefix of one character.
pub open spec fn decode_step_ok(carry: Seq<u8>, fresh: Seq<u8>) -> bool {
    decode_step(carry, fresh).1.len() <= 3
}

/// The decoded output and final carry tail after feeding a sequence of
/// chunks through successive decoding steps, starting from a given carry.
pub open spec fn feed_all(carry: Seq<u8>, chunks: Seq<Seq<u8>>) -> (Seq<u8>, Seq<u8>)
    decreases chunks.len(),
{
    if chunks.len() == 0 {
        (Seq::empty(), carry)
    } else {
        let (out, c2) = decode_step(carry, chunks.first());
        let (rest, cf) = feed_all(c2, chunks.drop_first());
        (out + rest, cf)
    }
}

/// True when every decoding step in the feed succeeds.
pub open spec fn feed_ok(carry: Seq<u8>, chunks: Seq<Seq<u8>>) -> bool
    decreases chunks.len(),
{
    chunks.len() == 0 || {
        decode_step_ok(carry, chunks.first()) && feed_ok(
            decode_step(carry, chunks.first()).1,
            chunks.drop_first(),
        )
    }
}

proof fn lemma_feed_all_general(carry: Seq<u8>, chunks: Seq<Seq<u8>>)
    requires
        valid_utf8(carry + chunks.flatten()),
        utf8_prefix_len(carry) == 0,
    ensures
        feed_ok(carry, chunks),
        feed_all(carry, chunks).0 + feed_all(carry, chunks).1 =~= carry + chunks.flatten(),
        feed_all(carry, chunks).1.len() == 0,
        valid_utf8(feed_all(carry, chunks).0),
    decreases chunks.len(),
{
    let u = carry + chunks.flatten();
    if chunks.len() == 0 {
        assert(chunks.flatten() =~= Seq::<u8>::empty());
        assert(carry =~= u);
        lemma_valid_iff_prefix_full(carry);
        assert(carry.len() == 0);
        assert(feed_all(carry, chunks).0 =~= Seq::<u8>::empty());
    } else {
        let fresh = chunks.first();
        let c = carry + fresh;
        let m = c.len() as int;
        assert(u =~= c + chunks.drop_first().flatten());
        assert(c =~= u.subrange(0, m));
        lemma_prefix_scan_of_valid(u, m);
        let p = utf8_prefix_len(c);
        let out = c.subrange(0, p);
        let c2 = c.subrange(p, m);
        assert(out =~= u.subrange(0, p));
        assert(valid_utf8(out));
        assert(c2.len() <= 3);
        assert(utf8_prefix_len(c2) == 0) by {
            lemma_prefix_stop(c);
        }
        assert(c2 + chunks.drop_first().flatten() =~= u.subrange(p, u.len() as int));
        lemma_feed_all_general(c2, chunks.drop_first());
        let (rest, cf) = feed_all(c2, chunks.drop_first());
        assert(out + (rest + cf) =~= u);
        assert((out + rest) + cf =~= u);
    }
}

/// Round trip: any valid UTF-8 byte stream, cut at arbitrary points into
/// chunks and fed through the carry-tail decoding steps, decodes completely.
/// Every step succeeds, the decoded fragments concatenate to exactly the
/// original bytes, and no carry tail is left at the end.
pub proof fn lemma_chunked_round_trip(chunks: Seq<Seq<u8>>)
    requires
        valid_utf8(chunks.flatten()),
    ensures
        feed_ok(Seq::empty(), chunks),
        feed_all(Seq::empty(), chunks).0 =~= chunks.flatten(),
        feed_all(Seq::empty(), chunks).1.len() == 0,
{
    assert(Seq::<u8>::empty() + chunks.flatten() =~= chunks.flatten());
    lemma_feed_all_general(Seq::empty(), chunks);
}

} // verus!
