//! Validation of UTF-8 byte sequences and reasoning about scalar boundaries.
//!
//! The view type only ever exposes windows of a buffer that are valid UTF-8
//! on their own. This module provides the executable checks those operations
//! rest on: full validation of a candidate buffer, the boundary test for a
//! single offset, and the lemmas that let a window of a valid buffer be
//! narrowed or split at a boundary.

use vstd::prelude::*;
use vstd::utf8::{
    codepoint_width_2, codepoint_width_3, codepoint_width_4, decode_first_codepoint,
    is_char_boundary, is_char_boundary_iff_not_is_continuation_byte,
    is_char_boundary_start_end_of_seq, is_continuation_byte, is_leading_byte_width_1,
    is_leading_byte_width_2, is_leading_byte_width_3, is_leading_byte_width_4,
    length_of_first_codepoint, length_of_first_scalar, not_overlong_encoding,
    partial_valid_partial_invalid_utf8, partial_valid_utf8, partial_valid_utf8_extend,
    pop_first_scalar, valid_first_scalar, valid_leading_and_continuation_bytes_first_codepoint,
    valid_utf8, valid_utf8_split,
};

verus! {

/// True when the first malformed scalar encoding in `v` begins at byte
/// offset `i`: everything before `i` is valid UTF-8 on its own, and no valid
/// scalar encoding starts at `i`.
pub open spec fn utf8_invalid_at(v: Seq<u8>, i: int) -> bool {
    &&& 0 <= i < v.len()
    &&& valid_utf8(v.subrange(0, i))
    &&& !valid_first_scalar(v.subrange(i, v.len() as int))
}

/// A sequence with a malformed scalar encoding in it is not valid UTF-8.
pub proof fn lemma_invalid_at_not_valid(v: Seq<u8>, i: int)
    requires
        utf8_invalid_at(v, i),
    ensures
        !valid_utf8(v),
{
    let suffix = v.subrange(i, v.len() as int);
    assert(suffix.len() > 0);
    assert(!valid_utf8(suffix));
    partial_valid_partial_invalid_utf8(v, i);
}

proof fn width_2_accepted(b0: u8, b1: u8)
    by (bit_vector)
    requires
        0xc2 <= b0 <= 0xdf,
        0x80 <= b1 <= 0xbf,
    ensures
        0x80 <= codepoint_width_2(b0, b1) <= 0x7ff,
{
}

proof fn width_2_overlong(b0: u8, b1: u8)
    by (bit_vector)
    requires
        0xc0 <= b0 <= 0xc1,
    ensures
        codepoint_width_2(b0, b1) < 0x80,
{
}

proof fn width_3_accepted(b0: u8, b1: u8, b2: u8)
    by (bit_vector)
    requires
        0xe0 <= b0 <= 0xef,
        0x80 <= b1 <= 0xbf,
        0x80 <= b2 <= 0xbf,
        b0 == 0xe0 ==> 0xa0 <= b1,
        b0 == 0xed ==> b1 <= 0x9f,
    ensures
        0x800 <= codepoint_width_3(b0, b1, b2) <= 0xffff,
        !(0xd800 <= codepoint_width_3(b0, b1, b2) <= 0xdfff),
{
}

proof fn width_3_rejected(b0: u8, b1: u8, b2: u8)
    by (bit_vector)
    requires
        0xe0 <= b0 <= 0xef,
        0x80 <= b1 <= 0xbf,
    ensures
        b0 == 0xe0 && b1 <= 0x9f ==> codepoint_width_3(b0, b1, b2) < 0x800,
        b0 == 0xed && 0xa0 <= b1 ==> 0xd800 <= codepoint_width_3(b0, b1, b2) <= 0xdfff,
{
}

proof fn width_4_accepted(b0: u8, b1: u8, b2: u8, b3: u8)
    by (bit_vector)
    requires
        0xf0 <= b0 <= 0xf4,
        0x80 <= b1 <= 0xbf,
        0x80 <= b2 <= 0xbf,
        0x80 <= b3 <= 0xbf,
        b0 == 0xf0 ==> 0x90 <= b1,
        b0 == 0xf4 ==> b1 <= 0x8f,
    ensures
        0x10000 <= codepoint_width_4(b0, b1, b2, b3) <= 0x10ffff,
{
}

proof fn width_4_rejected(b0: u8, b1: u8, b2: u8, b3: u8)
    by (bit_vector)
    requires
        0xf0 <= b0 <= 0xf7,
        0x80 <= b1 <= 0xbf,
    ensures
        b0 == 0xf0 && b1 <= 0x8f ==> codepoint_width_4(b0, b1, b2, b3) < 0x10000,
        b0 == 0xf4 && 0x90 <= b1 ==> codepoint_width_4(b0, b1, b2, b3) > 0x10ffff,
        0xf5 <= b0 ==> codepoint_width_4(b0, b1, b2, b3) > 0x10ffff,
{
}

/// No scalar encoding starts with a continuation byte or with a byte above
/// `0xf7`, nor with the two overlong two-byte leaders `0xc0` and `0xc1`.
proof fn lemma_bad_leader(s: Seq<u8>)
    requires
        s.len() > 0,
        (0x80 <= s[0] <= 0xc1) || 0xf5 <= s[0],
    ensures
        !valid_first_scalar(s),
{
    let b0 = s[0];
    if 0x80 <= b0 <= 0xbf || 0xf8 <= b0 {
        assert(!valid_leading_and_continuation_bytes_first_codepoint(s));
    } else if b0 <= 0xc1 {
        if valid_leading_and_continuation_bytes_first_codepoint(s) {
            assert(is_leading_byte_width_2(b0));
            assert(length_of_first_codepoint(s) == 2);
            width_2_overlong(b0, s[1]);
            assert(!not_overlong_encoding(decode_first_codepoint(s), 2));
        }
    } else {
        // 0xf5 <= b0 <= 0xf7: any continuation bytes would decode past the
        // last scalar value
        if valid_leading_and_continuation_bytes_first_codepoint(s) {
            assert(is_leading_byte_width_4(b0));
            assert(length_of_first_codepoint(s) == 4);
            width_4_rejected(b0, s[1], s[2], s[3]);
            assert(!not_overlong_encoding(decode_first_codepoint(s), 4));
        }
    }
}

/// Checks that `v` is valid UTF-8, reporting on failure the offset at which
/// the first malformed scalar encoding begins.
pub fn validate_utf8(v: &[u8]) -> (r: Result<(), usize>)
    ensures
        r is Ok <==> valid_utf8(v@),
        r matches Err(i) ==> utf8_invalid_at(v@, i as int),
{
    let n = v.len();
    let mut i: usize = 0;
    while i < n
        invariant
            i <= n,
            n == v@.len(),
            partial_valid_utf8(v@, i as int),
        decreases n - i,
    {
        let ghost suffix = v@.subrange(i as int, n as int);
        let b0 = v[i];
        proof {
            assert(suffix[0] == b0);
        }
        if b0 < 0x80 {
            proof {
                assert(is_leading_byte_width_1(b0));
                assert(valid_first_scalar(suffix));
                assert(length_of_first_scalar(suffix) == 1);
                partial_valid_utf8_extend(v@, i as int);
            }
            i = i + 1;
        } else if b0 < 0xc2 {
            proof {
                lemma_bad_leader(suffix);
                lemma_invalid_at_not_valid(v@, i as int);
            }
            return Err(i);
        } else if b0 < 0xe0 {
            if n - i < 2 || !is_continuation(v[i + 1]) {
                proof {
                    assert(!valid_leading_and_continuation_bytes_first_codepoint(suffix));
                    lemma_invalid_at_not_valid(v@, i as int);
                }
                return Err(i);
            }
            let b1 = v[i + 1];
            proof {
                assert(suffix[1] == b1);
                assert(is_leading_byte_width_2(b0));
                assert(length_of_first_codepoint(suffix) == 2);
                assert(decode_first_codepoint(suffix) == codepoint_width_2(b0, b1));
                width_2_accepted(b0, b1);
                assert(valid_first_scalar(suffix));
                assert(length_of_first_scalar(suffix) == 2);
                partial_valid_utf8_extend(v@, i as int);
            }
            i = i + 2;
        } else if b0 < 0xf0 {
            if n - i < 3 || !is_continuation(v[i + 1]) || !is_continuation(v[i + 2]) {
                proof {
                    assert(!valid_leading_and_continuation_bytes_first_codepoint(suffix));
                    lemma_invalid_at_not_valid(v@, i as int);
                }
                return Err(i);
            }
            let b1 = v[i + 1];
            let b2 = v[i + 2];
            proof {
                assert(suffix[1] == b1 && suffix[2] == b2);
                assert(is_leading_byte_width_3(b0));
                assert(length_of_first_codepoint(suffix) == 3);
                assert(decode_first_codepoint(suffix) == codepoint_width_3(b0, b1, b2));
            }
            if (b0 == 0xe0 && b1 < 0xa0) || (b0 == 0xed && b1 >= 0xa0) {
                proof {
                    width_3_rejected(b0, b1, b2);
                    assert(!valid_first_scalar(suffix));
                    lemma_invalid_at_not_valid(v@, i as int);
                }
                return Err(i);
            }
            proof {
                width_3_accepted(b0, b1, b2);
                assert(valid_first_scalar(suffix));
                assert(length_of_first_scalar(suffix) == 3);
                partial_valid_utf8_extend(v@, i as int);
            }
            i = i + 3;
        } else if b0 < 0xf5 {
            if n - i < 4 || !is_continuation(v[i + 1]) || !is_continuation(v[i + 2])
                || !is_continuation(v[i + 3]) {
                proof {
                    assert(!valid_leading_and_continuation_bytes_first_codepoint(suffix));
                    lemma_invalid_at_not_valid(v@, i as int);
                }
                return Err(i);
            }
            let b1 = v[i + 1];
            let b2 = v[i + 2];
            let b3 = v[i + 3];
            proof {
                assert(suffix[1] == b1 && suffix[2] == b2 && suffix[3] == b3);
                assert(is_leading_byte_width_4(b0));
                assert(length_of_first_codepoint(suffix) == 4);
                assert(decode_first_codepoint(suffix) == codepoint_width_4(b0, b1, b2, b3));
            }
            if (b0 == 0xf0 && b1 < 0x90) || (b0 == 0xf4 && b1 >= 0x90) {
                proof {
                    width_4_rejected(b0, b1, b2, b3);
                    assert(!valid_first_scalar(suffix));
                    lemma_invalid_at_not_valid(v@, i as int);
                }
                return Err(i);
            }
            proof {
                width_4_accepted(b0, b1, b2, b3);
                assert(valid_first_scalar(suffix));
                assert(length_of_first_scalar(suffix) == 4);
                partial_valid_utf8_extend(v@, i as int);
            }
            i = i + 4;
        } else {
            proof {
                lemma_bad_leader(suffix);
                lemma_invalid_at_not_valid(v@, i as int);
            }
            return Err(i);
        }
    }
    proof {
        assert(v@.subrange(0, n as int) =~= v@);
    }
    Ok(())
}

/// True when the byte has the continuation form `10xxxxxx`.
fn is_continuation(b: u8) -> (r: bool)
    ensures
        r == is_continuation_byte(b),
{
    0x80 <= b && b <= 0xbf
}

/// Checks whether `i` falls on a scalar boundary of the valid UTF-8
/// sequence `v`; offsets past the end never do.
pub fn is_boundary(v: &[u8], i: usize) -> (r: bool)
    requires
        valid_utf8(v@),
    ensures
        r == (i <= v@.len() && is_char_boundary(v@, i as int)),
{
    let n = v.len();
    if i == 0 {
        true
    } else if i > n {
        false
    } else if i == n {
        proof {
            is_char_boundary_start_end_of_seq(v@);
        }
        true
    } else {
        proof {
            is_char_boundary_iff_not_is_continuation_byte(v@, i as int);
        }
        !is_continuation(v[i])
    }
}

/// An offset holding a byte below `0x80` in a valid UTF-8 sequence is a
/// scalar boundary, and so is the offset just past it.
pub proof fn lemma_ascii_at_boundaries(s: Seq<u8>, p: int)
    requires
        valid_utf8(s),
        0 <= p < s.len(),
        s[p] < 0x80,
    ensures
        is_char_boundary(s, p),
        is_char_boundary(s, p + 1),
{
    is_char_boundary_iff_not_is_continuation_byte(s, p);
    assert(is_char_boundary(s, p));
    if p + 1 == s.len() {
        is_char_boundary_start_end_of_seq(s);
    } else {
        valid_utf8_split(s, p);
        let t = s.subrange(p, s.len() as int);
        assert(t[0] == s[p]);
        assert(is_leading_byte_width_1(t[0]));
        assert(valid_first_scalar(t));
        assert(length_of_first_scalar(t) == 1);
        // t decomposes as one 1-byte scalar followed by the rest, so t[1]
        // starts a scalar of its own
        assert(valid_utf8(pop_first_scalar(t)));
        assert(pop_first_scalar(t)[0] == t[1]);
        if is_continuation_byte(s[p + 1]) {
            assert(t[1] == s[p + 1]);
            assert(!valid_first_scalar(pop_first_scalar(t))) by {
                lemma_bad_leader(pop_first_scalar(t));
            }
            assert(false);
        }
        is_char_boundary_iff_not_is_continuation_byte(s, p + 1);
    }
}

/// Narrowing a valid buffer to a window whose ends are scalar boundaries
/// keeps it valid, and inside such a window an offset is a boundary of the
/// window exactly when it is one of the whole buffer.
pub proof fn lemma_window_boundaries(full: Seq<u8>, start: int, len: int)
    requires
        valid_utf8(full),
        0 <= start,
        0 <= len,
        start + len <= full.len(),
        is_char_boundary(full, start),
        is_char_boundary(full, start + len),
    ensures
        valid_utf8(full.subrange(start, start + len)),
        forall|i: int|
            0 <= i <= len ==> (#[trigger] is_char_boundary(full.subrange(start, start + len), i)
                <==> is_char_boundary(full, start + i)),
{
    let window = full.subrange(start, start + len);
    valid_utf8_split(full, start);
    let tail = full.subrange(start, full.len() as int);
    if start + len == full.len() {
        assert(window =~= tail);
    } else {
        is_char_boundary_iff_not_is_continuation_byte(full, start + len);
        assert(tail[len] == full[start + len]);
        is_char_boundary_iff_not_is_continuation_byte(tail, len);
        assert(is_char_boundary(tail, len));
        valid_utf8_split(tail, len);
        assert(window =~= tail.subrange(0, len));
    }
    assert(valid_utf8(window));
    assert forall|i: int| 0 <= i <= len implies (is_char_boundary(window, i) <==> is_char_boundary(
        full,
        start + i,
    )) by {
        is_char_boundary_start_end_of_seq(window);
        is_char_boundary_start_end_of_seq(full);
        if i == 0 {
        } else if i == len {
        } else {
            assert(window[i] == full[start + i]);
            is_char_boundary_iff_not_is_continuation_byte(window, i);
            is_char_boundary_iff_not_is_continuation_byte(full, start + i);
        }
    }
}

} // verus!
