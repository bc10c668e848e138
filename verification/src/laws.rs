//! The library-wide laws, stated over the same spec functions that the
//! public contracts use, and proved once and for all.

use vstd::prelude::*;
use vstd::utf8::{
    decode_utf8, decode_utf8_encode_utf8, decode_utf8_split, encode_utf8, encode_utf8_decode_utf8,
    is_char_boundary, valid_utf8, valid_utf8_split,
};

use crate::shared::fnv1a;

verus! {

/// A view made from an owned string shows exactly that string: a UTF-8
/// encoding determines its characters, so text whose encodings agree is the
/// same text. [`from_string`](crate::SharedGenString::from_string) ensures
/// the view's bytes are the input's encoding, and
/// [`as_str`](crate::SharedGenString::as_str) ensures the returned text
/// encodes to the view's bytes; by this law the two texts coincide.
pub proof fn lemma_from_owned_shows_input(s: Seq<char>, t: Seq<char>)
    requires
        encode_utf8(s) == encode_utf8(t),
    ensures
        s == t,
{
    encode_utf8_decode_utf8(s);
    encode_utf8_decode_utf8(t);
}

/// Splitting a view at a scalar boundary loses nothing: the two windows
/// put back together are exactly the original — in bytes, in length and in
/// decoded text — and each window is valid UTF-8 on its own. This is the
/// shape of what [`split_off`](crate::SharedGenString::split_off) leaves in
/// its receiver and its result.
pub proof fn lemma_split_off_partition(s: Seq<u8>, at: int)
    requires
        valid_utf8(s),
        0 <= at <= s.len(),
        is_char_boundary(s, at),
    ensures
        s.subrange(0, at) + s.subrange(at, s.len() as int) == s,
        s.subrange(0, at).len() + s.subrange(at, s.len() as int).len() == s.len(),
        valid_utf8(s.subrange(0, at)),
        valid_utf8(s.subrange(at, s.len() as int)),
        decode_utf8(s) == decode_utf8(s.subrange(0, at)) + decode_utf8(
            s.subrange(at, s.len() as int),
        ),
{
    valid_utf8_split(s, at);
    decode_utf8_split(s, at);
    assert(s.subrange(0, at) + s.subrange(at, s.len() as int) =~= s);
}

/// Splitting at offset zero: the window the receiver keeps is empty, and
/// the window handed back is the whole original.
pub proof fn lemma_split_off_zero(s: Seq<u8>)
    ensures
        s.subrange(0, 0) == Seq::<u8>::empty(),
        s.subrange(0, s.len() as int) == s,
{
    assert(s.subrange(0, 0) =~= Seq::<u8>::empty());
    assert(s.subrange(0, s.len() as int) =~= s);
}

/// The round trip through owned storage: decoding a view's bytes — what
/// [`into_string`](crate::SharedGenString::into_string) hands out — and
/// encoding them again — what
/// [`from_string`](crate::SharedGenString::from_string) wraps — gives the
/// same bytes back, so the rebuilt view equals the original.
pub proof fn lemma_owned_round_trip(b: Seq<u8>)
    requires
        valid_utf8(b),
    ensures
        encode_utf8(decode_utf8(b)) == b,
{
    decode_utf8_encode_utf8(b);
}

/// Views over equal text hash equally, whichever buffers and sharing
/// policies stand behind them: the hash of
/// [`content_hash`](crate::SharedGenString::content_hash) is a function of
/// the text alone, as equality by `==` is of the two texts alone.
pub proof fn lemma_equal_text_equal_hash(a: Seq<u8>, b: Seq<u8>)
    requires
        a == b,
    ensures
        fnv1a(a) == fnv1a(b),
{
}

} // verus!
