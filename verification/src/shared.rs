//! The shared string view: a buffer handle plus an active range.
//!
//! A [`SharedGenString`] owns a handle to a reference-counted byte buffer of
//! valid UTF-8 and exposes the window `[start, start + len)` of it. Every
//! operation keeps two facts in place: the window lies inside the buffer,
//! and both of its ends fall on scalar boundaries, so the window read on its
//! own is always a well-formed string. Slicing and splitting only move the
//! window and bump the reference count; bytes are copied at the latest
//! possible moment, when a view is turned back into owned storage while the
//! buffer is still shared.

use vstd::prelude::*;
use vstd::slice::slice_subrange;
use vstd::slice::slice_to_vec;
use vstd::utf8::{
    decode_utf8, encode_utf8, encode_utf8_decode_utf8, is_char_boundary,
    is_char_boundary_start_end_of_seq, valid_utf8,
};

use crate::as_range::AsRange;
use crate::buffer::{ArcBytes, RcBytes, SharedBytes};
use crate::encoding::{is_boundary, lemma_window_boundaries, utf8_invalid_at, validate_utf8};

verus! {

/// Relies on `str::from_utf8`, which returns `Ok` exactly on valid UTF-8
/// input, borrowing the same bytes as a `str`.
#[verifier::external_body]
fn bytes_as_str(v: &[u8]) -> (r: &str)
    requires
        valid_utf8(v@),
    ensures
        encode_utf8(r@) == v@,
{
    str::from_utf8(v).unwrap()
}

/// Relies on `String::from_utf8`, which returns `Ok` exactly on valid UTF-8
/// input, taking over the same bytes.
#[verifier::external_body]
fn string_from_utf8(v: Vec<u8>) -> (r: String)
    requires
        valid_utf8(v@),
    ensures
        encode_utf8(r@) == v@,
{
    String::from_utf8(v).unwrap()
}

/// Relies on `String::into_bytes`, which hands over the string's UTF-8
/// bytes without copying them.
pub assume_specification[ String::into_bytes ](s: String) -> (v: Vec<u8>)
    ensures
        v@ == encode_utf8(s@),
;

/// The error of [`SharedGenString::from_utf8`]: the input was not valid
/// UTF-8. It carries the input back to the caller together with the offset
/// at which the first malformed scalar encoding begins.
#[derive(Debug)]
pub struct FromUtf8Error {
    bytes: Vec<u8>,
    valid_up_to: usize,
}

impl FromUtf8Error {
    /// The rejected input.
    pub closed spec fn spec_input(&self) -> Seq<u8> {
        self.bytes@
    }

    /// The offset of the first malformed scalar encoding in the input.
    pub closed spec fn spec_offset(&self) -> int {
        self.valid_up_to as int
    }

    /// The offset up to which the input was valid UTF-8; the first
    /// malformed scalar encoding begins here.
    pub fn valid_up_to(&self) -> (r: usize)
        ensures
            r == self.spec_offset(),
    {
        self.valid_up_to
    }

    /// Hands the rejected input back.
    pub fn into_bytes(self) -> (r: Vec<u8>)
        ensures
            r@ == self.spec_input(),
    {
        self.bytes
    }
}

/// A shared string: a handle to a reference-counted buffer of valid UTF-8
/// plus the active range of it this view exposes.
///
/// The buffer policy `B` decides how handles are counted; see
/// [`SharedString`] and [`SharedSyncString`] for the two provided choices.
/// Views over one buffer are independent values: narrowing or splitting one
/// never disturbs the others.
#[derive(Debug)]
pub struct SharedGenString<B: SharedBytes> {
    buf: B,
    start: usize,
    len: usize,
}

/// A shared string whose buffer stays on one thread; reference counts move
/// without atomic operations.
pub type SharedString = SharedGenString<RcBytes>;

/// A shared string whose buffer may be referenced from several threads;
/// reference counts move atomically.
pub type SharedSyncString = SharedGenString<ArcBytes>;

impl<B: SharedBytes> View for SharedGenString<B> {
    type V = Seq<u8>;

    closed spec fn view(&self) -> Seq<u8> {
        self.buf.bytes().subrange(self.start as int, self.start + self.len)
    }
}

impl<B: SharedBytes> Clone for SharedGenString<B> {
    /// A further view of the same buffer and range; only the reference
    /// count moves.
    fn clone(&self) -> (r: Self)
        ensures
            r@ == self@,
            r.full_view() == self.full_view(),
    {
        proof {
            use_type_invariant(self);
        }
        SharedGenString { buf: self.buf.share(), start: self.start, len: self.len }
    }
}

impl<B: SharedBytes> SharedGenString<B> {
    #[verifier::type_invariant]
    closed spec fn wf(self) -> bool {
        &&& valid_utf8(self.buf.bytes())
        &&& self.buf.bytes().len() <= usize::MAX
        &&& self.start + self.len <= self.buf.bytes().len()
        &&& is_char_boundary(self.buf.bytes(), self.start as int)
        &&& is_char_boundary(self.buf.bytes(), self.start + self.len)
    }

    /// The whole underlying buffer, of which [`view`](View::view) exposes
    /// the active range.
    pub closed spec fn full_view(&self) -> Seq<u8> {
        self.buf.bytes()
    }

    /// Creates an empty shared string over a fresh, empty buffer.
    pub fn new() -> (r: Self)
        ensures
            r@ == Seq::<u8>::empty(),
            r.full_view() == Seq::<u8>::empty(),
    {
        let buf = B::from_vec(Vec::new());
        proof {
            assert(buf.bytes() =~= Seq::<u8>::empty());
            assert(buf.bytes().subrange(0, 0) =~= Seq::<u8>::empty());
        }
        SharedGenString { buf, start: 0, len: 0 }
    }

    /// Wraps a byte buffer the caller has already established to be valid
    /// UTF-8, without inspecting it.
    pub fn from_bytes_unchecked(buf: B) -> (r: Self)
        requires
            valid_utf8(buf.bytes()),
        ensures
            r@ == buf.bytes(),
            r.full_view() == buf.bytes(),
    {
        let n = buf.len();
        proof {
            is_char_boundary_start_end_of_seq(buf.bytes());
            assert(buf.bytes().subrange(0, n as int) =~= buf.bytes());
        }
        SharedGenString { buf, start: 0, len: n }
    }

    /// Takes ownership of a byte buffer and wraps it as a shared string
    /// after checking that it is valid UTF-8. On failure the buffer travels
    /// back in the error, together with the offset of the first malformed
    /// scalar encoding.
    pub fn from_utf8(vec: Vec<u8>) -> (r: Result<Self, FromUtf8Error>)
        ensures
            r is Ok <==> valid_utf8(vec@),
            r matches Ok(s) ==> s@ == vec@ && s.full_view() == vec@,
            r matches Err(e) ==> e.spec_input() == vec@ && utf8_invalid_at(vec@, e.spec_offset()),
    {
        match validate_utf8(vec.as_slice()) {
            Ok(_) => Ok(Self::from_utf8_unchecked(vec)),
            Err(i) => Err(FromUtf8Error { bytes: vec, valid_up_to: i }),
        }
    }

    /// Takes ownership of a byte buffer the caller has already established
    /// to be valid UTF-8 and wraps it as a shared string, without checking.
    pub fn from_utf8_unchecked(vec: Vec<u8>) -> (r: Self)
        requires
            valid_utf8(vec@),
        ensures
            r@ == vec@,
            r.full_view() == vec@,
    {
        let n = vec.len();
        let ghost bs = vec@;
        let buf = B::from_vec(vec);
        proof {
            is_char_boundary_start_end_of_seq(bs);
            assert(buf.bytes().subrange(0, n as int) =~= bs);
        }
        SharedGenString { buf, start: 0, len: n }
    }

    /// Takes ownership of a string and wraps it as a shared string over its
    /// UTF-8 bytes, without copying them.
    pub fn from_string(s: String) -> (r: Self)
        ensures
            r@ == encode_utf8(s@),
            r.full_view() == encode_utf8(s@),
    {
        proof {
            vstd::utf8::encode_utf8_valid_utf8(s@);
        }
        Self::from_utf8_unchecked(s.into_bytes())
    }

    /// Copies a borrowed string into a fresh buffer and wraps it as a
    /// shared string.
    pub fn from_str_ref(s: &str) -> (r: Self)
        ensures
            r@ == encode_utf8(s@),
            r.full_view() == encode_utf8(s@),
    {
        proof {
            vstd::utf8::encode_utf8_valid_utf8(s@);
        }
        Self::from_utf8_unchecked(slice_to_vec(s.as_bytes()))
    }

    /// The length in bytes of the active range.
    pub fn len(&self) -> (n: usize)
        ensures
            n == self@.len(),
            valid_utf8(self@),
    {
        proof {
            use_type_invariant(self);
            lemma_window_boundaries(self.buf.bytes(), self.start as int, self.len as int);
        }
        self.len
    }

    /// True when the active range is empty.
    pub fn is_empty(&self) -> (r: bool)
        ensures
            r == (self@.len() == 0),
    {
        proof {
            use_type_invariant(self);
        }
        self.len == 0
    }

    /// Borrows the bytes of the active range.
    pub fn as_bytes(&self) -> (r: &[u8])
        ensures
            r@ == self@,
            valid_utf8(self@),
    {
        proof {
            use_type_invariant(self);
            lemma_window_boundaries(self.buf.bytes(), self.start as int, self.len as int);
        }
        slice_subrange(self.buf.as_slice(), self.start, self.start + self.len)
    }

    /// Checks whether `at` falls on a scalar boundary of the active
    /// range's text; offsets past the end never do. Offsets for which this
    /// returns true are the ones [`split_off`](Self::split_off) and
    /// [`truncate`](Self::truncate) accept.
    pub fn is_char_boundary(&self, at: usize) -> (r: bool)
        ensures
            r == (at <= self@.len() && is_char_boundary(self@, at as int)),
            valid_utf8(self@),
    {
        is_boundary(self.as_bytes(), at)
    }

    /// Borrows the active range as a string slice.
    pub fn as_str(&self) -> (r: &str)
        ensures
            encode_utf8(r@) == self@,
            r@ == decode_utf8(self@),
            valid_utf8(self@),
    {
        let b = self.as_bytes();
        let r = bytes_as_str(b);
        proof {
            encode_utf8_decode_utf8(r@);
        }
        r
    }

    /// Borrows the bytes of the whole underlying buffer, ignoring the
    /// active range.
    pub fn as_full_bytes(&self) -> (r: &[u8])
        ensures
            r@ == self.full_view(),
            valid_utf8(self.full_view()),
    {
        proof {
            use_type_invariant(self);
        }
        self.buf.as_slice()
    }

    /// A further view of the same buffer, narrowed to `[s, e)` of this
    /// view's active range. Only the reference count moves.
    pub(crate) fn slice_window(&self, s: usize, e: usize) -> (r: Self)
        requires
            s <= e <= self@.len(),
            is_char_boundary(self@, s as int),
            is_char_boundary(self@, e as int),
        ensures
            r@ == self@.subrange(s as int, e as int),
            r.full_view() == self.full_view(),
    {
        proof {
            use_type_invariant(self);
            lemma_window_boundaries(self.buf.bytes(), self.start as int, self.len as int);
        }
        let buf = self.buf.share();
        let r = SharedGenString { buf, start: self.start + s, len: e - s };
        proof {
            assert(r@ =~= self@.subrange(s as int, e as int));
        }
        r
    }

    /// The absolute `(start, end)` pair that `range` selects from the
    /// active range, or `None` when the pair is reversed or reaches out of
    /// bounds.
    fn validate_range<R: AsRange>(&self, range: R) -> (r: Option<(usize, usize)>)
        requires
            range.spec_upper(self@.len() as usize) <= usize::MAX,
        ensures
            ({
                let lo = range.spec_lower(self@.len() as usize);
                let hi = range.spec_upper(self@.len() as usize);
                &&& r is Some <==> lo <= hi <= self@.len()
                &&& r matches Some(p) ==> p.0 == lo && p.1 == hi
            }),
    {
        proof {
            use_type_invariant(self);
        }
        let n = self.len();
        let (s, e) = range.as_range(n);
        if s > e || e > n {
            None
        } else {
            Some((s, e))
        }
    }

    /// A view of a sub-range of this view, sharing the same buffer, or
    /// `None` when the range is reversed, reaches out of bounds, or has an
    /// end inside a scalar's encoding. An empty range is served with a
    /// fresh empty view. No bytes are copied.
    pub fn get<R: AsRange>(&self, range: R) -> (r: Option<Self>)
        requires
            range.spec_upper(self@.len() as usize) <= usize::MAX,
        ensures
            ({
                let lo = range.spec_lower(self@.len() as usize);
                let hi = range.spec_upper(self@.len() as usize);
                &&& r is Some <==> (lo <= hi <= self@.len() && (lo == hi || (is_char_boundary(
                    self@,
                    lo,
                ) && is_char_boundary(self@, hi))))
                &&& r matches Some(v) ==> v@ == self@.subrange(lo, hi)
            }),
    {
        let (s, e) = match self.validate_range(range) {
            Some(p) => p,
            None => {
                return None;
            },
        };
        if s == e {
            let r = Self::new();
            proof {
                assert(self@.subrange(s as int, e as int) =~= Seq::<u8>::empty());
            }
            return Some(r);
        }
        let b = self.as_bytes();
        if !is_boundary(b, s) || !is_boundary(b, e) {
            return None;
        }
        Some(self.slice_window(s, e))
    }

    /// A view of a sub-range of this view, sharing the same buffer. The
    /// caller is responsible for the range: it must lie inside the active
    /// range in order, and a non-empty range must begin and end on scalar
    /// boundaries. [`get`](Self::get) is the checked alternative.
    pub fn idx<R: AsRange>(&self, range: R) -> (r: Self)
        requires
            ({
                let lo = range.spec_lower(self@.len() as usize);
                let hi = range.spec_upper(self@.len() as usize);
                &&& lo <= hi <= self@.len()
                &&& lo == hi || (is_char_boundary(self@, lo) && is_char_boundary(self@, hi))
            }),
        ensures
            ({
                let lo = range.spec_lower(self@.len() as usize);
                let hi = range.spec_upper(self@.len() as usize);
                r@ == self@.subrange(lo, hi)
            }),
    {
        proof {
            use_type_invariant(self);
        }
        let n = self.len();
        let (s, e) = range.as_range(n);
        if s == e {
            let r = Self::new();
            proof {
                assert(self@.subrange(s as int, e as int) =~= Seq::<u8>::empty());
            }
            return r;
        }
        self.slice_window(s, e)
    }

    /// Splits the view in two at `at`, an offset into the active range on a
    /// scalar boundary: this view keeps `[0, at)` and the returned view
    /// gets `[at, len)`. Both share the buffer; only the reference count
    /// moves.
    pub fn split_off(&mut self, at: usize) -> (r: Self)
        requires
            at <= old(self)@.len(),
            is_char_boundary(old(self)@, at as int),
        ensures
            final(self)@ == old(self)@.subrange(0, at as int),
            r@ == old(self)@.subrange(at as int, old(self)@.len() as int),
            final(self).full_view() == old(self).full_view(),
            r.full_view() == old(self).full_view(),
    {
        proof {
            use_type_invariant(&*self);
            lemma_window_boundaries(self.buf.bytes(), self.start as int, self.len as int);
        }
        let tail = SharedGenString {
            buf: self.buf.share(),
            start: self.start + at,
            len: self.len - at,
        };
        self.len = at;
        proof {
            assert(self@ =~= old(self)@.subrange(0, at as int));
            assert(tail@ =~= old(self)@.subrange(at as int, old(self)@.len() as int));
        }
        tail
    }

    /// Shortens the active range to `new_len` bytes in place; nothing
    /// happens when the view is already that short. A shortening `new_len`
    /// must fall on a scalar boundary, for which the caller is responsible.
    pub fn truncate(&mut self, new_len: usize)
        requires
            new_len < old(self)@.len() ==> is_char_boundary(old(self)@, new_len as int),
        ensures
            final(self)@ == (if new_len < old(self)@.len() {
                old(self)@.subrange(0, new_len as int)
            } else {
                old(self)@
            }),
            final(self).full_view() == old(self).full_view(),
    {
        proof {
            use_type_invariant(&*self);
            lemma_window_boundaries(self.buf.bytes(), self.start as int, self.len as int);
        }
        if new_len < self.len {
            self.len = new_len;
            proof {
                assert(self@ =~= old(self)@.subrange(0, new_len as int));
            }
        }
    }

    /// Copies the bytes of the active range into a fresh vector.
    pub fn to_vec(&self) -> (r: Vec<u8>)
        ensures
            r@ == self@,
            valid_utf8(self@),
    {
        slice_to_vec(self.as_bytes())
    }

    /// Consumes the view and returns the bytes of the active range as
    /// owned storage. When this view's handle is the last one and the
    /// active range starts at offset zero, the buffer's storage is reused
    /// without a copy; otherwise the range is copied out once.
    pub fn into_bytes(self) -> (r: Vec<u8>)
        ensures
            r@ == self@,
            valid_utf8(self@),
    {
        proof {
            use_type_invariant(&self);
            lemma_window_boundaries(self.buf.bytes(), self.start as int, self.len as int);
        }
        let SharedGenString { buf, start, len } = self;
        match buf.try_unshare() {
            Ok(mut v) => {
                if start == 0 {
                    v.truncate(len);
                    v
                } else {
                    slice_to_vec(slice_subrange(v.as_slice(), start, start + len))
                }
            },
            Err(b) => slice_to_vec(slice_subrange(b.as_slice(), start, start + len)),
        }
    }

    /// Consumes the view and returns the active range as an owned string,
    /// reusing the buffer's storage as [`into_bytes`](Self::into_bytes)
    /// does.
    pub fn into_string(self) -> (r: String)
        ensures
            encode_utf8(r@) == self@,
            r@ == decode_utf8(self@),
    {
        let v = self.into_bytes();
        let r = string_from_utf8(v);
        proof {
            encode_utf8_decode_utf8(r@);
        }
        r
    }

    /// Consumes the view and returns the whole underlying buffer as owned
    /// storage, ignoring the active range. When this view's handle is the
    /// last one, the storage is reused without a copy.
    pub fn into_full_bytes(self) -> (r: Vec<u8>)
        ensures
            r@ == self.full_view(),
            valid_utf8(self.full_view()),
    {
        proof {
            use_type_invariant(&self);
        }
        let SharedGenString { buf, start: _, len: _ } = self;
        match buf.try_unshare() {
            Ok(v) => v,
            Err(b) => slice_to_vec(b.as_slice()),
        }
    }

    /// Consumes the view and returns the whole underlying buffer as an
    /// owned string, reusing the storage when this view's handle is the
    /// last one.
    pub fn into_full_string(self) -> (r: String)
        ensures
            encode_utf8(r@) == self.full_view(),
            r@ == decode_utf8(self.full_view()),
    {
        let v = self.into_full_bytes();
        let r = string_from_utf8(v);
        proof {
            encode_utf8_decode_utf8(r@);
        }
        r
    }

    /// Borrows the whole underlying buffer as a string slice, ignoring the
    /// active range.
    pub fn as_full_str(&self) -> (r: &str)
        ensures
            encode_utf8(r@) == self.full_view(),
            r@ == decode_utf8(self.full_view()),
            valid_utf8(self.full_view()),
    {
        let b = self.as_full_bytes();
        let r = bytes_as_str(b);
        proof {
            encode_utf8_decode_utf8(r@);
        }
        r
    }

    /// A hash of the bytes of the active range, by the 64-bit FNV-1a
    /// scheme. Views showing equal text hash equally, wherever their
    /// buffers live.
    pub fn content_hash(&self) -> (r: u64)
        ensures
            r == fnv1a(self@),
    {
        let b = self.as_bytes();
        let n = b.len();
        let mut h: u64 = 0xcbf29ce484222325;
        let mut i: usize = 0;
        proof {
            assert(b@.subrange(0, 0) =~= Seq::<u8>::empty());
        }
        while i < n
            invariant
                i <= n,
                n == b@.len(),
                h == fnv1a(b@.subrange(0, i as int)),
            decreases n - i,
        {
            h = (h ^ (b[i] as u64)).wrapping_mul(0x100000001b3);
            proof {
                let taken = b@.subrange(0, i + 1);
                assert(taken.drop_last() =~= b@.subrange(0, i as int));
                assert(taken.last() == b@[i as int]);
            }
            i = i + 1;
        }
        proof {
            assert(b@.subrange(0, n as int) =~= b@);
        }
        h
    }
}

/// The 64-bit FNV-1a hash of a byte sequence: starting from the offset
/// basis, each byte is folded in by an exclusive-or followed by a wrapping
/// multiplication with the FNV prime.
pub open spec fn fnv1a(s: Seq<u8>) -> u64
    decreases s.len(),
{
    if s.len() == 0 {
        0xcbf29ce484222325u64
    } else {
        (fnv1a(s.drop_last()) ^ (s.last() as u64)).wrapping_mul(0x100000001b3u64)
    }
}

/// Compares two byte slices for equal contents.
fn bytes_equal(a: &[u8], b: &[u8]) -> (r: bool)
    ensures
        r == (a@ == b@),
{
    let n = a.len();
    if n != b.len() {
        return false;
    }
    let mut i: usize = 0;
    while i < n
        invariant
            i <= n,
            n == a@.len(),
            n == b@.len(),
            forall|j: int| 0 <= j < i ==> a@[j] == b@[j],
        decreases n - i,
    {
        if a[i] != b[i] {
            return false;
        }
        i = i + 1;
    }
    proof {
        assert(a@ =~= b@);
    }
    true
}

impl<B1: SharedBytes, B2: SharedBytes> vstd::std_specs::cmp::PartialEqSpecImpl<SharedGenString<B2>> for SharedGenString<B1> {
    open spec fn obeys_eq_spec() -> bool {
        true
    }

    open spec fn eq_spec(&self, other: &SharedGenString<B2>) -> bool {
        self@ == other@
    }
}

impl<B1: SharedBytes, B2: SharedBytes> PartialEq<SharedGenString<B2>> for SharedGenString<B1> {
    /// Equality of the texts the two views show, whichever buffers and
    /// policies stand behind them.
    fn eq(&self, other: &SharedGenString<B2>) -> (r: bool) {
        bytes_equal(self.as_bytes(), other.as_bytes())
    }
}

impl<B: SharedBytes> vstd::std_specs::cmp::PartialEqSpecImpl<&str> for SharedGenString<B> {
    open spec fn obeys_eq_spec() -> bool {
        true
    }

    open spec fn eq_spec(&self, other: &&str) -> bool {
        self@ == encode_utf8((*other)@)
    }
}

impl<B: SharedBytes> PartialEq<&str> for SharedGenString<B> {
    /// Equality of this view's text and a string slice.
    fn eq(&self, other: &&str) -> (r: bool) {
        bytes_equal(self.as_bytes(), (*other).as_bytes())
    }
}

impl<B: SharedBytes> vstd::std_specs::convert::FromSpecImpl<String> for SharedGenString<B> {
    open spec fn obeys_from_spec() -> bool {
        false
    }

    open spec fn from_spec(s: String) -> Self {
        vstd::pervasive::arbitrary()
    }
}

impl<B: SharedBytes> From<String> for SharedGenString<B> {
    /// [`from_string`](SharedGenString::from_string), which carries the
    /// contract.
    fn from(s: String) -> (r: Self) {
        Self::from_string(s)
    }
}

impl<B: SharedBytes> vstd::std_specs::convert::FromSpecImpl<&str> for SharedGenString<B> {
    open spec fn obeys_from_spec() -> bool {
        false
    }

    open spec fn from_spec(s: &str) -> Self {
        vstd::pervasive::arbitrary()
    }
}

impl<B: SharedBytes> From<&str> for SharedGenString<B> {
    /// [`from_str_ref`](SharedGenString::from_str_ref), which carries the
    /// contract.
    fn from(s: &str) -> (r: Self) {
        Self::from_str_ref(s)
    }
}

} // verus!
