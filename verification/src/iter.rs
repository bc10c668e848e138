//! The lazy splitting iterators over a shared string.
//!
//! Both iterators walk a working range over one shared buffer and yield a
//! fresh view per segment, copying nothing. [`Split`] cuts at a delimiter
//! byte; [`Lines`] cuts at line feeds and drops a carriage return at the end
//! of a line. Both yield one segment per delimiter plus a final one, so text
//! ending in a delimiter yields a final empty segment; an iterator is done
//! only after that final segment has been handed out.

use vstd::prelude::*;
use vstd::utf8::is_char_boundary_start_end_of_seq;

use crate::buffer::SharedBytes;
use crate::encoding::lemma_ascii_at_boundaries;
use crate::shared::SharedGenString;

verus! {

/// The line feed byte, at which [`Lines`] cuts.
pub const LINE_FEED: u8 = 10;

/// The carriage return byte, which [`Lines`] drops at the end of a line.
pub const CARRIAGE_RETURN: u8 = 13;

/// The offset of the first occurrence of `d` in `s`, or `s.len()` when `d`
/// does not occur.
pub open spec fn first_index(s: Seq<u8>, d: u8) -> int
    decreases s.len(),
{
    if s.len() == 0 {
        0
    } else if s[0] == d {
        0
    } else {
        1 + first_index(s.drop_first(), d)
    }
}

/// What [`first_index`] returns: the offset of an occurrence with none
/// before it, or the length when there is no occurrence.
pub proof fn lemma_first_index(s: Seq<u8>, d: u8)
    ensures
        0 <= first_index(s, d) <= s.len(),
        first_index(s, d) < s.len() ==> s[first_index(s, d)] == d,
        forall|j: int| 0 <= j < first_index(s, d) ==> s[j] != d,
    decreases s.len(),
{
    if s.len() == 0 {
    } else if s[0] == d {
    } else {
        lemma_first_index(s.drop_first(), d);
        assert forall|j: int| 0 <= j < first_index(s, d) implies s[j] != d by {
            if j > 0 {
                assert(s.drop_first()[j - 1] == s[j]);
            }
        }
    }
}

/// An occurrence with none before it is the one [`first_index`] returns.
proof fn lemma_first_index_at(s: Seq<u8>, d: u8, p: int)
    requires
        0 <= p < s.len(),
        s[p] == d,
        forall|j: int| 0 <= j < p ==> s[j] != d,
    ensures
        first_index(s, d) == p,
{
    lemma_first_index(s, d);
    let fi = first_index(s, d);
    if fi < p {
        assert(s[fi] != d);
        assert(false);
    }
    if p < fi {
        assert(s[p] != d);
        assert(false);
    }
}

/// The segments of `s` between occurrences of `d`: one segment per
/// occurrence plus a final one, so there is always at least one segment,
/// and a trailing occurrence contributes a final empty segment.
pub open spec fn split_segments(s: Seq<u8>, d: u8) -> Seq<Seq<u8>>
    decreases s.len(),
{
    if s.len() == 0 {
        seq![s]
    } else if s[0] == d {
        seq![Seq::<u8>::empty()] + split_segments(s.drop_first(), d)
    } else {
        let rest = split_segments(s.drop_first(), d);
        seq![seq![s[0]] + rest[0]] + rest.drop_first()
    }
}

/// There is always at least one segment.
pub proof fn lemma_split_segments_len(s: Seq<u8>, d: u8)
    ensures
        split_segments(s, d).len() >= 1,
    decreases s.len(),
{
    if s.len() == 0 {
    } else if s[0] == d {
    } else {
        lemma_split_segments_len(s.drop_first(), d);
    }
}

/// One step of splitting: up to the first occurrence of the delimiter, the
/// segments are the text before it followed by the segments of the text
/// after it; with no occurrence the whole text is the one segment.
pub proof fn lemma_split_segments_step(s: Seq<u8>, d: u8)
    ensures
        first_index(s, d) == s.len() ==> split_segments(s, d) == seq![s],
        first_index(s, d) < s.len() ==> split_segments(s, d) == seq![
            s.subrange(0, first_index(s, d)),
        ] + split_segments(s.subrange(first_index(s, d) + 1, s.len() as int), d),
    decreases s.len(),
{
    lemma_first_index(s, d);
    let p = first_index(s, d);
    if s.len() == 0 {
        assert(split_segments(s, d) =~~= seq![s]);
    } else if s[0] == d {
        assert(s.subrange(0, 0) =~= Seq::<u8>::empty());
        assert(s.subrange(1, s.len() as int) =~= s.drop_first());
        assert(split_segments(s, d) =~~= seq![s.subrange(0, 0)] + split_segments(
            s.subrange(1, s.len() as int),
            d,
        ));
    } else {
        let t = s.drop_first();
        let rest = split_segments(t, d);
        lemma_split_segments_step(t, d);
        lemma_first_index(t, d);
        lemma_split_segments_len(t, d);
        let q = first_index(t, d);
        assert(p == 1 + q);
        if q == t.len() {
            assert(rest == seq![t]);
            assert(seq![s[0]] + t =~= s);
            assert(split_segments(s, d) =~~= seq![s]);
        } else {
            assert(rest == seq![t.subrange(0, q)] + split_segments(
                t.subrange(q + 1, t.len() as int),
                d,
            ));
            assert(rest[0] == t.subrange(0, q));
            assert(seq![s[0]] + t.subrange(0, q) =~= s.subrange(0, p));
            assert(t.subrange(q + 1, t.len() as int) =~= s.subrange(p + 1, s.len() as int));
            assert(rest.drop_first() =~~= split_segments(s.subrange(p + 1, s.len() as int), d));
            assert(split_segments(s, d) =~~= seq![s.subrange(0, p)] + split_segments(
                s.subrange(p + 1, s.len() as int),
                d,
            ));
        }
    }
}

/// A line's raw bytes without a trailing carriage return; text that does
/// not end in one is kept as it is.
pub open spec fn trim_carriage(seg: Seq<u8>) -> Seq<u8> {
    if seg.len() > 0 && seg.last() == CARRIAGE_RETURN {
        seg.drop_last()
    } else {
        seg
    }
}

/// The lines of `s`: the segments between line feeds, each without a
/// trailing carriage return. Text ending in a line feed has a final empty
/// line. The segment after the last line feed is kept as it is: only a
/// carriage return that stood before a line feed is dropped.
pub open spec fn line_segments(s: Seq<u8>) -> Seq<Seq<u8>> {
    let segs = split_segments(s, LINE_FEED);
    segs.map(
        |i: int, seg: Seq<u8>|
            if i < segs.len() - 1 {
                trim_carriage(seg)
            } else {
                seg
            },
    )
}

/// The offset of the first occurrence of `d` in `v`, scanning forward.
fn find_byte(v: &[u8], d: u8) -> (r: Option<usize>)
    ensures
        match r {
            Some(p) => p < v@.len() && v@[p as int] == d && (forall|j: int|
                0 <= j < p ==> v@[j] != d),
            None => forall|j: int| 0 <= j < v@.len() ==> v@[j] != d,
        },
{
    let n = v.len();
    let mut i: usize = 0;
    while i < n
        invariant
            i <= n,
            n == v@.len(),
            forall|j: int| 0 <= j < i ==> v@[j] != d,
        decreases n - i,
    {
        if v[i] == d {
            return Some(i);
        }
        i = i + 1;
    }
    None
}

/// The segment iterator of [`SharedGenString::split`]: yields a view of
/// the text before each occurrence of the delimiter, then one of the text
/// after the last occurrence.
#[derive(Debug)]
pub struct Split<B: SharedBytes> {
    rest: SharedGenString<B>,
    byte: u8,
    done: bool,
}

impl<B: SharedBytes> Clone for Split<B> {
    /// An independent cursor at the same position over the same buffer.
    fn clone(&self) -> (r: Self)
        ensures
            r.remaining() == self.remaining(),
    {
        proof {
            use_type_invariant(self);
        }
        Split { rest: self.rest.clone(), byte: self.byte, done: self.done }
    }
}

impl<B: SharedBytes> Split<B> {
    #[verifier::type_invariant]
    closed spec fn wf(self) -> bool {
        self.byte < 0x80
    }

    /// The texts this iterator will still yield, in order.
    pub closed spec fn remaining(&self) -> Seq<Seq<u8>> {
        if self.done {
            Seq::<Seq<u8>>::empty()
        } else {
            split_segments(self.rest@, self.byte)
        }
    }

    pub(crate) fn new(rest: SharedGenString<B>, byte: u8) -> (it: Self)
        requires
            byte < 0x80,
        ensures
            it.remaining() == split_segments(rest@, byte),
    {
        Split { rest, byte, done: false }
    }

    /// The next segment: a view of the text up to the next occurrence of
    /// the delimiter, which the cursor then passes over. The segment after
    /// the last occurrence is yielded too, empty or not; after it the
    /// iterator only returns `None`.
    pub fn next(&mut self) -> (r: Option<SharedGenString<B>>)
        ensures
            old(self).remaining().len() == 0 ==> r is None && final(self).remaining().len() == 0,
            old(self).remaining().len() > 0 ==> ({
                &&& r matches Some(v) && v@ == old(self).remaining()[0]
                &&& final(self).remaining() == old(self).remaining().drop_first()
            }),
    {
        proof {
            use_type_invariant(&*self);
        }
        if self.done {
            return None;
        }
        let ghost s = self.rest@;
        let ghost d = self.byte;
        proof {
            lemma_split_segments_step(s, d);
            lemma_split_segments_len(s, d);
        }
        let b = self.rest.as_bytes();
        let n = b.len();
        match find_byte(b, self.byte) {
            Some(p) => {
                proof {
                    lemma_first_index_at(s, d, p as int);
                    lemma_ascii_at_boundaries(s, p as int);
                    is_char_boundary_start_end_of_seq(s);
                }
                let head = self.rest.slice_window(0, p);
                let tail = self.rest.slice_window(p + 1, n);
                self.rest = tail;
                proof {
                    let segs = split_segments(s, d);
                    assert(head@ == segs[0]);
                    assert(split_segments(tail@, d) =~~= segs.drop_first());
                    assert(final(self).remaining() =~~= old(self).remaining().drop_first());
                }
                Some(head)
            },
            None => {
                proof {
                    lemma_first_index(s, d);
                    assert(first_index(s, d) == s.len());
                }
                let mut head = SharedGenString::<B>::new();
                core::mem::swap(&mut head, &mut self.rest);
                self.done = true;
                proof {
                    assert(head@ == old(self).remaining()[0]);
                    assert(final(self).remaining() =~~= old(self).remaining().drop_first());
                }
                Some(head)
            },
        }
    }
}

/// The line iterator of [`SharedGenString::lines`]: yields a view per
/// line, cut at line feeds, without a trailing carriage return.
#[derive(Debug)]
pub struct Lines<B: SharedBytes> {
    rest: SharedGenString<B>,
    done: bool,
}

impl<B: SharedBytes> Clone for Lines<B> {
    /// An independent cursor at the same position over the same buffer.
    fn clone(&self) -> (r: Self)
        ensures
            r.remaining() == self.remaining(),
    {
        Lines { rest: self.rest.clone(), done: self.done }
    }
}

impl<B: SharedBytes> Lines<B> {
    /// The texts this iterator will still yield, in order.
    pub closed spec fn remaining(&self) -> Seq<Seq<u8>> {
        if self.done {
            Seq::<Seq<u8>>::empty()
        } else {
            line_segments(self.rest@)
        }
    }

    pub(crate) fn new(rest: SharedGenString<B>) -> (it: Self)
        ensures
            it.remaining() == line_segments(rest@),
    {
        Lines { rest, done: false }
    }

    /// The next line: a view of the text up to the next line feed, without
    /// a trailing carriage return; the cursor passes over both. The text
    /// after the last line feed is yielded too, empty or not; after it the
    /// iterator only returns `None`.
    pub fn next(&mut self) -> (r: Option<SharedGenString<B>>)
        ensures
            old(self).remaining().len() == 0 ==> r is None && final(self).remaining().len() == 0,
            old(self).remaining().len() > 0 ==> ({
                &&& r matches Some(v) && v@ == old(self).remaining()[0]
                &&& final(self).remaining() == old(self).remaining().drop_first()
            }),
    {
        if self.done {
            return None;
        }
        let ghost s = self.rest@;
        proof {
            lemma_split_segments_step(s, LINE_FEED);
            lemma_split_segments_len(s, LINE_FEED);
        }
        let b = self.rest.as_bytes();
        let n = b.len();
        match find_byte(b, LINE_FEED) {
            Some(p) => {
                proof {
                    lemma_first_index_at(s, LINE_FEED, p as int);
                    lemma_ascii_at_boundaries(s, p as int);
                    is_char_boundary_start_end_of_seq(s);
                }
                let head = if p > 0 && b[p - 1] == CARRIAGE_RETURN {
                    proof {
                        lemma_ascii_at_boundaries(s, p - 1);
                        assert(s.subrange(0, p as int).last() == CARRIAGE_RETURN);
                        assert(s.subrange(0, p as int).drop_last() =~= s.subrange(0, p - 1));
                    }
                    self.rest.slice_window(0, p - 1)
                } else {
                    proof {
                        if p > 0 {
                            assert(s.subrange(0, p as int).last() == s[p - 1]);
                        }
                    }
                    self.rest.slice_window(0, p)
                };
                let tail = self.rest.slice_window(p + 1, n);
                self.rest = tail;
                proof {
                    let segs = split_segments(s, LINE_FEED);
                    lemma_split_segments_len(s.subrange(p + 1, s.len() as int), LINE_FEED);
                    assert(segs.len() >= 2);
                    assert(head@ == trim_carriage(segs[0]));
                    assert(head@ == old(self).remaining()[0]);
                    assert(split_segments(tail@, LINE_FEED) =~~= segs.drop_first());
                    assert(final(self).remaining() =~~= old(self).remaining().drop_first());
                }
                Some(head)
            },
            None => {
                proof {
                    lemma_first_index(s, LINE_FEED);
                    assert(first_index(s, LINE_FEED) == s.len());
                }
                let mut head = SharedGenString::<B>::new();
                core::mem::swap(&mut head, &mut self.rest);
                self.done = true;
                proof {
                    assert(head@ == old(self).remaining()[0]);
                    assert(final(self).remaining() =~~= old(self).remaining().drop_first());
                }
                Some(head)
            },
        }
    }
}

impl<B: SharedBytes> SharedGenString<B> {
    /// Consumes the view and returns an iterator over the segments of its
    /// text between occurrences of `byte`, as further views of the same
    /// buffer. The delimiter must be an ASCII byte, so that cutting at it
    /// always leaves valid UTF-8 on both sides.
    pub fn split(self, byte: u8) -> (it: Split<B>)
        requires
            byte < 0x80,
        ensures
            it.remaining() == split_segments(self@, byte),
    {
        Split::new(self, byte)
    }

    /// Consumes the view and returns an iterator over its lines, as
    /// further views of the same buffer: segments cut at line feeds, each
    /// without a trailing carriage return. Text ending in a line feed
    /// yields a final empty line.
    pub fn lines(self) -> (it: Lines<B>)
        ensures
            it.remaining() == line_segments(self@),
    {
        Lines::new(self)
    }
}

} // verus!
