use std::ops::Range;
use vstd::prelude::*;
use vstd::std_specs::cmp::PartialEqSpec;
use vstd::string::StringSliceAdditionalSpecFns;
use vstd::utf8::*;

verus! {

broadcast use vstd::utf8::group_utf8_lib;

/// A region of a source text, given by the byte offsets `from..to`.
#[derive(Debug, PartialEq, Eq, Clone, Copy)]
pub struct Span<'a> {
    pub source: &'a str,
    pub from: usize,
    pub to: usize,
}

/// A value together with the region of the source it was read from.
#[derive(Debug, PartialEq, Eq, Clone, Copy)]
pub struct Spanned<'a, T> {
    pub span: Span<'a>,
    pub value: T,
}

/// The UTF-8 bytes of the part of `bytes` between the offsets `from` and `to`.
pub open spec fn byte_slice(bytes: Seq<u8>, from: int, to: int) -> Seq<u8> {
    bytes.subrange(from, to)
}

/// `from..to` is a range of `bytes` that can be cut out as a string slice.
pub open spec fn sliceable(bytes: Seq<u8>, from: int, to: int) -> bool {
    &&& 0 <= from <= to <= bytes.len()
    &&& is_char_boundary(bytes, from)
    &&& is_char_boundary(bytes, to)
}

/// Cutting a valid UTF-8 sequence at a character boundary leaves a tail whose
/// character boundaries are those of the whole, shifted.
pub proof fn lemma_tail_boundary(bytes: Seq<u8>, from: int, to: int)
    requires
        valid_utf8(bytes),
        sliceable(bytes, from, to),
    ensures
        valid_utf8(bytes.subrange(from, bytes.len() as int)),
        is_char_boundary(bytes.subrange(from, bytes.len() as int), to - from),
{
    let tail = bytes.subrange(from, bytes.len() as int);
    valid_utf8_split(bytes, from);
    if to - from == 0 {
    } else if to == bytes.len() {
        is_char_boundary_start_end_of_seq(tail);
    } else {
        is_char_boundary_iff_not_is_continuation_byte(bytes, to);
        is_char_boundary_iff_not_is_continuation_byte(tail, to - from);
        assert(tail[to - from] == bytes[to]);
    }
}

/// The string slice of `s` between the byte offsets `from` and `to`.
pub fn slice_str<'a>(s: &'a str, from: usize, to: usize) -> (r: &'a str)
    requires
        sliceable(s.spec_bytes(), from as int, to as int),
    ensures
        r.spec_bytes() == byte_slice(s.spec_bytes(), from as int, to as int),
{
    proof {
        lemma_tail_boundary(s.spec_bytes(), from as int, to as int);
    }
    let (_, tail) = s.split_at(from);
    let (mid, _) = tail.split_at(to - from);
    assert(mid.spec_bytes() =~= byte_slice(s.spec_bytes(), from as int, to as int));
    mid
}

impl<'a> Span<'a> {
    /// The bytes of the whole source text.
    pub open spec fn source_bytes(&self) -> Seq<u8> {
        self.source.spec_bytes()
    }

    /// The offsets lie in order on character boundaries of the source.
    pub open spec fn valid(&self) -> bool {
        sliceable(self.source_bytes(), self.from as int, self.to as int)
    }

    /// The bytes that the span covers.
    pub open spec fn covered(&self) -> Seq<u8> {
        byte_slice(self.source_bytes(), self.from as int, self.to as int)
    }

    pub fn range(&self) -> (r: Range<usize>)
        ensures
            r.start == self.from,
            r.end == self.to,
    {
        self.from..self.to
    }

    pub fn as_str(&self) -> (r: &'a str)
        requires
            self.valid(),
        ensures
            r.spec_bytes() == self.covered(),
    {
        slice_str(self.source, self.from, self.to)
    }

    pub fn wrap<T>(&self, value: T) -> (r: Spanned<'a, T>)
        ensures
            r.span == *self,
            r.value == value,
    {
        Spanned { span: *self, value }
    }

    /// Lowers `from` to the smaller of the two starts, and `to` to the
    /// smaller of the two ends.
    pub fn extend(&mut self, other: &Span<'_>)
        ensures
            final(self).source == old(self).source,
            final(self).from == if old(self).from <= other.from { old(self).from } else { other.from },
            final(self).to == if old(self).to <= other.to { old(self).to } else { other.to },
    {
        if other.from < self.from {
            self.from = other.from;
        }
        if other.to < self.to {
            self.to = other.to;
        }
    }
}

/// Makes a [`Span`] of a string from a range of byte offsets.
pub trait SpanExt<'a> {
    fn span(&self, range: Range<usize>) -> (r: Span<'a>)
        ensures
            r.from == range.start,
            r.to == range.end,
    ;
}

impl<'a> SpanExt<'a> for &'a str {
    fn span(&self, range: Range<usize>) -> (r: Span<'a>)
        ensures
            r.source == *self,
    {
        Span { source: self, from: range.start, to: range.end }
    }
}

impl<'a, T: PartialEq> Spanned<'a, T> {
    /// Compares the value with a bare `other`, whatever the span.
    pub fn value_eq(&self, other: &T) -> (r: bool)
        ensures
            T::obeys_eq_spec() ==> r == self.value.eq_spec(other),
    {
        self.value == *other
    }
}

impl<T> AsRef<T> for Spanned<'_, T> {
    fn as_ref(&self) -> (r: &T)
        ensures
            *r == self.value,
    {
        &self.value
    }
}

impl<T> core::ops::Deref for Spanned<'_, T> {
    type Target = T;

    fn deref(&self) -> (r: &T)
        ensures
            *r == self.value,
    {
        &self.value
    }
}

impl<T> AsMut<T> for Spanned<'_, T> {
    fn as_mut(&mut self) -> (r: &mut T)
        ensures
            *r == old(self).value,
            final(self).value == *final(r),
            final(self).span == old(self).span,
    {
        &mut self.value
    }
}

} // verus!
