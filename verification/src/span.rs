//! Byte positions and half-open byte ranges into a line's byte
//! representation.  Spans are positional only: they carry no reference to the
//! text, so resolving a span to a substring requires pairing it with the
//! original buffer.

use vstd::prelude::*;

verus! {

/// A zero-based byte offset into a line's byte representation.
#[derive(Debug, Clone, Copy, PartialEq, Eq, Structural, Hash)]
pub struct BytePos(pub u32);

impl BytePos {
    /// Wraps a byte offset given as a `u32`.
    pub fn from_u32(value: u32) -> (r: Self)
        ensures
            r.0 == value,
    {
        BytePos(value)
    }

    /// Wraps a byte offset given as a `usize`.
    pub fn from_usize(value: usize) -> (r: Self)
        requires
            value <= u32::MAX,
        ensures
            r.0 == value,
    {
        BytePos(value as u32)
    }

    /// Reads the offset back as a `u32`.
    pub fn as_u32(&self) -> (r: u32)
        ensures
            r == self.0,
    {
        self.0
    }

    /// Reads the offset back as a `usize`.
    pub fn as_usize(&self) -> (r: usize)
        ensures
            r == self.0,
    {
        self.0 as usize
    }

    /// Moves the position by a signed offset, for expressing "one byte
    /// before/after this boundary".
    pub fn offset(&self, offset: i32) -> (r: Self)
        requires
            0 <= self.0 + offset <= u32::MAX,
        ensures
            r.0 == self.0 + offset,
    {
        let v: i64 = self.0 as i64 + offset as i64;
        BytePos(v as u32)
    }
}

/// A half-open `[low, high)` byte range.
///
/// The constructor [`ByteSpan::new`] normalizes out-of-order endpoints by
/// swapping them, so a freshly built span always satisfies `low <= high`;
/// the endpoint-moving operations may break that property, and the
/// operations that need it state it as a precondition.
#[derive(Debug, Clone, Copy, PartialEq, Eq, Structural, Hash)]
pub struct ByteSpan {
    pub low: BytePos,
    pub high: BytePos,
}

impl ByteSpan {
    /// True when the endpoints are ordered.
    pub open spec fn ordered(self) -> bool {
        self.low.0 <= self.high.0
    }

    /// The number of bytes the span covers.
    pub open spec fn spec_len(self) -> int
        recommends
            self.ordered(),
    {
        self.high.0 - self.low.0
    }

    /// Builds a span from two endpoints, swapping them when given out of
    /// order.
    pub fn new(low: BytePos, high: BytePos) -> (r: Self)
        ensures
            r.ordered(),
            low.0 <= high.0 ==> r == (ByteSpan { low, high }),
            low.0 > high.0 ==> r == (ByteSpan { low: high, high: low }),
    {
        if low.0 > high.0 {
            ByteSpan { low: high, high: low }
        } else {
            ByteSpan { low, high }
        }
    }

    /// Builds a span from a `u32` range, swapping the endpoints when given
    /// out of order.
    pub fn from_range(range: core::ops::Range<u32>) -> (r: Self)
        ensures
            r.ordered(),
            range.start <= range.end ==> r == (ByteSpan {
                low: BytePos(range.start),
                high: BytePos(range.end),
            }),
            range.start > range.end ==> r == (ByteSpan {
                low: BytePos(range.end),
                high: BytePos(range.start),
            }),
    {
        Self::new(BytePos(range.start), BytePos(range.end))
    }

    /// Replaces the low endpoint.
    pub fn with_low(&self, low: BytePos) -> (r: Self)
        ensures
            r == (ByteSpan { low, high: self.high }),
    {
        ByteSpan { low, high: self.high }
    }

    /// Replaces the high endpoint.
    pub fn with_high(&self, high: BytePos) -> (r: Self)
        ensures
            r == (ByteSpan { low: self.low, high }),
    {
        ByteSpan { low: self.low, high }
    }

    /// Moves the low endpoint by a signed offset.
    pub fn offset_low(&self, offset: i32) -> (r: Self)
        requires
            0 <= self.low.0 + offset <= u32::MAX,
        ensures
            r.low.0 == self.low.0 + offset,
            r.high == self.high,
    {
        ByteSpan { low: self.low.offset(offset), high: self.high }
    }

    /// Moves the high endpoint by a signed offset.
    pub fn offset_high(&self, offset: i32) -> (r: Self)
        requires
            0 <= self.high.0 + offset <= u32::MAX,
        ensures
            r.low == self.low,
            r.high.0 == self.high.0 + offset,
    {
        ByteSpan { low: self.low, high: self.high.offset(offset) }
    }

    /// Moves both endpoints by a signed offset.
    pub fn offset(&self, offset: i32) -> (r: Self)
        requires
            0 <= self.low.0 + offset <= u32::MAX,
            0 <= self.high.0 + offset <= u32::MAX,
        ensures
            r.low.0 == self.low.0 + offset,
            r.high.0 == self.high.0 + offset,
    {
        ByteSpan { low: self.low.offset(offset), high: self.high.offset(offset) }
    }

    /// The smallest span containing both `self` and `other`.
    pub fn union(&self, other: &Self) -> (r: Self)
        ensures
            r.low.0 == if self.low.0 <= other.low.0 {
                self.low.0
            } else {
                other.low.0
            },
            r.high.0 == if self.high.0 >= other.high.0 {
                self.high.0
            } else {
                other.high.0
            },
    {
        let low = if self.low.0 <= other.low.0 {
            self.low
        } else {
            other.low
        };
        let high = if self.high.0 >= other.high.0 {
            self.high
        } else {
            other.high
        };
        ByteSpan { low, high }
    }

    /// The number of bytes the span covers.
    pub fn len(&self) -> (r: usize)
        requires
            self.ordered(),
        ensures
            r == self.spec_len(),
    {
        self.high.as_usize() - self.low.as_usize()
    }

    /// The span as a `usize` range.
    pub fn to_range_usize(self) -> (r: core::ops::Range<usize>)
        ensures
            r.start == self.low.0,
            r.end == self.high.0,
    {
        self.low.as_usize()..self.high.as_usize()
    }
}

} // verus!
