//! Positions and spans into a template source.
use vstd::prelude::*;

verus! {

/// A general position which allows conversion from and to `usize` and `u32`.
pub trait Pos: Sized {
    /// The numeric value of the position.
    spec fn pos_value(&self) -> u32;

    /// Creates a new position from `value` (truncated to 32 bits).
    fn from_usize(value: usize) -> (r: Self)
        ensures
            r.pos_value() == value as u32,
    ;

    /// Creates a new position from `value`.
    fn from_u32(value: u32) -> (r: Self)
        ensures
            r.pos_value() == value,
    ;

    /// Interprets the position as a `usize`.
    fn as_usize(&self) -> (r: usize)
        ensures
            r == self.pos_value(),
    ;

    /// Interprets the position as a `u32`.
    fn as_u32(&self) -> (r: u32)
        ensures
            r == self.pos_value(),
    ;
}

/// A position of a byte.
#[derive(Debug, Clone, Copy, PartialEq, Eq, Hash, Structural)]
pub struct BytePos(pub u32);

/// A position of a character.
#[derive(Debug, Clone, Copy, PartialEq, Eq, Hash, Structural)]
pub struct CharPos(pub u32);

impl BytePos {
    /// Creates a new instance with `value`.
    pub fn new(value: u32) -> (r: Self)
        ensures
            r.0 == value,
    {
        BytePos(value)
    }
}

impl CharPos {
    /// Creates a new instance with `value`.
    pub fn new(value: u32) -> (r: Self)
        ensures
            r.0 == value,
    {
        CharPos(value)
    }
}

impl Pos for BytePos {
    open spec fn pos_value(&self) -> u32 {
        self.0
    }

    fn from_usize(value: usize) -> (r: Self) {
        BytePos(value as u32)
    }

    fn from_u32(value: u32) -> (r: Self) {
        BytePos(value)
    }

    fn as_usize(&self) -> (r: usize) {
        self.0 as usize
    }

    fn as_u32(&self) -> (r: u32) {
        self.0
    }
}

impl Pos for CharPos {
    open spec fn pos_value(&self) -> u32 {
        self.0
    }

    fn from_usize(value: usize) -> (r: Self) {
        CharPos(value as u32)
    }

    fn from_u32(value: u32) -> (r: Self) {
        CharPos(value)
    }

    fn as_usize(&self) -> (r: usize) {
        self.0 as usize
    }

    fn as_u32(&self) -> (r: u32) {
        self.0
    }
}

/// The value `((v as i32) + amount) as u32` that an offset operation computes.
pub open spec fn offset_pos(v: u32, amount: i32) -> u32 {
    ((v as i32) + amount) as u32
}

/// Whether `(v as i32) + amount` stays within `i32`, so that offsetting does not overflow.
pub open spec fn offset_fits(v: u32, amount: i32) -> bool {
    i32::MIN <= (v as i32) + amount <= i32::MAX
}

/// A span with a start position (`low`) and an end position (`high`).
#[derive(Debug, Clone, Copy, PartialEq, Eq, Hash, Structural)]
pub struct ByteSpan {
    /// Start position of the span.
    pub low: BytePos,
    /// End position of the span.
    pub high: BytePos,
}

impl ByteSpan {
    /// Creates a new span from `low` and `high` (each truncated to 32 bits).
    ///
    /// If `high` is smaller than `low` the values are switched.
    pub fn new(low: usize, high: usize) -> (r: Self)
        ensures
            (low as u32) <= (high as u32) ==> r.low.0 == low as u32 && r.high.0 == high as u32,
            (low as u32) > (high as u32) ==> r.low.0 == high as u32 && r.high.0 == low as u32,
    {
        let l = low as u32;
        let h = high as u32;
        if l > h {
            ByteSpan { low: BytePos(h), high: BytePos(l) }
        } else {
            ByteSpan { low: BytePos(l), high: BytePos(h) }
        }
    }

    /// The span `low..high` for positions that already fit in 32 bits.
    pub open spec fn spec_of(low: int, high: int) -> ByteSpan {
        ByteSpan { low: BytePos(low as u32), high: BytePos(high as u32) }
    }

    /// Associates the span with the given `value`.
    pub fn span<T>(self, value: T) -> (r: Spanned<T>)
        ensures
            r.span == self,
            r.value == value,
    {
        Spanned::new(self, value)
    }

    /// Creates a new span with `low` while `high` is taken from this span.
    pub fn with_low(&self, low: u32) -> (r: Self)
        ensures
            r.low.0 == low,
            r.high == self.high,
    {
        let mut copy = *self;
        copy.low = BytePos(low);
        copy
    }

    /// Creates a new span with `low` taken from this span and `high`.
    pub fn with_high(&self, high: u32) -> (r: Self)
        ensures
            r.low == self.low,
            r.high.0 == high,
    {
        let mut copy = *self;
        copy.high = BytePos(high);
        copy
    }

    /// Creates a new span containing both `self` and `other`.
    pub fn union(&self, other: &Self) -> (r: Self)
        ensures
            r.low.0 == (if self.low.0 <= other.low.0 { self.low.0 } else { other.low.0 }),
            r.high.0 == (if self.high.0 >= other.high.0 { self.high.0 } else { other.high.0 }),
    {
        let low = if self.low.0 <= other.low.0 { self.low } else { other.low };
        let high = if self.high.0 >= other.high.0 { self.high } else { other.high };
        ByteSpan { low, high }
    }

    /// Creates a new span with `low` offset by `amount`.
    pub fn offset_low(&self, amount: i32) -> (r: Self)
        requires
            offset_fits(self.low.0, amount),
        ensures
            r.low.0 == offset_pos(self.low.0, amount),
            r.high == self.high,
    {
        let mut copy = *self;
        let v: i32 = (copy.low.0 as i32) + amount;
        copy.low = BytePos(v as u32);
        copy
    }

    /// Creates a new span with `high` offset by `amount`.
    pub fn offset_high(&self, amount: i32) -> (r: Self)
        requires
            offset_fits(self.high.0, amount),
        ensures
            r.low == self.low,
            r.high.0 == offset_pos(self.high.0, amount),
    {
        let mut copy = *self;
        let v: i32 = (copy.high.0 as i32) + amount;
        copy.high = BytePos(v as u32);
        copy
    }

    /// Creates a new span with both `low` and `high` offset by `amount`.
    pub fn offset(&self, amount: i32) -> (r: Self)
        requires
            offset_fits(self.low.0, amount),
            offset_fits(self.high.0, amount),
        ensures
            r.low.0 == offset_pos(self.low.0, amount),
            r.high.0 == offset_pos(self.high.0, amount),
    {
        let mut copy = *self;
        let l: i32 = (copy.low.0 as i32) + amount;
        let h: i32 = (copy.high.0 as i32) + amount;
        copy.low = BytePos(l as u32);
        copy.high = BytePos(h as u32);
        copy
    }

    /// Returns the start of the span.
    pub fn low(&self) -> (r: &BytePos)
        ensures
            *r == self.low,
    {
        &self.low
    }

    /// Returns the end of the span.
    pub fn high(&self) -> (r: &BytePos)
        ensures
            *r == self.high,
    {
        &self.high
    }
}

/// Associates a [`ByteSpan`] with a generic `value`.
#[derive(Debug, Clone, Copy, PartialEq, Eq)]
pub struct Spanned<T> {
    /// A span.
    pub span: ByteSpan,
    /// The value associated with the span.
    pub value: T,
}

impl<T> Spanned<T> {
    /// Creates a new instance.
    pub fn new(span: ByteSpan, value: T) -> (r: Self)
        ensures
            r.span == span,
            r.value == value,
    {
        Spanned { span, value }
    }

    /// Returns the `span` associated with this struct.
    pub fn span(&self) -> (r: &ByteSpan)
        ensures
            *r == self.span,
    {
        &self.span
    }

    /// Returns the `value` associated with this struct.
    pub fn value(&self) -> (r: &T)
        ensures
            *r == self.value,
    {
        &self.value
    }

    /// Consumes self and returns the `span` associated with it.
    pub fn into_span(self) -> (r: ByteSpan)
        ensures
            r == self.span,
    {
        self.span
    }

    /// Consumes self and returns the `value` associated with it.
    pub fn into_value(self) -> (r: T)
        ensures
            r == self.value,
    {
        self.value
    }

    /// Consumes self and returns both `span` and `value`.
    pub fn into_inner(self) -> (r: (ByteSpan, T))
        ensures
            r == (self.span, self.value),
    {
        (self.span, self.value)
    }
}

} // verus!
