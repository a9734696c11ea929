//! The text a template is read from, and positions in it.
use vstd::prelude::*;

use crate::span::BytePos;
use vstd::string::StringSliceAdditionalSpecFns;

verus! {

/// Where a source comes from.
#[derive(Debug, Clone, PartialEq, Eq)]
pub enum SourceOrigin {
    /// The source has no origin (e.g. a literal in code).
    Anonymous,
    /// The source was read from the file with the given path.
    File(String),
}

/// A position in a source given as line and column.
#[derive(Debug, Clone, Copy, PartialEq, Eq, Hash, Structural)]
pub struct Location {
    /// One-indexed line number.
    pub line: usize,
    /// Zero-indexed column, counted in characters.
    pub column: usize,
}

impl Location {
    /// Returns the one-indexed line number.
    pub fn line(&self) -> (r: usize)
        ensures
            r == self.line,
    {
        self.line
    }

    /// Returns the zero-indexed column.
    pub fn column(&self) -> (r: usize)
        ensures
            r == self.column,
    {
        self.column
    }
}

/// The number of occurrences of byte `b` in `s`.
pub open spec fn count_byte(s: Seq<u8>, b: u8) -> nat
    decreases s.len(),
{
    if s.len() == 0 {
        0
    } else {
        count_byte(s.drop_last(), b) + if s.last() == b { 1nat } else { 0nat }
    }
}

/// Whether `b` starts the UTF-8 encoding of a character (is no continuation byte).
pub open spec fn is_char_start(b: u8) -> bool {
    !(0x80 <= b < 0xc0)
}

/// The number of characters whose encoding starts in `s`.
pub open spec fn count_char_starts(s: Seq<u8>) -> nat
    decreases s.len(),
{
    if s.len() == 0 {
        0
    } else {
        count_char_starts(s.drop_last()) + if is_char_start(s.last()) { 1nat } else { 0nat }
    }
}

/// The index of the first byte of the line that holds position `pos`.
pub open spec fn line_start(c: Seq<u8>, pos: int) -> int {
    match crate::scan::rfind_byte(c.subrange(0, pos), 0x0a) {
        Some(k) => k + 1,
        None => 0,
    }
}

/// The zero-indexed line of position `pos`.
pub open spec fn spec_line_idx(c: Seq<u8>, pos: int) -> nat {
    count_byte(c.subrange(0, pos), 0x0a)
}

/// The zero-indexed column (in characters) of position `pos`.
pub open spec fn spec_column(c: Seq<u8>, pos: int) -> nat {
    count_char_starts(c.subrange(line_start(c, pos), pos))
}

/// A template source: its origin and its text.
#[derive(Debug, Clone)]
pub struct Source<'a> {
    /// Where the source comes from.
    pub origin: SourceOrigin,
    /// The text of the source.
    pub content: &'a str,
}

pub proof fn lemma_rfind_bounds(s: Seq<u8>, b: u8)
    ensures
        crate::scan::rfind_byte(s, b) matches Some(k) ==> 0 <= k < s.len() && s[k] == b,
    decreases s.len(),
{
    if s.len() > 0 && s.last() != b {
        lemma_rfind_bounds(s.drop_last(), b);
    }
}

impl<'a> Source<'a> {
    /// The bytes of the text.
    pub open spec fn spec_bytes(&self) -> Seq<u8> {
        self.content.spec_bytes()
    }

    /// Creates a source with the given origin and text.
    pub fn new(origin: SourceOrigin, content: &'a str) -> (r: Self)
        ensures
            r.origin == origin,
            r.content == content,
    {
        Source { origin, content }
    }

    /// Creates a source without origin.
    pub fn anonymous(content: &'a str) -> (r: Self)
        ensures
            r.origin == SourceOrigin::Anonymous,
            r.content == content,
    {
        Source { origin: SourceOrigin::Anonymous, content }
    }

    /// Creates a source read from the file at `path`.
    pub fn file(path: &str, content: &'a str) -> (r: Self)
        ensures
            r.origin matches SourceOrigin::File(p) && p@ == path@,
            r.content == content,
    {
        Source { origin: SourceOrigin::File(path.to_owned()), content }
    }

    /// Returns the origin of the source.
    pub fn origin(&self) -> (r: &SourceOrigin)
        ensures
            *r == self.origin,
    {
        &self.origin
    }

    /// Returns the text of the source.
    pub fn content(&self) -> (r: &'a str)
        ensures
            r == self.content,
    {
        self.content
    }

    /// Returns the bytes of the text.
    pub fn bytes(&self) -> (r: &'a [u8])
        ensures
            r@ == self.spec_bytes(),
    {
        self.content.as_bytes()
    }

    /// Returns the zero-indexed line on which `pos` lies.
    pub fn get_pos_line_idx(&self, pos: BytePos) -> (r: usize)
        requires
            pos.0 <= self.spec_bytes().len(),
        ensures
            r == spec_line_idx(self.spec_bytes(), pos.0 as int),
            r <= pos.0,
    {
        let c = self.bytes();
        let p = pos.0 as usize;
        let mut n: usize = 0;
        let mut i: usize = 0;
        while i < p
            invariant
                i <= p <= c@.len(),
                n == count_byte(c@.subrange(0, i as int), 0x0a),
                n <= i,
            decreases p - i,
        {
            assert(c@.subrange(0, i + 1).drop_last() =~= c@.subrange(0, i as int));
            if c[i] == 0x0a {
                n = n + 1;
            }
            i = i + 1;
        }
        n
    }

    /// Returns the line and column of `pos`.
    pub fn get_pos_location(&self, pos: BytePos) -> (r: Location)
        requires
            pos.0 <= self.spec_bytes().len(),
            self.spec_bytes().len() < usize::MAX,
        ensures
            r.line == spec_line_idx(self.spec_bytes(), pos.0 as int) + 1,
            r.column == spec_column(self.spec_bytes(), pos.0 as int),
    {
        let c = self.bytes();
        let p = pos.0 as usize;
        let line = self.get_pos_line_idx(pos);
        proof { lemma_rfind_bounds(c@.subrange(0, p as int), 0x0a); }
        let start: usize = match crate::scan::rfind_byte_exec(&c[0..p], 0x0a) {
            Some(k) => k + 1,
            None => 0,
        };
        let mut col: usize = 0;
        let mut i: usize = start;
        while i < p
            invariant
                start <= i <= p <= c@.len(),
                col == count_char_starts(c@.subrange(start as int, i as int)),
                col <= i - start,
            decreases p - i,
        {
            assert(c@.subrange(start as int, i + 1).drop_last() =~= c@.subrange(start as int, i as int));
            if !(0x80 <= c[i] && c[i] < 0xc0) {
                col = col + 1;
            }
            i = i + 1;
        }
        Location { line: line + 1, column: col }
    }
}

} // verus!
