//! Splitting a template source into blocks.
use vstd::prelude::*;

use crate::block::BlockHint;
use crate::diagnostic::{error_data, DiagData, DiagnosticBuilder, DiagnosticLevel};
use crate::scan::{
    ends_with, ends_with_bytes, find, find_bytes, lemma_find_from_bounds, lemma_matches_from_find,
    matches_from, occurs_at, starts_with, starts_with_bytes,
};
use crate::span::{ByteSpan, BytePos, Spanned};

verus! {

/// `{{`
pub open spec fn pat_open() -> Seq<u8> {
    seq![0x7bu8, 0x7b]
}

/// `}}`
pub open spec fn pat_close() -> Seq<u8> {
    seq![0x7du8, 0x7d]
}

/// `}}}`
pub open spec fn pat_escaped_close() -> Seq<u8> {
    seq![0x7du8, 0x7d, 0x7d]
}

/// `!--`
pub open spec fn pat_comment_open() -> Seq<u8> {
    seq![0x21u8, 0x2d, 0x2d]
}

/// `--}}`
pub open spec fn pat_comment_close() -> Seq<u8> {
    seq![0x2du8, 0x2d, 0x7d, 0x7d]
}

/// `--`
pub open spec fn pat_dashes() -> Seq<u8> {
    seq![0x2du8, 0x2d]
}

/// `{`
pub open spec fn pat_brace_open() -> Seq<u8> {
    seq![0x7bu8]
}

/// `}`
pub open spec fn pat_brace_close() -> Seq<u8> {
    seq![0x7du8]
}

/// `@print `
pub open spec fn pat_print() -> Seq<u8> {
    seq![0x40u8, 0x70, 0x72, 0x69, 0x6e, 0x74, 0x20]
}

/// `@if `
pub open spec fn pat_if() -> Seq<u8> {
    seq![0x40u8, 0x69, 0x66, 0x20]
}

/// `@elif `
pub open spec fn pat_elif() -> Seq<u8> {
    seq![0x40u8, 0x65, 0x6c, 0x69, 0x66, 0x20]
}

/// `@else`
pub open spec fn pat_else() -> Seq<u8> {
    seq![0x40u8, 0x65, 0x6c, 0x73, 0x65]
}

/// `@fi`
pub open spec fn pat_fi() -> Seq<u8> {
    seq![0x40u8, 0x66, 0x69]
}

/// Why no block could be cut from the input.
#[derive(Debug, Clone, Copy, PartialEq, Eq, Structural)]
pub enum ScanError {
    /// `{{{` without a matching `}}}`.
    UnclosedEscaped,
    /// `{{!--` without a matching `--}}`.
    UnclosedComment,
    /// `{{` without a matching `}}`.
    UnclosedBlock,
}

impl ScanError {
    /// The number of bytes skipped to recover from the error.
    pub open spec fn spec_skip(self) -> int {
        match self {
            ScanError::UnclosedEscaped => 3,
            ScanError::UnclosedComment => 5,
            ScanError::UnclosedBlock => 2,
        }
    }

    /// The text describing the error.
    pub open spec fn spec_message(self) -> Seq<char> {
        match self {
            ScanError::UnclosedEscaped => "Found opening for an escaped block but no closing"@,
            ScanError::UnclosedComment => "Found opening for a comment block but no closing"@,
            ScanError::UnclosedBlock => "Found opening for a block but no closing"@,
        }
    }

    /// Returns the number of bytes skipped to recover from the error.
    pub fn skip(&self) -> (r: usize)
        ensures
            r == self.spec_skip(),
    {
        match self {
            ScanError::UnclosedEscaped => 3,
            ScanError::UnclosedComment => 5,
            ScanError::UnclosedBlock => 2,
        }
    }

    /// Returns the text describing the error.
    pub fn message(&self) -> (r: &'static str)
        ensures
            r@ == self.spec_message(),
    {
        match self {
            ScanError::UnclosedEscaped => "Found opening for an escaped block but no closing",
            ScanError::UnclosedComment => "Found opening for a comment block but no closing",
            ScanError::UnclosedBlock => "Found opening for a block but no closing",
        }
    }
}

/// Pairs closing braces with opening braces: each closing (in order) consumes the
/// next opening if that opening comes before it; the first closing without such an
/// opening closes the block.
pub open spec fn match_close(opens: Seq<int>, closes: Seq<int>) -> Option<int>
    decreases closes.len(),
{
    if closes.len() == 0 {
        None
    } else if opens.len() > 0 && opens[0] < closes[0] {
        match_close(opens.drop_first(), closes.drop_first())
    } else {
        Some(closes[0])
    }
}

/// The next block at the start of `s`: the index where it ends and its hint if it
/// is already known, or why none could be cut.
pub open spec fn spec_next_block(s: Seq<u8>) -> Option<Result<(int, Option<BlockHint>), ScanError>> {
    if s.len() == 0 {
        None
    } else {
        match find(s, pat_open()) {
            Some(low) => if low > 0 {
                Some(Ok((low, Some(BlockHint::Text))))
            } else if s.len() > 2 && s[2] == 0x7b {
                match find(s, pat_escaped_close()) {
                    Some(high) => Some(Ok((high + 3, Some(BlockHint::Escaped)))),
                    None => Some(Err(ScanError::UnclosedEscaped)),
                }
            } else if s.len() >= 5 && s.subrange(2, 5) == pat_comment_open() {
                match find(s, pat_comment_close()) {
                    Some(high) => Some(Ok((high + 4, Some(BlockHint::Comment)))),
                    None => Some(Err(ScanError::UnclosedComment)),
                }
            } else {
                match match_close(matches_from(s, pat_open(), 1), matches_from(s, pat_close(), 1)) {
                    Some(c) => Some(Ok((c + 2, None))),
                    None => Some(Err(ScanError::UnclosedBlock)),
                }
            },
            None => Some(Ok((s.len() as int, Some(BlockHint::Text)))),
        }
    }
}

/// The kind of a block `content` that starts with `{{` and ends with `}}`, decided by
/// what follows the opening braces.
pub open spec fn classify(content: Seq<u8>) -> BlockHint {
    if !starts_with(content, pat_open()) {
        BlockHint::Text
    } else {
        let inner = content.subrange(2, content.len() - 2);
        if starts_with(inner, pat_brace_open()) && ends_with(inner, pat_brace_close()) {
            BlockHint::Escaped
        } else if starts_with(inner, pat_comment_open()) && ends_with(inner, pat_dashes()) {
            BlockHint::Comment
        } else if starts_with(inner, pat_print()) {
            BlockHint::Print
        } else if starts_with(inner, pat_if()) {
            BlockHint::IfStart
        } else if starts_with(inner, pat_elif()) {
            BlockHint::ElIf
        } else if starts_with(inner, pat_else()) {
            BlockHint::Else
        } else if starts_with(inner, pat_fi()) {
            BlockHint::IfEnd
        } else {
            BlockHint::Var
        }
    }
}

/// A token: a block with its span and hint, or the diagnostic why no block could be cut.
pub type Token = Result<(ByteSpan, BlockHint), DiagData>;

/// The token that starts at index `i` of `c`, with the index after it.
pub open spec fn spec_token_at(c: Seq<u8>, i: int) -> Option<(Token, int)> {
    let s = c.subrange(i, c.len() as int);
    match spec_next_block(s) {
        None => None,
        Some(Err(e)) => Some((
            Err(error_data("failed to parse block"@, Some(e.spec_message()), ByteSpan::spec_of(i, i + e.spec_skip()))),
            i + e.spec_skip(),
        )),
        Some(Ok((hi, hint))) => Some((
            Ok((ByteSpan::spec_of(i, i + hi), match hint {
                Some(h) => h,
                None => classify(c.subrange(i, i + hi)),
            })),
            i + hi,
        )),
    }
}

/// The mathematical content of a token produced by [`BlockIter::next`].
pub open spec fn token_data(t: &Result<Spanned<BlockHint>, DiagnosticBuilder>) -> Token {
    match t {
        Ok(sp) => Ok((sp.span, sp.value)),
        Err(b) => Err(b.data()),
    }
}

pub proof fn lemma_matches_from_elems(s: Seq<u8>, pat: Seq<u8>, i: int)
    requires
        0 <= i,
    ensures
        forall|k: int| 0 <= k < matches_from(s, pat, i).len() ==> i <= #[trigger] matches_from(s, pat, i)[k]
            && occurs_at(s, pat, matches_from(s, pat, i)[k]),
    decreases s.len() - i,
{
    if pat.len() == 0 || i >= s.len() || i + pat.len() > s.len() {
    } else if occurs_at(s, pat, i) {
        lemma_matches_from_elems(s, pat, i + pat.len());
        let m = matches_from(s, pat, i);
        assert forall|k: int| 0 <= k < m.len() implies i <= #[trigger] m[k] && occurs_at(s, pat, m[k]) by {
            if k > 0 {
                assert(m[k] == matches_from(s, pat, i + pat.len())[k - 1]);
            }
        }
    } else {
        lemma_matches_from_elems(s, pat, i + 1);
        assert(matches_from(s, pat, i) == matches_from(s, pat, i + 1));
        let m = matches_from(s, pat, i);
        assert forall|k: int| 0 <= k < m.len() implies i <= #[trigger] m[k] && occurs_at(s, pat, m[k]) by {
            assert(m[k] == matches_from(s, pat, i + 1)[k]);
        }
    }
}

pub proof fn lemma_match_close_elem(opens: Seq<int>, closes: Seq<int>)
    ensures
        match_close(opens, closes) matches Some(c) ==> exists|k: int| 0 <= k < closes.len() && closes[k] == c,
    decreases closes.len(),
{
    if closes.len() == 0 {
    } else if opens.len() > 0 && opens[0] < closes[0] {
        lemma_match_close_elem(opens.drop_first(), closes.drop_first());
        if let Some(c) = match_close(opens, closes) {
            let k = choose|k: int| 0 <= k < closes.drop_first().len() && closes.drop_first()[k] == c;
            assert(closes[k + 1] == c);
        }
    } else {
        assert(closes[0] == closes[0]);
    }
}

/// Tries to find the next block at the start of `s`.
///
/// Returns the index where the block ends and its hint if already known; an error
/// if the start of a block was found but no closing counterpart.
pub fn next_block(s: &[u8]) -> (r: Option<Result<(usize, Option<BlockHint>), ScanError>>)
    ensures
        match r {
            None => spec_next_block(s@) is None,
            Some(Ok((hi, h))) => spec_next_block(s@) == Some(Ok::<(int, Option<BlockHint>), ScanError>((hi as int, h))),
            Some(Err(e)) => spec_next_block(s@) == Some(Err::<(int, Option<BlockHint>), ScanError>(e)),
        },
{
    if s.len() == 0 {
        return None;
    }
    let open: [u8; 2] = [0x7b, 0x7b];
    let close: [u8; 2] = [0x7d, 0x7d];
    assert(open@ =~= pat_open());
    assert(close@ =~= pat_close());
    match find_bytes(s, 0, &open) {
        Some(low) => {
            if low > 0 {
                Some(Ok((low, Some(BlockHint::Text))))
            } else if s.len() > 2 && s[2] == 0x7b {
                let esc: [u8; 3] = [0x7d, 0x7d, 0x7d];
                assert(esc@ =~= pat_escaped_close());
                match find_bytes(s, 0, &esc) {
                    Some(high) => {
                        proof { lemma_find_from_bounds(s@, pat_escaped_close(), 0); }
                        Some(Ok((high + 3, Some(BlockHint::Escaped))))
                    },
                    None => Some(Err(ScanError::UnclosedEscaped)),
                }
            } else if s.len() >= 5 && s[2] == 0x21 && s[3] == 0x2d && s[4] == 0x2d {
                assert(s@.subrange(2, 5) =~= pat_comment_open());
                let cc: [u8; 4] = [0x2d, 0x2d, 0x7d, 0x7d];
                assert(cc@ =~= pat_comment_close());
                match find_bytes(s, 0, &cc) {
                    Some(high) => {
                        proof { lemma_find_from_bounds(s@, pat_comment_close(), 0); }
                        Some(Ok((high + 4, Some(BlockHint::Comment))))
                    },
                    None => Some(Err(ScanError::UnclosedComment)),
                }
            } else {
                proof {
                    if s.len() >= 5 {
                        assert(s@.subrange(2, 5) != pat_comment_open() ==> !(s@[2] == 0x21 && s@[3] == 0x2d && s@[4] == 0x2d));
                    }
                }
                // Pair each closing with the openings before it.
                let mut ostart: usize = 1;
                let mut cstart: usize = 1;
                let ghost opens0 = matches_from(s@, pat_open(), 1);
                let ghost closes0 = matches_from(s@, pat_close(), 1);
                let ghost expected = match match_close(opens0, closes0) {
                    Some(c) => Some(Ok::<(int, Option<BlockHint>), ScanError>((c + 2, None))),
                    None => Some(Err::<(int, Option<BlockHint>), ScanError>(ScanError::UnclosedBlock)),
                };
                assert(spec_next_block(s@) == expected);
                while cstart < s.len()
                    invariant
                        1 <= ostart,
                        1 <= cstart,
                        opens0 == matches_from(s@, pat_open(), 1),
                        closes0 == matches_from(s@, pat_close(), 1),
                        spec_next_block(s@) == expected,
                        expected == (match match_close(opens0, closes0) {
                            Some(c) => Some(Ok::<(int, Option<BlockHint>), ScanError>((c + 2, None))),
                            None => Some(Err::<(int, Option<BlockHint>), ScanError>(ScanError::UnclosedBlock)),
                        }),
                        match_close(opens0, closes0) == match_close(
                            matches_from(s@, pat_open(), ostart as int),
                            matches_from(s@, pat_close(), cstart as int),
                        ),
                        open@ == pat_open(),
                        close@ == pat_close(),
                    decreases s.len() - cstart,
                {
                    proof {
                        lemma_matches_from_find(s@, pat_close(), cstart as int);
                        lemma_matches_from_find(s@, pat_open(), ostart as int);
                    }
                    match find_bytes(s, cstart, &close) {
                        None => {
                            return Some(Err(ScanError::UnclosedBlock));
                        },
                        Some(c) => {
                            proof { lemma_find_from_bounds(s@, pat_close(), cstart as int); }
                            match find_bytes(s, ostart, &open) {
                                Some(o) => {
                                    proof { lemma_find_from_bounds(s@, pat_open(), ostart as int); }
                                    if o < c {
                                        let ghost cl = matches_from(s@, pat_close(), cstart as int);
                                        let ghost op = matches_from(s@, pat_open(), ostart as int);
                                        assert(cl.drop_first() =~= matches_from(s@, pat_close(), c + 2));
                                        assert(op.drop_first() =~= matches_from(s@, pat_open(), o + 2));
                                        ostart = o + 2;
                                        cstart = c + 2;
                                        continue;
                                    }
                                },
                                None => {},
                            }
                            return Some(Ok((c + 2, None)));
                        },
                    }
                }
                proof { lemma_matches_from_find(s@, pat_close(), cstart as int); }
                Some(Err(ScanError::UnclosedBlock))
            }
        },
        None => Some(Ok((s.len(), Some(BlockHint::Text)))),
    }
}

/// Iterator over all blocks of a template source.
#[derive(Debug, Clone, Copy)]
pub struct BlockIter<'a> {
    /// Content to iterate over.
    pub content: &'a [u8],
    /// Current index into `content`.
    pub index: usize,
}

impl<'a> BlockIter<'a> {
    /// Whether the iterator's index lies within its content, and the content fits 32-bit positions.
    pub open spec fn wf(&self) -> bool {
        self.index <= self.content@.len() && self.content@.len() <= u32::MAX
    }

    /// Creates a new instance for `content`.
    pub fn new(content: &'a [u8]) -> (r: Self)
        requires
            content@.len() <= u32::MAX,
        ensures
            r.content == content,
            r.index == 0,
            r.wf(),
    {
        BlockIter { content, index: 0 }
    }

    /// Returns the next block, or the diagnostic why no block could be cut.
    pub fn next(&mut self) -> (r: Option<Result<Spanned<BlockHint>, DiagnosticBuilder>>)
        requires
            old(self).wf(),
        ensures
            final(self).content == old(self).content,
            final(self).wf(),
            match spec_token_at(old(self).content@, old(self).index as int) {
                None => r is None && final(self).index == old(self).index,
                Some((t, j)) => r matches Some(x) && token_data(&x) == t && final(self).index == j,
            },
    {
        let content = self.content;
        let index = self.index;
        let rest = &content[index..content.len()];
        assert(rest@ == content@.subrange(index as int, content@.len() as int));
        let nb = next_block(rest);
        proof { spec_next_block_bounds(rest@); }
        match nb {
            None => None,
            Some(Err(e)) => {
                let skip = e.skip();
                let new_index = index + skip;
                self.index = new_index;
                let span = ByteSpan { low: BytePos(index as u32), high: BytePos(new_index as u32) };
                let b = DiagnosticBuilder::new(DiagnosticLevel::Error)
                    .message("failed to parse block")
                    .description(e.message())
                    .primary_span(span);
                Some(Err(b))
            },
            Some(Ok((hi, hint))) => {
                let new_index = index + hi;
                self.index = new_index;
                let span = ByteSpan { low: BytePos(index as u32), high: BytePos(new_index as u32) };
                match hint {
                    Some(h) => Some(Ok(Spanned { span, value: h })),
                    None => {
                        let h = classify_exec(content, index, new_index);
                        Some(Ok(Spanned { span, value: h }))
                    },
                }
            },
        }
    }
}

/// Bounds on what [`spec_next_block`] produces.
pub proof fn spec_next_block_bounds(s: Seq<u8>)
    ensures
        spec_next_block(s) matches Some(Ok((hi, h))) ==> 0 < hi <= s.len() && (h is None ==> 4 <= hi
            && starts_with(s.subrange(0, hi), pat_open())),
        spec_next_block(s) matches Some(Err(e)) ==> e.spec_skip() <= s.len(),
{
    if s.len() > 0 {
        lemma_find_from_bounds(s, pat_open(), 0);
        lemma_find_from_bounds(s, pat_escaped_close(), 0);
        lemma_find_from_bounds(s, pat_comment_close(), 0);
        if let Some(low) = find(s, pat_open()) {
            if low == 0 && !(s.len() > 2 && s[2] == 0x7b) && !(s.len() >= 5 && s.subrange(2, 5) == pat_comment_open()) {
                let opens = matches_from(s, pat_open(), 1);
                let closes = matches_from(s, pat_close(), 1);
                lemma_matches_from_elems(s, pat_close(), 1);
                lemma_match_close_elem(opens, closes);
                if let Some(c) = match_close(opens, closes) {
                    let k = choose|k: int| 0 <= k < closes.len() && closes[k] == c;
                    assert(occurs_at(s, pat_close(), closes[k]));
                    assert(s.subrange(0, 2) == pat_open());
                    assert(s[1] == 0x7b);
                    assert(s.subrange(c, c + 2)[0] == 0x7d);
                    assert(c >= 2);
                    assert(s.subrange(0, c + 2).subrange(0, 2) =~= s.subrange(0, 2));
                }
            } else if low == 0 && s.len() > 2 && s[2] == 0x7b {
                if let Some(high) = find(s, pat_escaped_close()) {
                    assert(high + 3 <= s.len());
                }
            }
        }
    }
}

/// Classifies the block `content[lo..hi]`, which starts with `{{` and is at least four bytes long.
pub fn classify_exec(content: &[u8], lo: usize, hi: usize) -> (r: BlockHint)
    requires
        lo + 4 <= hi <= content@.len(),
    ensures
        r == classify(content@.subrange(lo as int, hi as int)),
{
    let block = &content[lo..hi];
    let ghost b = content@.subrange(lo as int, hi as int);
    assert(block@ == b);
    let open: [u8; 2] = [0x7b, 0x7b];
    assert(open@ =~= pat_open());
    if !starts_with_bytes(block, &open) {
        return BlockHint::Text;
    }
    let inner = &block[2..block.len() - 2];
    assert(inner@ == b.subrange(2, b.len() - 2));
    let p1: [u8; 1] = [0x7b];
    let p2: [u8; 1] = [0x7d];
    let p3: [u8; 3] = [0x21, 0x2d, 0x2d];
    let p4: [u8; 2] = [0x2d, 0x2d];
    let p5: [u8; 7] = [0x40, 0x70, 0x72, 0x69, 0x6e, 0x74, 0x20];
    let p6: [u8; 4] = [0x40, 0x69, 0x66, 0x20];
    let p7: [u8; 6] = [0x40, 0x65, 0x6c, 0x69, 0x66, 0x20];
    let p8: [u8; 5] = [0x40, 0x65, 0x6c, 0x73, 0x65];
    let p9: [u8; 3] = [0x40, 0x66, 0x69];
    assert(p1@ =~= pat_brace_open());
    assert(p2@ =~= pat_brace_close());
    assert(p3@ =~= pat_comment_open());
    assert(p4@ =~= pat_dashes());
    assert(p5@ =~= pat_print());
    assert(p6@ =~= pat_if());
    assert(p7@ =~= pat_elif());
    assert(p8@ =~= pat_else());
    assert(p9@ =~= pat_fi());
    if starts_with_bytes(inner, &p1) && ends_with_bytes(inner, &p2) {
        BlockHint::Escaped
    } else if starts_with_bytes(inner, &p3) && ends_with_bytes(inner, &p4) {
        BlockHint::Comment
    } else if starts_with_bytes(inner, &p5) {
        BlockHint::Print
    } else if starts_with_bytes(inner, &p6) {
        BlockHint::IfStart
    } else if starts_with_bytes(inner, &p7) {
        BlockHint::ElIf
    } else if starts_with_bytes(inner, &p8) {
        BlockHint::Else
    } else if starts_with_bytes(inner, &p9) {
        BlockHint::IfEnd
    } else {
        BlockHint::Var
    }
}

} // verus!
