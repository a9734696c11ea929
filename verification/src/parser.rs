//! The parser that turns the blocks of a source into a [template](`crate::template::Template`).
use vstd::prelude::*;

use crate::block::{
    lemma_blocks_data_push, block_data, blocks_data, Block, BlockData, BlockHint, BlockKind, If, IfData, IfExpr, KindData, Var,
};
use crate::diagnostic::{error_data, with_label, DiagData, DiagnosticBuilder, DiagnosticLevel};
use crate::parse::{spec_parse_ifop, spec_parse_other, spec_parse_var, VarError};
use crate::scan::{find, is_blank, skip_ws, starts_with, trim};
use crate::span::{ByteSpan, Spanned};
use crate::tokens::{pat_close, pat_open, spec_token_at, token_data, BlockIter, Token};
use crate::diagnostic::Diagnostic;
use crate::session::{diags_data, has_error, Session};
use crate::source::Source;
use crate::template::Template;
use crate::span::BytePos;
use crate::scan::{find_bytes, is_blank_exec, skip_ws_back_exec, skip_ws_exec, bytes_eq, lemma_find_from_bounds, lemma_skip_ws_bounds};
use crate::parse::{parse_ifop, parse_other, parse_var};

verus! {

/// The span `ByteSpan::new(a, b)` builds: the two positions in ascending order.
pub open spec fn span_new(a: int, b: int) -> ByteSpan {
    if (a as u32) <= (b as u32) {
        ByteSpan { low: crate::span::BytePos(a as u32), high: crate::span::BytePos(b as u32) }
    } else {
        ByteSpan { low: crate::span::BytePos(b as u32), high: crate::span::BytePos(a as u32) }
    }
}

/// The span `span.offset_low(a).offset_high(b)`.
pub open spec fn offset_span(span: ByteSpan, a: i32, b: i32) -> ByteSpan {
    ByteSpan {
        low: crate::span::BytePos(crate::span::offset_pos(span.low.0, a)),
        high: crate::span::BytePos(crate::span::offset_pos(span.high.0, b)),
    }
}

/// The bytes of `c` covered by `span`, or nothing if the span lies outside `c`.
pub open spec fn span_bytes(c: Seq<u8>, lo: int, hi: int) -> Seq<u8> {
    if 0 <= lo <= hi <= c.len() {
        c.subrange(lo, hi)
    } else {
        seq![]
    }
}

/// Parses the variable block at `span` (including `{{` and `}}`).
pub open spec fn sp_parse_variable(c: Seq<u8>, span: ByteSpan) -> Result<Var, DiagData> {
    let inner = offset_span(span, 2i32, -2i32);
    let lo = inner.low.0 as int;
    let hi = inner.high.0 as int;
    let res = if lo <= hi && hi <= c.len() {
        spec_parse_var(c.subrange(lo, hi), span.low.0 + 2)
    } else {
        Err(VarError::EmptyName { offset: (span.low.0 + 2) as usize })
    };
    match res {
        Ok(v) => Ok(v),
        Err(e) => Err(error_data("failed to parse variable block"@, Some(e.spec_message()), span)),
    }
}

/// Parses the expression of an `if` or `elif` block whose inside is covered by `span`.
pub open spec fn sp_if_expr(c: Seq<u8>, span: ByteSpan) -> Result<IfExpr, DiagData> {
    let lo = span.low.0 as int;
    let content = span_bytes(c, lo, span.high.0 as int);
    let hat = starts_with(trim(content), seq![0x21u8]);
    match find(content, pat_open()) {
        None => Err(error_data(
            "expected a variable block"@,
            Some("add a variable block with `{{VARIABLE_NAME}}`"@),
            span,
        )),
        Some(st) => match find(content, pat_close()) {
            None => Err(error_data(
                "variable block not closed"@,
                Some("add `}}` to the close the open variable block"@),
                ByteSpan::spec_of(st, st + 2),
            )),
            Some(e0) => {
                let en = e0 + 2;
                let vspan = span_new(lo + st, lo + en);
                match sp_parse_variable(c, vspan) {
                    Err(d) => Err(d),
                    Ok(var) => {
                        let rem = content.subrange(en, content.len() as int);
                        if is_blank(rem) {
                            if hat {
                                Ok(IfExpr::NotExists { var })
                            } else {
                                Ok(IfExpr::Exists { var })
                            }
                        } else {
                            match spec_parse_ifop(rem) {
                                None => Err(error_data(
                                    "failed to find if operation"@,
                                    Some("add either `==` or `!=` after the variable block"@),
                                    vspan,
                                )),
                                Some(op) => match spec_parse_other(rem, lo + en) {
                                    None => Err(error_data(
                                        "failed to find right hand side of the if operation"@,
                                        Some("add a literal to compare againt with `\"LITERAL\"`"@),
                                        vspan,
                                    )),
                                    Some(other) => Ok(IfExpr::Compare { var, op, other }),
                                },
                            }
                        }
                    },
                }
            },
        },
    }
}

/// `{{@else}}`
pub open spec fn pat_else_block() -> Seq<u8> {
    seq![0x7bu8, 0x7b, 0x40, 0x65, 0x6c, 0x73, 0x65, 0x7d, 0x7d]
}

/// `{{@fi}}`
pub open spec fn pat_fi_block() -> Seq<u8> {
    seq![0x7bu8, 0x7b, 0x40, 0x66, 0x69, 0x7d, 0x7d]
}

/// Checks that the `else` block at `span` is exactly `{{@else}}`.
pub open spec fn sp_else_block(c: Seq<u8>, span: ByteSpan) -> Result<ByteSpan, DiagData> {
    if span_bytes(c, span.low.0 as int, span.high.0 as int) != pat_else_block() {
        Err((DiagnosticLevel::Error, "expected a `else` block"@, Some((seq![span], seq![])), None))
    } else {
        Ok(span)
    }
}

/// Checks that the `fi` block at `span` is exactly `{{@fi}}`.
pub open spec fn sp_fi_block(c: Seq<u8>, span: ByteSpan) -> Result<ByteSpan, DiagData> {
    if span_bytes(c, span.low.0 as int, span.high.0 as int) != pat_fi_block() {
        Err((DiagnosticLevel::Error, "expected a `fi` block"@, Some((seq![span], seq![])), None))
    } else {
        Ok(span)
    }
}

/// The blocks among results, in order.
pub open spec fn ok_blocks(rs: Seq<Result<BlockData, DiagData>>) -> Seq<BlockData>
    decreases rs.len(),
{
    if rs.len() == 0 {
        seq![]
    } else {
        (match rs[0] {
            Ok(b) => seq![b],
            Err(_) => seq![],
        }) + ok_blocks(rs.drop_first())
    }
}

/// The diagnostics among results, each with a label added, in order.
pub open spec fn labelled_errors(rs: Seq<Result<BlockData, DiagData>>, s: ByteSpan, label: Seq<char>) -> Seq<DiagData>
    decreases rs.len(),
{
    if rs.len() == 0 {
        seq![]
    } else {
        (match rs[0] {
            Ok(_) => seq![],
            Err(d) => seq![with_label(d, s, label)],
        }) + labelled_errors(rs.drop_first(), s, label)
    }
}

/// The message of the error for a missing `{{@fi}}`.
pub open spec fn msg_close_if() -> Option<Seq<char>> {
    Some("close the `if` block with `{{@fi}}`"@)
}

/// The label added to diagnostics inside an `if` block.
pub open spec fn label_if() -> Seq<char> {
    "while parsing this `if` block"@
}

/// The label added to the diagnostic of an unterminated `if` block.
pub open spec fn label_if_upper() -> Seq<char> {
    "While parsing this `if` block"@
}

#[verifier::opaque]
/// The result of a top-level block at index `i`: the block or a diagnostic, the
/// index after it and the diagnostics reported meanwhile.
pub open spec fn sp_top(c: Seq<u8>, i: int) -> Option<(Result<BlockData, DiagData>, int, Seq<DiagData>)>
    decreases c.len() - i, 0int,
{
    match spec_token_at(c, i) {
        None => None,
        Some((Err(d), j)) => Some((Err(d), j, seq![])),
        Some((Ok((span, hint)), j)) => Some(match hint {
            BlockHint::Text => (Ok(BlockData { span, kind: KindData::Text }), j, seq![]),
            BlockHint::Comment => (Ok(BlockData { span, kind: KindData::Comment }), j, seq![]),
            BlockHint::Escaped => (
                Ok(BlockData { span, kind: KindData::Escaped(offset_span(span, 3i32, -3i32)) }),
                j,
                seq![],
            ),
            BlockHint::Var => (
                match sp_parse_variable(c, span) {
                    Ok(v) => Ok(BlockData { span, kind: KindData::Var(v) }),
                    Err(d) => Err(d),
                },
                j,
                seq![],
            ),
            BlockHint::Print => (
                Ok(BlockData { span, kind: KindData::Print(offset_span(span, 9i32, -2i32)) }),
                j,
                seq![],
            ),
            BlockHint::IfStart => if i < j <= c.len() {
                let r = sp_if(c, j, span);
                (
                    match r.0 {
                        Ok((s, d)) => Ok(BlockData { span: s, kind: KindData::If(d) }),
                        Err(d) => Err(d),
                    },
                    r.1,
                    r.2,
                )
            } else {
                (Err(error_data(seq![], None, span)), j, seq![])
            },
            BlockHint::ElIf => (
                Err(error_data(
                    "top-level `elif` block"@,
                    Some("an `elif` block must always come after an `if` block"@),
                    span,
                )),
                j,
                seq![],
            ),
            BlockHint::Else => (
                Err(error_data(
                    "top-level `else` block"@,
                    Some("an `else` block must always come after an `if` or `elfi` block"@),
                    span,
                )),
                j,
                seq![],
            ),
            BlockHint::IfEnd => (
                Err(error_data(
                    "top-level `fi` block"@,
                    Some("an `fi` can only be used to close an open `if` block"@),
                    span,
                )),
                j,
                seq![],
            ),
        }),
    }
}

/// There is a top-level block at `i` exactly when there is a token at `i`.
pub proof fn lemma_top_some(c: Seq<u8>, i: int)
    ensures
        sp_top(c, i) is None <==> spec_token_at(c, i) is None,
{
    reveal(sp_top);
}

/// Whether the blocks enclosed in an if branch end at index `i`: at the end of the
/// source or before an `elif`, `else` or `fi`.
pub open spec fn enclosed_stop(c: Seq<u8>, i: int) -> bool {
    match spec_token_at(c, i) {
        None => true,
        Some((Ok((_, h)), _)) => h.spec_is_if_subblock(),
        Some((Err(_), _)) => false,
    }
}

/// The blocks enclosed in an if branch starting at index `i`.
pub open spec fn sp_enclosed(c: Seq<u8>, i: int) -> (Seq<Result<BlockData, DiagData>>, int, Seq<DiagData>)
    decreases c.len() - i, 1int,
{
    if enclosed_stop(c, i) {
        (seq![], i, seq![])
    } else {
        match sp_top(c, i) {
            Some((r, j, reps)) => if i < j <= c.len() {
                let rest = sp_enclosed(c, j);
                (seq![r] + rest.0, rest.1, reps + rest.2)
            } else {
                (seq![r], j, reps)
            },
            None => (seq![], i, seq![]),
        }
    }
}

/// One step of [`sp_enclosed`]: the block at `i` followed by the blocks after it.
pub proof fn lemma_enclosed_step(c: Seq<u8>, i: int)
    requires
        !enclosed_stop(c, i),
        sp_top(c, i) matches Some((_, j, _)) && i < j <= c.len(),
    ensures
        sp_enclosed(c, i) == ({
            let t = sp_top(c, i).unwrap();
            let rest = sp_enclosed(c, t.1);
            (seq![t.0] + rest.0, rest.1, t.2 + rest.2)
        }),
{
    reveal(sp_top);
}

/// [`sp_enclosed`] at a place where the branch ends, or where no block starts,
/// encloses nothing.
pub proof fn lemma_enclosed_none(c: Seq<u8>, i: int)
    requires
        enclosed_stop(c, i) || sp_top(c, i) is None,
    ensures
        sp_enclosed(c, i) == (Seq::<Result<BlockData, DiagData>>::empty(), i, Seq::<DiagData>::empty()),
{
    reveal(sp_top);
}

/// The last step of [`sp_enclosed`]: a block at `i` after which no further block follows.
pub proof fn lemma_enclosed_last(c: Seq<u8>, i: int)
    requires
        !enclosed_stop(c, i),
        sp_top(c, i) matches Some((_, j, _)) && !(i < j <= c.len()),
    ensures
        sp_enclosed(c, i) == ({
            let t = sp_top(c, i).unwrap();
            (seq![t.0], t.1, t.2)
        }),
{
    reveal(sp_top);
}

/// The rest of an if block after its head: the elif branches, the else branch and
/// the span of the closing `fi`.
pub type IfTail = (Seq<(ByteSpan, IfExpr, Seq<BlockData>)>, Option<(ByteSpan, Seq<BlockData>)>, ByteSpan);

/// Parses an if block whose head (`{{@if ...}}`) is at `span` and ends at index `i`.
pub open spec fn sp_if(c: Seq<u8>, i: int, span: ByteSpan) -> (Result<(ByteSpan, IfData), DiagData>, int, Seq<DiagData>)
    decreases c.len() - i, 4int,
{
    match sp_if_expr(c, offset_span(span, 6i32, -2i32)) {
        Err(d) => (Err(with_label(d, span, label_if())), i, seq![]),
        Ok(head) => {
            let nested = sp_enclosed(c, i);
            let reps_a = nested.2 + labelled_errors(nested.0, span, label_if());
            if i <= nested.1 <= c.len() {
                let tail = sp_after_branch(c, nested.1, span, span, 0);
                (
                    match tail.0 {
                        Ok((elifs, els, end)) => Ok((
                            ByteSpan {
                                low: if span.low.0 <= end.low.0 { span.low } else { end.low },
                                high: if span.high.0 >= end.high.0 { span.high } else { end.high },
                            },
                            IfData { head: (span, head, ok_blocks(nested.0)), elifs, els, end },
                        )),
                        Err(d) => Err(d),
                    },
                    tail.1,
                    reps_a + tail.2,
                )
            } else {
                (Err(error_data(seq![], None, span)), nested.1, reps_a)
            }
        },
    }
}

/// Reads the token at index `i` that follows the blocks of a branch. `kind` is 0
/// after the head, 1 after an elif and 2 after the else branch, whose opening
/// block is at `branch`.
pub open spec fn sp_after_branch(c: Seq<u8>, i: int, head: ByteSpan, branch: ByteSpan, kind: int) -> (Result<IfTail, DiagData>, int, Seq<DiagData>)
    decreases c.len() - i, 2int,
{
    match spec_token_at(c, i) {
        None => (
            Err(with_label(
                error_data(
                    if kind == 0 {
                        "unexpected end of `if` block"@
                    } else if kind == 1 {
                        "unexpected end of `elif` block"@
                    } else {
                        "unexpected end of `else` block"@
                    },
                    msg_close_if(),
                    branch,
                ),
                head,
                label_if_upper(),
            )),
            i,
            seq![],
        ),
        Some((Err(d), j)) => (Err(with_label(d, head, label_if())), j, seq![]),
        Some((Ok((s, h)), j)) => if i < j <= c.len() {
            if kind == 2 {
                (sp_fi(c, s, h, head), j, seq![])
            } else {
                sp_branches(c, j, s, h, head)
            }
        } else {
            (Err(error_data(seq![], None, s)), j, seq![])
        },
    }
}

/// Checks that the block at `s` with hint `h` closes the if block.
pub open spec fn sp_fi(c: Seq<u8>, s: ByteSpan, h: BlockHint, head: ByteSpan) -> Result<IfTail, DiagData> {
    if h is IfEnd {
        match sp_fi_block(c, s) {
            Ok(end) => Ok((seq![], None, end)),
            Err(d) => Err(with_label(d, head, label_if())),
        }
    } else {
        Err(with_label(error_data("unexpected end of `if` block"@, msg_close_if(), s), head, label_if_upper()))
    }
}

/// Parses the elif and else branches and the closing `fi` of an if block, starting
/// with the block at `s` with hint `h` that ends at index `i`.
pub open spec fn sp_branches(c: Seq<u8>, i: int, s: ByteSpan, h: BlockHint, head: ByteSpan) -> (Result<IfTail, DiagData>, int, Seq<DiagData>)
    decreases c.len() - i, 3int,
{
    if h is ElIf {
        match sp_if_expr(c, offset_span(s, 8i32, -2i32)) {
            Err(d) => (Err(with_label(d, head, label_if())), i, seq![]),
            Ok(e) => {
                let nested = sp_enclosed(c, i);
                let reps_a = nested.2 + labelled_errors(nested.0, s, "while parsing this `elif` block"@);
                if i <= nested.1 <= c.len() {
                    let rest = sp_after_branch(c, nested.1, head, s, 1);
                    (
                        match rest.0 {
                            Ok((elifs, els, end)) => Ok((seq![(s, e, ok_blocks(nested.0))] + elifs, els, end)),
                            Err(d) => Err(d),
                        },
                        rest.1,
                        reps_a + rest.2,
                    )
                } else {
                    (Err(error_data(seq![], None, s)), nested.1, reps_a)
                }
            },
        }
    } else if h is Else {
        match sp_else_block(c, s) {
            Err(d) => (Err(with_label(d, head, label_if())), i, seq![]),
            Ok(els) => {
                let nested = sp_enclosed(c, i);
                let reps_a = nested.2 + labelled_errors(nested.0, s, "while parsing this `else` block"@);
                if i <= nested.1 <= c.len() {
                    let rest = sp_after_branch(c, nested.1, head, s, 2);
                    (
                        match rest.0 {
                            Ok((_, _, end)) => Ok((seq![], Some((els, ok_blocks(nested.0))), end)),
                            Err(d) => Err(d),
                        },
                        rest.1,
                        reps_a + rest.2,
                    )
                } else {
                    (Err(error_data(seq![], None, s)), nested.1, reps_a)
                }
            },
        }
    } else {
        (sp_fi(c, s, h, head), i, seq![])
    }
}

/// All top-level blocks from index `i` on, and all diagnostics reported while
/// parsing them.
pub open spec fn sp_parse_from(c: Seq<u8>, i: int) -> (Seq<BlockData>, Seq<DiagData>)
    decreases c.len() - i,
{
    match sp_top(c, i) {
        None => (seq![], seq![]),
        Some((r, j, reps)) => if i < j <= c.len() {
            let rest = sp_parse_from(c, j);
            match r {
                Ok(b) => (seq![b] + rest.0, reps + rest.1),
                Err(d) => (rest.0, reps + seq![d] + rest.1),
            }
        } else {
            (seq![], reps)
        },
    }
}

/// How a session changed: the diagnostics `reps` were reported, and it failed if
/// it had failed before or one of them is an error.
pub open spec fn session_step(a: Session, b: Session, reps: Seq<DiagData>) -> bool {
    b.reported() == a.reported() + reps && b.is_failed() == (a.is_failed() || has_error(reps))
}

pub proof fn lemma_has_error_concat(a: Seq<DiagData>, b: Seq<DiagData>)
    ensures
        has_error(a + b) == (has_error(a) || has_error(b)),
{
    if has_error(a + b) {
        let i = choose|i: int| 0 <= i < (a + b).len() && (a + b)[i].0 is Error;
        if i < a.len() {
            assert(a[i] == (a + b)[i]);
        } else {
            assert(b[i - a.len()] == (a + b)[i]);
        }
    }
    if has_error(a) {
        let i = choose|i: int| 0 <= i < a.len() && a[i].0 is Error;
        assert((a + b)[i] == a[i]);
    }
    if has_error(b) {
        let i = choose|i: int| 0 <= i < b.len() && b[i].0 is Error;
        assert((a + b)[a.len() + i] == b[i]);
    }
}

pub proof fn lemma_session_step_trans(a: Session, b: Session, c: Session, r1: Seq<DiagData>, r2: Seq<DiagData>)
    requires
        session_step(a, b, r1),
        session_step(b, c, r2),
    ensures
        session_step(a, c, r1 + r2),
{
    lemma_has_error_concat(r1, r2);
    assert(a.reported() + r1 + r2 =~= a.reported() + (r1 + r2));
}

pub proof fn lemma_session_step_refl(a: Session)
    ensures
        session_step(a, a, seq![]),
{
    assert(a.reported() + seq![] =~= a.reported());
}

/// The mathematical content of a parsed block or its diagnostic.
pub open spec fn res_block_data(r: Result<Block, DiagnosticBuilder>) -> Result<BlockData, DiagData> {
    match r {
        Ok(b) => Ok(block_data(b)),
        Err(d) => Err(d.data()),
    }
}

/// The mathematical content of a list of parsed blocks and diagnostics.
pub open spec fn results_data(v: Seq<Result<Block, DiagnosticBuilder>>) -> Seq<Result<BlockData, DiagData>> {
    v.map_values(|r: Result<Block, DiagnosticBuilder>| res_block_data(r))
}

/// The mathematical content of a parsed if block or its diagnostic.
pub open spec fn res_if_data(r: Result<Spanned<If>, DiagnosticBuilder>) -> Result<(ByteSpan, IfData), DiagData> {
    match r {
        Ok(s) => Ok((s.span, crate::block::if_data(s.value))),
        Err(d) => Err(d.data()),
    }
}

/// The branches after the head of an if block, as parsed.
pub type TailExec = (Vec<(Spanned<IfExpr>, Vec<Block>)>, Option<(ByteSpan, Vec<Block>)>, ByteSpan);

/// The mathematical content of parsed branches or their diagnostic.
pub open spec fn res_tail_data(r: Result<TailExec, DiagnosticBuilder>) -> Result<IfTail, DiagData> {
    match r {
        Ok(t) => Ok((
            crate::block::elifs_data(t.0@),
            match t.1 {
                Some(e) => Some((e.0, blocks_data(e.1@))),
                None => None,
            },
            t.2,
        )),
        Err(d) => Err(d.data()),
    }
}

/// The mathematical content of a parsed expression or its diagnostic.
pub open spec fn res_expr_data(r: Result<IfExpr, DiagnosticBuilder>) -> Result<IfExpr, DiagData> {
    match r {
        Ok(e) => Ok(e),
        Err(d) => Err(d.data()),
    }
}

/// Bounds on a token: its span runs from `i` to the index after it.
pub proof fn lemma_token_bounds(c: Seq<u8>, i: int)
    requires
        0 <= i <= c.len(),
        c.len() <= u32::MAX,
    ensures
        spec_token_at(c, i) matches Some((t, j)) ==> i < j <= c.len() && match t {
            Ok((span, _)) => span.low.0 == i && span.high.0 == j,
            Err(_) => true,
        },
        spec_token_at(c, i) is None <==> i == c.len(),
{
    crate::tokens::spec_next_block_bounds(c.subrange(i, c.len() as int));
}

/// The longest source the parser takes: positions, moved by the small offsets of
/// the block syntax, must stay within `i32`.
pub open spec fn max_source_len() -> int {
    0x7fff_0000
}

/// The parser which converts a source into the blocks of a template.
pub struct Parser<'a> {
    /// The source which is parsed.
    source: Source<'a>,
    /// The session where diagnostics are recorded.
    session: Session,
    /// The blocks of the source.
    blocks: BlockIter<'a>,
}

impl<'a> Parser<'a> {
    /// The bytes being parsed.
    pub closed spec fn content(&self) -> Seq<u8> {
        self.source.spec_bytes()
    }

    /// The index of the next block.
    pub closed spec fn index(&self) -> int {
        self.blocks.index as int
    }

    /// The session of the parser.
    pub closed spec fn session(&self) -> Session {
        self.session
    }

    /// The source of the parser.
    pub closed spec fn source(&self) -> Source<'a> {
        self.source
    }

    /// The parser reads its own source and its index lies within it.
    pub closed spec fn wf(&self) -> bool {
        &&& self.blocks.content@ == self.source.spec_bytes()
        &&& self.blocks.index <= self.blocks.content@.len()
        &&& self.blocks.content@.len() <= max_source_len()
    }

    /// Creates a new parser for `source`.
    pub fn new(source: Source<'a>) -> (r: Self)
        requires
            source.spec_bytes().len() <= max_source_len(),
        ensures
            r.wf(),
            r.source() == source,
            r.content() == source.spec_bytes(),
            r.index() == 0,
            !r.session().is_failed(),
            r.session().reported() == Seq::<DiagData>::empty(),
    {
        let bytes = source.bytes();
        let blocks = BlockIter::new(bytes);
        Parser { source, session: Session::new(), blocks }
    }

    /// Adds a diagnostic to the session, marking it failed if it is an error.
    fn report_diagnostic(&mut self, diagnostic: Diagnostic)
        ensures
            final(self).source == old(self).source,
            final(self).blocks == old(self).blocks,
            session_step(old(self).session, final(self).session, seq![diagnostic.data()]),
    {
        let ghost d = diagnostic.data();
        if matches!(diagnostic.level(), DiagnosticLevel::Error) {
            self.session.mark_failed();
        }
        self.session.report(diagnostic);
        proof {
            assert(old(self).session.reported() + seq![d] =~= old(self).session.reported().push(d));
            assert(has_error(seq![d]) == (d.0 is Error)) by {
                if d.0 is Error {
                    assert(seq![d][0] == d);
                }
            }
        }
    }

    /// Parses the variable block at `span`.
    fn parse_variable(&self, span: ByteSpan) -> (r: Result<Var, DiagnosticBuilder>)
        requires
            self.wf(),
            span.low.0 <= self.content().len(),
            span.high.0 <= self.content().len(),
        ensures
            match r {
                Ok(v) => sp_parse_variable(self.content(), span) == Ok::<Var, DiagData>(v),
                Err(d) => sp_parse_variable(self.content(), span) == Err::<Var, DiagData>(d.data()),
            },
    {
        let c = self.blocks.content;
        let inner = span.offset_low(2).offset_high(-2);
        let lo = inner.low.0 as usize;
        let hi = inner.high.0 as usize;
        let offset = span.low.0 as usize + 2;
        let res = if lo <= hi && hi <= c.len() {
            parse_var(&c[lo..hi], offset)
        } else {
            Err(VarError::EmptyName { offset })
        };
        match res {
            Ok(v) => Ok(v),
            Err(e) => {
                let msg = e.message();
                Err(DiagnosticBuilder::new(DiagnosticLevel::Error)
                    .message("failed to parse variable block")
                    .description(msg.as_str())
                    .primary_span(span))
            },
        }
    }

    /// Parses the expression of an `if` or `elif` block whose inside is at `span`.
    fn parse_if_expr(&self, span: ByteSpan) -> (r: Result<IfExpr, DiagnosticBuilder>)
        requires
            self.wf(),
        ensures
            res_expr_data(r) == sp_if_expr(self.content(), span),
    {
        let c = self.blocks.content;
        let lo = span.low.0 as usize;
        let hi = span.high.0 as usize;
        let content: &[u8] = if lo <= hi && hi <= c.len() { &c[lo..hi] } else { &c[0..0] };
        assert(content@ == span_bytes(c@, lo as int, hi as int));
        let a = skip_ws_exec(content, 0);
        let t0 = &content[a..content.len()];
        let e = skip_ws_back_exec(t0, t0.len());
        let hat = e > 0 && t0[0] == 0x21;
        proof {
            assert(t0@ == content@.subrange(skip_ws(content@, 0), content@.len() as int));
            let tr = trim(content@);
            assert(tr == t0@.subrange(0, e as int));
            if e > 0 {
                assert(tr[0] == t0@[0]);
                if starts_with(tr, seq![0x21u8]) {
                    assert(tr.subrange(0, 1)[0] == tr[0]);
                }
            }
            if hat {
                assert(tr.subrange(0, 1) =~= seq![0x21u8]);
            }
        }
        assert(hat == starts_with(trim(content@), seq![0x21u8]));
        let open: [u8; 2] = [0x7b, 0x7b];
        let close: [u8; 2] = [0x7d, 0x7d];
        assert(open@ =~= pat_open());
        assert(close@ =~= pat_close());
        match find_bytes(content, 0, &open) {
            None => Err(DiagnosticBuilder::new(DiagnosticLevel::Error)
                .message("expected a variable block")
                .description("add a variable block with `{{VARIABLE_NAME}}`")
                .primary_span(span)),
            Some(st) => {
                proof { lemma_find_from_bounds(content@, pat_open(), 0); }
                match find_bytes(content, 0, &close) {
                    None => Err(DiagnosticBuilder::new(DiagnosticLevel::Error)
                        .message("variable block not closed")
                        .description("add `}}` to the close the open variable block")
                        .primary_span(ByteSpan::new(st, st + 2))),
                    Some(e0) => {
                        proof { lemma_find_from_bounds(content@, pat_close(), 0); }
                        let en = e0 + 2;
                        let vspan = ByteSpan::new(lo + st, lo + en);
                        let var = match self.parse_variable(vspan) {
                            Ok(v) => v,
                            Err(b) => {
                                return Err(b);
                            },
                        };
                        let rem = &content[en..content.len()];
                        if is_blank_exec(rem) {
                            if hat {
                                Ok(IfExpr::NotExists { var })
                            } else {
                                Ok(IfExpr::Exists { var })
                            }
                        } else {
                            match parse_ifop(rem) {
                                None => Err(DiagnosticBuilder::new(DiagnosticLevel::Error)
                                    .message("failed to find if operation")
                                    .description("add either `==` or `!=` after the variable block")
                                    .primary_span(vspan)),
                                Some(op) => match parse_other(rem, lo + en) {
                                    None => Err(DiagnosticBuilder::new(DiagnosticLevel::Error)
                                        .message("failed to find right hand side of the if operation")
                                        .description("add a literal to compare againt with `\"LITERAL\"`")
                                        .primary_span(vspan)),
                                    Some(other) => Ok(IfExpr::Compare { var, op, other }),
                                },
                            }
                        }
                    },
                }
            },
        }
    }

    /// Checks that the block at `span` is `{{@else}}`.
    fn parse_else(&self, span: ByteSpan) -> (r: Result<ByteSpan, DiagnosticBuilder>)
        requires
            self.wf(),
        ensures
            match r {
                Ok(s) => sp_else_block(self.content(), span) == Ok::<ByteSpan, DiagData>(s),
                Err(d) => sp_else_block(self.content(), span) == Err::<ByteSpan, DiagData>(d.data()),
            },
    {
        let c = self.blocks.content;
        let lo = span.low.0 as usize;
        let hi = span.high.0 as usize;
        let content: &[u8] = if lo <= hi && hi <= c.len() { &c[lo..hi] } else { &c[0..0] };
        let pat: [u8; 9] = [0x7b, 0x7b, 0x40, 0x65, 0x6c, 0x73, 0x65, 0x7d, 0x7d];
        assert(pat@ =~= pat_else_block());
        if !bytes_eq(content, &pat) {
            Err(DiagnosticBuilder::new(DiagnosticLevel::Error).message("expected a `else` block").primary_span(span))
        } else {
            Ok(span)
        }
    }

    /// Checks that the block at `span` is `{{@fi}}`.
    fn parse_if_end(&self, span: ByteSpan) -> (r: Result<ByteSpan, DiagnosticBuilder>)
        requires
            self.wf(),
        ensures
            match r {
                Ok(s) => sp_fi_block(self.content(), span) == Ok::<ByteSpan, DiagData>(s),
                Err(d) => sp_fi_block(self.content(), span) == Err::<ByteSpan, DiagData>(d.data()),
            },
    {
        let c = self.blocks.content;
        let lo = span.low.0 as usize;
        let hi = span.high.0 as usize;
        let content: &[u8] = if lo <= hi && hi <= c.len() { &c[lo..hi] } else { &c[0..0] };
        let pat: [u8; 7] = [0x7b, 0x7b, 0x40, 0x66, 0x69, 0x7d, 0x7d];
        assert(pat@ =~= pat_fi_block());
        if !bytes_eq(content, &pat) {
            Err(DiagnosticBuilder::new(DiagnosticLevel::Error).message("expected a `fi` block").primary_span(span))
        } else {
            Ok(span)
        }
    }

    /// Peeks at the hint of the next block without moving the parser.
    fn peek_block_hint(&self) -> (r: Option<BlockHint>)
        requires
            self.wf(),
        ensures
            r == match spec_token_at(self.content(), self.index()) {
                Some((Ok((_, h)), _)) => Some(h),
                _ => None::<BlockHint>,
            },
    {
        let mut peek = self.blocks;
        match peek.next() {
            Some(Ok(s)) => Some(s.value),
            _ => None,
        }
    }

    /// Tries to parse the next top-level block: a block that can stand on its
    /// own, without another block before it.
    fn next_top_level_block(&mut self) -> (r: Option<Result<Block, DiagnosticBuilder>>)
        requires
            old(self).wf(),
        ensures
            final(self).wf(),
            final(self).source == old(self).source,
            match sp_top(old(self).content(), old(self).index()) {
                None => r is None && final(self).index() == old(self).index() && final(self).session == old(self).session,
                Some((rr, j, reps)) => r matches Some(x) && res_block_data(x) == rr && final(self).index() == j
                    && old(self).index() < j && session_step(old(self).session, final(self).session, reps),
            },
        decreases old(self).content().len() - old(self).index(), 0int,
    {
        let ghost c = self.content();
        let ghost i = self.index();
        proof {
            lemma_token_bounds(c, i);
            reveal(sp_top);
        }
        let tok = self.blocks.next();
        let (span, hint) = match tok {
            None => {
                return None;
            },
            Some(Err(b)) => {
                proof { lemma_session_step_refl(self.session); }
                return Some(Err(b));
            },
            Some(Ok(x)) => (x.span, x.value),
        };
        proof { lemma_session_step_refl(self.session); }
        let block = match hint {
            BlockHint::Text => Ok(Block::new(span, BlockKind::Text)),
            BlockHint::Comment => Ok(Block::new(span, BlockKind::Comment)),
            BlockHint::Escaped => Ok(Block::new(span, BlockKind::Escaped(span.offset_low(3).offset_high(-3)))),
            BlockHint::Var => match self.parse_variable(span) {
                Ok(var) => Ok(Block::new(span, BlockKind::Var(var))),
                Err(b) => Err(b),
            },
            BlockHint::Print => Ok(Block::new(span, BlockKind::Print(span.offset_low(9).offset_high(-2)))),
            BlockHint::IfStart => match self.parse_if(span) {
                Ok(sp) => Ok(Block::new(sp.span, BlockKind::If(sp.value))),
                Err(b) => Err(b),
            },
            BlockHint::ElIf => Err(DiagnosticBuilder::new(DiagnosticLevel::Error)
                .message("top-level `elif` block")
                .description("an `elif` block must always come after an `if` block")
                .primary_span(span)),
            BlockHint::Else => Err(DiagnosticBuilder::new(DiagnosticLevel::Error)
                .message("top-level `else` block")
                .description("an `else` block must always come after an `if` or `elfi` block")
                .primary_span(span)),
            BlockHint::IfEnd => Err(DiagnosticBuilder::new(DiagnosticLevel::Error)
                .message("top-level `fi` block")
                .description("an `fi` can only be used to close an open `if` block")
                .primary_span(span)),
        };
        Some(block)
    }

    /// Parses all blocks up to the next `elif`, `else` or `fi` block, or up to the
    /// end of the source. The next block the parser reads is the one it stopped at.
    fn parse_if_enclosed_blocks(&mut self) -> (r: Vec<Result<Block, DiagnosticBuilder>>)
        requires
            old(self).wf(),
        ensures
            final(self).wf(),
            final(self).source == old(self).source,
            results_data(r@) == sp_enclosed(old(self).content(), old(self).index()).0,
            final(self).index() == sp_enclosed(old(self).content(), old(self).index()).1,
            old(self).index() <= final(self).index(),
            session_step(old(self).session, final(self).session, sp_enclosed(old(self).content(), old(self).index()).2),
        decreases old(self).content().len() - old(self).index(), 1int,
    {
        let ghost c = self.content();
        let ghost i0 = self.index();
        let ghost s0 = self.session;
        let ghost mut done: Seq<DiagData> = seq![];
        let mut enclosed: Vec<Result<Block, DiagnosticBuilder>> = Vec::new();
        proof {
            lemma_session_step_refl(s0);
            assert(results_data(enclosed@) + sp_enclosed(c, i0).0 =~= sp_enclosed(c, i0).0);
            assert(done + sp_enclosed(c, i0).2 =~= sp_enclosed(c, i0).2);
        }
        loop
            invariant
                self.wf(),
                self.source == old(self).source,
                self.content() == c,
                i0 <= self.index() <= c.len(),
                c.len() == old(self).content().len(),
                i0 == old(self).index(),
                c == old(self).content(),
                s0 == old(self).session,
                results_data(enclosed@) + sp_enclosed(c, self.index()).0 == sp_enclosed(c, i0).0,
                sp_enclosed(c, self.index()).1 == sp_enclosed(c, i0).1,
                session_step(s0, self.session, done),
                done + sp_enclosed(c, self.index()).2 == sp_enclosed(c, i0).2,
            decreases c.len() - self.index(),
        {
            let ghost i = self.index();
            proof { lemma_token_bounds(c, i); }
            let stop = if self.blocks.index >= self.blocks.content.len() {
                true
            } else {
                match self.peek_block_hint() {
                    Some(h) => h.is_if_subblock(),
                    None => false,
                }
            };
            if stop {
                proof {
                    assert(sp_enclosed(c, i).0 =~= seq![]);
                    assert(results_data(enclosed@) =~= results_data(enclosed@) + sp_enclosed(c, i).0);
                    assert(done =~= done + sp_enclosed(c, i).2);
                }
                return enclosed;
            }
            let ghost before = self.session;
            proof {
                lemma_top_some(c, i);
                assert(!enclosed_stop(c, i));
            }
            let next = self.next_top_level_block();
            match next {
                Some(b) => {
                    let ghost top = sp_top(c, i).unwrap();
                    let ghost rest = sp_enclosed(c, self.index());
                    proof {
                        lemma_enclosed_step(c, i);
                        lemma_session_step_trans(s0, before, self.session, done, top.2);
                        assert(results_data(enclosed@.push(b)) =~= results_data(enclosed@).push(top.0));
                        assert(results_data(enclosed@).push(top.0) + rest.0 =~= results_data(enclosed@) + (seq![top.0] + rest.0));
                        assert(done + top.2 + rest.2 =~= done + (top.2 + rest.2));
                        done = done + top.2;
                    }
                    enclosed.push(b);
                },
                None => {
                    proof {
                        assert(false);
                    }
                    return enclosed;
                },
            }
        }
    }

    /// Keeps the blocks among `results` and reports each diagnostic among them,
    /// labelled with `span` and `label`.
    fn collect_blocks(&mut self, results: Vec<Result<Block, DiagnosticBuilder>>, span: ByteSpan, label: &str) -> (r: Vec<Block>)
        ensures
            final(self).source == old(self).source,
            final(self).blocks == old(self).blocks,
            blocks_data(r@) == ok_blocks(results_data(results@)),
            session_step(old(self).session, final(self).session, labelled_errors(results_data(results@), span, label@)),
    {
        let ghost all = results_data(results@);
        let ghost s0 = self.session;
        let ghost mut done: Seq<DiagData> = seq![];
        let mut rest = results;
        let mut kept: Vec<Block> = Vec::new();
        proof {
            lemma_session_step_refl(s0);
            assert(blocks_data(kept@) + ok_blocks(all) =~= ok_blocks(all));
            assert(done + labelled_errors(all, span, label@) =~= labelled_errors(all, span, label@));
        }
        while rest.len() > 0
            invariant
                self.source == old(self).source,
                self.blocks == old(self).blocks,
                blocks_data(kept@) + ok_blocks(results_data(rest@)) == ok_blocks(all),
                session_step(s0, self.session, done),
                done + labelled_errors(results_data(rest@), span, label@) == labelled_errors(all, span, label@),
            decreases rest.len(),
        {
            let ghost rs = results_data(rest@);
            let x = rest.remove(0);
            proof {
                assert(results_data(rest@) =~= rs.drop_first());
                assert(rs[0] == res_block_data(x));
            }
            let ghost before = self.session;
            match x {
                Ok(b) => {
                    proof {
                        lemma_blocks_data_push(kept@, b);
                        assert(blocks_data(kept@).push(block_data(b)) + ok_blocks(rs.drop_first())
                            =~= blocks_data(kept@) + (seq![block_data(b)] + ok_blocks(rs.drop_first())));
                        assert(done + labelled_errors(rs.drop_first(), span, label@)
                            =~= done + (seq![] + labelled_errors(rs.drop_first(), span, label@)));
                    }
                    kept.push(b);
                },
                Err(d) => {
                    let diag = d.label_span(span, label).build();
                    let ghost dd = diag.data();
                    self.report_diagnostic(diag);
                    proof {
                        lemma_session_step_trans(s0, before, self.session, done, seq![dd]);
                        assert(blocks_data(kept@) + (seq![] + ok_blocks(rs.drop_first()))
                            =~= blocks_data(kept@) + ok_blocks(rs.drop_first()));
                        assert(done + seq![dd] + labelled_errors(rs.drop_first(), span, label@)
                            =~= done + (seq![dd] + labelled_errors(rs.drop_first(), span, label@)));
                        done = done + seq![dd];
                    }
                },
            }
        }
        proof {
            assert(results_data(rest@) =~= seq![]);
            assert(blocks_data(kept@) =~= blocks_data(kept@) + ok_blocks(seq![]));
            assert(done =~= done + labelled_errors(seq![], span, label@));
        }
        kept
    }

    /// Parses an if block whose head block is at `span`, together with all blocks
    /// it encloses, up to and including its closing `fi` block.
    fn parse_if(&mut self, span: ByteSpan) -> (r: Result<Spanned<If>, DiagnosticBuilder>)
        requires
            old(self).wf(),
            span.low.0 <= old(self).content().len(),
            span.high.0 <= old(self).content().len(),
        ensures
            final(self).wf(),
            final(self).source == old(self).source,
            res_if_data(r) == sp_if(old(self).content(), old(self).index(), span).0,
            final(self).index() == sp_if(old(self).content(), old(self).index(), span).1,
            old(self).index() <= final(self).index(),
            session_step(old(self).session, final(self).session, sp_if(old(self).content(), old(self).index(), span).2),
        decreases old(self).content().len() - old(self).index(), 4int,
    {
        let ghost c = self.content();
        let ghost i = self.index();
        let ghost s0 = self.session;
        proof { lemma_session_step_refl(s0); }
        let head = match self.parse_if_expr(span.offset_low(6).offset_high(-2)) {
            Ok(e) => e,
            Err(b) => {
                return Err(b.label_span(span, "while parsing this `if` block"));
            },
        };
        let ghost nested_spec = sp_enclosed(c, i);
        let nested = self.parse_if_enclosed_blocks();
        let ghost s1 = self.session;
        let head_nested = self.collect_blocks(nested, span, "while parsing this `if` block");
        let ghost s2 = self.session;
        let ghost tail_spec = sp_after_branch(c, self.index(), span, span, 0);
        let tail = self.after_branch(span, span, 0);
        proof {
            lemma_session_step_trans(s0, s1, s2, nested_spec.2, labelled_errors(nested_spec.0, span, label_if()));
            lemma_session_step_trans(s0, s2, self.session,
                nested_spec.2 + labelled_errors(nested_spec.0, span, label_if()), tail_spec.2);
        }
        match tail {
            Ok((elifs, els, end)) => {
                let whole = span.union(&end);
                Ok(Spanned::new(whole, If { head: (Spanned::new(span, head), head_nested), elifs, els, end }))
            },
            Err(d) => Err(d),
        }
    }

    /// Reads the block that follows the blocks of a branch of an if block: the
    /// next branch or the closing `fi`. `kind` is 0 after the head, 1 after an
    /// `elif` and 2 after the `else` branch; the branch's own block is at `branch`.
    fn after_branch(&mut self, head: ByteSpan, branch: ByteSpan, kind: u8) -> (r: Result<TailExec, DiagnosticBuilder>)
        requires
            old(self).wf(),
            kind <= 2,
        ensures
            final(self).wf(),
            final(self).source == old(self).source,
            res_tail_data(r) == sp_after_branch(old(self).content(), old(self).index(), head, branch, kind as int).0,
            final(self).index() == sp_after_branch(old(self).content(), old(self).index(), head, branch, kind as int).1,
            old(self).index() <= final(self).index(),
            session_step(old(self).session, final(self).session,
                sp_after_branch(old(self).content(), old(self).index(), head, branch, kind as int).2),
        decreases old(self).content().len() - old(self).index(), 2int,
    {
        let ghost c = self.content();
        let ghost i = self.index();
        proof {
            lemma_token_bounds(c, i);
            lemma_session_step_refl(self.session);
        }
        match self.blocks.next() {
            None => {
                let msg = if kind == 0 {
                    "unexpected end of `if` block"
                } else if kind == 1 {
                    "unexpected end of `elif` block"
                } else {
                    "unexpected end of `else` block"
                };
                Err(DiagnosticBuilder::new(DiagnosticLevel::Error)
                    .message(msg)
                    .description("close the `if` block with `{{@fi}}`")
                    .primary_span(branch)
                    .label_span(head, "While parsing this `if` block"))
            },
            Some(Err(b)) => Err(b.label_span(head, "while parsing this `if` block")),
            Some(Ok(x)) => {
                if kind == 2 {
                    self.parse_fi(x.span, x.value, head)
                } else {
                    self.parse_branches(x.span, x.value, head)
                }
            },
        }
    }

    /// Checks that the block at `s` with hint `h` is the `fi` block that closes
    /// the if block whose head is at `head`.
    fn parse_fi(&self, s: ByteSpan, h: BlockHint, head: ByteSpan) -> (r: Result<TailExec, DiagnosticBuilder>)
        requires
            self.wf(),
        ensures
            res_tail_data(r) == sp_fi(self.content(), s, h, head),
    {
        if matches!(h, BlockHint::IfEnd) {
            match self.parse_if_end(s) {
                Ok(end) => {
                    let elifs: Vec<(Spanned<IfExpr>, Vec<Block>)> = Vec::new();
                    proof { assert(crate::block::elifs_data(elifs@) =~= seq![]); }
                    Ok((elifs, None, end))
                },
                Err(b) => Err(b.label_span(head, "while parsing this `if` block")),
            }
        } else {
            Err(DiagnosticBuilder::new(DiagnosticLevel::Error)
                .message("unexpected end of `if` block")
                .description("close the `if` block with `{{@fi}}`")
                .primary_span(s)
                .label_span(head, "While parsing this `if` block"))
        }
    }

    /// Parses the `elif` and `else` branches and the closing `fi` of an if block
    /// whose head is at `head`, starting with the block at `s` with hint `h`.
    fn parse_branches(&mut self, s: ByteSpan, h: BlockHint, head: ByteSpan) -> (r: Result<TailExec, DiagnosticBuilder>)
        requires
            old(self).wf(),
            s.low.0 <= old(self).content().len(),
            s.high.0 <= old(self).content().len(),
        ensures
            final(self).wf(),
            final(self).source == old(self).source,
            res_tail_data(r) == sp_branches(old(self).content(), old(self).index(), s, h, head).0,
            final(self).index() == sp_branches(old(self).content(), old(self).index(), s, h, head).1,
            old(self).index() <= final(self).index(),
            session_step(old(self).session, final(self).session, sp_branches(old(self).content(), old(self).index(), s, h, head).2),
        decreases old(self).content().len() - old(self).index(), 3int,
    {
        let ghost c = self.content();
        let ghost i = self.index();
        let ghost s0 = self.session;
        proof { lemma_session_step_refl(s0); }
        match h {
            BlockHint::ElIf => {
                let e = match self.parse_if_expr(s.offset_low(8).offset_high(-2)) {
                    Ok(e) => e,
                    Err(b) => {
                        return Err(b.label_span(head, "while parsing this `if` block"));
                    },
                };
                let ghost nested_spec = sp_enclosed(c, i);
                let nested = self.parse_if_enclosed_blocks();
                let ghost s1 = self.session;
                let blocks = self.collect_blocks(nested, s, "while parsing this `elif` block");
                let ghost s2 = self.session;
                let ghost rest_spec = sp_after_branch(c, self.index(), head, s, 1);
                let rest = self.after_branch(head, s, 1);
                proof {
                    let lab = labelled_errors(nested_spec.0, s, "while parsing this `elif` block"@);
                    lemma_session_step_trans(s0, s1, s2, nested_spec.2, lab);
                    lemma_session_step_trans(s0, s2, self.session, nested_spec.2 + lab, rest_spec.2);
                }
                match rest {
                    Ok((elifs, els, end)) => {
                        let ghost old_elifs = elifs@;
                        let mut elifs = elifs;
                        let first = (Spanned::new(s, e), blocks);
                        proof { crate::block::lemma_elifs_data_prepend(first, old_elifs); }
                        elifs.insert(0, first);
                        proof { assert(elifs@ =~= seq![first] + old_elifs); }
                        Ok((elifs, els, end))
                    },
                    Err(d) => Err(d),
                }
            },
            BlockHint::Else => {
                let els = match self.parse_else(s) {
                    Ok(els) => els,
                    Err(b) => {
                        return Err(b.label_span(head, "while parsing this `if` block"));
                    },
                };
                let ghost nested_spec = sp_enclosed(c, i);
                let nested = self.parse_if_enclosed_blocks();
                let ghost s1 = self.session;
                let blocks = self.collect_blocks(nested, s, "while parsing this `else` block");
                let ghost s2 = self.session;
                let ghost rest_spec = sp_after_branch(c, self.index(), head, s, 2);
                let rest = self.after_branch(head, s, 2);
                proof {
                    let lab = labelled_errors(nested_spec.0, s, "while parsing this `else` block"@);
                    lemma_session_step_trans(s0, s1, s2, nested_spec.2, lab);
                    lemma_session_step_trans(s0, s2, self.session, nested_spec.2 + lab, rest_spec.2);
                }
                match rest {
                    Ok((_, _, end)) => {
                        let elifs: Vec<(Spanned<IfExpr>, Vec<Block>)> = Vec::new();
                        proof { assert(crate::block::elifs_data(elifs@) =~= seq![]); }
                        Ok((elifs, Some((els, blocks)), end))
                    },
                    Err(d) => Err(d),
                }
            },
            _ => self.parse_fi(s, h, head),
        }
    }

    /// Consumes the parser and parses all blocks of its source from where it
    /// stands, a place where a block may start (as after [`Parser::new`]).
    /// Gives the template, unless an error was found, and all diagnostics reported.
    pub fn parse(self) -> (r: (Option<Template<'a>>, Vec<Diagnostic>))
        requires
            self.wf(),
            crate::cuts::cut_at(self.content(), self.index()),
        ensures
            diags_data(r.1@) == self.session().reported() + sp_parse_from(self.content(), self.index()).1,
            r.0 is Some <==> !(self.session().is_failed() || has_error(sp_parse_from(self.content(), self.index()).1)),
            r.0 matches Some(t) ==> t.spec_source() == self.source() && t.blocks_data() == sp_parse_from(self.content(), self.index()).0,
    {
        let ghost c = self.content();
        let ghost i0 = self.index();
        let ghost s0 = self.session;
        let ghost mut done: Seq<DiagData> = seq![];
        let mut parser = self;
        let mut blocks: Vec<Block> = Vec::new();
        proof {
            lemma_session_step_refl(s0);
            assert(blocks_data(blocks@) + sp_parse_from(c, i0).0 =~= sp_parse_from(c, i0).0);
            assert(done + sp_parse_from(c, i0).1 =~= sp_parse_from(c, i0).1);
        }
        loop
            invariant
                parser.wf(),
                parser.source == self.source,
                parser.content() == c,
                blocks_data(blocks@) + sp_parse_from(c, parser.index()).0 == sp_parse_from(c, i0).0,
                session_step(s0, parser.session, done),
                done + sp_parse_from(c, parser.index()).1 == sp_parse_from(c, i0).1,
            ensures
                parser.wf(),
                parser.source == self.source,
                blocks_data(blocks@) == sp_parse_from(c, i0).0,
                session_step(s0, parser.session, sp_parse_from(c, i0).1),
            decreases c.len() - parser.index(),
        {
            let ghost i = parser.index();
            let ghost before = parser.session;
            let next = parser.next_top_level_block();
            match next {
                None => {
                    proof {
                        assert(blocks_data(blocks@) =~= blocks_data(blocks@) + sp_parse_from(c, i).0);
                        assert(done =~= done + sp_parse_from(c, i).1);
                        assert(done == sp_parse_from(c, i0).1);
                    }
                    break;
                },
                Some(Ok(b)) => {
                    let ghost top = sp_top(c, i).unwrap();
                    let ghost rest = sp_parse_from(c, parser.index());
                    proof {
                        lemma_blocks_data_push(blocks@, b);
                        assert(sp_parse_from(c, i) == (seq![block_data(b)] + rest.0, top.2 + rest.1));
                        lemma_session_step_trans(s0, before, parser.session, done, top.2);
                        assert(blocks_data(blocks@).push(block_data(b)) + rest.0
                            =~= blocks_data(blocks@) + (seq![block_data(b)] + rest.0));
                        assert(done + top.2 + rest.1 =~= done + (top.2 + rest.1));
                        done = done + top.2;
                    }
                    blocks.push(b);
                },
                Some(Err(d)) => {
                    let ghost top = sp_top(c, i).unwrap();
                    let ghost rest = sp_parse_from(c, parser.index());
                    let diag = d.build();
                    let ghost dd = diag.data();
                    let ghost mid = parser.session;
                    parser.report_diagnostic(diag);
                    proof {
                        assert(sp_parse_from(c, i) == (rest.0, top.2 + seq![dd] + rest.1));
                        lemma_session_step_trans(s0, before, mid, done, top.2);
                        lemma_session_step_trans(s0, mid, parser.session, done + top.2, seq![dd]);
                        assert(done + top.2 + seq![dd] + rest.1 =~= done + (top.2 + seq![dd] + rest.1));
                        done = done + top.2 + seq![dd];
                    }
                },
            }
        }
        let source = parser.source;
        proof {
            crate::cuts::lemma_parse_cut(c, i0);
        }
        let finished = parser.session.try_finish();
        match finished {
            Ok(ds) => (Some(Template::from_parts(source, blocks)), ds),
            Err(ds) => (None, ds),
        }
    }
}

} // verus!
