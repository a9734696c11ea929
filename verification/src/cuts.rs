//! Why resolving a template gives valid text: every piece of the template that
//! goes to the output starts and ends next to an ASCII byte, so it is cut at
//! character boundaries of the UTF-8 source.
use vstd::prelude::*;
use vstd::utf8::{
    encode_utf8, encode_utf8_valid_utf8, is_char_boundary, is_char_boundary_iff_not_is_continuation_byte,
    is_char_boundary_start_end_of_seq, length_of_first_scalar, pop_first_scalar, valid_first_scalar, valid_utf8,
    valid_utf8_concat, valid_utf8_split,
};

use crate::block::{BlockData, BlockHint, IfData, IfExpr, KindData};
use crate::resolve::{if_result, lf, sp_branch, sp_list, sp_process, sp_resolve_from, trim_if_output, Lookup};
use crate::diagnostic::DiagData;
use crate::parser::{
    enclosed_stop, max_source_len, offset_span, ok_blocks, sp_after_branch, sp_branches, sp_enclosed, sp_fi, sp_if,
    sp_parse_from, sp_top, span_bytes,
};
use crate::scan::{find, lemma_find_from_bounds, matches_from, occurs_at, rfind_byte};
use crate::tokens::lemma_matches_from_elems;
use crate::span::ByteSpan;
use crate::tokens::{classify, match_close, pat_close, pat_comment_close, pat_escaped_close, pat_open, spec_token_at};

verus! {

/// Whether position `p` of `c` lies next to an ASCII byte, at the start or at
/// the end: a place where cutting UTF-8 text keeps it valid.
pub open spec fn cut_at(c: Seq<u8>, p: int) -> bool {
    &&& 0 <= p <= c.len()
    &&& (p == 0 || p == c.len() || c[p] < 0x80 || c[p - 1] < 0x80)
}

/// In valid UTF-8 a character starts right after an ASCII byte.
proof fn lemma_boundary_after_ascii(s: Seq<u8>, p: int)
    requires
        valid_utf8(s),
        0 < p < s.len(),
        s[p - 1] < 0x80,
    ensures
        is_char_boundary(s, p),
    decreases s.len(),
{
    let l = length_of_first_scalar(s);
    assert(valid_first_scalar(s));
    let t = pop_first_scalar(s);
    assert(valid_utf8(t));
    if p < l {
        assert(p - 1 >= 1 ==> 0x80 <= s[p - 1]);
        assert(false);
    } else if p == l {
        assert(is_char_boundary(s, p) == is_char_boundary(t, 0));
    } else {
        assert(t.len() == s.len() - l);
        assert(t[p - l - 1] == s[p - 1]);
        lemma_boundary_after_ascii(t, p - l);
        assert(is_char_boundary(s, p) == is_char_boundary(t, p - l));
    }
}

/// Cutting valid UTF-8 next to an ASCII byte cuts at a character boundary.
pub proof fn lemma_cut_boundary(s: Seq<u8>, p: int)
    requires
        valid_utf8(s),
        cut_at(s, p),
    ensures
        is_char_boundary(s, p),
{
    is_char_boundary_start_end_of_seq(s);
    if p == 0 || p == s.len() {
    } else if s[p] < 0x80 {
        is_char_boundary_iff_not_is_continuation_byte(s, p);
    } else {
        lemma_boundary_after_ascii(s, p);
    }
}

/// The bytes of valid UTF-8 between two places next to ASCII bytes are valid UTF-8.
pub proof fn lemma_cut_valid(s: Seq<u8>, i: int, j: int)
    requires
        valid_utf8(s),
        cut_at(s, i),
        cut_at(s, j),
        i <= j,
    ensures
        valid_utf8(s.subrange(i, j)),
{
    lemma_cut_boundary(s, j);
    valid_utf8_split(s, j);
    let pre = s.subrange(0, j);
    assert(cut_at(pre, i)) by {
        if 0 < i < j {
            assert(pre[i] == s[i] && pre[i - 1] == s[i - 1]);
        }
    }
    lemma_cut_boundary(pre, i);
    valid_utf8_split(pre, i);
    assert(pre.subrange(i, pre.len() as int) =~= s.subrange(i, j));
}


/// Whether the span `sp` starts and ends next to ASCII bytes of `c`.
pub open spec fn span_cut(c: Seq<u8>, sp: ByteSpan) -> bool {
    &&& cut_at(c, sp.low.0 as int)
    &&& cut_at(c, sp.high.0 as int)
    &&& sp.low.0 <= sp.high.0
}

/// The closing that [`match_close`] picks is one of the closings.
proof fn lemma_match_close_elem(opens: Seq<int>, closes: Seq<int>)
    ensures
        match_close(opens, closes) matches Some(x) ==> exists|k: int| 0 <= k < closes.len() && closes[k] == x,
    decreases closes.len(),
{
    if closes.len() > 0 && opens.len() > 0 && opens[0] < closes[0] {
        lemma_match_close_elem(opens.drop_first(), closes.drop_first());
        if match_close(opens, closes) is Some {
            let x = match_close(opens, closes).unwrap();
            let k = choose|k: int| 0 <= k < closes.drop_first().len() && closes.drop_first()[k] == x;
            assert(closes[k + 1] == x);
        }
    } else if closes.len() > 0 {
        assert(closes[0] == match_close(opens, closes).unwrap());
    }
}

/// A token cut at a place next to an ASCII byte ends at such a place, after
/// it starts; its span runs from where it starts to where it ends, and the
/// inside of an escaped block is cut next to ASCII bytes too.
pub proof fn lemma_token_cut(c: Seq<u8>, i: int)
    requires
        cut_at(c, i),
        c.len() <= max_source_len(),
    ensures
        spec_token_at(c, i) matches Some((t, j)) ==> {
            &&& i < j
            &&& cut_at(c, j)
            &&& (t matches Ok((sp, h)) ==> {
                &&& sp.low.0 == i
                &&& sp.high.0 == j
                &&& (h is Escaped ==> span_cut(c, offset_span(sp, 3i32, -3i32)))
            })
        },
{
    let s = c.subrange(i, c.len() as int);
    assert(forall|k: int| 0 <= k < s.len() ==> #[trigger] s[k] == c[i + k]);
    if s.len() == 0 {
        return;
    }
    lemma_find_from_bounds(s, pat_open(), 0);
    assert(pat_open() =~= seq![0x7bu8, 0x7bu8]);
    match find(s, pat_open()) {
        Some(low) => {
            assert(s.subrange(low, low + 2) == pat_open());
            assert(s[low] == 0x7b && s[low + 1] == 0x7b);
            if low > 0 {
                assert(c[i + low] == 0x7b);
            } else if s.len() > 2 && s[2] == 0x7b {
                lemma_find_from_bounds(s, pat_escaped_close(), 0);
                assert(pat_escaped_close() =~= seq![0x7du8, 0x7du8, 0x7du8]);
                match find(s, pat_escaped_close()) {
                    Some(high) => {
                        assert(s.subrange(high, high + 3) == pat_escaped_close());
                        assert(s[high] == 0x7d && s[high + 2] == 0x7d);
                        assert(high >= 3);
                        assert(c[i + high + 2] == 0x7d);
                        assert(c[i + high] == 0x7d);
                        assert(c[i + 2] == 0x7b);
                        let sp = ByteSpan::spec_of(i, i + high + 3);
                        assert(sp.low.0 == i);
                        assert(sp.high.0 == i + high + 3);
                        let inner = offset_span(sp, 3i32, -3i32);
                        assert(inner.low.0 == i + 3);
                        assert(inner.high.0 == i + high);
                    },
                    None => {
                        assert(c[i + 2] == 0x7b);
                    },
                }
            } else if s.len() >= 5 && s.subrange(2, 5) == crate::tokens::pat_comment_open() {
                lemma_find_from_bounds(s, pat_comment_close(), 0);
                assert(pat_comment_close() =~= seq![0x2du8, 0x2du8, 0x7du8, 0x7du8]);
                match find(s, pat_comment_close()) {
                    Some(high) => {
                        assert(s.subrange(high, high + 4) == pat_comment_close());
                        assert(s[high + 3] == 0x7d);
                        assert(c[i + high + 3] == 0x7d);
                        if high == 0 {
                            assert(s[0] == 0x2d);
                        }
                    },
                    None => {
                        assert(crate::tokens::pat_comment_open() =~= seq![0x21u8, 0x2du8, 0x2du8]);
                        assert(s.subrange(2, 5)[2] == s[4]);
                        assert(c[i + 4] == 0x2d);
                    },
                }
            } else {
                let opens = matches_from(s, pat_open(), 1);
                let closes = matches_from(s, pat_close(), 1);
                lemma_match_close_elem(opens, closes);
                lemma_matches_from_elems(s, pat_close(), 1);
                assert(pat_close() =~= seq![0x7du8, 0x7du8]);
                match match_close(opens, closes) {
                    Some(x) => {
                        let k = choose|k: int| 0 <= k < closes.len() && closes[k] == x;
                        assert(occurs_at(s, pat_close(), x));
                        assert(s.subrange(x, x + 2) == pat_close());
                        assert(s[x + 1] == 0x7d);
                        assert(c[i + x + 1] == 0x7d);
                        assert(x >= 1);
                        let content = c.subrange(i, i + x + 2);
                        assert(content.len() >= 3);
                        assert(content[2] == s[2]);
                        assert(classify(content) != BlockHint::Escaped) by {
                            if crate::scan::starts_with(content, pat_open()) {
                                let inner = content.subrange(2, content.len() - 2);
                                if crate::scan::starts_with(inner, crate::tokens::pat_brace_open()) {
                                    assert(crate::tokens::pat_brace_open() =~= seq![0x7bu8]);
                                    assert(inner.subrange(0, 1) == crate::tokens::pat_brace_open());
                                    assert(inner.subrange(0, 1)[0] == inner[0]);
                                    assert(inner[0] == content[2]);
                                    assert(s.len() > 2);
                                    assert(s[2] == 0x7b);
                                    assert(false);
                                }
                            }
                        }
                    },
                    None => {
                        assert(c[i + 1] == 0x7b);
                    },
                }
            }
        },
        None => {},
    }
}

/// Whether every text and escaped block among `b` and the blocks it encloses
/// is cut next to ASCII bytes of `c`.
pub open spec fn block_ok(c: Seq<u8>, b: BlockData) -> bool
    decreases b, 0int,
{
    match b.kind {
        KindData::Text => span_cut(c, b.span),
        KindData::Escaped(inner) => span_cut(c, inner),
        KindData::If(d) => list_ok(c, d.head.2) && elifs_ok(c, d.elifs) && match d.els {
            Some(e) => list_ok(c, e.1),
            None => true,
        },
        _ => true,
    }
}

/// Whether all blocks of `bs` are [`block_ok`].
pub open spec fn list_ok(c: Seq<u8>, bs: Seq<BlockData>) -> bool
    decreases bs, 0int,
{
    if bs.len() == 0 {
        true
    } else {
        block_ok(c, bs[0]) && list_ok(c, bs.subrange(1, bs.len() as int))
    }
}

/// Whether the blocks of all branches `es` are [`block_ok`].
pub open spec fn elifs_ok(c: Seq<u8>, es: Seq<(ByteSpan, IfExpr, Seq<BlockData>)>) -> bool
    decreases es, 0int,
{
    if es.len() == 0 {
        true
    } else {
        list_ok(c, es[0].2) && elifs_ok(c, es.subrange(1, es.len() as int))
    }
}

/// Whether the blocks among the results `rs` are [`block_ok`].
pub open spec fn results_ok(c: Seq<u8>, rs: Seq<Result<BlockData, DiagData>>) -> bool {
    forall|k: int| 0 <= k < rs.len() ==> (#[trigger] rs[k] matches Ok(b) ==> block_ok(c, b))
}

/// The blocks among results that are all [`block_ok`] are [`list_ok`].
proof fn lemma_ok_blocks(c: Seq<u8>, rs: Seq<Result<BlockData, DiagData>>)
    requires
        results_ok(c, rs),
    ensures
        list_ok(c, ok_blocks(rs)),
    decreases rs.len(),
{
    if rs.len() > 0 {
        let rest = rs.drop_first();
        assert forall|k: int| 0 <= k < rest.len() implies (#[trigger] rest[k] matches Ok(b) ==> block_ok(c, b)) by {
            assert(rest[k] == rs[k + 1]);
        }
        lemma_ok_blocks(c, rest);
        match rs[0] {
            Ok(b) => {
                let all = seq![b] + ok_blocks(rest);
                assert(all[0] == b);
                assert(all.subrange(1, all.len() as int) =~= ok_blocks(rest));
            },
            Err(_) => {
                assert(Seq::<BlockData>::empty() + ok_blocks(rest) =~= ok_blocks(rest));
            },
        }
    }
}

/// A top-level block cut next to an ASCII byte is [`block_ok`] and ends next
/// to an ASCII byte.
proof fn lemma_top_cut(c: Seq<u8>, i: int)
    requires
        cut_at(c, i),
        c.len() <= max_source_len(),
    ensures
        sp_top(c, i) matches Some((r, j, _)) ==> cut_at(c, j) && (r matches Ok(b) ==> block_ok(c, b)),
    decreases c.len() - i, 0int,
{
    reveal(sp_top);
    lemma_token_cut(c, i);
    match spec_token_at(c, i) {
        Some((Ok((span, hint)), j)) => {
            if hint is IfStart && i < j <= c.len() {
                lemma_if_cut(c, j, span);
                let r = sp_if(c, j, span);
                match r.0 {
                    Ok((sp2, d)) => {
                        assert(block_ok(c, BlockData { span: sp2, kind: KindData::If(d) }));
                    },
                    Err(_) => {},
                }
            }
        },
        _ => {},
    }
}

/// The blocks enclosed in a branch from a place next to an ASCII byte are
/// [`block_ok`] and end next to an ASCII byte.
proof fn lemma_enclosed_cut(c: Seq<u8>, i: int)
    requires
        cut_at(c, i),
        c.len() <= max_source_len(),
    ensures
        cut_at(c, sp_enclosed(c, i).1),
        results_ok(c, sp_enclosed(c, i).0),
    decreases c.len() - i, 1int,
{
    if enclosed_stop(c, i) || sp_top(c, i) is None {
        crate::parser::lemma_enclosed_none(c, i);
    }
    if !enclosed_stop(c, i) {
        lemma_top_cut(c, i);
        match sp_top(c, i) {
            Some((r, j, reps)) => {
                if i < j <= c.len() {
                    lemma_enclosed_cut(c, j);
                    crate::parser::lemma_enclosed_step(c, i);
                    let rest = sp_enclosed(c, j);
                    let all = seq![r] + rest.0;
                    assert(sp_enclosed(c, i) == (all, rest.1, reps + rest.2));
                    assert forall|k: int| 0 <= k < all.len() implies (#[trigger] all[k] matches Ok(b) ==> block_ok(c, b)) by {
                        if k > 0 {
                            assert(all[k] == rest.0[k - 1]);
                        }
                    }
                } else {
                    let all = seq![r];
                    crate::parser::lemma_enclosed_last(c, i);
                    assert forall|k: int| 0 <= k < all.len() implies (#[trigger] all[k] matches Ok(b) ==> block_ok(c, b)) by {
                        assert(all[k] == r);
                    }
                }
            },
            None => {},
        }
    }
}

/// An if block whose head ends next to an ASCII byte has [`block_ok`] branches
/// and ends next to an ASCII byte.
proof fn lemma_if_cut(c: Seq<u8>, i: int, span: ByteSpan)
    requires
        cut_at(c, i),
        c.len() <= max_source_len(),
    ensures
        cut_at(c, sp_if(c, i, span).1),
        sp_if(c, i, span).0 matches Ok((_, d)) ==> list_ok(c, d.head.2) && elifs_ok(c, d.elifs) && match d.els {
            Some(e) => list_ok(c, e.1),
            None => true,
        },
    decreases c.len() - i, 4int,
{
    match crate::parser::sp_if_expr(c, offset_span(span, 6i32, -2i32)) {
        Err(_) => {},
        Ok(_) => {
            lemma_enclosed_cut(c, i);
            let nested = sp_enclosed(c, i);
            lemma_ok_blocks(c, nested.0);
            if i <= nested.1 <= c.len() {
                lemma_after_branch_cut(c, nested.1, span, span, 0);
            }
        },
    }
}

/// The branches after a branch that ends next to an ASCII byte are
/// [`block_ok`] and end next to an ASCII byte.
proof fn lemma_after_branch_cut(c: Seq<u8>, i: int, head: ByteSpan, branch: ByteSpan, kind: int)
    requires
        cut_at(c, i),
        c.len() <= max_source_len(),
    ensures
        cut_at(c, sp_after_branch(c, i, head, branch, kind).1),
        sp_after_branch(c, i, head, branch, kind).0 matches Ok((elifs, els, _)) ==> elifs_ok(c, elifs) && match els {
            Some(e) => list_ok(c, e.1),
            None => true,
        },
    decreases c.len() - i, 2int,
{
    lemma_token_cut(c, i);
    match spec_token_at(c, i) {
        Some((Ok((s, h)), j)) => {
            if i < j <= c.len() {
                if kind == 2 {
                    assert(elifs_ok(c, Seq::<(ByteSpan, IfExpr, Seq<BlockData>)>::empty()));
                } else {
                    lemma_branches_cut(c, j, s, h, head);
                }
            }
        },
        _ => {},
    }
}

/// The elif and else branches of an if block from a place next to an ASCII
/// byte are [`block_ok`] and end next to an ASCII byte.
proof fn lemma_branches_cut(c: Seq<u8>, i: int, s: ByteSpan, h: BlockHint, head: ByteSpan)
    requires
        cut_at(c, i),
        c.len() <= max_source_len(),
    ensures
        cut_at(c, sp_branches(c, i, s, h, head).1),
        sp_branches(c, i, s, h, head).0 matches Ok((elifs, els, _)) ==> elifs_ok(c, elifs) && match els {
            Some(e) => list_ok(c, e.1),
            None => true,
        },
    decreases c.len() - i, 3int,
{
    assert(elifs_ok(c, Seq::<(ByteSpan, IfExpr, Seq<BlockData>)>::empty()));
    if h is ElIf {
        match crate::parser::sp_if_expr(c, offset_span(s, 8i32, -2i32)) {
            Err(_) => {},
            Ok(e) => {
                lemma_enclosed_cut(c, i);
                let nested = sp_enclosed(c, i);
                lemma_ok_blocks(c, nested.0);
                if i <= nested.1 <= c.len() {
                    lemma_after_branch_cut(c, nested.1, head, s, 1);
                    let rest = sp_after_branch(c, nested.1, head, s, 1);
                    match rest.0 {
                        Ok((elifs, els, end)) => {
                            let all = seq![(s, e, ok_blocks(nested.0))] + elifs;
                            assert(all[0] == (s, e, ok_blocks(nested.0)));
                            assert(all.subrange(1, all.len() as int) =~= elifs);
                        },
                        Err(_) => {},
                    }
                }
            },
        }
    } else if h is Else {
        match crate::parser::sp_else_block(c, s) {
            Err(_) => {},
            Ok(_) => {
                lemma_enclosed_cut(c, i);
                let nested = sp_enclosed(c, i);
                lemma_ok_blocks(c, nested.0);
                if i <= nested.1 <= c.len() {
                    lemma_after_branch_cut(c, nested.1, head, s, 2);
                }
            },
        }
    }
}

/// All top-level blocks parsed from a place next to an ASCII byte are [`block_ok`].
pub proof fn lemma_parse_cut(c: Seq<u8>, i: int)
    requires
        cut_at(c, i),
        c.len() <= max_source_len(),
    ensures
        list_ok(c, sp_parse_from(c, i).0),
    decreases c.len() - i,
{
    lemma_top_cut(c, i);
    match sp_top(c, i) {
        Some((r, j, reps)) => {
            if i < j <= c.len() {
                lemma_parse_cut(c, j);
                let rest = sp_parse_from(c, j);
                match r {
                    Ok(b) => {
                        let all = seq![b] + rest.0;
                        assert(all[0] == b);
                        assert(all.subrange(1, all.len() as int) =~= rest.0);
                    },
                    Err(_) => {},
                }
            }
        },
        None => {},
    }
}

/// The bytes of valid UTF-8 after its first line feed are valid UTF-8.
proof fn lemma_after_first_lf_valid(s: Seq<u8>)
    requires
        valid_utf8(s),
        find(s, lf()) is Some,
    ensures
        valid_utf8(s.subrange(find(s, lf()).unwrap() + 1, s.len() as int)),
{
    lemma_find_from_bounds(s, lf(), 0);
    let i = find(s, lf()).unwrap();
    assert(s.subrange(i, i + 1) == lf());
    assert(s.subrange(i, i + 1)[0] == s[i]);
    assert(lf()[0] == 0x0a);
    assert(s[i] == 0x0a);
    lemma_cut_valid(s, i + 1, s.len() as int);
}

/// Trimming the output of an if block keeps it valid UTF-8.
proof fn lemma_trim_valid(s: Seq<u8>)
    requires
        valid_utf8(s),
    ensures
        valid_utf8(trim_if_output(s)),
{
    let s1 = match find(s, lf()) {
        Some(i) => if crate::scan::is_blank(s.subrange(0, i)) {
            s.subrange(i + 1, s.len() as int)
        } else {
            s
        },
        None => s,
    };
    if find(s, lf()) is Some {
        lemma_after_first_lf_valid(s);
    }
    assert(valid_utf8(s1));
    crate::source::lemma_rfind_bounds(s1, 0x0a);
    match rfind_byte(s1, 0x0a) {
        Some(j) => {
            lemma_cut_valid(s1, 0, j);
        },
        None => {},
    }
}

/// The bytes of a span cut next to ASCII bytes of valid UTF-8 are valid UTF-8.
proof fn lemma_span_valid(c: Seq<u8>, sp: ByteSpan)
    requires
        valid_utf8(c),
        span_cut(c, sp),
    ensures
        valid_utf8(span_bytes(c, sp.low.0 as int, sp.high.0 as int)),
{
    lemma_cut_valid(c, sp.low.0 as int, sp.high.0 as int);
}

/// The branches of all elifs of [`elifs_ok`] branches are [`list_ok`].
proof fn lemma_elifs_ok_index(c: Seq<u8>, es: Seq<(ByteSpan, IfExpr, Seq<BlockData>)>, k: int)
    requires
        elifs_ok(c, es),
        0 <= k < es.len(),
    ensures
        list_ok(c, es[k].2),
    decreases k,
{
    if k > 0 {
        let rest = es.subrange(1, es.len() as int);
        lemma_elifs_ok_index(c, rest, k - 1);
        assert(rest[k - 1] == es[k]);
    }
}

/// Processing a [`block_ok`] block of valid UTF-8 gives valid UTF-8.
proof fn lemma_process_valid(c: Seq<u8>, l: Lookup, b: BlockData, skip: bool)
    requires
        valid_utf8(c),
        block_ok(c, b),
    ensures
        sp_process(c, l, b, skip).0 matches Ok(o) ==> valid_utf8(o),
    decreases b, 0int,
{
    assert(valid_utf8(Seq::<u8>::empty()));
    match b.kind {
        KindData::Text => {
            let content = span_bytes(c, b.span.low.0 as int, b.span.high.0 as int);
            lemma_span_valid(c, b.span);
            if skip && crate::resolve::starts_with_newline(content) && find(content, lf()) is Some {
                lemma_after_first_lf_valid(content);
            }
        },
        KindData::Escaped(inner) => {
            lemma_span_valid(c, inner);
        },
        KindData::Var(v) => {
            match crate::resolve::sp_resolve_var(c, l, v) {
                Ok(x) => {
                    encode_utf8_valid_utf8(x);
                },
                Err(_) => {},
            }
        },
        KindData::If(d) => {
            match crate::resolve::sp_eval(c, l, d.head.1) {
                Err(_) => {},
                Ok(true) => {
                    lemma_list_valid(c, l, d.head.2, skip);
                    match sp_list(c, l, d.head.2, skip).0 {
                        Ok(o) => lemma_trim_valid(o),
                        Err(_) => {},
                    }
                },
                Ok(false) => {
                    assert forall|k: int| 0 <= k < d.elifs.len() implies list_ok(c, #[trigger] d.elifs[k].2) by {
                        lemma_elifs_ok_index(c, d.elifs, k);
                    }
                    lemma_branch_valid(c, l, d, 0, skip);
                    match sp_branch(c, l, d, 0, skip).0 {
                        Ok(o) => lemma_trim_valid(o),
                        Err(_) => {},
                    }
                },
            }
        },
        _ => {},
    }
}

/// Processing [`list_ok`] blocks of valid UTF-8 gives valid UTF-8.
proof fn lemma_list_valid(c: Seq<u8>, l: Lookup, bs: Seq<BlockData>, skip: bool)
    requires
        valid_utf8(c),
        list_ok(c, bs),
    ensures
        sp_list(c, l, bs, skip).0 matches Ok(o) ==> valid_utf8(o),
    decreases bs, 0int,
{
    assert(valid_utf8(Seq::<u8>::empty()));
    if bs.len() > 0 {
        lemma_process_valid(c, l, bs[0], skip);
        let r = sp_process(c, l, bs[0], skip);
        match r.0 {
            Ok(o) => {
                lemma_list_valid(c, l, bs.subrange(1, bs.len() as int), r.1);
                match sp_list(c, l, bs.subrange(1, bs.len() as int), r.1).0 {
                    Ok(o2) => valid_utf8_concat(o, o2),
                    Err(_) => {},
                }
            },
            Err(_) => {},
        }
    }
}

/// Processing the taken branch of an if block with [`list_ok`] branches of
/// valid UTF-8 gives valid UTF-8.
proof fn lemma_branch_valid(c: Seq<u8>, l: Lookup, d: IfData, k: int, skip: bool)
    requires
        valid_utf8(c),
        forall|m: int| 0 <= m < d.elifs.len() ==> list_ok(c, #[trigger] d.elifs[m].2),
        match d.els {
            Some(e) => list_ok(c, e.1),
            None => true,
        },
    ensures
        sp_branch(c, l, d, k, skip).0 matches Ok(o) ==> valid_utf8(o),
    decreases d, d.elifs.len() - k,
{
    assert(valid_utf8(Seq::<u8>::empty()));
    if k < 0 || k >= d.elifs.len() {
        match d.els {
            Some(e) => lemma_list_valid(c, l, e.1, skip),
            None => {},
        }
    } else {
        match crate::resolve::sp_eval(c, l, d.elifs[k].1) {
            Err(_) => {},
            Ok(true) => lemma_list_valid(c, l, d.elifs[k].2, skip),
            Ok(false) => lemma_branch_valid(c, l, d, k + 1, skip),
        }
    }
}

/// Resolving [`list_ok`] blocks of valid UTF-8 gives valid UTF-8.
pub proof fn lemma_resolve_valid(c: Seq<u8>, l: Lookup, bs: Seq<BlockData>, skip: bool)
    requires
        valid_utf8(c),
        list_ok(c, bs),
    ensures
        valid_utf8(sp_resolve_from(c, l, bs, skip).0),
    decreases bs.len(),
{
    assert(valid_utf8(Seq::<u8>::empty()));
    if bs.len() > 0 {
        lemma_process_valid(c, l, bs[0], skip);
        let r = sp_process(c, l, bs[0], skip);
        lemma_resolve_valid(c, l, bs.subrange(1, bs.len() as int), r.1);
        match r.0 {
            Ok(o) => valid_utf8_concat(o, sp_resolve_from(c, l, bs.subrange(1, bs.len() as int), r.1).0),
            Err(_) => {},
        }
    }
}

/// Resolving a template parsed from text gives valid UTF-8: every piece that
/// goes to the output is cut at character boundaries.
pub proof fn law_resolved_text_is_valid(t: Seq<char>, l: Lookup)
    requires
        encode_utf8(t).len() <= max_source_len(),
    ensures
        valid_utf8(sp_resolve_from(encode_utf8(t), l, sp_parse_from(encode_utf8(t), 0).0, false).0),
{
    let c = encode_utf8(t);
    encode_utf8_valid_utf8(t);
    lemma_parse_cut(c, 0);
    lemma_resolve_valid(c, l, sp_parse_from(c, 0).0, false);
}
} // verus!
