//! Formatting of diagnostics for the terminal: the message, the source lines
//! the spans lie on with the spans marked below them, and the descriptions.
use vstd::prelude::*;

use crate::diagnostic::{DiagData, Diagnostic, DiagnosticLevel};
use crate::session::{diags_data, Session};
use crate::source::{Location, Source, SourceOrigin};
use crate::span::ByteSpan;
use crate::text::{decimal, push_char, push_decimal};

verus! {

/// `s` in bold, as ANSI escape codes write it.
pub open spec fn ansi_bold(s: Seq<char>) -> Seq<char> {
    "\x1b[1m"@ + s + "\x1b[0m"@
}

/// `s` in bright blue, as ANSI escape codes write it.
pub open spec fn ansi_bright_blue(s: Seq<char>) -> Seq<char> {
    "\x1b[94m"@ + s + "\x1b[39m"@
}

/// `s` in bright red, as ANSI escape codes write it.
pub open spec fn ansi_bright_red(s: Seq<char>) -> Seq<char> {
    "\x1b[91m"@ + s + "\x1b[39m"@
}

/// The style of the frame of a formatted diagnostic: bold bright blue.
pub open spec fn framed(s: Seq<char>) -> Seq<char> {
    ansi_bold(ansi_bright_blue(s))
}

/// Renders `s` in bold (`OwoColorize::bold` of owo-colors, displayed): the
/// bold escape code, `s`, and the reset code.
#[verifier::external_body]
fn bold_text(s: &str) -> (r: String)
    ensures
        r@ == ansi_bold(s@),
{
    color_eyre::owo_colors::OwoColorize::bold(&s).to_string()
}

/// Renders `s` in bright blue (`OwoColorize::bright_blue` of owo-colors,
/// displayed): the color's escape code, `s`, and the code of the default color.
#[verifier::external_body]
fn bright_blue_text(s: &str) -> (r: String)
    ensures
        r@ == ansi_bright_blue(s@),
{
    color_eyre::owo_colors::OwoColorize::bright_blue(&s).to_string()
}

/// Renders `s` in bright red (`OwoColorize::bright_red` of owo-colors,
/// displayed): the color's escape code, `s`, and the code of the default color.
#[verifier::external_body]
fn bright_red_text(s: &str) -> (r: String)
    ensures
        r@ == ansi_bright_red(s@),
{
    color_eyre::owo_colors::OwoColorize::bright_red(&s).to_string()
}

/// Renders `s` in the style of the frame.
fn framed_text(s: &str) -> (r: String)
    ensures
        r@ == framed(s@),
{
    let blue = bright_blue_text(s);
    bold_text(blue.as_str())
}

/// Appends `b` to `a`.
fn append(a: &mut String, b: &str)
    ensures
        final(a)@ == old(a)@ + b@,
{
    a.append(b);
}

/// `n` copies of the character `c`.
pub open spec fn repeat_char(c: char, n: nat) -> Seq<char> {
    Seq::new(n, |i: int| c)
}

/// Appends `n` copies of `c` to `s`.
fn push_repeat(s: &mut String, c: char, n: usize)
    ensures
        final(s)@ == old(s)@ + repeat_char(c, n as nat),
{
    let mut k: usize = 0;
    while k < n
        invariant
            k <= n,
            s@ == old(s)@ + repeat_char(c, k as nat),
        decreases n - k,
    {
        push_char(s, c);
        k = k + 1;
        assert(s@ =~= old(s)@ + repeat_char(c, k as nat));
    }
}

/// `s` with each tab replaced by four spaces.
pub open spec fn expand_tabs(s: Seq<char>) -> Seq<char>
    decreases s.len(),
{
    if s.len() == 0 {
        seq![]
    } else {
        expand_tabs(s.drop_last()) + if s.last() == '\t' {
            repeat_char(' ', 4)
        } else {
            seq![s.last()]
        }
    }
}

/// Appends `t` with each tab replaced by four spaces to `s`.
fn push_expanded(s: &mut String, t: &str)
    ensures
        final(s)@ == old(s)@ + expand_tabs(t@),
{
    let cs = crate::transform::chars_of(t);
    let mut k: usize = 0;
    while k < cs.len()
        invariant
            k <= cs@.len(),
            cs@ == t@,
            s@ == old(s)@ + expand_tabs(cs@.subrange(0, k as int)),
        decreases cs.len() - k,
    {
        let ghost before = s@;
        if cs[k] == '\t' {
            push_repeat(s, ' ', 4);
        } else {
            push_char(s, cs[k]);
        }
        proof {
            let pre = cs@.subrange(0, k + 1);
            assert(pre.drop_last() =~= cs@.subrange(0, k as int));
            assert(pre.last() == cs@[k as int]);
        }
        k = k + 1;
        assert(s@ =~= old(s)@ + expand_tabs(cs@.subrange(0, k as int)));
    }
    assert(cs@.subrange(0, k as int) =~= t@);
}

/// The pieces of `s` between line feeds: one more than `s` has line feeds.
pub open spec fn split_lf(s: Seq<char>) -> Seq<Seq<char>>
    decreases s.len(),
{
    if s.len() == 0 {
        seq![seq![]]
    } else {
        let p = split_lf(s.drop_last());
        if s.last() == '\n' {
            p.push(seq![])
        } else {
            p.update(p.len() - 1, p.last().push(s.last()))
        }
    }
}

/// There is at least one piece.
proof fn lemma_split_lf_len(s: Seq<char>)
    ensures
        split_lf(s).len() >= 1,
    decreases s.len(),
{
    if s.len() > 0 {
        lemma_split_lf_len(s.drop_last());
    }
}

/// The text of the zero-indexed line `i` of `s`, without its line feed; empty
/// where `s` has no such line.
pub open spec fn line_text(s: Seq<char>, i: int) -> Seq<char> {
    if 0 <= i < split_lf(s).len() {
        split_lf(s)[i]
    } else {
        seq![]
    }
}

/// Returns the text of the zero-indexed line `idx` of `s`.
pub fn get_idx_line(s: &str, idx: usize) -> (r: String)
    ensures
        r@ == line_text(s@, idx as int),
{
    let cs = crate::transform::chars_of(s);
    let mut out = String::new();
    let mut ln: usize = 0;
    let mut k: usize = 0;
    proof {
        assert(cs@.subrange(0, 0) =~= Seq::<char>::empty());
    }
    while k < cs.len()
        invariant
            k <= cs@.len(),
            cs@ == s@,
            ln <= k,
            ln + 1 == split_lf(cs@.subrange(0, k as int)).len(),
            out@ == line_text(cs@.subrange(0, k as int), idx as int),
        decreases cs.len() - k,
    {
        let ghost pre = cs@.subrange(0, k as int);
        let ghost next = cs@.subrange(0, k + 1);
        proof {
            assert(next.drop_last() =~= pre);
            assert(next.last() == cs@[k as int]);
            lemma_split_lf_len(pre);
        }
        if cs[k] == '\n' {
            ln = ln + 1;
            proof {
                assert(split_lf(next) == split_lf(pre).push(seq![]));
                if idx as int == split_lf(pre).len() {
                    assert(line_text(pre, idx as int) == Seq::<char>::empty());
                }
            }
        } else {
            if ln == idx {
                push_char(&mut out, cs[k]);
            }
            proof {
                let p = split_lf(pre);
                assert(split_lf(next) == p.update(p.len() - 1, p.last().push(cs@[k as int])));
            }
        }
        k = k + 1;
    }
    assert(cs@.subrange(0, k as int) =~= s@);
    out
}


/// The location of byte position `p` of the text `b`.
pub open spec fn location_of(b: Seq<u8>, p: int) -> Location {
    Location { line: (crate::source::spec_line_idx(b, p) + 1) as usize, column: crate::source::spec_column(b, p) as usize }
}

/// Whether the span from `r.0` to `r.1` lies on the one-indexed line `n`.
pub open spec fn covers(r: (Location, Location), n: int) -> bool {
    r.0.line <= n <= r.1.line
}

/// Whether some span of `rs` lies on the one-indexed line `n`.
pub open spec fn covered(rs: Seq<(Location, Location)>, n: int) -> bool {
    exists|i: int| 0 <= i < rs.len() && covers(#[trigger] rs[i], n)
}

/// The lowest line some span of `rs` lies on.
pub open spec fn min_line(rs: Seq<(Location, Location)>) -> Option<usize>
    decreases rs.len(),
{
    if rs.len() == 0 {
        None
    } else {
        let m = min_line(rs.drop_last());
        let l = rs.last();
        if l.0.line > l.1.line {
            m
        } else {
            match m {
                None => Some(l.0.line),
                Some(x) => if l.0.line < x { Some(l.0.line) } else { Some(x) },
            }
        }
    }
}

/// The highest line some span of `rs` lies on.
pub open spec fn max_line(rs: Seq<(Location, Location)>) -> Option<usize>
    decreases rs.len(),
{
    if rs.len() == 0 {
        None
    } else {
        let m = max_line(rs.drop_last());
        let l = rs.last();
        if l.0.line > l.1.line {
            m
        } else {
            match m {
                None => Some(l.1.line),
                Some(x) => if l.1.line > x { Some(l.1.line) } else { Some(x) },
            }
        }
    }
}

/// The lines from `a` to `b` that some span of `rs` lies on, ascending.
pub open spec fn lines_between(rs: Seq<(Location, Location)>, a: int, b: int) -> Seq<usize>
    decreases b - a + 1,
{
    if b < a {
        seq![]
    } else {
        lines_between(rs, a, b - 1) + if covered(rs, b) { seq![b as usize] } else { seq![] }
    }
}

/// All lines some span of `rs` lies on, ascending.
pub open spec fn line_numbers(rs: Seq<(Location, Location)>) -> Seq<usize> {
    match (min_line(rs), max_line(rs)) {
        (Some(a), Some(b)) => lines_between(rs, a as int, b as int),
        _ => seq![],
    }
}

/// Whether location `a` comes before location `b`.
pub open spec fn loc_lt(a: Location, b: Location) -> bool {
    a.line < b.line || (a.line == b.line && a.column < b.column)
}

/// The first of the smallest locations of `s`.
pub open spec fn min_loc(s: Seq<Location>) -> Option<Location>
    decreases s.len(),
{
    if s.len() == 0 {
        None
    } else {
        match min_loc(s.drop_last()) {
            None => Some(s.last()),
            Some(m) => if loc_lt(s.last(), m) { Some(s.last()) } else { Some(m) },
        }
    }
}

/// A span on a line: where it starts and ends, and its label if it is a labeled span.
pub type SpanItem = (Location, Location, Option<Seq<char>>);

/// The primary spans of `ps` that lie on line `n`, in order.
pub open spec fn primary_items_on(ps: Seq<(Location, Location)>, n: int) -> Seq<SpanItem>
    decreases ps.len(),
{
    if ps.len() == 0 {
        seq![]
    } else {
        primary_items_on(ps.drop_last(), n) + if covers(ps.last(), n) {
            seq![(ps.last().0, ps.last().1, None::<Seq<char>>)]
        } else {
            seq![]
        }
    }
}

/// The labeled spans of `ls` that lie on line `n`, in order.
pub open spec fn label_items_on(ls: Seq<(Location, Location, Seq<char>)>, n: int) -> Seq<SpanItem>
    decreases ls.len(),
{
    if ls.len() == 0 {
        seq![]
    } else {
        label_items_on(ls.drop_last(), n) + if covers((ls.last().0, ls.last().1), n) {
            seq![(ls.last().0, ls.last().1, Some(ls.last().2))]
        } else {
            seq![]
        }
    }
}

/// The index from `j` on before which an item starting at `k` is inserted into
/// `s`: the first that starts after `k`.
pub open spec fn low_insert_pos(s: Seq<SpanItem>, k: Location, j: int) -> int
    decreases s.len() - j,
{
    if j < 0 || j >= s.len() {
        s.len() as int
    } else if loc_lt(k, s[j].0) {
        j
    } else {
        low_insert_pos(s, k, j + 1)
    }
}

/// `s` sorted by start location, keeping the order of items that start at the
/// same location.
pub open spec fn sort_by_low(s: Seq<SpanItem>) -> Seq<SpanItem>
    decreases s.len(),
{
    if s.len() == 0 {
        seq![]
    } else {
        let t = sort_by_low(s.drop_last());
        t.insert(low_insert_pos(t, s.last().0, 0), s.last())
    }
}

/// The mathematical value of a span on a line.
pub open spec fn item_view(x: (Location, Location, Option<String>)) -> SpanItem {
    (x.0, x.1, match x.2 {
        Some(l) => Some(l@),
        None => None,
    })
}

/// The primary spans `ps` and the labeled spans `ls`, primary ones first, as
/// start and end locations.
pub open spec fn span_ranges(ps: Seq<(Location, Location)>, ls: Seq<(Location, Location, Seq<char>)>) -> Seq<(Location, Location)> {
    ps + ls.map_values(|l: (Location, Location, Seq<char>)| (l.0, l.1))
}

/// Refers to a span of a [`LineMap`]: the index of a primary or of a labeled span.
#[derive(Debug, Clone, Copy, PartialEq, Eq, Hash, Structural)]
pub enum SpanRef {
    /// A primary span.
    Primary(usize),
    /// A labeled span.
    Label(usize),
}

/// The spans of a diagnostic resolved to locations in its source, and the
/// lines of the source they lie on.
#[derive(Debug)]
pub struct LineMap<'a> {
    /// The source the spans point into.
    source: &'a Source<'a>,
    /// The primary spans, each as its start and end location.
    primary_spans: Vec<(Location, Location)>,
    /// The labeled spans, each as its start and end location and its label.
    label_spans: Vec<(Location, Location, String)>,
}

impl<'a> LineMap<'a> {
    /// The source the spans point into.
    pub closed spec fn spec_source(&self) -> Source<'a> {
        *self.source
    }

    /// The primary spans, as start and end locations.
    pub closed spec fn prims(&self) -> Seq<(Location, Location)> {
        self.primary_spans@
    }

    /// The labeled spans, as start and end locations and labels.
    pub closed spec fn labs(&self) -> Seq<(Location, Location, Seq<char>)> {
        self.label_spans@.map_values(|l: (Location, Location, String)| (l.0, l.1, l.2@))
    }

    /// All spans, primary ones first, as start and end locations.
    pub open spec fn ranges(&self) -> Seq<(Location, Location)> {
        span_ranges(self.prims(), self.labs())
    }

    /// Every location lies on a line numbered from one.
    pub closed spec fn wf(&self) -> bool {
        &&& forall|i: int| 0 <= i < self.primary_spans@.len() ==> #[trigger] self.primary_spans@[i].0.line >= 1
            && self.primary_spans@[i].1.line >= 1
        &&& forall|i: int| 0 <= i < self.label_spans@.len() ==> #[trigger] self.label_spans@[i].0.line >= 1
            && self.label_spans@[i].1.line >= 1
    }

    /// Creates an empty line map for `source`.
    pub fn new(source: &'a Source<'a>) -> (r: Self)
        ensures
            r.spec_source() == *source,
            r.prims() == Seq::<(Location, Location)>::empty(),
            r.labs() == Seq::<(Location, Location, Seq<char>)>::empty(),
            r.wf(),
    {
        let r = LineMap { source, primary_spans: Vec::new(), label_spans: Vec::new() };
        assert(r.labs() =~= Seq::<(Location, Location, Seq<char>)>::empty());
        r
    }

    /// The start and end location of `span`.
    fn locations(&self, span: &crate::span::ByteSpan) -> (r: (Location, Location))
        requires
            span.low.0 <= self.spec_source().spec_bytes().len(),
            span.high.0 <= self.spec_source().spec_bytes().len(),
            self.spec_source().spec_bytes().len() < usize::MAX,
        ensures
            r.0 == location_of(self.spec_source().spec_bytes(), span.low.0 as int),
            r.1 == location_of(self.spec_source().spec_bytes(), span.high.0 as int),
            r.0.line >= 1,
            r.1.line >= 1,
    {
        let lo = self.source.get_pos_location(span.low);
        let hi = self.source.get_pos_location(span.high);
        (lo, hi)
    }

    /// Adds a primary span.
    pub fn insert_primary(&mut self, span: &crate::span::ByteSpan) -> (r: SpanRef)
        requires
            span.low.0 <= old(self).spec_source().spec_bytes().len(),
            span.high.0 <= old(self).spec_source().spec_bytes().len(),
            old(self).spec_source().spec_bytes().len() < usize::MAX,
            old(self).wf(),
        ensures
            final(self).wf(),
            r == SpanRef::Primary(old(self).prims().len() as usize),
            final(self).spec_source() == old(self).spec_source(),
            final(self).prims() == old(self).prims().push((
                location_of(old(self).spec_source().spec_bytes(), span.low.0 as int),
                location_of(old(self).spec_source().spec_bytes(), span.high.0 as int),
            )),
            final(self).labs() == old(self).labs(),
    {
        let r = SpanRef::Primary(self.primary_spans.len());
        let locs = self.locations(span);
        self.primary_spans.push(locs);
        proof {
            assert forall|i: int| 0 <= i < self.primary_spans@.len() implies #[trigger] self.primary_spans@[i].0.line >= 1
                && self.primary_spans@[i].1.line >= 1 by {
                if i < old(self).primary_spans@.len() {
                    assert(self.primary_spans@[i] == old(self).primary_spans@[i]);
                }
            }
        }
        r
    }

    /// Adds a labeled span.
    pub fn insert_label(&mut self, span: &crate::span::ByteSpan, label: &str) -> (r: SpanRef)
        requires
            span.low.0 <= old(self).spec_source().spec_bytes().len(),
            span.high.0 <= old(self).spec_source().spec_bytes().len(),
            old(self).spec_source().spec_bytes().len() < usize::MAX,
            old(self).wf(),
        ensures
            final(self).wf(),
            r == SpanRef::Label(old(self).labs().len() as usize),
            final(self).spec_source() == old(self).spec_source(),
            final(self).prims() == old(self).prims(),
            final(self).labs() == old(self).labs().push((
                location_of(old(self).spec_source().spec_bytes(), span.low.0 as int),
                location_of(old(self).spec_source().spec_bytes(), span.high.0 as int),
                label@,
            )),
    {
        let r = SpanRef::Label(self.label_spans.len());
        let (lo, hi) = self.locations(span);
        let ghost before = self.label_spans@;
        self.label_spans.push((lo, hi, label.to_owned()));
        assert(self.labs() =~= old(self).labs().push((lo, hi, label@)));
        proof {
            assert forall|i: int| 0 <= i < self.label_spans@.len() implies #[trigger] self.label_spans@[i].0.line >= 1
                && self.label_spans@[i].1.line >= 1 by {
                if i < old(self).label_spans@.len() {
                    assert(self.label_spans@[i] == old(self).label_spans@[i]);
                }
            }
        }
        r
    }
}


impl<'a> LineMap<'a> {
    /// Whether some span lies on the one-indexed line `n`.
    fn covers_line(&self, n: usize) -> (r: bool)
        ensures
            r == covered(self.ranges(), n as int),
    {
        let ghost rs = self.ranges();
        let ghost np = self.prims().len();
        let mut i: usize = 0;
        while i < self.primary_spans.len()
            invariant
                i <= self.prims().len(),
                rs == self.ranges(),
                np == self.prims().len(),
                forall|k: int| 0 <= k < i ==> !covers(#[trigger] rs[k], n as int),
            decreases self.primary_spans.len() - i,
        {
            let (lo, hi) = self.primary_spans[i];
            assert(rs[i as int] == self.prims()[i as int]);
            if lo.line <= n && n <= hi.line {
                return true;
            }
            i = i + 1;
        }
        let mut j: usize = 0;
        while j < self.label_spans.len()
            invariant
                j <= self.labs().len(),
                rs == self.ranges(),
                np == self.prims().len(),
                rs.len() == np + self.labs().len(),
                forall|k: int| 0 <= k < np + j ==> !covers(#[trigger] rs[k], n as int),
            decreases self.label_spans.len() - j,
        {
            let lo = self.label_spans[j].0;
            let hi = self.label_spans[j].1;
            assert(rs[np + j] == (self.labs()[j as int].0, self.labs()[j as int].1));
            if lo.line <= n && n <= hi.line {
                return true;
            }
            j = j + 1;
        }
        false
    }

    /// Returns the lowest one-indexed line number a span lies on.
    pub fn min_line_nr(&self) -> (r: Option<usize>)
        ensures
            r == min_line(self.ranges()),
    {
        let ghost rs = self.ranges();
        let ghost np = self.prims().len() as int;
        let mut m: Option<usize> = None;
        let mut i: usize = 0;
        assert(rs.subrange(0, 0) =~= Seq::<(Location, Location)>::empty());
        while i < self.primary_spans.len()
            invariant
                i <= np,
                rs == self.ranges(),
                np == self.prims().len(),
                rs.len() == np + self.labs().len(),
                m == min_line(rs.subrange(0, i as int)),
            decreases self.primary_spans.len() - i,
        {
            let (lo, hi) = self.primary_spans[i];
            proof {
                assert(rs[i as int] == self.prims()[i as int]);
                assert(rs.subrange(0, i + 1).drop_last() =~= rs.subrange(0, i as int));
            }
            if lo.line <= hi.line {
                m = match m {
                    None => Some(lo.line),
                    Some(x) => if lo.line < x { Some(lo.line) } else { Some(x) },
                };
            }
            i = i + 1;
        }
        let mut j: usize = 0;
        while j < self.label_spans.len()
            invariant
                j <= self.labs().len(),
                rs == self.ranges(),
                np == self.prims().len(),
                rs.len() == np + self.labs().len(),
                m == min_line(rs.subrange(0, np + j)),
            decreases self.label_spans.len() - j,
        {
            let lo = self.label_spans[j].0;
            let hi = self.label_spans[j].1;
            proof {
                assert(rs[np + j] == (self.labs()[j as int].0, self.labs()[j as int].1));
                assert(rs.subrange(0, np + j + 1).drop_last() =~= rs.subrange(0, np + j));
            }
            if lo.line <= hi.line {
                m = match m {
                    None => Some(lo.line),
                    Some(x) => if lo.line < x { Some(lo.line) } else { Some(x) },
                };
            }
            j = j + 1;
        }
        assert(rs.subrange(0, np + j) =~= rs);
        m
    }

    /// Returns the highest one-indexed line number a span lies on.
    pub fn max_line_nr(&self) -> (r: Option<usize>)
        ensures
            r == max_line(self.ranges()),
    {
        let ghost rs = self.ranges();
        let ghost np = self.prims().len() as int;
        let mut m: Option<usize> = None;
        let mut i: usize = 0;
        assert(rs.subrange(0, 0) =~= Seq::<(Location, Location)>::empty());
        while i < self.primary_spans.len()
            invariant
                i <= np,
                rs == self.ranges(),
                np == self.prims().len(),
                rs.len() == np + self.labs().len(),
                m == max_line(rs.subrange(0, i as int)),
            decreases self.primary_spans.len() - i,
        {
            let (lo, hi) = self.primary_spans[i];
            proof {
                assert(rs[i as int] == self.prims()[i as int]);
                assert(rs.subrange(0, i + 1).drop_last() =~= rs.subrange(0, i as int));
            }
            if lo.line <= hi.line {
                m = match m {
                    None => Some(hi.line),
                    Some(x) => if hi.line > x { Some(hi.line) } else { Some(x) },
                };
            }
            i = i + 1;
        }
        let mut j: usize = 0;
        while j < self.label_spans.len()
            invariant
                j <= self.labs().len(),
                rs == self.ranges(),
                np == self.prims().len(),
                rs.len() == np + self.labs().len(),
                m == max_line(rs.subrange(0, np + j)),
            decreases self.label_spans.len() - j,
        {
            let lo = self.label_spans[j].0;
            let hi = self.label_spans[j].1;
            proof {
                assert(rs[np + j] == (self.labs()[j as int].0, self.labs()[j as int].1));
                assert(rs.subrange(0, np + j + 1).drop_last() =~= rs.subrange(0, np + j));
            }
            if lo.line <= hi.line {
                m = match m {
                    None => Some(hi.line),
                    Some(x) => if hi.line > x { Some(hi.line) } else { Some(x) },
                };
            }
            j = j + 1;
        }
        assert(rs.subrange(0, np + j) =~= rs);
        m
    }

    /// The smallest start location: of the primary spans if there are any,
    /// else of the labeled spans.
    pub open spec fn spec_min_location(&self) -> Option<Location> {
        match min_loc(self.prims().map_values(|p: (Location, Location)| p.0)) {
            Some(l) => Some(l),
            None => min_loc(self.labs().map_values(|l: (Location, Location, Seq<char>)| l.0)),
        }
    }

    /// Returns the smallest start location of the primary spans if there are
    /// any, else of the labeled spans.
    pub fn min_location(&self) -> (r: Option<Location>)
        ensures
            r == self.spec_min_location(),
    {
        let ghost ps = self.prims().map_values(|p: (Location, Location)| p.0);
        let mut m: Option<Location> = None;
        let mut i: usize = 0;
        assert(ps.subrange(0, 0) =~= Seq::<Location>::empty());
        while i < self.primary_spans.len()
            invariant
                i <= self.prims().len(),
                ps == self.prims().map_values(|p: (Location, Location)| p.0),
                m == min_loc(ps.subrange(0, i as int)),
            decreases self.primary_spans.len() - i,
        {
            let lo = self.primary_spans[i].0;
            proof {
                assert(ps[i as int] == lo);
                assert(ps.subrange(0, i + 1).drop_last() =~= ps.subrange(0, i as int));
            }
            m = match m {
                None => Some(lo),
                Some(x) => if lo.line < x.line || (lo.line == x.line && lo.column < x.column) { Some(lo) } else { Some(x) },
            };
            i = i + 1;
        }
        assert(ps.subrange(0, i as int) =~= ps);
        if m.is_some() {
            return m;
        }
        let ghost ls = self.labs().map_values(|l: (Location, Location, Seq<char>)| l.0);
        let mut j: usize = 0;
        assert(ls.subrange(0, 0) =~= Seq::<Location>::empty());
        while j < self.label_spans.len()
            invariant
                j <= self.labs().len(),
                ls == self.labs().map_values(|l: (Location, Location, Seq<char>)| l.0),
                m == min_loc(ls.subrange(0, j as int)),
            decreases self.label_spans.len() - j,
        {
            let lo = self.label_spans[j].0;
            proof {
                assert(ls[j as int] == lo);
                assert(ls.subrange(0, j + 1).drop_last() =~= ls.subrange(0, j as int));
            }
            m = match m {
                None => Some(lo),
                Some(x) => if lo.line < x.line || (lo.line == x.line && lo.column < x.column) { Some(lo) } else { Some(x) },
            };
            j = j + 1;
        }
        assert(ls.subrange(0, j as int) =~= ls);
        m
    }

    /// Returns the one-indexed numbers of all lines a span lies on, ascending.
    pub fn line_nrs(&self) -> (r: Vec<usize>)
        ensures
            r@ == line_numbers(self.ranges()),
            forall|i: int, j: int| 0 <= i < j < r@.len() ==> r@[i] < r@[j],
            forall|i: int| 0 <= i < r@.len() ==> covered(self.ranges(), #[trigger] r@[i] as int),
            forall|n: usize| covered(self.ranges(), n as int) ==> #[trigger] r@.contains(n),
            r@.len() > 0 <==> min_line(self.ranges()) is Some,
            min_line(self.ranges()) matches Some(a) ==> r@[0] == a,
            max_line(self.ranges()) matches Some(b) ==> r@.last() == b,
            self.wf() ==> forall|i: int| 0 <= i < r@.len() ==> #[trigger] r@[i] >= 1,
    {
        proof {
            law_shown_lines_are_spanned_lines(self.ranges());
            law_line_numbers_from_min_to_max(self.ranges());
            if self.wf() {
                self.lemma_ranges_positive();
            }
        }
        let ghost rs = self.ranges();
        let lo = self.min_line_nr();
        let hi = self.max_line_nr();
        let mut out: Vec<usize> = Vec::new();
        match (lo, hi) {
            (Some(a), Some(b)) => {
                if a <= b {
                    let mut n: usize = a;
                    loop
                        invariant_except_break
                            a <= n <= b,
                            rs == self.ranges(),
                            out@ == lines_between(rs, a as int, n - 1),
                        ensures
                            out@ == lines_between(rs, a as int, b as int),
                        decreases b - n,
                    {
                        let c = self.covers_line(n);
                        if c {
                            out.push(n);
                        }
                        assert(out@ =~= lines_between(rs, a as int, n as int));
                        if n == b {
                            break;
                        }
                        n = n + 1;
                    }
                }
            },
            _ => {},
        }
        out
    }

    /// Returns the text of the one-indexed line `line_nr` if a span lies on it.
    pub fn line(&self, line_nr: usize) -> (r: Option<String>)
        requires
            line_nr >= 1,
        ensures
            match r {
                Some(t) => covered(self.ranges(), line_nr as int)
                    && t@ == line_text(self.spec_source().content@, line_nr - 1),
                None => !covered(self.ranges(), line_nr as int),
            },
    {
        if self.covers_line(line_nr) {
            Some(get_idx_line(self.source.content, line_nr - 1))
        } else {
            None
        }
    }
}

/// The mathematical value of the spans of a line.
pub open spec fn items_view(v: Seq<(Location, Location, Option<String>)>) -> Seq<SpanItem> {
    v.map_values(|x: (Location, Location, Option<String>)| item_view(x))
}

impl<'a> LineMap<'a> {
    /// The spans on the one-indexed line `n`: primary ones first, each kind in
    /// the order it was added.
    pub open spec fn items_on(&self, n: int) -> Seq<SpanItem> {
        primary_items_on(self.prims(), n) + label_items_on(self.labs(), n)
    }

    /// Returns the spans on the one-indexed line `line_nr`, sorted by start
    /// location, if there are any.
    pub fn line_spans_sorted(&self, line_nr: usize) -> (r: Option<Vec<(Location, Location, Option<String>)>>)
        requires
            line_nr >= 1,
        ensures
            match r {
                Some(v) => covered(self.ranges(), line_nr as int)
                    && items_view(v@) == sort_by_low(self.items_on(line_nr as int)),
                None => !covered(self.ranges(), line_nr as int),
            },
    {
        if !self.covers_line(line_nr) {
            return None;
        }
        let ghost n = line_nr as int;
        let ghost ps = self.prims();
        let ghost ls = self.labs();
        let mut items: Vec<(Location, Location, Option<String>)> = Vec::new();
        let mut i: usize = 0;
        assert(ps.subrange(0, 0) =~= Seq::<(Location, Location)>::empty());
        assert(items_view(items@) =~= Seq::<SpanItem>::empty());
        while i < self.primary_spans.len()
            invariant
                i <= ps.len(),
                ps == self.prims(),
                n == line_nr,
                items_view(items@) == primary_items_on(ps.subrange(0, i as int), n),
            decreases self.primary_spans.len() - i,
        {
            let (lo, hi) = self.primary_spans[i];
            proof {
                assert(ps.subrange(0, i + 1).drop_last() =~= ps.subrange(0, i as int));
                assert(ps.subrange(0, i + 1).last() == (lo, hi));
            }
            if lo.line <= line_nr && line_nr <= hi.line {
                items.push((lo, hi, None));
            }
            assert(items_view(items@) =~= primary_items_on(ps.subrange(0, i + 1), n));
            i = i + 1;
        }
        assert(ps.subrange(0, i as int) =~= ps);
        let ghost base = items_view(items@);
        let mut j: usize = 0;
        assert(ls.subrange(0, 0) =~= Seq::<(Location, Location, Seq<char>)>::empty());
        while j < self.label_spans.len()
            invariant
                j <= ls.len(),
                ls == self.labs(),
                n == line_nr,
                base == primary_items_on(ps, n),
                ps == self.prims(),
                items_view(items@) == base + label_items_on(ls.subrange(0, j as int), n),
            decreases self.label_spans.len() - j,
        {
            let lo = self.label_spans[j].0;
            let hi = self.label_spans[j].1;
            proof {
                assert(ls.subrange(0, j + 1).drop_last() =~= ls.subrange(0, j as int));
                assert(ls[j as int] == (lo, hi, self.label_spans@[j as int].2@));
                assert(ls.subrange(0, j + 1).last() == ls[j as int]);
            }
            let ghost before = items@;
            if lo.line <= line_nr && line_nr <= hi.line {
                let label = self.label_spans[j].2.clone();
                assert(label@ == ls[j as int].2);
                items.push((lo, hi, Some(label)));
                assert(items_view(items@) =~= items_view(before).push((lo, hi, Some(ls[j as int].2))));
            }
            assert(items_view(items@) =~= base + label_items_on(ls.subrange(0, j + 1), n));
            j = j + 1;
        }
        assert(ls.subrange(0, j as int) =~= ls);
        let ghost all = items_view(items@);
        assert(all == self.items_on(n));
        let total = items.len();
        let mut rest = items;
        let mut out: Vec<(Location, Location, Option<String>)> = Vec::new();
        let mut k: usize = 0;
        assert(all.subrange(0, 0) =~= Seq::<SpanItem>::empty());
        assert(items_view(out@) =~= Seq::<SpanItem>::empty());
        while rest.len() > 0
            invariant
                k <= all.len(),
                total == all.len(),
                items_view(rest@) == all.subrange(k as int, all.len() as int),
                items_view(out@) == sort_by_low(all.subrange(0, k as int)),
            decreases rest.len(),
        {
            let ghost rv = rest@;
            let e = rest.remove(0);
            proof {
                assert(item_view(e) == items_view(rv)[0]);
                assert(items_view(rest@) =~= items_view(rv).drop_first());
            }
            let ghost t = items_view(out@);
            let mut p: usize = 0;
            while p < out.len()
                invariant
                    p <= out@.len(),
                    items_view(out@) == t,
                    low_insert_pos(t, e.0, 0) == low_insert_pos(t, e.0, p as int),
                ensures
                    low_insert_pos(t, e.0, 0) == p,
                decreases out.len() - p,
            {
                let s0 = out[p].0;
                assert(t[p as int].0 == s0);
                if e.0.line < s0.line || (e.0.line == s0.line && e.0.column < s0.column) {
                    break;
                }
                p = p + 1;
            }
            proof {
                let pre = all.subrange(0, k + 1);
                assert(pre.drop_last() =~= all.subrange(0, k as int));
                assert(pre.last() == item_view(e));
            }
            let ghost ov = out@;
            out.insert(p, e);
            assert(items_view(out@) =~= items_view(ov).insert(p as int, item_view(e)));
            k = k + 1;
            proof {
                assert(items_view(rest@) =~= all.subrange(k as int, all.len() as int));
            }
        }
        assert(all.subrange(0, k as int) =~= all);
        Some(out)
    }
}

/// The elements of [`lines_between`] are lines from `a` to `b` that some span lies on.
proof fn lemma_lines_between(rs: Seq<(Location, Location)>, a: int, b: int)
    requires
        0 <= a,
        b <= usize::MAX,
    ensures
        forall|i: int| 0 <= i < lines_between(rs, a, b).len() ==> {
            let x = #[trigger] lines_between(rs, a, b)[i];
            &&& a <= x <= b
            &&& covered(rs, x as int)
        },
    decreases b - a + 1,
{
    if b >= a {
        lemma_lines_between(rs, a, b - 1);
        let prev = lines_between(rs, a, b - 1);
        let all = lines_between(rs, a, b);
        assert forall|i: int| 0 <= i < all.len() implies {
            let x = #[trigger] all[i];
            &&& a <= x <= b
            &&& covered(rs, x as int)
        } by {
            if i < prev.len() {
                assert(all[i] == prev[i]);
            } else {
                assert(all[i] == b as usize);
            }
        }
    }
}

/// The lowest line of spans that lie on lines numbered from one is at least one.
proof fn lemma_min_line_positive(rs: Seq<(Location, Location)>)
    requires
        forall|i: int| 0 <= i < rs.len() ==> (#[trigger] rs[i]).0.line >= 1,
    ensures
        min_line(rs) matches Some(x) ==> x >= 1,
    decreases rs.len(),
{
    if rs.len() > 0 {
        lemma_min_line_positive(rs.drop_last());
    }
}

/// The text a source's origin is displayed as: the path of its file.
pub open spec fn origin_text(o: SourceOrigin) -> Seq<char> {
    match o {
        SourceOrigin::File(p) => p@,
        SourceOrigin::Anonymous => "<anonymous>"@,
    }
}

/// The text a location is displayed as: its line and column.
pub open spec fn location_text(l: Location) -> Seq<char> {
    decimal(l.line as nat) + ":"@ + decimal(l.column as nat)
}

/// The spaces before the number `n` in a gutter `w` characters wide.
pub open spec fn gutter_pad(w: nat, n: usize) -> Seq<char> {
    let d = decimal(n as nat).len();
    repeat_char(' ', if w >= d { (w - d) as nat } else { 0 })
}

/// The length of the UTF-8 encoding of `s`, as `str::len` gives it.
pub open spec fn byte_len(s: Seq<char>) -> usize {
    vstd::utf8::encode_utf8(s).len() as usize
}

/// The line below line `n` (with the text `line`) that marks the span `item`:
/// `^` below a primary span, `-` and the label below a labeled span.
pub open spec fn span_piece(pad: Seq<char>, n: usize, line: Seq<char>, item: SpanItem) -> Seq<char> {
    let low_c: int = if item.0.line != n { 0 } else { item.0.column as int };
    let ends = item.1.line == n;
    let high_c: int = if !ends { byte_len(line) as int } else { item.1.column as int };
    let mark = if item.2 is Some { '-' } else { '^' };
    let width: nat = if high_c >= low_c { (high_c - low_c) as nat } else { 0 };
    "\n "@ + pad + " "@ + framed("|"@) + " "@ + repeat_char(' ', low_c as nat) + framed(repeat_char(mark, width))
        + match item.2 {
            Some(l) => if ends { " "@ + framed(l) } else { seq![] },
            None => seq![],
        }
}

/// The lines that mark the spans `items` below line `n`.
pub open spec fn spans_text(pad: Seq<char>, n: usize, line: Seq<char>, items: Seq<SpanItem>) -> Seq<char>
    decreases items.len(),
{
    if items.len() == 0 {
        seq![]
    } else {
        spans_text(pad, n, line, items.drop_last()) + span_piece(pad, n, line, items.last())
    }
}

/// The start of the block of line `n` (with the text `line`) in a gutter `w`
/// wide: after `prev`, `...` if lines lie between them; then the number and the text.
pub open spec fn line_head(w: nat, n: usize, prev: Option<usize>, line: Seq<char>) -> Seq<char> {
    let gap = match prev {
        Some(l) => if n - l > 1 { "\n "@ + framed("..."@) } else { seq![] },
        None => seq![],
    };
    gap + "\n "@ + gutter_pad(w, n) + decimal(n as nat) + " "@ + framed("|"@) + " "@ + expand_tabs(line)
}

/// Line `n` of the text `c` in a gutter `w` wide, the spans of `ps` and `ls`
/// on it marked below; after `prev`, with `...` between them if lines lie between.
pub open spec fn line_block(
    c: Seq<char>,
    ps: Seq<(Location, Location)>,
    ls: Seq<(Location, Location, Seq<char>)>,
    w: nat,
    n: usize,
    prev: Option<usize>,
) -> Seq<char> {
    let line = line_text(c, n - 1);
    line_head(w, n, prev, line)
        + spans_text(repeat_char(' ', w), n, line, sort_by_low(primary_items_on(ps, n as int) + label_items_on(ls, n as int)))
}

/// The blocks of the lines `nrs`, in order.
pub open spec fn lines_text(
    c: Seq<char>,
    ps: Seq<(Location, Location)>,
    ls: Seq<(Location, Location, Seq<char>)>,
    w: nat,
    nrs: Seq<usize>,
) -> Seq<char>
    decreases nrs.len(),
{
    if nrs.len() == 0 {
        seq![]
    } else {
        let prev = if nrs.len() >= 2 { Some(nrs[nrs.len() - 2]) } else { None };
        lines_text(c, ps, ls, w, nrs.drop_last()) + line_block(c, ps, ls, w, nrs.last(), prev)
    }
}

/// The descriptions `ds`, each on a line of its own.
pub open spec fn descriptions_text(pad: Seq<char>, ds: Seq<Seq<char>>) -> Seq<char>
    decreases ds.len(),
{
    if ds.len() == 0 {
        seq![]
    } else {
        descriptions_text(pad, ds.drop_last()) + "\n "@ + pad + " "@ + framed("="@) + " "@ + ds.last()
    }
}

/// The width of the gutter of line numbers: the digits of the highest line.
pub open spec fn gutter_width(rs: Seq<(Location, Location)>) -> nat {
    match max_line(rs) {
        Some(m) => decimal(m as nat).len(),
        None => 0,
    }
}

/// The text that places the source: the origin of `src` and the smallest start
/// location of the primary spans `ps`, else of the labeled spans `ls`.
pub open spec fn place_text(src: Source, ps: Seq<(Location, Location)>, ls: Seq<(Location, Location, Seq<char>)>) -> Seq<char> {
    origin_text(src.origin) + match min_loc(ps.map_values(|p: (Location, Location)| p.0)) {
        Some(l) => ":"@ + location_text(l),
        None => match min_loc(ls.map_values(|l: (Location, Location, Seq<char>)| l.0)) {
            Some(l) => ":"@ + location_text(l),
            None => seq![],
        },
    }
}

/// The frame with the source lines of a diagnostic with the primary spans `ps`
/// and the labeled spans `ls`, with the gutter padding `pad` `w` wide.
pub open spec fn frame_text(
    src: Source,
    ps: Seq<(Location, Location)>,
    ls: Seq<(Location, Location, Seq<char>)>,
    w: nat,
    pad: Seq<char>,
) -> Seq<char> {
    "\n "@ + pad + framed("-->"@) + " "@ + place_text(src, ps, ls)
        + "\n "@ + pad + " "@ + framed("|"@)
        + lines_text(src.content@, ps, ls, w, line_numbers(span_ranges(ps, ls)))
        + "\n "@ + pad + " "@ + framed("|"@)
}

/// A diagnostic formatted for the terminal: the message `msg` in bold; where
/// spans are given, the origin of `src` with the smallest start location, and
/// each line a span lies on with the spans marked below it; then the
/// descriptions `ds`.
pub open spec fn format_text(
    src: Source,
    msg: Seq<char>,
    ps: Seq<(Location, Location)>,
    ls: Seq<(Location, Location, Seq<char>)>,
    ds: Seq<Seq<char>>,
) -> Seq<char> {
    let rs = span_ranges(ps, ls);
    let w = gutter_width(rs);
    let pad = repeat_char(' ', w);
    ansi_bold(msg) + if max_line(rs) is Some {
        frame_text(src, ps, ls, w, pad)
    } else {
        seq![]
    } + descriptions_text(pad, ds)
}

/// Appends the decimal digits of `n` to `s`; returns how many there are.
fn push_number(s: &mut String, n: usize) -> (r: usize)
    ensures
        final(s)@ == old(s)@ + decimal(n as nat),
        r == decimal(n as nat).len(),
{
    let mut d = String::new();
    push_decimal(&mut d, n);
    let cs = crate::transform::chars_of(d.as_str());
    append(s, d.as_str());
    cs.len()
}

/// The number of decimal digits of `n`.
fn digits(n: usize) -> (r: usize)
    ensures
        r == decimal(n as nat).len(),
{
    let mut d = String::new();
    push_number(&mut d, n)
}

/// Appends the mark of the span `item` below line `n` (with the text `line`) to `out`.
fn push_span_piece(out: &mut String, pad: &str, n: usize, line: &str, item: &(Location, Location, Option<String>))
    ensures
        final(out)@ == old(out)@ + span_piece(pad@, n, line@, item_view(*item)),
{
    let low_c: usize = if item.0.line != n { 0 } else { item.0.column };
    let ends = item.1.line == n;
    let high_c: usize = if !ends { line.len() } else { item.1.column };
    let width: usize = if high_c >= low_c { high_c - low_c } else { 0 };
    let mark = if item.2.is_some() { '-' } else { '^' };
    let mut piece = String::new();
    append(&mut piece, "\n ");
    append(&mut piece, pad);
    append(&mut piece, " ");
    let bar = framed_text("|");
    append(&mut piece, bar.as_str());
    append(&mut piece, " ");
    push_repeat(&mut piece, ' ', low_c);
    let mut marks = String::new();
    push_repeat(&mut marks, mark, width);
    let styled = framed_text(marks.as_str());
    append(&mut piece, styled.as_str());
    let ghost body = piece@;
    proof {
        reveal_strlit("\n ");
        reveal_strlit(" ");
        assert(marks@ =~= repeat_char(mark, width as nat));
        assert(body =~= "\n "@ + pad@ + " "@ + framed("|"@) + " "@ + repeat_char(' ', low_c as nat)
            + framed(repeat_char(mark, width as nat)));
    }
    let mut tail = String::new();
    match &item.2 {
        Some(l) => {
            if ends {
                append(&mut tail, " ");
                let sl = framed_text(l.as_str());
                append(&mut tail, sl.as_str());
            }
        },
        None => {},
    }
    proof {
        let iv = item_view(*item);
        assert(iv.0 == item.0 && iv.1 == item.1);
        assert(tail@ =~= match iv.2 {
            Some(l) => if ends { " "@ + framed(l) } else { seq![] },
            None => seq![],
        });
        assert(body + tail@ =~= span_piece(pad@, n, line@, iv));
    }
    append(&mut piece, tail.as_str());
    append(out, piece.as_str());
    assert(out@ =~= old(out)@ + span_piece(pad@, n, line@, item_view(*item)));
}

/// Appends the start of the block of line `n` (with the text `line`) to `out`.
fn push_line_head(out: &mut String, w: usize, n: usize, prev: Option<usize>, line: &str)
    ensures
        final(out)@ == old(out)@ + line_head(w as nat, n, prev, line@),
{
    let mut head = String::new();
    match prev {
        Some(l) => {
            if n > l && n - l > 1 {
                append(&mut head, "\n ");
                let dots = framed_text("...");
                append(&mut head, dots.as_str());
            }
        },
        None => {},
    }
    let ghost gap = head@;
    let d = digits(n);
    append(&mut head, "\n ");
    let fill: usize = if w >= d { w - d } else { 0 };
    push_repeat(&mut head, ' ', fill);
    push_number(&mut head, n);
    append(&mut head, " ");
    let bar = framed_text("|");
    append(&mut head, bar.as_str());
    append(&mut head, " ");
    push_expanded(&mut head, line);
    proof {
        reveal_strlit("\n ");
        reveal_strlit(" ");
        assert(gap =~= match prev {
            Some(l) => if n - l > 1 { "\n "@ + framed("..."@) } else { seq![] },
            None => seq![],
        });
        assert(head@ =~= line_head(w as nat, n, prev, line@));
    }
    append(out, head.as_str());
}

impl<'a> LineMap<'a> {
    /// Appends the marks of the spans on line `n` (with the text `line`) to `out`.
    fn push_spans(&self, out: &mut String, pad: &str, n: usize, line: &str)
        requires
            n >= 1,
            covered(self.ranges(), n as int),
        ensures
            final(out)@ == old(out)@ + spans_text(pad@, n, line@, sort_by_low(self.items_on(n as int))),
    {
        let ghost head = out@;
        let items = match self.line_spans_sorted(n) {
            Some(v) => v,
            None => Vec::new(),
        };
        let ghost iv = items_view(items@);
        let mut i: usize = 0;
        assert(iv.subrange(0, 0) =~= Seq::<SpanItem>::empty());
        while i < items.len()
            invariant
                i <= items@.len(),
                iv == items_view(items@),
                out@ == head + spans_text(pad@, n, line@, iv.subrange(0, i as int)),
            decreases items.len() - i,
        {
            push_span_piece(out, pad, n, line, &items[i]);
            proof {
                assert(iv.subrange(0, i + 1).drop_last() =~= iv.subrange(0, i as int));
                assert(iv[i as int] == item_view(items@[i as int]));
            }
            i = i + 1;
        }
        assert(iv.subrange(0, i as int) =~= iv);
    }

    /// Appends the block of line `n` in a gutter `w` wide, after the line `prev`, to `out`.
    fn push_line_block(&self, out: &mut String, pad: &str, w: usize, n: usize, prev: Option<usize>)
        requires
            n >= 1,
            covered(self.ranges(), n as int),
            pad@ == repeat_char(' ', w as nat),
        ensures
            final(out)@ == old(out)@ + line_block(self.spec_source().content@, self.prims(), self.labs(), w as nat, n, prev),
    {
        let line = match self.line(n) {
            Some(t) => t,
            None => String::new(),
        };
        push_line_head(out, w, n, prev, line.as_str());
        self.push_spans(out, pad, n, line.as_str());
        assert(out@ =~= old(out)@ + line_block(self.spec_source().content@, self.prims(), self.labs(), w as nat, n, prev));
    }
}


impl<'a> LineMap<'a> {
    /// Every span lies on lines numbered from one.
    proof fn lemma_ranges_positive(&self)
        requires
            self.wf(),
        ensures
            forall|i: int| 0 <= i < self.ranges().len() ==> (#[trigger] self.ranges()[i]).0.line >= 1,
    {
        let rs = self.ranges();
        let np = self.prims().len() as int;
        assert forall|i: int| 0 <= i < rs.len() implies (#[trigger] rs[i]).0.line >= 1 by {
            if i < np {
                assert(rs[i] == self.primary_spans@[i]);
            } else {
                assert(rs[i].0 == self.label_spans@[i - np].0);
            }
        }
    }

    /// The lines some span lies on are numbered from one.
    proof fn lemma_line_numbers(&self)
        requires
            self.wf(),
        ensures
            forall|i: int| 0 <= i < line_numbers(self.ranges()).len() ==> {
                let x = #[trigger] line_numbers(self.ranges())[i];
                &&& x >= 1
                &&& covered(self.ranges(), x as int)
            },
    {
        let rs = self.ranges();
        self.lemma_ranges_positive();
        lemma_min_line_positive(rs);
        match (min_line(rs), max_line(rs)) {
            (Some(a), Some(b)) => {
                lemma_lines_between(rs, a as int, b as int);
            },
            _ => {},
        }
    }
}

/// Formats a diagnostic for the terminal.
#[derive(Debug)]
pub struct DiagnosticFormatter<'a> {
    /// The source the diagnostic refers to.
    source: &'a Source<'a>,
    /// The message of the diagnostic.
    msg: String,
    /// The lines of the description of the diagnostic.
    descriptions: Vec<String>,
    /// The spans of the diagnostic.
    line_map: LineMap<'a>,
}

impl<'a> DiagnosticFormatter<'a> {
    /// The source the diagnostic refers to.
    pub closed spec fn spec_source(&self) -> Source<'a> {
        *self.source
    }

    /// The message of the diagnostic.
    pub closed spec fn spec_msg(&self) -> Seq<char> {
        self.msg@
    }

    /// The lines of the description.
    pub closed spec fn descs(&self) -> Seq<Seq<char>> {
        self.descriptions@.map_values(|d: String| d@)
    }

    /// The primary spans, as start and end locations.
    pub closed spec fn prims(&self) -> Seq<(Location, Location)> {
        self.line_map.prims()
    }

    /// The labeled spans, as start and end locations and labels.
    pub closed spec fn labs(&self) -> Seq<(Location, Location, Seq<char>)> {
        self.line_map.labs()
    }

    /// The spans lie on lines numbered from one and point into the source.
    pub closed spec fn wf(&self) -> bool {
        &&& self.line_map.wf()
        &&& self.line_map.spec_source() == *self.source
    }

    /// The text the formatter gives.
    pub open spec fn spec_text(&self) -> Seq<char> {
        format_text(self.spec_source(), self.spec_msg(), self.prims(), self.labs(), self.descs())
    }

    /// Creates a formatter for a diagnostic about `source` with the message `msg`.
    pub fn new(source: &'a Source<'a>, msg: &str) -> (r: Self)
        ensures
            r.wf(),
            r.spec_source() == *source,
            r.spec_msg() == msg@,
            r.descs() == Seq::<Seq<char>>::empty(),
            r.prims() == Seq::<(Location, Location)>::empty(),
            r.labs() == Seq::<(Location, Location, Seq<char>)>::empty(),
    {
        let r = DiagnosticFormatter { source, msg: msg.to_owned(), descriptions: Vec::new(), line_map: LineMap::new(source) };
        assert(r.descs() =~= Seq::<Seq<char>>::empty());
        r
    }

    /// Adds a line of description.
    pub fn description(&mut self, description: &str)
        requires
            old(self).wf(),
        ensures
            final(self).wf(),
            final(self).spec_source() == old(self).spec_source(),
            final(self).spec_msg() == old(self).spec_msg(),
            final(self).descs() == old(self).descs().push(description@),
            final(self).prims() == old(self).prims(),
            final(self).labs() == old(self).labs(),
    {
        self.descriptions.push(description.to_owned());
        assert(self.descs() =~= old(self).descs().push(description@));
    }

    /// Adds a primary span.
    pub fn primary_span(&mut self, span: &crate::span::ByteSpan)
        requires
            old(self).wf(),
            span.low.0 <= old(self).spec_source().spec_bytes().len(),
            span.high.0 <= old(self).spec_source().spec_bytes().len(),
            old(self).spec_source().spec_bytes().len() < usize::MAX,
        ensures
            final(self).wf(),
            final(self).spec_source() == old(self).spec_source(),
            final(self).spec_msg() == old(self).spec_msg(),
            final(self).descs() == old(self).descs(),
            final(self).prims() == old(self).prims().push((
                location_of(old(self).spec_source().spec_bytes(), span.low.0 as int),
                location_of(old(self).spec_source().spec_bytes(), span.high.0 as int),
            )),
            final(self).labs() == old(self).labs(),
    {
        let _ = self.line_map.insert_primary(span);
    }

    /// Adds a labeled span.
    pub fn label_span(&mut self, span: &crate::span::ByteSpan, label: &str)
        requires
            old(self).wf(),
            span.low.0 <= old(self).spec_source().spec_bytes().len(),
            span.high.0 <= old(self).spec_source().spec_bytes().len(),
            old(self).spec_source().spec_bytes().len() < usize::MAX,
        ensures
            final(self).wf(),
            final(self).spec_source() == old(self).spec_source(),
            final(self).spec_msg() == old(self).spec_msg(),
            final(self).descs() == old(self).descs(),
            final(self).prims() == old(self).prims(),
            final(self).labs() == old(self).labs().push((
                location_of(old(self).spec_source().spec_bytes(), span.low.0 as int),
                location_of(old(self).spec_source().spec_bytes(), span.high.0 as int),
                label@,
            )),
    {
        let _ = self.line_map.insert_label(span, label);
    }

    /// Appends where the diagnostic points: the origin of the source and the
    /// smallest start location.
    fn push_place(&self, out: &mut String)
        requires
            self.wf(),
        ensures
            final(out)@ == old(out)@ + place_text(self.spec_source(), self.prims(), self.labs()),
    {
        let mut h = String::new();
        match self.source.origin() {
            SourceOrigin::File(p) => append(&mut h, p.as_str()),
            SourceOrigin::Anonymous => append(&mut h, "<anonymous>"),
        }
        let ghost h1 = h@;
        assert(h1 =~= origin_text(self.spec_source().origin));
        match self.line_map.min_location() {
            Some(l) => {
                append(&mut h, ":");
                push_number(&mut h, l.line);
                append(&mut h, ":");
                push_number(&mut h, l.column);
                assert(h@ =~= h1 + (":"@ + location_text(l)));
            },
            None => {
                assert(h@ =~= h1 + Seq::<char>::empty());
            },
        }
        assert(h@ =~= place_text(self.spec_source(), self.prims(), self.labs()));
        append(out, h.as_str());
    }

    /// Appends the header: where the diagnostic points, and the top of the frame.
    fn push_head(&self, out: &mut String, pad: &str)
        requires
            self.wf(),
        ensures
            final(out)@ == old(out)@ + "\n "@ + pad@ + framed("-->"@) + " "@
                + place_text(self.spec_source(), self.prims(), self.labs())
                + "\n "@ + pad@ + " "@ + framed("|"@),
    {
        let ghost o0 = old(out)@;
        append(out, "\n ");
        append(out, pad);
        let arrow = framed_text("-->");
        append(out, arrow.as_str());
        append(out, " ");
        let ghost o1 = out@;
        self.push_place(out);
        let ghost o2 = out@;
        append(out, "\n ");
        append(out, pad);
        append(out, " ");
        let bar = framed_text("|");
        append(out, bar.as_str());
        assert(out@ =~= o0 + "\n "@ + pad@ + framed("-->"@) + " "@
            + place_text(self.spec_source(), self.prims(), self.labs())
            + "\n "@ + pad@ + " "@ + framed("|"@));
    }

    /// Appends the frame with the source lines, in a gutter `w` wide.
    #[verifier::rlimit(40)]
    fn push_frame(&self, out: &mut String, pad: &str, w: usize)
        requires
            self.wf(),
            pad@ == repeat_char(' ', w as nat),
        ensures
            final(out)@ == old(out)@ + frame_text(self.spec_source(), self.prims(), self.labs(), w as nat, pad@),
    {
        let ghost o0 = old(out)@;
        self.push_head(out, pad);
        let ghost o1 = out@;
        self.line_map.push_lines(out, pad, w);
        let ghost o2 = out@;
        Self::push_foot(out, pad);
        assert(out@ =~= o0 + frame_text(self.spec_source(), self.prims(), self.labs(), w as nat, pad@));
    }

    /// Appends the closing of the frame.
    fn push_foot(out: &mut String, pad: &str)
        ensures
            final(out)@ == old(out)@ + "\n "@ + pad@ + " "@ + framed("|"@),
    {
        append(out, "\n ");
        append(out, pad);
        append(out, " ");
        let bar = framed_text("|");
        append(out, bar.as_str());
        assert(out@ =~= old(out)@ + "\n "@ + pad@ + " "@ + framed("|"@));
    }

    /// Appends the lines of the description.
    fn push_descriptions(&self, out: &mut String, pad: &str)
        ensures
            final(out)@ == old(out)@ + descriptions_text(pad@, self.descs()),
    {
        let ghost ds = self.descs();
        let ghost start = out@;
        let mut i: usize = 0;
        assert(ds.subrange(0, 0) =~= Seq::<Seq<char>>::empty());
        while i < self.descriptions.len()
            invariant
                i <= ds.len(),
                ds == self.descs(),
                out@ == start + descriptions_text(pad@, ds.subrange(0, i as int)),
            decreases self.descriptions.len() - i,
        {
            let ghost before = out@;
            append(out, "\n ");
            append(out, pad);
            append(out, " ");
            let eq = framed_text("=");
            append(out, eq.as_str());
            append(out, " ");
            append(out, self.descriptions[i].as_str());
            proof {
                let pre = ds.subrange(0, i + 1);
                assert(pre.drop_last() =~= ds.subrange(0, i as int));
                assert(pre.last() == self.descriptions@[i as int]@);
                assert(out@ =~= before + "\n "@ + pad@ + " "@ + framed("="@) + " "@ + pre.last());
            }
            i = i + 1;
        }
        assert(ds.subrange(0, i as int) =~= ds);
    }

    /// Formats everything added to the formatter into a text.
    pub fn finish(self) -> (r: String)
        requires
            self.wf(),
        ensures
            r@ == self.spec_text(),
    {
        let ghost rs = self.line_map.ranges();
        let mut out = bold_text(self.msg.as_str());
        let mut pad = String::new();
        let mut w: usize = 0;
        let ghost start = out@;
        match self.line_map.max_line_nr() {
            Some(m) => {
                w = digits(m);
                push_repeat(&mut pad, ' ', w);
                assert(pad@ =~= repeat_char(' ', w as nat));
                self.push_frame(&mut out, pad.as_str(), w);
            },
            None => {
                assert(pad@ =~= repeat_char(' ', w as nat));
            },
        }
        self.push_descriptions(&mut out, pad.as_str());
        assert(out@ =~= self.spec_text());
        out
    }
}

impl<'a> LineMap<'a> {
    /// Appends the blocks of all lines a span lies on, in a gutter `w` wide.
    fn push_lines(&self, out: &mut String, pad: &str, w: usize)
        requires
            self.wf(),
            pad@ == repeat_char(' ', w as nat),
        ensures
            final(out)@ == old(out)@ + lines_text(self.spec_source().content@, self.prims(), self.labs(), w as nat,
                line_numbers(self.ranges())),
    {
        let ghost rs = self.ranges();
        let ghost c = self.spec_source().content@;
        let ghost ps = self.prims();
        let ghost ls = self.labs();
        let ghost head = out@;
        let nrs = self.line_nrs();
        proof {
            self.lemma_line_numbers();
        }
        let mut i: usize = 0;
        assert(nrs@.subrange(0, 0) =~= Seq::<usize>::empty());
        while i < nrs.len()
            invariant
                i <= nrs@.len(),
                nrs@ == line_numbers(rs),
                rs == self.ranges(),
                pad@ == repeat_char(' ', w as nat),
                forall|k: int| 0 <= k < line_numbers(rs).len() ==> {
                    let x = #[trigger] line_numbers(rs)[k];
                    &&& x >= 1
                    &&& covered(rs, x as int)
                },
                c == self.spec_source().content@,
                ps == self.prims(),
                ls == self.labs(),
                out@ == head + lines_text(c, ps, ls, w as nat, nrs@.subrange(0, i as int)),
            decreases nrs.len() - i,
        {
            let n = nrs[i];
            let prev = if i > 0 { Some(nrs[i - 1]) } else { None };
            assert(nrs@[i as int] == line_numbers(rs)[i as int]);
            self.push_line_block(out, pad, w, n, prev);
            proof {
                let pre = nrs@.subrange(0, i + 1);
                assert(pre.drop_last() =~= nrs@.subrange(0, i as int));
                assert(pre.last() == n);
                if i > 0 {
                    assert(pre[pre.len() - 2] == nrs@[i - 1]);
                }
            }
            i = i + 1;
        }
        assert(nrs@.subrange(0, i as int) =~= nrs@);
    }
}


/// `t` without a carriage return at its end.
pub open spec fn strip_cr(t: Seq<char>) -> Seq<char> {
    if t.len() > 0 && t.last() == '\r' {
        t.drop_last()
    } else {
        t
    }
}

/// The lines of `s` as `str::lines` gives them: split at each line feed, with
/// a carriage return before it dropped, and no line after a final line feed.
pub open spec fn text_lines(s: Seq<char>) -> Seq<Seq<char>> {
    let p = split_lf(s);
    let done = p.drop_last().map_values(|t: Seq<char>| strip_cr(t));
    if p.last().len() == 0 {
        done
    } else {
        done.push(p.last())
    }
}

/// The string of the first `n` characters of `cs`.
fn string_of_chars(cs: &Vec<char>, n: usize) -> (r: String)
    requires
        n <= cs@.len(),
    ensures
        r@ == cs@.subrange(0, n as int),
{
    let mut out = String::new();
    let mut k: usize = 0;
    while k < n
        invariant
            k <= n <= cs@.len(),
            out@ == cs@.subrange(0, k as int),
        decreases n - k,
    {
        push_char(&mut out, cs[k]);
        k = k + 1;
        assert(out@ =~= cs@.subrange(0, k as int));
    }
    out
}

/// The string of the characters of `cs` without a carriage return at the end.
fn string_without_cr(cs: &Vec<char>) -> (r: String)
    ensures
        r@ == strip_cr(cs@),
{
    if cs.len() > 0 && cs[cs.len() - 1] == '\r' {
        let r = string_of_chars(cs, cs.len() - 1);
        assert(r@ =~= cs@.drop_last());
        r
    } else {
        let r = string_of_chars(cs, cs.len());
        assert(r@ =~= cs@);
        r
    }
}

/// The views of the strings of `v`.
pub open spec fn strings_view(v: Seq<String>) -> Seq<Seq<char>> {
    v.map_values(|x: String| x@)
}

/// Returns the lines of `s` as `str::lines` gives them.
pub fn text_lines_of(s: &str) -> (r: Vec<String>)
    ensures
        strings_view(r@) == text_lines(s@),
{
    let cs = crate::transform::chars_of(s);
    let mut done: Vec<String> = Vec::new();
    let mut cur: Vec<char> = Vec::new();
    let mut k: usize = 0;
    assert(cs@.subrange(0, 0) =~= Seq::<char>::empty());
    assert(strings_view(done@) =~= split_lf(Seq::<char>::empty()).drop_last().map_values(|t: Seq<char>| strip_cr(t)));
    while k < cs.len()
        invariant
            k <= cs@.len(),
            cs@ == s@,
            strings_view(done@) == split_lf(cs@.subrange(0, k as int)).drop_last().map_values(|t: Seq<char>| strip_cr(t)),
            cur@ == split_lf(cs@.subrange(0, k as int)).last(),
        decreases cs.len() - k,
    {
        let ghost pre = cs@.subrange(0, k as int);
        let ghost next = cs@.subrange(0, k + 1);
        let ghost p = split_lf(pre);
        proof {
            assert(next.drop_last() =~= pre);
            assert(next.last() == cs@[k as int]);
            lemma_split_lf_len(pre);
        }
        if cs[k] == '\n' {
            let line = string_without_cr(&cur);
            let ghost dv = done@;
            done.push(line);
            cur = Vec::new();
            proof {
                assert(split_lf(next) == p.push(seq![]));
                assert(split_lf(next).drop_last() =~= p);
                assert(p =~= p.drop_last().push(p.last()));
                assert(strings_view(done@) =~= strings_view(dv).push(strip_cr(p.last())));
                assert(strings_view(done@) =~= p.map_values(|t: Seq<char>| strip_cr(t)));
                assert(cur@ =~= split_lf(next).last());
            }
        } else {
            cur.push(cs[k]);
            proof {
                let q = p.update(p.len() - 1, p.last().push(cs@[k as int]));
                assert(split_lf(next) == q);
                assert(q.drop_last() =~= p.drop_last());
                assert(cur@ =~= q.last());
            }
        }
        k = k + 1;
    }
    assert(cs@.subrange(0, k as int) =~= s@);
    proof {
        lemma_split_lf_len(s@);
    }
    if cur.len() > 0 {
        let last = string_of_chars(&cur, cur.len());
        let ghost dv = done@;
        done.push(last);
        assert(last@ =~= cur@);
        assert(strings_view(done@) =~= strings_view(dv).push(cur@));
    }
    done
}

/// The primary spans `spans` as start and end locations in the text `b`.
pub open spec fn span_locations(b: Seq<u8>, spans: Seq<ByteSpan>) -> Seq<(Location, Location)> {
    spans.map_values(|sp: ByteSpan| (location_of(b, sp.low.0 as int), location_of(b, sp.high.0 as int)))
}

/// The labeled spans `labels` as start and end locations in the text `b`, with their labels.
pub open spec fn label_locations(b: Seq<u8>, labels: Seq<(ByteSpan, Seq<char>)>) -> Seq<(Location, Location, Seq<char>)> {
    labels.map_values(|l: (ByteSpan, Seq<char>)| (location_of(b, l.0.low.0 as int), location_of(b, l.0.high.0 as int), l.1))
}

/// Whether all spans of the diagnostic `d` point into a text of `len` bytes.
pub open spec fn spans_within(d: DiagData, len: int) -> bool {
    match d.2 {
        Some(sp) => (forall|i: int| 0 <= i < sp.0.len() ==> (#[trigger] sp.0[i]).low.0 <= len && sp.0[i].high.0 <= len)
            && (forall|i: int| 0 <= i < sp.1.len() ==> (#[trigger] sp.1[i]).0.low.0 <= len && sp.1[i].0.high.0 <= len),
        None => true,
    }
}

/// A primary span of a diagnostic whose spans point into a text points into it.
proof fn lemma_within_primary(d: DiagData, len: int, i: int)
    requires
        spans_within(d, len),
        d.2 is Some,
        0 <= i < d.2.unwrap().0.len(),
    ensures
        d.2.unwrap().0[i].low.0 <= len,
        d.2.unwrap().0[i].high.0 <= len,
{
    let sp = d.2.unwrap();
    assert(sp.0[i].low.0 <= len && sp.0[i].high.0 <= len);
}

/// A labeled span of a diagnostic whose spans point into a text points into it.
proof fn lemma_within_label(d: DiagData, len: int, i: int)
    requires
        spans_within(d, len),
        d.2 is Some,
        0 <= i < d.2.unwrap().1.len(),
    ensures
        d.2.unwrap().1[i].0.low.0 <= len,
        d.2.unwrap().1[i].0.high.0 <= len,
{
    let sp = d.2.unwrap();
    assert(sp.1[i].0.low.0 <= len && sp.1[i].0.high.0 <= len);
}

/// The diagnostic `d` about `src` formatted for the terminal.
pub open spec fn diagnostic_text(src: Source, d: DiagData) -> Seq<char> {
    let b = src.spec_bytes();
    let ps = match d.2 {
        Some(sp) => span_locations(b, sp.0),
        None => seq![],
    };
    let ls = match d.2 {
        Some(sp) => label_locations(b, sp.1),
        None => seq![],
    };
    let ds = match d.3 {
        Some(t) => text_lines(t),
        None => seq![],
    };
    format_text(src, d.1, ps, ls, ds)
}

/// The text the diagnostic `d` about `src` is emitted with: an error is
/// introduced by `error:` in bold red.
pub open spec fn emitted_text(src: Source, d: DiagData) -> Seq<char> {
    match d.0 {
        DiagnosticLevel::Error => ansi_bold(ansi_bright_red("error"@)) + ansi_bold(":"@) + " "@ + diagnostic_text(src, d),
        DiagnosticLevel::Warning => diagnostic_text(src, d),
    }
}

impl Diagnostic {
    /// Returns the text this diagnostic about `source` is emitted with, to be
    /// logged at the level of the diagnostic.
    pub fn emit(&self, source: &Source) -> (r: String)
        requires
            spans_within(self.data(), source.spec_bytes().len() as int),
            source.spec_bytes().len() < usize::MAX,
        ensures
            r@ == emitted_text(*source, self.data()),
    {
        let ghost b = source.spec_bytes();
        let ghost d = self.data();
        let mut fmt = DiagnosticFormatter::new(source, self.message());
        match self.spans() {
            Some(span) => {
                let ghost sd = span.data();
                let mut i: usize = 0;
                assert(sd.0.subrange(0, 0) =~= Seq::<ByteSpan>::empty());
                assert(span_locations(b, sd.0.subrange(0, 0)) =~= Seq::<(Location, Location)>::empty());
                while i < span.primary.len()
                    invariant
                        i <= sd.0.len(),
                        sd == span.data(),
                        d.2 == Some(sd),
                        spans_within(d, b.len() as int),
                        b == source.spec_bytes(),
                        b.len() < usize::MAX,
                        fmt.wf(),
                        fmt.spec_source() == *source,
                        fmt.spec_msg() == d.1,
                        fmt.descs() == Seq::<Seq<char>>::empty(),
                        fmt.prims() == span_locations(b, sd.0.subrange(0, i as int)),
                        fmt.labs() == Seq::<(Location, Location, Seq<char>)>::empty(),
                    decreases span.primary.len() - i,
                {
                    assert(sd.0[i as int] == span.primary@[i as int]);
                    proof {
                        lemma_within_primary(d, b.len() as int, i as int);
                    }
                    fmt.primary_span(&span.primary[i]);
                    assert(span_locations(b, sd.0.subrange(0, i + 1)) =~= span_locations(b, sd.0.subrange(0, i as int)).push(
                        (location_of(b, sd.0[i as int].low.0 as int), location_of(b, sd.0[i as int].high.0 as int))));
                    i = i + 1;
                }
                assert(sd.0.subrange(0, i as int) =~= sd.0);
                let mut j: usize = 0;
                assert(sd.1.subrange(0, 0) =~= Seq::<(ByteSpan, Seq<char>)>::empty());
                assert(label_locations(b, sd.1.subrange(0, 0)) =~= Seq::<(Location, Location, Seq<char>)>::empty());
                while j < span.labels.len()
                    invariant
                        j <= sd.1.len(),
                        sd == span.data(),
                        d.2 == Some(sd),
                        spans_within(d, b.len() as int),
                        b == source.spec_bytes(),
                        b.len() < usize::MAX,
                        fmt.wf(),
                        fmt.spec_source() == *source,
                        fmt.spec_msg() == d.1,
                        fmt.descs() == Seq::<Seq<char>>::empty(),
                        fmt.prims() == span_locations(b, sd.0),
                        fmt.labs() == label_locations(b, sd.1.subrange(0, j as int)),
                    decreases span.labels.len() - j,
                {
                    assert(sd.1[j as int] == (span.labels@[j as int].0, span.labels@[j as int].1@));
                    proof {
                        lemma_within_label(d, b.len() as int, j as int);
                    }
                    fmt.label_span(&span.labels[j].0, span.labels[j].1.as_str());
                    assert(label_locations(b, sd.1.subrange(0, j + 1)) =~= label_locations(b, sd.1.subrange(0, j as int)).push(
                        (location_of(b, sd.1[j as int].0.low.0 as int), location_of(b, sd.1[j as int].0.high.0 as int), sd.1[j as int].1)));
                    j = j + 1;
                }
                assert(sd.1.subrange(0, j as int) =~= sd.1);
            },
            None => {
                assert(span_locations(b, Seq::<ByteSpan>::empty()) =~= Seq::<(Location, Location)>::empty());
            },
        }
        let ghost ps = fmt.prims();
        let ghost ls = fmt.labs();
        match self.description() {
            Some(text) => {
                let lines = text_lines_of(text);
                let ghost lv = strings_view(lines@);
                let mut k: usize = 0;
                assert(lv.subrange(0, 0) =~= Seq::<Seq<char>>::empty());
                while k < lines.len()
                    invariant
                        k <= lv.len(),
                        lv == strings_view(lines@),
                        fmt.wf(),
                        fmt.spec_source() == *source,
                        fmt.spec_msg() == d.1,
                        fmt.prims() == ps,
                        fmt.labs() == ls,
                        fmt.descs() == lv.subrange(0, k as int),
                    decreases lines.len() - k,
                {
                    fmt.description(lines[k].as_str());
                    assert(lv.subrange(0, k + 1) =~= lv.subrange(0, k as int).push(lines@[k as int]@));
                    k = k + 1;
                }
                assert(lv.subrange(0, k as int) =~= lv);
            },
            None => {},
        }
        let body = fmt.finish();
        assert(body@ == diagnostic_text(*source, d));
        match self.level() {
            DiagnosticLevel::Error => {
                let red = bright_red_text("error");
                let mut out = bold_text(red.as_str());
                let colon = bold_text(":");
                append(&mut out, colon.as_str());
                append(&mut out, " ");
                append(&mut out, body.as_str());
                assert(out@ =~= emitted_text(*source, d));
                out
            },
            DiagnosticLevel::Warning => body,
        }
    }
}

impl Session {
    /// Returns the texts all diagnostics collected about `source` are emitted
    /// with, in order.
    pub fn emit(&self, source: &Source) -> (r: Vec<String>)
        requires
            forall|i: int| 0 <= i < self.reported().len() ==> spans_within(#[trigger] self.reported()[i], source.spec_bytes().len() as int),
            source.spec_bytes().len() < usize::MAX,
        ensures
            r@.len() == self.reported().len(),
            forall|i: int| 0 <= i < r@.len() ==> (#[trigger] r@[i])@ == emitted_text(*source, self.reported()[i]),
    {
        let ds = self.diagnostics();
        let mut out: Vec<String> = Vec::new();
        let mut i: usize = 0;
        while i < ds.len()
            invariant
                i <= ds@.len(),
                diags_data(ds@) == self.reported(),
                forall|k: int| 0 <= k < self.reported().len() ==> spans_within(#[trigger] self.reported()[k], source.spec_bytes().len() as int),
                source.spec_bytes().len() < usize::MAX,
                out@.len() == i,
                forall|k: int| 0 <= k < i ==> (#[trigger] out@[k])@ == emitted_text(*source, self.reported()[k]),
            decreases ds.len() - i,
        {
            assert(self.reported()[i as int] == ds@[i as int].data());
            let t = ds[i].emit(source);
            out.push(t);
            i = i + 1;
        }
        out
    }
}

/// The lowest and highest lines bound every line a span of `rs` lies on.
proof fn lemma_min_max_bound(rs: Seq<(Location, Location)>, n: int)
    requires
        covered(rs, n),
    ensures
        min_line(rs) matches Some(a) && a <= n,
        max_line(rs) matches Some(b) && n <= b,
    decreases rs.len(),
{
    let i = choose|i: int| 0 <= i < rs.len() && covers(#[trigger] rs[i], n);
    let init = rs.drop_last();
    if i < rs.len() - 1 {
        assert(init[i] == rs[i]);
        lemma_min_max_bound(init, n);
    } else if covered(init, n) {
        lemma_min_max_bound(init, n);
    }
}

/// Each line of [`lines_between`] from `a` to `b` comes after those before it,
/// and each line from `a` to `b` that a span lies on is listed.
proof fn lemma_lines_between_complete(rs: Seq<(Location, Location)>, a: int, b: int)
    requires
        0 <= a,
        b <= usize::MAX,
    ensures
        forall|i: int, j: int| 0 <= i < j < lines_between(rs, a, b).len()
            ==> lines_between(rs, a, b)[i] < lines_between(rs, a, b)[j],
        forall|n: int| a <= n <= b && covered(rs, n) ==> lines_between(rs, a, b).contains(n as usize),
    decreases b - a + 1,
{
    if b >= a {
        lemma_lines_between_complete(rs, a, b - 1);
        lemma_lines_between(rs, a, b - 1);
        let prev = lines_between(rs, a, b - 1);
        let all = lines_between(rs, a, b);
        assert forall|i: int, j: int| 0 <= i < j < all.len() implies all[i] < all[j] by {
            assert(all[i] == prev[i]);
            if j < prev.len() {
                assert(all[j] == prev[j]);
            } else {
                assert(all[j] == b as usize);
            }
        }
        assert forall|n: int| a <= n <= b && covered(rs, n) implies all.contains(n as usize) by {
            if n < b {
                let k = choose|k: int| 0 <= k < prev.len() && prev[k] == n as usize;
                assert(all[k] == prev[k]);
            } else {
                assert(all[prev.len() as int] == b as usize);
            }
        }
    }
}

/// The lines a formatted diagnostic shows are exactly the lines its spans lie
/// on, each once, in ascending order.
pub proof fn law_shown_lines_are_spanned_lines(rs: Seq<(Location, Location)>)
    ensures
        forall|i: int, j: int| 0 <= i < j < line_numbers(rs).len() ==> line_numbers(rs)[i] < line_numbers(rs)[j],
        forall|i: int| 0 <= i < line_numbers(rs).len() ==> covered(rs, #[trigger] line_numbers(rs)[i] as int),
        forall|n: usize| covered(rs, n as int) ==> #[trigger] line_numbers(rs).contains(n),
{
    match (min_line(rs), max_line(rs)) {
        (Some(a), Some(b)) => {
            lemma_lines_between(rs, a as int, b as int);
            lemma_lines_between_complete(rs, a as int, b as int);
            assert forall|n: usize| covered(rs, n as int) implies #[trigger] line_numbers(rs).contains(n) by {
                lemma_min_max_bound(rs, n as int);
            }
        },
        _ => {
            assert forall|n: usize| covered(rs, n as int) implies #[trigger] line_numbers(rs).contains(n) by {
                lemma_min_max_bound(rs, n as int);
            }
        },
    }
}

/// The lowest and the highest line of spans are lines that a span lies on,
/// and there is a lowest line exactly where there is a highest.
proof fn lemma_min_max_covered(rs: Seq<(Location, Location)>)
    ensures
        min_line(rs) is Some <==> max_line(rs) is Some,
        min_line(rs) matches Some(a) ==> covered(rs, a as int),
        max_line(rs) matches Some(b) ==> covered(rs, b as int),
    decreases rs.len(),
{
    if rs.len() > 0 {
        let init = rs.drop_last();
        lemma_min_max_covered(init);
        let n = rs.len() - 1;
        assert(rs[n] == rs.last());
        assert forall|x: int| covered(init, x) implies covered(rs, x) by {
            let i = choose|i: int| 0 <= i < init.len() && covers(#[trigger] init[i], x);
            assert(rs[i] == init[i]);
        }
    }
}

/// The lines shown for spans run from the lowest line a span lies on to the
/// highest: the first is the lowest, the last the highest, and there are
/// lines exactly where some span lies on a line. Where every span starts on a
/// line numbered from one, every line shown is numbered from one.
pub proof fn law_line_numbers_from_min_to_max(rs: Seq<(Location, Location)>)
    ensures
        line_numbers(rs).len() > 0 <==> min_line(rs) is Some,
        min_line(rs) matches Some(a) ==> line_numbers(rs)[0] == a,
        max_line(rs) matches Some(b) ==> line_numbers(rs).last() == b,
        (forall|i: int| 0 <= i < rs.len() ==> (#[trigger] rs[i]).0.line >= 1)
            ==> (forall|i: int| 0 <= i < line_numbers(rs).len() ==> #[trigger] line_numbers(rs)[i] >= 1),
{
    lemma_min_max_covered(rs);
    match (min_line(rs), max_line(rs)) {
        (Some(a), Some(b)) => {
            lemma_min_max_bound(rs, a as int);
            lemma_lines_between(rs, a as int, b as int);
            lemma_lines_between_complete(rs, a as int, b as int);
            let l = line_numbers(rs);
            assert(l == lines_between(rs, a as int, b as int));
            assert(l.contains(a));
            assert(l.contains(b));
            let k = choose|k: int| 0 <= k < l.len() && l[k] == a;
            if k > 0 {
                assert(l[0] < l[k]);
            }
            let m = choose|m: int| 0 <= m < l.len() && l[m] == b;
            if m < l.len() - 1 {
                assert(l[m] < l[l.len() - 1]);
            }
            if forall|i: int| 0 <= i < rs.len() ==> (#[trigger] rs[i]).0.line >= 1 {
                lemma_min_line_positive(rs);
            }
        },
        _ => {},
    }
}
} // verus!
