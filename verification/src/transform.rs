//! Transforms run once for each dotfile during a deployment, on the text of a
//! resolved template or of a plain dotfile.
use vstd::prelude::*;

use crate::text::push_char;

verus! {

/// `s[i..]` with every `\r\n` replaced by `\n`, matched from the left.
pub open spec fn lf_from(s: Seq<char>, i: int) -> Seq<char>
    decreases s.len() - i,
{
    if i < 0 || i >= s.len() {
        seq![]
    } else if s[i] == '\r' && i + 1 < s.len() && s[i + 1] == '\n' {
        seq!['\n'] + lf_from(s, i + 2)
    } else {
        seq![s[i]] + lf_from(s, i + 1)
    }
}

/// `s` with every `\r\n` replaced by `\n` (unix style line endings).
pub open spec fn to_lf(s: Seq<char>) -> Seq<char> {
    lf_from(s, 0)
}

/// `s[i..]` with `\r` inserted before every `\n` of `s` that does not follow a `\r`.
pub open spec fn crlf_from(s: Seq<char>, i: int) -> Seq<char>
    decreases s.len() - i,
{
    if i < 0 || i >= s.len() {
        seq![]
    } else if s[i] == '\n' && !(i > 0 && s[i - 1] == '\r') {
        seq!['\r', '\n'] + crlf_from(s, i + 1)
    } else {
        seq![s[i]] + crlf_from(s, i + 1)
    }
}

/// `s` with `\r` inserted before every `\n` that does not follow a `\r` (windows
/// style line endings).
pub open spec fn to_crlf(s: Seq<char>) -> Seq<char> {
    crlf_from(s, 0)
}

/// The characters of `s`, collected into a vector.
pub(crate) fn chars_of(s: &str) -> (r: Vec<char>)
    ensures
        r@ == s@,
{
    let mut out: Vec<char> = Vec::new();
    for c in it: s.chars()
        invariant
            out@ == it.seq().take(it.index() as int),
            it.seq() == s@,
    {
        out.push(c);
        assert(out@ =~= it.seq().take(it.index() + 1));
    }
    assert(out@ =~= s@);
    out
}

/// Replaces line termination characters with either unix style (`\n`) or
/// windows style (`\r\n`).
#[derive(Debug, Clone, Copy, PartialEq, Eq, Hash, Structural)]
pub enum LineTerminator {
    /// Replaces all occurrences of `\r\n` with `\n` (unix style).
    Lf,
    /// Replaces all occurrences of `\n` with `\r\n` (windows style).
    Crlf,
}

impl LineTerminator {
    /// What the transform makes of `s`.
    pub open spec fn spec_transform(self, s: Seq<char>) -> Seq<char> {
        match self {
            LineTerminator::Lf => to_lf(s),
            LineTerminator::Crlf => to_crlf(s),
        }
    }

    /// Transforms the line endings of `content`.
    pub fn transform(&self, content: String) -> (r: String)
        ensures
            r@ == self.spec_transform(content@),
    {
        let s = chars_of(content.as_str());
        let n = s.len();
        let mut out = String::new();
        let mut i: usize = 0;
        match self {
            LineTerminator::Lf => {
                proof { assert(out@ + lf_from(s@, 0) =~= lf_from(s@, 0)); }
                while i < n
                    invariant
                        i <= n,
                        n == s@.len(),
                        out@ + lf_from(s@, i as int) == to_lf(s@),
                    decreases n - i,
                {
                    let ghost prev = out@;
                    if s[i] == '\r' && i + 1 < n && s[i + 1] == '\n' {
                        push_char(&mut out, '\n');
                        proof {
                            assert(out@ + lf_from(s@, i + 2) =~= prev + (seq!['\n'] + lf_from(s@, i + 2)));
                        }
                        i = i + 2;
                    } else {
                        let c = s[i];
                        push_char(&mut out, c);
                        proof {
                            assert(out@ + lf_from(s@, i + 1) =~= prev + (seq![c] + lf_from(s@, i + 1)));
                        }
                        i = i + 1;
                    }
                }
            },
            LineTerminator::Crlf => {
                proof { assert(out@ + crlf_from(s@, 0) =~= crlf_from(s@, 0)); }
                while i < n
                    invariant
                        i <= n,
                        n == s@.len(),
                        out@ + crlf_from(s@, i as int) == to_crlf(s@),
                    decreases n - i,
                {
                    let ghost prev = out@;
                    let c = s[i];
                    if c == '\n' && !(i > 0 && s[i - 1] == '\r') {
                        push_char(&mut out, '\r');
                        push_char(&mut out, '\n');
                        proof {
                            assert(out@ + crlf_from(s@, i + 1) =~= prev + (seq!['\r', '\n'] + crlf_from(s@, i + 1)));
                        }
                    } else {
                        push_char(&mut out, c);
                        proof {
                            assert(out@ + crlf_from(s@, i + 1) =~= prev + (seq![c] + crlf_from(s@, i + 1)));
                        }
                    }
                    i = i + 1;
                }
            },
        }
        out
    }
}

/// The transformers that can be added to a profile or a dotfile to modify the
/// text content.
#[derive(Debug, Clone, Copy, PartialEq, Eq, Hash, Structural)]
pub enum ContentTransformer {
    /// Replaces line termination characters.
    LineTerminator(LineTerminator),
}

impl ContentTransformer {
    /// What the transformer makes of `s`.
    pub open spec fn spec_transform(self, s: Seq<char>) -> Seq<char> {
        match self {
            ContentTransformer::LineTerminator(lt) => lt.spec_transform(s),
        }
    }

    /// Transforms `content`.
    pub fn transform(&self, content: String) -> (r: String)
        ensures
            r@ == self.spec_transform(content@),
    {
        match self {
            ContentTransformer::LineTerminator(lt) => lt.transform(content),
        }
    }

    /// The name under which the transformer is displayed.
    pub fn name(&self) -> (r: String)
        ensures
            r@ == (match self {
                ContentTransformer::LineTerminator(LineTerminator::Lf) => "LineTerminator(Lf)"@,
                ContentTransformer::LineTerminator(LineTerminator::Crlf) => "LineTerminator(Crlf)"@,
            }),
    {
        match self {
            ContentTransformer::LineTerminator(LineTerminator::Lf) => "LineTerminator(Lf)".to_owned(),
            ContentTransformer::LineTerminator(LineTerminator::Crlf) => "LineTerminator(Crlf)".to_owned(),
        }
    }
}

/// Applies `ts` in order to `s`.
pub open spec fn transform_all(ts: Seq<ContentTransformer>, s: Seq<char>) -> Seq<char>
    decreases ts.len(),
{
    if ts.len() == 0 {
        s
    } else {
        transform_all(ts.drop_first(), ts[0].spec_transform(s))
    }
}

/// Every line feed in what `crlf_from(s, i)` produces follows a carriage return;
/// a leading line feed comes from a line feed of `s` that follows one.
proof fn lemma_crlf_from_lines(s: Seq<char>, i: int)
    requires
        0 <= i,
    ensures
        forall|k: int| 0 < k < crlf_from(s, i).len() && #[trigger] crlf_from(s, i)[k] == '\n' ==> crlf_from(s, i)[k - 1] == '\r',
        crlf_from(s, i).len() > 0 && crlf_from(s, i)[0] == '\n' ==> i > 0 && s[i - 1] == '\r',
        crlf_from(s, i).len() > 0 ==> crlf_from(s, i).last() == s.last(),
    decreases s.len() - i,
{
    if i < s.len() {
        lemma_crlf_from_lines(s, i + 1);
        let r = crlf_from(s, i);
        let rest = crlf_from(s, i + 1);
        let head: Seq<char> = if s[i] == '\n' && !(i > 0 && s[i - 1] == '\r') { seq!['\r', '\n'] } else { seq![s[i]] };
        assert(r == head + rest);
        assert forall|k: int| 0 < k < r.len() && #[trigger] r[k] == '\n' implies r[k - 1] == '\r' by {
            if k < head.len() {
                assert(head == seq!['\r', '\n']);
            } else if k == head.len() {
                assert(rest[0] == '\n');
                assert(s[i] == '\r');
                assert(head.last() == s[i]);
            } else {
                assert(r[k] == rest[k - head.len()]);
                assert(r[k - 1] == rest[k - 1 - head.len()]);
            }
        }
        if rest.len() == 0 {
            assert(i + 1 == s.len()) by {
                if i + 1 < s.len() {
                    assert(crlf_from(s, i + 1).len() > 0);
                }
            }
        }
    }
}

/// A transform to windows style line endings leaves every line feed after a
/// carriage return.
pub proof fn law_crlf_every_line_feed_follows_carriage_return(s: Seq<char>)
    ensures
        forall|k: int| 0 <= k < to_crlf(s).len() && #[trigger] to_crlf(s)[k] == '\n' ==> k > 0 && to_crlf(s)[k - 1] == '\r',
{
    lemma_crlf_from_lines(s, 0);
}

/// On text in which every line feed follows a carriage return, `crlf_from` copies.
proof fn lemma_crlf_from_fixed(t: Seq<char>, i: int)
    requires
        0 <= i <= t.len(),
        forall|k: int| 0 <= k < t.len() && #[trigger] t[k] == '\n' ==> k > 0 && t[k - 1] == '\r',
    ensures
        crlf_from(t, i) == t.subrange(i, t.len() as int),
    decreases t.len() - i,
{
    if i < t.len() {
        lemma_crlf_from_fixed(t, i + 1);
        assert(t.subrange(i, t.len() as int) =~= seq![t[i]] + t.subrange(i + 1, t.len() as int));
    } else {
        assert(t.subrange(i, t.len() as int) =~= seq![]);
    }
}

/// Transforming to windows style line endings twice is the same as once.
pub proof fn law_crlf_idempotent(s: Seq<char>)
    ensures
        to_crlf(to_crlf(s)) == to_crlf(s),
{
    let t = to_crlf(s);
    law_crlf_every_line_feed_follows_carriage_return(s);
    lemma_crlf_from_fixed(t, 0);
    assert(t.subrange(0, t.len() as int) =~= t);
}

/// `lf_from` reads the part after a prefix as it reads it alone.
proof fn lemma_lf_from_shift(p: Seq<char>, t: Seq<char>, j: int)
    requires
        0 <= j,
    ensures
        lf_from(p + t, p.len() + j) == lf_from(t, j),
    decreases t.len() - j,
{
    if j < t.len() {
        let u = p + t;
        assert(u[p.len() + j] == t[j]);
        if j + 1 < t.len() {
            assert(u[p.len() + j + 1] == t[j + 1]);
        }
        lemma_lf_from_shift(p, t, j + 1);
        if j + 2 <= t.len() {
            lemma_lf_from_shift(p, t, j + 2);
        }
    }
}

/// On text without carriage returns, transforming to unix style line endings
/// undoes the transform to windows style line endings.
pub proof fn law_lf_undoes_crlf(s: Seq<char>)
    requires
        forall|k: int| 0 <= k < s.len() ==> s[k] != '\r',
    ensures
        to_lf(to_crlf(s)) == s,
{
    lemma_lf_crlf_from(s, 0);
    assert(s.subrange(0, s.len() as int) =~= s);
}

/// `to_lf(crlf_from(s, i))` gives back `s[i..]` when `s` has no carriage return.
proof fn lemma_lf_crlf_from(s: Seq<char>, i: int)
    requires
        0 <= i <= s.len(),
        forall|k: int| 0 <= k < s.len() ==> s[k] != '\r',
    ensures
        to_lf(crlf_from(s, i)) == s.subrange(i, s.len() as int),
    decreases s.len() - i,
{
    if i < s.len() {
        lemma_lf_crlf_from(s, i + 1);
        let rest = crlf_from(s, i + 1);
        if s[i] == '\n' {
            let head = seq!['\r', '\n'];
            lemma_lf_from_shift(head, rest, 0);
            assert((head + rest)[0] == '\r' && (head + rest)[1] == '\n');
            assert(to_lf(head + rest) == seq!['\n'] + lf_from(head + rest, 2));
        } else {
            let head = seq![s[i]];
            lemma_lf_from_shift(head, rest, 0);
            assert((head + rest)[0] == s[i]);
            assert(to_lf(head + rest) == seq![s[i]] + lf_from(head + rest, 1));
        }
        assert(s.subrange(i, s.len() as int) =~= seq![s[i]] + s.subrange(i + 1, s.len() as int));
    } else {
        assert(s.subrange(i, s.len() as int) =~= seq![]);
    }
}

} // verus!
