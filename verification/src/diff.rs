//! The changes a deployment would make, found without deploying.
use vstd::prelude::*;

use crate::text::{decimal, push_char, push_decimal_succ, string_of};
use similar::ChangeTag;
use similar::TextDiff;

verus! {

/// A change a deployment would make.
#[derive(Debug)]
pub enum Event {
    /// A file that does not exist yet would be created.
    NewFile {
        /// The path of the dotfile relative to the `dotfiles` directory.
        relative_source_path: String,
        /// The absolute target path.
        target_path: String,
    },
    /// A directory that does not exist yet would be created.
    NewDirectory {
        /// The path of the dotfile relative to the `dotfiles` directory.
        relative_source_path: String,
        /// The absolute target path.
        target_path: String,
    },
    /// A file exists, and its content would change.
    Diff {
        /// The path of the dotfile relative to the `dotfiles` directory.
        relative_source_path: String,
        /// The absolute target path.
        target_path: String,
        /// The content of the file now.
        old_content: String,
        /// The content of the file after a deployment.
        new_content: String,
    },
}

impl Event {
    /// The absolute target path of the change.
    pub open spec fn spec_target_path(&self) -> Seq<char> {
        match self {
            Event::NewFile { target_path, .. } => target_path@,
            Event::NewDirectory { target_path, .. } => target_path@,
            Event::Diff { target_path, .. } => target_path@,
        }
    }

    /// Returns the absolute target path of the change.
    pub fn target_path(&self) -> (r: &str)
        ensures
            r@ == self.spec_target_path(),
    {
        match self {
            Event::NewFile { target_path, .. } => target_path.as_str(),
            Event::NewDirectory { target_path, .. } => target_path.as_str(),
            Event::Diff { target_path, .. } => target_path.as_str(),
        }
    }
}

/// The change that deploying a file with `new_content` would make, given the
/// content of the file at its target if there is one: none if the content
/// stays the same.
pub fn file_event(relative_source_path: String, target_path: String, existing: Option<String>, new_content: String) -> (r: Option<Event>)
    ensures
        match existing {
            None => r matches Some(Event::NewFile { relative_source_path: s, target_path: t })
                && s@ == relative_source_path@ && t@ == target_path@,
            Some(old) => if old@ == new_content@ {
                r is None
            } else {
                r matches Some(Event::Diff { relative_source_path: s, target_path: t, old_content: o, new_content: n })
                    && s@ == relative_source_path@ && t@ == target_path@ && o@ == old@ && n@ == new_content@
            },
        },
{
    match existing {
        None => Some(Event::NewFile { relative_source_path, target_path }),
        Some(old) => {
            if old == new_content {
                None
            } else {
                Some(Event::Diff { relative_source_path, target_path, old_content: old, new_content })
            }
        },
    }
}

/// The change that deploying a directory would make: none if it exists.
pub fn directory_event(relative_source_path: String, target_path: String, exists: bool) -> (r: Option<Event>)
    ensures
        exists ==> r is None,
        !exists ==> (r matches Some(Event::NewDirectory { relative_source_path: s, target_path: t })
            && s@ == relative_source_path@ && t@ == target_path@),
{
    if exists {
        None
    } else {
        Some(Event::NewDirectory { relative_source_path, target_path })
    }
}


/// What a line of a file diff does.
#[derive(Debug, Clone, Copy, PartialEq, Eq, Structural)]
pub enum ChangeKind {
    /// The line is removed.
    Delete,
    /// The line is added.
    Insert,
    /// The line stays.
    Equal,
}

/// One line of a file diff, split into parts, each marked as emphasised or
/// not.
#[derive(Debug, Clone)]
pub struct InlineChange {
    /// What the line does.
    pub kind: ChangeKind,
    /// The zero-indexed number of the line in the old content, if it is there.
    pub old_index: Option<usize>,
    /// The zero-indexed number of the line in the new content, if it is there.
    pub new_index: Option<usize>,
    /// The parts of the line, each with whether it is emphasised.
    pub parts: Vec<(bool, String)>,
    /// Whether the line lacks a final line feed.
    pub missing_newline: bool,
}

/// A removed line is only in the old content, an added one only in the new,
/// and a line that stays in both.
pub open spec fn indices_fit(c: InlineChange) -> bool {
    match c.kind {
        ChangeKind::Delete => c.old_index is Some && c.new_index is None,
        ChangeKind::Insert => c.old_index is None && c.new_index is Some,
        ChangeKind::Equal => c.old_index is Some && c.new_index is Some,
    }
}

/// How a piece of a diff report is shown.
#[derive(Debug, Clone, Copy, PartialEq, Eq, Structural)]
pub enum TextStyle {
    /// Unstyled text.
    Plain,
    /// The path of a dotfile in the source directory.
    SourcePath,
    /// The path a dotfile is deployed to.
    TargetPath,
    /// A line number.
    LineNr,
    /// The sign of a line that does the given change.
    Sign(ChangeKind),
    /// A part of a line that does the given change.
    Value(ChangeKind),
    /// An emphasised part of a line that does the given change.
    Emphasized(ChangeKind),
}

/// A piece of a diff report with how it is shown.
#[derive(Debug, Clone)]
pub struct StyledText {
    /// How the piece is shown.
    pub style: TextStyle,
    /// The text of the piece.
    pub text: String,
}

/// The pieces `s` as styles and texts.
pub open spec fn styled_view(s: Seq<StyledText>) -> Seq<(TextStyle, Seq<char>)> {
    s.map_values(|x: StyledText| (x.style, x.text@))
}

/// `n` spaces.
pub open spec fn spaces(n: nat) -> Seq<char> {
    Seq::new(n, |i: int| ' ')
}

/// The column of a line number: the one-indexed number, padded with spaces
/// at the end to four characters; four spaces where there is no line.
pub open spec fn line_nr_text(i: Option<usize>) -> Seq<char> {
    match i {
        None => spaces(4),
        Some(i) => {
            let d = decimal(i as nat + 1);
            if d.len() < 4 { d + spaces((4 - d.len()) as nat) } else { d }
        },
    }
}

/// The sign a line of the given change starts with.
pub open spec fn sign_text(k: ChangeKind) -> Seq<char> {
    match k {
        ChangeKind::Delete => "-"@,
        ChangeKind::Insert => "+"@,
        ChangeKind::Equal => " "@,
    }
}

/// The pieces of the parts of a line that does the change `k`.
pub open spec fn parts_segments(k: ChangeKind, parts: Seq<(bool, String)>) -> Seq<(TextStyle, Seq<char>)>
    decreases parts.len(),
{
    if parts.len() == 0 {
        seq![]
    } else {
        parts_segments(k, parts.drop_last()) + seq![(
            if parts.last().0 { TextStyle::Emphasized(k) } else { TextStyle::Value(k) },
            parts.last().1@,
        )]
    }
}

/// The pieces of one line of a pretty diff: both line numbers, a bar, the
/// sign, the parts, and a line feed where the line lacks one.
pub open spec fn change_segments(c: InlineChange) -> Seq<(TextStyle, Seq<char>)> {
    seq![
        (TextStyle::LineNr, line_nr_text(c.old_index)),
        (TextStyle::LineNr, line_nr_text(c.new_index)),
        (TextStyle::Plain, " |"@),
        (TextStyle::Sign(c.kind), sign_text(c.kind)),
    ] + parts_segments(c.kind, c.parts@) + if c.missing_newline { seq![(TextStyle::Plain, "\n"@)] } else { seq![] }
}

/// The pieces of the lines `g`, in order.
pub open spec fn group_segments(g: Seq<InlineChange>) -> Seq<(TextStyle, Seq<char>)>
    decreases g.len(),
{
    if g.len() == 0 {
        seq![]
    } else {
        group_segments(g.drop_last()) + change_segments(g.last())
    }
}

/// The line that starts a pretty diff: both paths.
pub open spec fn pretty_header(source: Seq<char>, target: Seq<char>) -> Seq<(TextStyle, Seq<char>)> {
    seq![
        (TextStyle::Plain, ">> "@),
        (TextStyle::SourcePath, source),
        (TextStyle::Plain, " => "@),
        (TextStyle::TargetPath, target),
        (TextStyle::Plain, "\n"@),
    ]
}

/// The line between two groups of a pretty diff: eighty dashes.
pub open spec fn group_separator() -> Seq<char> {
    Seq::new(80, |i: int| '-').push('\n')
}

/// A pretty diff of the groups of lines `groups`: the header before the
/// first group, a separator before each other one.
pub open spec fn pretty_segments(source: Seq<char>, target: Seq<char>, groups: Seq<Vec<InlineChange>>) -> Seq<(TextStyle, Seq<char>)>
    decreases groups.len(),
{
    if groups.len() == 0 {
        seq![]
    } else {
        pretty_segments(source, target, groups.drop_last())
            + (if groups.len() == 1 { pretty_header(source, target) } else { seq![(TextStyle::Plain, group_separator())] })
            + group_segments(groups.last()@)
    }
}

/// The line that reports a new file or directory.
pub open spec fn entry_segments(source: Seq<char>, target: Seq<char>, directory: bool) -> Seq<(TextStyle, Seq<char>)> {
    seq![
        (TextStyle::Plain, "["@),
        (TextStyle::SourcePath, source),
        (TextStyle::Plain, " => "@),
        (TextStyle::TargetPath, target),
        (TextStyle::Plain, if directory { "] New directory\n"@ } else { "] New file\n"@ }),
    ]
}

/// What `similar` writes as the unified diff of the lines of `old` and `new`
/// (`TextDiff::from_lines(old, new).unified_diff()`).
pub uninterp spec fn unified_line_diff(old: Seq<char>, new: Seq<char>) -> Seq<char>;

/// The unified diff of the lines of `old` and `new`
/// (`similar::TextDiff::from_lines` and `unified_diff`, written to a string).
/// The claim is that the text depends on the two contents alone: the line
/// diff runs without a deadline.
#[verifier::external_body]
fn unified_diff_text(old: &str, new: &str) -> (r: String)
    ensures
        r@ == unified_line_diff(old@, new@),
{
    TextDiff::from_lines(old, new).unified_diff().to_string()
}

/// The text of the parts of a line, joined.
pub open spec fn parts_text(parts: Seq<(bool, String)>) -> Seq<char>
    decreases parts.len(),
{
    if parts.len() == 0 {
        Seq::empty()
    } else {
        parts_text(parts.drop_last()) + parts.last().1@
    }
}

/// A line of a file diff without its emphasis: what it does, its indices in
/// the old and the new content, its text, and whether it lacks a line feed.
pub open spec fn line_view(c: InlineChange) -> (ChangeKind, Option<usize>, Option<usize>, Seq<char>, bool) {
    (c.kind, c.old_index, c.new_index, parts_text(c.parts@), c.missing_newline)
}

/// The groups of lines `g` without their emphasis.
pub open spec fn groups_lines(g: Seq<Vec<InlineChange>>) -> Seq<Seq<(ChangeKind, Option<usize>, Option<usize>, Seq<char>, bool)>> {
    g.map_values(|v: Vec<InlineChange>| v@.map_values(|c: InlineChange| line_view(c)))
}

/// The lines of the diff of the lines of `old` and `new` that `similar`
/// gives, in groups with `radius` lines of context, without their emphasis
/// (`TextDiff::from_lines`, then `grouped_ops`, then `iter_inline_changes`
/// for each operation).
pub uninterp spec fn diff_line_groups(old: Seq<char>, new: Seq<char>, radius: usize) -> Seq<Seq<(ChangeKind, Option<usize>, Option<usize>, Seq<char>, bool)>>;

/// Whether `g` is a diff of `old` and `new` in groups with `radius` lines of
/// context: its lines without their emphasis are [`diff_line_groups`], each
/// line is in the contents that its change says, and there is a group
/// exactly where the contents differ.
pub open spec fn is_line_diff(g: Seq<Vec<InlineChange>>, old: Seq<char>, new: Seq<char>, radius: usize) -> bool {
    &&& groups_lines(g) == diff_line_groups(old, new, radius)
    &&& forall|a: int, i: int| 0 <= a < g.len() && 0 <= i < g[a]@.len() ==> indices_fit(#[trigger] g[a]@[i])
    &&& (g.len() == 0 <==> old == new)
}

/// The lines of the diff of `old` and `new`, in groups with `radius` lines
/// of context (`similar::TextDiff::from_lines`, `grouped_ops` and
/// `iter_inline_changes` for each operation of a group). The line diff runs
/// without a deadline, so the lines, their indices and texts depend on the
/// arguments alone; which parts of a line are emphasised depends on the
/// deadline of the inline diff and is not claimed. Each line is in the
/// contents that its change says, and there is a group exactly where the
/// contents differ.
#[verifier::external_body]
fn inline_change_groups(old: &str, new: &str, radius: usize) -> (r: Vec<Vec<InlineChange>>)
    ensures
        groups_lines(r@) == diff_line_groups(old@, new@, radius),
        forall|a: int, i: int| 0 <= a < r@.len() && 0 <= i < r@[a]@.len() ==> indices_fit(#[trigger] r@[a]@[i]),
        r@.len() == 0 <==> old@ == new@,
{
    let diff = TextDiff::from_lines(old, new);
    let convert = |c: similar::InlineChange<'_, str>| InlineChange {
        kind: match c.tag() { ChangeTag::Delete => ChangeKind::Delete, ChangeTag::Insert => ChangeKind::Insert, ChangeTag::Equal => ChangeKind::Equal },
        old_index: c.old_index(),
        new_index: c.new_index(),
        parts: c.iter_strings_lossy().map(|(e, v)| (e, v.into_owned())).collect(),
        missing_newline: c.missing_newline(),
    };
    diff.grouped_ops(radius).iter().map(|g| g.iter().flat_map(|op| diff.iter_inline_changes(op)).map(convert).collect()).collect()
}


/// The number of lines of context around the changes of a pretty diff.
pub const CONTEXT_RADIUS: usize = 3;

/// Appends a piece with style `style` and text `text`.
fn push_piece(out: &mut Vec<StyledText>, style: TextStyle, text: String)
    ensures
        styled_view(final(out)@) == styled_view(old(out)@).push((style, text@)),
{
    let ghost t = text@;
    out.push(StyledText { style, text });
    assert(styled_view(out@) =~= styled_view(old(out)@).push((style, t)));
}

/// Returns the column of a line number.
fn line_nr_string(i: Option<usize>) -> (r: String)
    ensures
        r@ == line_nr_text(i),
{
    match i {
        None => {
            let r = string_of("    ");
            proof {
                reveal_strlit("    ");
                assert(r@ =~= spaces(4));
            }
            r
        },
        Some(i) => {
            let mut s = String::new();
            push_decimal_succ(&mut s, i);
            proof {
                crate::text::lemma_decimal_width(i as nat + 1);
            }
            let ghost d = s@;
            assert(d =~= decimal(i as nat + 1));
            let pad: usize = if i < 9 { 3 } else if i < 99 { 2 } else if i < 999 { 1 } else { 0 };
            let mut k: usize = 0;
            assert(s@ =~= d + spaces(0));
            while k < pad
                invariant
                    k <= pad,
                    s@ == d + spaces(k as nat),
                decreases pad - k,
            {
                push_char(&mut s, ' ');
                k = k + 1;
                assert(s@ =~= d + spaces(k as nat));
            }
            assert(s@ =~= line_nr_text(Some(i)));
            s
        },
    }
}

/// Returns the line between two groups of a pretty diff.
fn separator_string() -> (r: String)
    ensures
        r@ == group_separator(),
{
    let mut s = String::new();
    let mut k: usize = 0;
    while k < 80
        invariant
            k <= 80,
            s@ == Seq::new(k as nat, |i: int| '-'),
        decreases 80 - k,
    {
        push_char(&mut s, '-');
        k = k + 1;
        assert(s@ =~= Seq::new(k as nat, |i: int| '-'));
    }
    push_char(&mut s, '\n');
    s
}

/// Appends the pieces of one line of a pretty diff.
fn push_change(out: &mut Vec<StyledText>, c: &InlineChange)
    ensures
        styled_view(final(out)@) == styled_view(old(out)@) + change_segments(*c),
{
    let ghost base = styled_view(out@);
    push_piece(out, TextStyle::LineNr, line_nr_string(c.old_index));
    push_piece(out, TextStyle::LineNr, line_nr_string(c.new_index));
    push_piece(out, TextStyle::Plain, string_of(" |"));
    let sign = match c.kind {
        ChangeKind::Delete => string_of("-"),
        ChangeKind::Insert => string_of("+"),
        ChangeKind::Equal => string_of(" "),
    };
    push_piece(out, TextStyle::Sign(c.kind), sign);
    let ghost head = seq![
        (TextStyle::LineNr, line_nr_text(c.old_index)),
        (TextStyle::LineNr, line_nr_text(c.new_index)),
        (TextStyle::Plain, " |"@),
        (TextStyle::Sign(c.kind), sign_text(c.kind)),
    ];
    assert(styled_view(out@) =~= base + head);
    let mut j: usize = 0;
    assert(c.parts@.subrange(0, 0) =~= Seq::<(bool, String)>::empty());
    while j < c.parts.len()
        invariant
            j <= c.parts@.len(),
            styled_view(out@) == base + head + parts_segments(c.kind, c.parts@.subrange(0, j as int)),
        decreases c.parts.len() - j,
    {
        let style = if c.parts[j].0 { TextStyle::Emphasized(c.kind) } else { TextStyle::Value(c.kind) };
        push_piece(out, style, string_of(c.parts[j].1.as_str()));
        proof {
            let p = c.parts@.subrange(0, j + 1);
            assert(p.drop_last() =~= c.parts@.subrange(0, j as int));
            assert(p.last() == c.parts@[j as int]);
        }
        j = j + 1;
        assert(styled_view(out@) =~= base + head + parts_segments(c.kind, c.parts@.subrange(0, j as int)));
    }
    assert(c.parts@.subrange(0, j as int) =~= c.parts@);
    if c.missing_newline {
        push_piece(out, TextStyle::Plain, string_of("\n"));
    }
    assert(styled_view(out@) =~= base + change_segments(*c));
}

/// The pieces of a pretty diff of the groups of lines `groups` of the dotfile
/// `source`, deployed to `target`.
pub fn pretty_report(source: &str, target: &str, groups: &Vec<Vec<InlineChange>>) -> (r: Vec<StyledText>)
    ensures
        styled_view(r@) == pretty_segments(source@, target@, groups@),
{
    let mut out: Vec<StyledText> = Vec::new();
    let mut gi: usize = 0;
    assert(styled_view(out@) =~= pretty_segments(source@, target@, groups@.subrange(0, 0)));
    while gi < groups.len()
        invariant
            gi <= groups@.len(),
            styled_view(out@) == pretty_segments(source@, target@, groups@.subrange(0, gi as int)),
        decreases groups.len() - gi,
    {
        let ghost before = styled_view(out@);
        if gi == 0 {
            push_piece(&mut out, TextStyle::Plain, string_of(">> "));
            push_piece(&mut out, TextStyle::SourcePath, string_of(source));
            push_piece(&mut out, TextStyle::Plain, string_of(" => "));
            push_piece(&mut out, TextStyle::TargetPath, string_of(target));
            push_piece(&mut out, TextStyle::Plain, string_of("\n"));
            assert(styled_view(out@) =~= before + pretty_header(source@, target@));
        } else {
            push_piece(&mut out, TextStyle::Plain, separator_string());
        }
        let ghost mid = styled_view(out@);
        let g = &groups[gi];
        let mut ci: usize = 0;
        assert(mid =~= mid + group_segments(g@.subrange(0, 0)));
        while ci < g.len()
            invariant
                ci <= g@.len(),
                styled_view(out@) == mid + group_segments(g@.subrange(0, ci as int)),
            decreases g.len() - ci,
        {
            push_change(&mut out, &g[ci]);
            proof {
                let p = g@.subrange(0, ci + 1);
                assert(p.drop_last() =~= g@.subrange(0, ci as int));
                assert(p.last() == g@[ci as int]);
            }
            ci = ci + 1;
            assert(styled_view(out@) =~= mid + group_segments(g@.subrange(0, ci as int)));
        }
        assert(g@.subrange(0, ci as int) =~= g@);
        proof {
            let q = groups@.subrange(0, gi + 1);
            assert(q.drop_last() =~= groups@.subrange(0, gi as int));
            assert(q.last() == groups@[gi as int]);
        }
        gi = gi + 1;
        assert(styled_view(out@) =~= pretty_segments(source@, target@, groups@.subrange(0, gi as int)));
    }
    assert(groups@.subrange(0, gi as int) =~= groups@);
    out
}

/// The pieces of a pretty diff of the dotfile `source`, deployed to `target`,
/// from the content `old` to `new`: the lines of the diff, in groups with
/// [`CONTEXT_RADIUS`] lines of context, as [`pretty_report`] shows them.
pub fn pretty_diff(source: &str, target: &str, old: &str, new: &str) -> (r: Vec<StyledText>)
    ensures
        exists|g: Seq<Vec<InlineChange>>| {
            &&& styled_view(r@) == #[trigger] pretty_segments(source@, target@, g)
            &&& is_line_diff(g, old@, new@, CONTEXT_RADIUS)
        },
{
    let groups = inline_change_groups(old, new, CONTEXT_RADIUS);
    let r = pretty_report(source, target, &groups);
    assert(styled_view(r@) == pretty_segments(source@, target@, groups@));
    r
}

/// The unified diff of the dotfile deployed to `target`, from the content
/// `old` to `new`: two header lines with the path, then the diff of the lines.
pub fn udiff_report(target: &str, old: &str, new: &str) -> (r: String)
    ensures
        r@ == "--- "@ + target@ + "\r\n+++ "@ + target@ + "\n"@ + unified_line_diff(old@, new@),
{
    let mut s = string_of("--- ");
    s.append(target);
    s.append("\r\n+++ ");
    s.append(target);
    s.append("\n");
    let d = unified_diff_text(old, new);
    s.append(d.as_str());
    s
}

/// The pieces of the line that reports the new file or, if `directory`, the
/// new directory `source`, deployed to `target`.
pub fn entry_report(source: &str, target: &str, directory: bool) -> (r: Vec<StyledText>)
    ensures
        styled_view(r@) == entry_segments(source@, target@, directory),
{
    let mut out: Vec<StyledText> = Vec::new();
    push_piece(&mut out, TextStyle::Plain, string_of("["));
    push_piece(&mut out, TextStyle::SourcePath, string_of(source));
    push_piece(&mut out, TextStyle::Plain, string_of(" => "));
    push_piece(&mut out, TextStyle::TargetPath, string_of(target));
    let end = if directory { string_of("] New directory\n") } else { string_of("] New file\n") };
    push_piece(&mut out, TextStyle::Plain, end);
    assert(styled_view(out@) =~= entry_segments(source@, target@, directory));
    out
}

/// The pieces that report a change: a line for a new file or directory; for
/// a changed file its unified diff, if `unified`, as one plain piece, else
/// its pretty diff.
pub fn event_report(event: &Event, unified: bool) -> (r: Vec<StyledText>)
    ensures
        match event {
            Event::NewFile { relative_source_path: s, target_path: t } => styled_view(r@) == entry_segments(s@, t@, false),
            Event::NewDirectory { relative_source_path: s, target_path: t } => styled_view(r@) == entry_segments(s@, t@, true),
            Event::Diff { relative_source_path: s, target_path: t, old_content: o, new_content: n } => if unified {
                styled_view(r@) == seq![(TextStyle::Plain, "--- "@ + t@ + "\r\n+++ "@ + t@ + "\n"@ + unified_line_diff(o@, n@))]
            } else {
                exists|g: Seq<Vec<InlineChange>>| {
                    &&& styled_view(r@) == #[trigger] pretty_segments(s@, t@, g)
                    &&& is_line_diff(g, o@, n@, CONTEXT_RADIUS)
                }
            },
        },
{
    match event {
        Event::NewFile { relative_source_path, target_path } => entry_report(relative_source_path.as_str(), target_path.as_str(), false),
        Event::NewDirectory { relative_source_path, target_path } => entry_report(relative_source_path.as_str(), target_path.as_str(), true),
        Event::Diff { relative_source_path, target_path, old_content, new_content } => {
            if unified {
                let mut out: Vec<StyledText> = Vec::new();
                push_piece(&mut out, TextStyle::Plain, udiff_report(target_path.as_str(), old_content.as_str(), new_content.as_str()));
                assert(styled_view(out@) =~= seq![(TextStyle::Plain, "--- "@ + target_path@ + "\r\n+++ "@ + target_path@ + "\n"@
                    + unified_line_diff(old_content@, new_content@))]);
                out
            } else {
                pretty_diff(relative_source_path.as_str(), target_path.as_str(), old_content.as_str(), new_content.as_str())
            }
        },
    }
}

} // verus!
