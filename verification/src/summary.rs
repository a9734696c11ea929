//! The summary of a finished deployment: the dotfiles and links by status,
//! the overall status, the time it took and the counts.
use vstd::prelude::*;

use crate::deployment::{status_count, status_kind, DeployedDotfile, Deployment, DeploymentStatus, DotfileStatus};
use crate::text::{decimal, push_char, push_decimal, string_of};

verus! {

/// What became of one symlink of a deployment.
#[derive(Debug, Clone)]
pub struct LinkRecord {
    /// The link source.
    pub source: String,
    /// The link target.
    pub target: String,
    /// What became of the link.
    pub status: DotfileStatus,
}

/// `s` in green, as ANSI escape codes write it.
pub open spec fn ansi_green(s: Seq<char>) -> Seq<char> {
    "\x1b[32m"@ + s + "\x1b[39m"@
}

/// `s` in yellow, as ANSI escape codes write it.
pub open spec fn ansi_yellow(s: Seq<char>) -> Seq<char> {
    "\x1b[33m"@ + s + "\x1b[39m"@
}

/// `s` in red, as ANSI escape codes write it.
pub open spec fn ansi_red(s: Seq<char>) -> Seq<char> {
    "\x1b[31m"@ + s + "\x1b[39m"@
}

/// `s` in bright black, as ANSI escape codes write it.
pub open spec fn ansi_bright_black(s: Seq<char>) -> Seq<char> {
    "\x1b[90m"@ + s + "\x1b[39m"@
}

/// `s` dimmed, as ANSI escape codes write it.
pub open spec fn ansi_dimmed(s: Seq<char>) -> Seq<char> {
    "\x1b[2m"@ + s + "\x1b[0m"@
}

/// Renders `s` in green (`OwoColorize::green` of owo-colors, displayed): the
/// color's escape code, `s`, and the code of the default color.
#[verifier::external_body]
fn green_text(s: &str) -> (r: String)
    ensures
        r@ == ansi_green(s@),
{
    color_eyre::owo_colors::OwoColorize::green(&s).to_string()
}

/// Renders `s` in yellow (`OwoColorize::yellow` of owo-colors, displayed): the
/// color's escape code, `s`, and the code of the default color.
#[verifier::external_body]
fn yellow_text(s: &str) -> (r: String)
    ensures
        r@ == ansi_yellow(s@),
{
    color_eyre::owo_colors::OwoColorize::yellow(&s).to_string()
}

/// Renders `s` in red (`OwoColorize::red` of owo-colors, displayed): the
/// color's escape code, `s`, and the code of the default color.
#[verifier::external_body]
fn red_text(s: &str) -> (r: String)
    ensures
        r@ == ansi_red(s@),
{
    color_eyre::owo_colors::OwoColorize::red(&s).to_string()
}

/// Renders `s` in bright black (`OwoColorize::bright_black` of owo-colors,
/// displayed): the color's escape code, `s`, and the code of the default color.
#[verifier::external_body]
fn bright_black_text(s: &str) -> (r: String)
    ensures
        r@ == ansi_bright_black(s@),
{
    color_eyre::owo_colors::OwoColorize::bright_black(&s).to_string()
}

/// Renders `s` dimmed (`OwoColorize::dimmed` of owo-colors, displayed): the
/// dim escape code, `s`, and the reset code.
#[verifier::external_body]
fn dimmed_text(s: &str) -> (r: String)
    ensures
        r@ == ansi_dimmed(s@),
{
    color_eyre::owo_colors::OwoColorize::dimmed(&s).to_string()
}

/// How `std::time::Duration` writes `d` in its `Debug` form.
pub uninterp spec fn duration_debug(d: std::time::Duration) -> Seq<char>;

/// Writes `d` in its `Debug` form (`<Duration as Debug>::fmt`). The claim is
/// that the text depends on the duration alone.
#[verifier::external_body]
fn duration_text(d: std::time::Duration) -> (r: String)
    ensures
        r@ == duration_debug(d),
{
    format!("{:?}", d)
}

/// The title of the section of a status kind (0 success, 1 failed, 2 skipped).
pub open spec fn section_title(kind: int) -> Seq<char> {
    if kind == 0 {
        ansi_green("SUCCESS"@)
    } else if kind == 2 {
        ansi_yellow("SKIPPED"@)
    } else {
        ansi_red("FAILED"@)
    }
}

/// The reason of a skipped or failed status; empty for success.
pub open spec fn status_reason(s: DotfileStatus) -> Seq<char> {
    match s {
        DotfileStatus::Success => Seq::empty(),
        DotfileStatus::Failed(r) => r@,
        DotfileStatus::Skipped(r) => r@,
    }
}

/// The line of a dotfile deployed to `path` with status `s`.
pub open spec fn dotfile_line(path: Seq<char>, s: DotfileStatus) -> Seq<char> {
    if s is Success {
        "\n\t"@ + ansi_bright_black(path)
    } else {
        "\n\t"@ + path + ": "@ + ansi_bright_black(status_reason(s))
    }
}

/// The line of a link.
pub open spec fn link_line(l: LinkRecord) -> Seq<char> {
    "\n\t"@ + ansi_bright_black(l.source@) + " => "@ + ansi_bright_black(l.target@) + if l.status is Success {
        Seq::empty()
    } else {
        ": "@ + ansi_bright_black(status_reason(l.status))
    }
}

/// The lines of the dotfiles of `items` whose status has the kind `kind`, in
/// order.
pub open spec fn dotfile_lines(items: Seq<(String, DeployedDotfile)>, kind: int) -> Seq<char>
    decreases items.len(),
{
    if items.len() == 0 {
        Seq::empty()
    } else {
        dotfile_lines(items.drop_last(), kind) + if status_kind(items.last().1.status) == kind {
            dotfile_line(items.last().0@, items.last().1.status)
        } else {
            Seq::empty()
        }
    }
}

/// The number of links of `links` whose status has the kind `kind`.
pub open spec fn link_count(links: Seq<LinkRecord>, kind: int) -> nat
    decreases links.len(),
{
    if links.len() == 0 {
        0
    } else {
        link_count(links.drop_last(), kind) + if status_kind(links.last().status) == kind { 1nat } else { 0nat }
    }
}

/// The lines of the links of `links` whose status has the kind `kind`, in
/// order.
pub open spec fn link_lines(links: Seq<LinkRecord>, kind: int) -> Seq<char>
    decreases links.len(),
{
    if links.len() == 0 {
        Seq::empty()
    } else {
        link_lines(links.drop_last(), kind) + if status_kind(links.last().status) == kind {
            link_line(links.last())
        } else {
            Seq::empty()
        }
    }
}

/// The section of the dotfiles of a status kind: a title and a line for
/// each; empty where there is none.
pub open spec fn dotfile_section(items: Seq<(String, DeployedDotfile)>, kind: int) -> Seq<char> {
    if status_count(items, kind) == 0 {
        Seq::empty()
    } else {
        "Dotfiles ("@ + section_title(kind) + ")"@ + dotfile_lines(items, kind)
    }
}

/// The section of the links of a status kind: a title and a line for each;
/// empty where there is none.
pub open spec fn link_section(links: Seq<LinkRecord>, kind: int) -> Seq<char> {
    if link_count(links, kind) == 0 {
        Seq::empty()
    } else {
        "Links ("@ + section_title(kind) + ")"@ + link_lines(links, kind)
    }
}

/// The line of the overall status.
pub open spec fn status_line(s: DeploymentStatus) -> Seq<char> {
    match s {
        DeploymentStatus::Success => "Status: "@ + ansi_green("SUCCESS"@),
        DeploymentStatus::Failed(r) => "Status: "@ + ansi_red("FAILED"@) + "\n\t"@ + r@,
    }
}

/// The ruler between the parts of the totals: eighty dimmed dashes.
pub open spec fn ruler() -> Seq<char> {
    ansi_dimmed(Seq::new(80, |i: int| '-'))
}

/// The time a deployment took and the numbers of its dotfiles and links by
/// status (deployed, skipped, failed), each with the total.
pub open spec fn totals_text(time: Seq<char>, files: (nat, nat, nat), links: (nat, nat, nat)) -> Seq<char> {
    "\nTime            : "@ + time + "\n"@ + ruler()
        + "\nFiles (deployed): "@ + decimal(files.0) + "\nFiles (skipped) : "@ + decimal(files.1)
        + "\nFiles (failed)  : "@ + decimal(files.2) + "\nFiles (total)   : "@ + decimal(files.0 + files.1 + files.2)
        + "\n"@ + ruler()
        + "\nLinks (deployed): "@ + decimal(links.0) + "\nLinks (skipped) : "@ + decimal(links.1)
        + "\nLinks (failed)  : "@ + decimal(links.2) + "\nLinks (total)   : "@ + decimal(links.0 + links.1 + links.2)
}

/// Returns the kind of a status: 0 success, 1 failed, 2 skipped.
fn kind_of(s: &DotfileStatus) -> (r: u8)
    ensures
        r == status_kind(*s),
{
    match s {
        DotfileStatus::Success => 0,
        DotfileStatus::Failed(_) => 1,
        DotfileStatus::Skipped(_) => 2,
    }
}

/// Returns the reason of a status.
fn reason_of(s: &DotfileStatus) -> (r: &str)
    ensures
        r@ == status_reason(*s),
{
    match s {
        DotfileStatus::Success => {
            proof {
                reveal_strlit("");
            }
            assert(""@ =~= Seq::<char>::empty());
            ""
        },
        DotfileStatus::Failed(r) => r.as_str(),
        DotfileStatus::Skipped(r) => r.as_str(),
    }
}

/// Returns the title of the section of a status kind.
fn title_text(kind: u8) -> (r: String)
    ensures
        r@ == section_title(kind as int),
{
    if kind == 0 {
        green_text("SUCCESS")
    } else if kind == 2 {
        yellow_text("SKIPPED")
    } else {
        red_text("FAILED")
    }
}

/// Returns the section of the dotfiles of `items` whose status has the kind
/// `kind`.
pub fn dotfile_section_text(items: &Vec<(String, DeployedDotfile)>, kind: u8) -> (r: String)
    ensures
        r@ == dotfile_section(items@, kind as int),
{
    let mut lines = String::new();
    let mut count: usize = 0;
    let mut i: usize = 0;
    assert(items@.subrange(0, 0) =~= Seq::<(String, DeployedDotfile)>::empty());
    while i < items.len()
        invariant
            i <= items@.len(),
            count <= i,
            count == status_count(items@.subrange(0, i as int), kind as int),
            lines@ == dotfile_lines(items@.subrange(0, i as int), kind as int),
        decreases items.len() - i,
    {
        let ghost old_lines = lines@;
        let path = items[i].0.as_str();
        let status = &items[i].1.status;
        if kind_of(status) == kind {
            lines.append("\n\t");
            if status.is_success() {
                let p = bright_black_text(path);
                lines.append(p.as_str());
            } else {
                lines.append(path);
                lines.append(": ");
                let r = bright_black_text(reason_of(status));
                lines.append(r.as_str());
            }
            count = count + 1;
        }
        proof {
            let s = items@.subrange(0, i + 1);
            assert(s.drop_last() =~= items@.subrange(0, i as int));
            assert(s.last() == items@[i as int]);
        }
        i = i + 1;
        assert(lines@ =~= dotfile_lines(items@.subrange(0, i as int), kind as int));
    }
    assert(items@.subrange(0, i as int) =~= items@);
    if count == 0 {
        let e = String::new();
        assert(e@ =~= Seq::<char>::empty());
        e
    } else {
        let mut s = string_of("Dotfiles (");
        let t = title_text(kind);
        s.append(t.as_str());
        s.append(")");
        s.append(lines.as_str());
        s
    }
}

/// Returns the section of the links of `links` whose status has the kind
/// `kind`, and their number.
pub fn link_section_text(links: &Vec<LinkRecord>, kind: u8) -> (r: (String, usize))
    ensures
        r.0@ == link_section(links@, kind as int),
        r.1 == link_count(links@, kind as int),
{
    let mut lines = String::new();
    let mut count: usize = 0;
    let mut i: usize = 0;
    assert(links@.subrange(0, 0) =~= Seq::<LinkRecord>::empty());
    while i < links.len()
        invariant
            i <= links@.len(),
            count <= i,
            count == link_count(links@.subrange(0, i as int), kind as int),
            lines@ == link_lines(links@.subrange(0, i as int), kind as int),
        decreases links.len() - i,
    {
        let l = &links[i];
        if kind_of(&l.status) == kind {
            lines.append("\n\t");
            let a = bright_black_text(l.source.as_str());
            lines.append(a.as_str());
            lines.append(" => ");
            let b = bright_black_text(l.target.as_str());
            lines.append(b.as_str());
            if !l.status.is_success() {
                lines.append(": ");
                let r = bright_black_text(reason_of(&l.status));
                lines.append(r.as_str());
            }
            count = count + 1;
        }
        proof {
            let s = links@.subrange(0, i + 1);
            assert(s.drop_last() =~= links@.subrange(0, i as int));
            assert(s.last() == links@[i as int]);
        }
        i = i + 1;
        assert(lines@ =~= link_lines(links@.subrange(0, i as int), kind as int));
    }
    assert(links@.subrange(0, i as int) =~= links@);
    if count == 0 {
        let e = String::new();
        assert(e@ =~= Seq::<char>::empty());
        (e, count)
    } else {
        let mut s = string_of("Links (");
        let t = title_text(kind);
        s.append(t.as_str());
        s.append(")");
        s.append(lines.as_str());
        (s, count)
    }
}

/// Returns the ruler between the parts of the totals.
fn ruler_text() -> (r: String)
    ensures
        r@ == ruler(),
{
    let mut s = String::new();
    let mut k: usize = 0;
    while k < 80
        invariant
            k <= 80,
            s@ == Seq::new(k as nat, |i: int| '-'),
        decreases 80 - k,
    {
        push_char(&mut s, '-');
        k = k + 1;
        assert(s@ =~= Seq::new(k as nat, |i: int| '-'));
    }
    dimmed_text(s.as_str())
}

/// Appends `label` and the decimal text of `n`.
fn push_count(s: &mut String, label: &str, n: usize)
    ensures
        final(s)@ == old(s)@ + label@ + decimal(n as nat),
{
    s.append(label);
    push_decimal(s, n);
}

/// Returns the line of the overall status.
fn status_string(st: &DeploymentStatus) -> (r: String)
    ensures
        r@ == status_line(*st),
{
    let mut s = string_of("Status: ");
    match st {
        DeploymentStatus::Success => {
            let g = green_text("SUCCESS");
            s.append(g.as_str());
        },
        DeploymentStatus::Failed(reason) => {
            let r = red_text("FAILED");
            s.append(r.as_str());
            s.append("\n\t");
            s.append(reason.as_str());
        },
    }
    s
}

/// Returns the time `time` and the numbers of dotfiles and links by status.
fn totals_string(time: &str, files: (usize, usize, usize), links: (usize, usize, usize)) -> (r: String)
    requires
        files.0 + files.1 + files.2 <= usize::MAX,
        links.0 + links.1 + links.2 <= usize::MAX,
    ensures
        r@ == totals_text(time@, (files.0 as nat, files.1 as nat, files.2 as nat), (links.0 as nat, links.1 as nat, links.2 as nat)),
{
    let rule = ruler_text();
    let mut s = string_of("\nTime            : ");
    s.append(time);
    s.append("\n");
    s.append(rule.as_str());
    push_count(&mut s, "\nFiles (deployed): ", files.0);
    push_count(&mut s, "\nFiles (skipped) : ", files.1);
    push_count(&mut s, "\nFiles (failed)  : ", files.2);
    push_count(&mut s, "\nFiles (total)   : ", files.0 + files.1 + files.2);
    s.append("\n");
    s.append(rule.as_str());
    push_count(&mut s, "\nLinks (deployed): ", links.0);
    push_count(&mut s, "\nLinks (skipped) : ", links.1);
    push_count(&mut s, "\nLinks (failed)  : ", links.2);
    push_count(&mut s, "\nLinks (total)   : ", links.0 + links.1 + links.2);
    assert(s@ =~= totals_text(time@, (files.0 as nat, files.1 as nat, files.2 as nat), (links.0 as nat, links.1 as nat, links.2 as nat)));
    s
}

/// Returns the summary of a finished deployment, as the texts that are
/// output one after the other: the sections of the dotfiles (deployed,
/// skipped, failed), the sections of the links `links` (likewise), and last
/// the overall status with the time `elapsed` took and the numbers of
/// dotfiles and links by status.
pub fn deployment_summary(deployment: &Deployment, links: &Vec<LinkRecord>, elapsed: std::time::Duration) -> (r: Vec<String>)
    ensures
        r@.len() == 7,
        r@[0]@ == dotfile_section(deployment.entries(), 0),
        r@[1]@ == dotfile_section(deployment.entries(), 2),
        r@[2]@ == dotfile_section(deployment.entries(), 1),
        r@[3]@ == link_section(links@, 0),
        r@[4]@ == link_section(links@, 2),
        r@[5]@ == link_section(links@, 1),
        r@[6]@ == status_line(deployment.spec_status()) + totals_text(
            duration_debug(elapsed),
            (status_count(deployment.entries(), 0), status_count(deployment.entries(), 2), status_count(deployment.entries(), 1)),
            (link_count(links@, 0), link_count(links@, 2), link_count(links@, 1)),
        ),
{
    let items = deployment.dotfiles();
    let mut out: Vec<String> = Vec::new();
    out.push(dotfile_section_text(items, 0));
    out.push(dotfile_section_text(items, 2));
    out.push(dotfile_section_text(items, 1));
    let (l0, ls) = link_section_text(links, 0);
    let (l2, lk) = link_section_text(links, 2);
    let (l1, lf) = link_section_text(links, 1);
    out.push(l0);
    out.push(l2);
    out.push(l1);
    proof {
        lemma_link_counts_total(links@);
    }
    let status = status_string(deployment.status());
    let counts = deployment.counts();
    let _n_items: usize = items.len();
    let _n_links: usize = links.len();
    let time = duration_text(elapsed);
    let totals = totals_string(time.as_str(), (counts.success, counts.skipped, counts.failed), (ls, lk, lf));
    let mut s = status;
    s.append(totals.as_str());
    out.push(s);
    out
}

/// The numbers of links of the three status kinds add up to the number of
/// links.
proof fn lemma_link_counts_total(links: Seq<LinkRecord>)
    ensures
        link_count(links, 0) + link_count(links, 1) + link_count(links, 2) == links.len(),
    decreases links.len(),
{
    if links.len() > 0 {
        lemma_link_counts_total(links.drop_last());
    }
}

} // verus!
