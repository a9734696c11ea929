//! Resolving a template to its output: filling variable blocks and evaluating
//! if blocks.
use vstd::prelude::*;

use crate::block::{block_data, blocks_data, Block, BlockData, BlockKind, If, IfData, IfExpr, KindData, Var, VarEnv};
use crate::diagnostic::{error_data, with_label, DiagData, Diagnostic, DiagnosticBuilder, DiagnosticLevel};
use crate::parser::{max_source_len, sp_parse_from, span_bytes};
use crate::scan::{find, find_from, find_bytes, is_blank, is_blank_exec, lemma_find_from_bounds, push_slice, rfind_byte, rfind_byte_exec};
use crate::session::{diags_data, has_error, Session};
use crate::source::{lemma_rfind_bounds, spec_column};
use crate::template::Template;
use crate::text::{push_char, string_from_bytes};
use crate::variables::{Variables, Vars};
use vstd::utf8::{decode_utf8, encode_utf8, valid_utf8};

verus! {

/// What a template reads of the system it is resolved on: the environment
/// variables, and the architecture, operating system and family of the target
/// the program was built for.
#[derive(Debug)]
pub struct SystemVars {
    /// The environment variables.
    pub env: Variables,
    /// The target architecture (`PUNKTF_TARGET_ARCH` when the environment has none).
    pub target_arch: String,
    /// The target operating system (`PUNKTF_TARGET_OS` when the environment has none).
    pub target_os: String,
    /// The target family (`PUNKTF_TARGET_FAMILY` when the environment has none).
    pub target_family: String,
}

/// The variable sources a template is resolved with, as maps from name to value.
pub struct Lookup {
    /// The profile variables, if given.
    pub profile: Option<Map<Seq<char>, Seq<char>>>,
    /// The dotfile variables, if given.
    pub dotfile: Option<Map<Seq<char>, Seq<char>>>,
    /// The environment variables.
    pub env: Map<Seq<char>, Seq<char>>,
    /// The target architecture.
    pub arch: Seq<char>,
    /// The target operating system.
    pub os: Seq<char>,
    /// The target family.
    pub family: Seq<char>,
}

impl Lookup {
    /// The sources that the given variables and system define.
    pub open spec fn of<PV: Vars, DV: Vars>(profile: Option<&PV>, dotfile: Option<&DV>, system: &SystemVars) -> Lookup {
        Lookup {
            profile: match profile {
                Some(p) => Some(p.vars_map()),
                None => None,
            },
            dotfile: match dotfile {
                Some(d) => Some(d.vars_map()),
                None => None,
            },
            env: system.env.view_map(),
            arch: system.target_arch@,
            os: system.target_os@,
            family: system.target_family@,
        }
    }
}

/// The bytes of `s` read as characters, one byte each (the name of a variable
/// holds ASCII bytes only).
pub open spec fn latin1(s: Seq<u8>) -> Seq<char> {
    s.map_values(|b: u8| b as char)
}

/// The value of `key` in the optional map `m`.
pub open spec fn map_value(m: Option<Map<Seq<char>, Seq<char>>>, key: Seq<char>) -> Option<Seq<char>> {
    match m {
        Some(m) => if m.contains_key(key) {
            Some(m[key])
        } else {
            None
        },
        None => None,
    }
}

/// The value of `key` in the environment `e`. The system environment gives the
/// target's architecture, operating system and family for the three `PUNKTF_TARGET_`
/// names it lacks.
pub open spec fn env_value(l: Lookup, e: VarEnv, key: Seq<char>) -> Option<Seq<char>> {
    match e {
        VarEnv::Environment => if l.env.contains_key(key) {
            Some(l.env[key])
        } else if key == "PUNKTF_TARGET_ARCH"@ {
            Some(l.arch)
        } else if key == "PUNKTF_TARGET_OS"@ {
            Some(l.os)
        } else if key == "PUNKTF_TARGET_FAMILY"@ {
            Some(l.family)
        } else {
            None
        },
        VarEnv::Profile => map_value(l.profile, key),
        VarEnv::Dotfile => map_value(l.dotfile, key),
    }
}

/// The value of `key` in the first of the environments `envs[i..]` that has one.
pub open spec fn first_value(l: Lookup, envs: Seq<VarEnv>, key: Seq<char>, i: int) -> Option<Seq<char>>
    decreases envs.len() - i,
{
    if i < 0 || i >= envs.len() {
        None
    } else {
        match env_value(l, envs[i], key) {
            Some(v) => Some(v),
            None => first_value(l, envs, key, i + 1),
        }
    }
}

/// The names of the environments, separated by `, `.
pub open spec fn env_names(envs: Seq<VarEnv>) -> Seq<char>
    decreases envs.len(),
{
    if envs.len() == 0 {
        seq![]
    } else if envs.len() == 1 {
        envs[0].spec_name()
    } else {
        env_names(envs.drop_last()) + ", "@ + envs.last().spec_name()
    }
}

/// The name of the variable `v` in the template `c`.
pub open spec fn var_name(c: Seq<u8>, v: Var) -> Seq<char> {
    latin1(span_bytes(c, v.name.low.0 as int, v.name.high.0 as int))
}

/// The description of the error for a variable that has no value.
pub open spec fn missing_var_text(name: Seq<char>, envs: Seq<VarEnv>) -> Seq<char> {
    "no variable `"@ + name + "` found in environments "@ + "["@ + env_names(envs) + "]"@
}

/// The value of the variable `v`, or the diagnostic that it has none.
pub open spec fn sp_resolve_var(c: Seq<u8>, l: Lookup, v: Var) -> Result<Seq<char>, DiagData> {
    let key = var_name(c, v);
    match first_value(l, v.envs.spec_envs(), key, 0) {
        Some(x) => Ok(x),
        None => Err(error_data(
            "failed to resolve variable"@,
            Some(missing_var_text(key, v.envs.spec_envs())),
            v.name,
        )),
    }
}

/// The value of the if expression `e`.
pub open spec fn sp_eval(c: Seq<u8>, l: Lookup, e: IfExpr) -> Result<bool, DiagData> {
    match e {
        IfExpr::Compare { var, op, other } => match sp_resolve_var(c, l, var) {
            Ok(x) => Ok(op.spec_eval(encode_utf8(x), span_bytes(c, other.low.0 as int, other.high.0 as int))),
            Err(d) => Err(d),
        },
        IfExpr::Exists { var } => Ok(sp_resolve_var(c, l, var) is Ok),
        IfExpr::NotExists { var } => Ok(sp_resolve_var(c, l, var) is Err),
    }
}

/// Whether position `p` of `c` is the start of a line.
pub open spec fn at_line_start(c: Seq<u8>, p: int) -> bool {
    p <= c.len() && spec_column(c, p) == 0
}

/// Whether `s` starts with a line break (`\n` or `\r\n`).
pub open spec fn starts_with_newline(s: Seq<u8>) -> bool {
    (s.len() >= 1 && s[0] == 0x0a) || (s.len() >= 2 && s[0] == 0x0d && s[1] == 0x0a)
}

/// A line feed.
pub open spec fn lf() -> Seq<u8> {
    seq![0x0au8]
}

/// The output of an if block: without what comes before its first line feed if
/// that is white space only (the line feed included), and without its last line
/// if that is white space only (from its line feed on).
pub open spec fn trim_if_output(s: Seq<u8>) -> Seq<u8> {
    let s1 = match find(s, lf()) {
        Some(i) => if is_blank(s.subrange(0, i)) {
            s.subrange(i + 1, s.len() as int)
        } else {
            s
        },
        None => s,
    };
    match rfind_byte(s1, 0x0a) {
        Some(j) => if is_blank(s1.subrange(j, s1.len() as int)) {
            s1.subrange(0, j)
        } else {
            s1
        },
        None => s1,
    }
}

/// The output of an if block at `span` from the output of its taken branch.
pub open spec fn if_result(c: Seq<u8>, r: (Result<Seq<u8>, DiagData>, bool), span_low: int) -> (Result<Seq<u8>, DiagData>, bool) {
    match r.0 {
        Ok(o) => {
            let p = trim_if_output(o);
            (Ok(p), p.len() == 0 && at_line_start(c, span_low))
        },
        Err(d) => (Err(d), r.1),
    }
}

/// Processes block `b` of template `c`: the bytes it adds to the output or its
/// diagnostic, and whether a leading line break of the next text block is
/// dropped, given that `skip` says so before it.
pub open spec fn sp_process(c: Seq<u8>, l: Lookup, b: BlockData, skip: bool) -> (Result<Seq<u8>, DiagData>, bool)
    decreases b, 0int,
{
    match b.kind {
        KindData::Text => {
            let content = span_bytes(c, b.span.low.0 as int, b.span.high.0 as int);
            if skip && starts_with_newline(content) {
                match find(content, lf()) {
                    Some(i) => (Ok(content.subrange(i + 1, content.len() as int)), false),
                    None => (Ok(content), false),
                }
            } else {
                (Ok(content), skip)
            }
        },
        KindData::Comment => (Ok(seq![]), at_line_start(c, b.span.low.0 as int)),
        KindData::Escaped(inner) => {
            let content = span_bytes(c, inner.low.0 as int, inner.high.0 as int);
            (Ok(content), content.len() == 0 && at_line_start(c, b.span.low.0 as int))
        },
        KindData::Var(v) => match sp_resolve_var(c, l, v) {
            Ok(x) => (Ok(encode_utf8(x)), false),
            Err(d) => (Err(d), false),
        },
        KindData::Print(_) => (Ok(seq![]), at_line_start(c, b.span.low.0 as int)),
        KindData::If(d) => match sp_eval(c, l, d.head.1) {
            Err(e) => (Err(with_label(e, d.head.0, "while resolving this `if` block"@)), skip),
            Ok(true) => if_result(c, sp_list(c, l, d.head.2, skip), b.span.low.0 as int),
            Ok(false) => if_result(c, sp_branch(c, l, d, 0, skip), b.span.low.0 as int),
        },
    }
}

/// Processes the blocks `bs` in order, stopping at the first diagnostic.
pub open spec fn sp_list(c: Seq<u8>, l: Lookup, bs: Seq<BlockData>, skip: bool) -> (Result<Seq<u8>, DiagData>, bool)
    decreases bs, 0int,
{
    if bs.len() == 0 {
        (Ok(seq![]), skip)
    } else {
        let r = sp_process(c, l, bs[0], skip);
        match r.0 {
            Err(d) => (Err(d), r.1),
            Ok(o) => {
                let rest = sp_list(c, l, bs.subrange(1, bs.len() as int), r.1);
                match rest.0 {
                    Ok(o2) => (Ok(o + o2), rest.1),
                    Err(d) => (Err(d), rest.1),
                }
            },
        }
    }
}

/// Processes the first branch from the `k`-th `elif` on whose expression holds,
/// or else the `else` branch.
pub open spec fn sp_branch(c: Seq<u8>, l: Lookup, d: IfData, k: int, skip: bool) -> (Result<Seq<u8>, DiagData>, bool)
    decreases d, d.elifs.len() - k,
{
    if k < 0 || k >= d.elifs.len() {
        match d.els {
            Some(e) => sp_list(c, l, e.1, skip),
            None => (Ok(seq![]), skip),
        }
    } else {
        match sp_eval(c, l, d.elifs[k].1) {
            Err(e) => (Err(with_label(e, d.elifs[k].0, "while resolving this `elif` block"@)), skip),
            Ok(true) => sp_list(c, l, d.elifs[k].2, skip),
            Ok(false) => sp_branch(c, l, d, k + 1, skip),
        }
    }
}

/// Resolves the blocks `bs`: the output and the diagnostics of the blocks that
/// failed.
pub open spec fn sp_resolve_from(c: Seq<u8>, l: Lookup, bs: Seq<BlockData>, skip: bool) -> (Seq<u8>, Seq<DiagData>)
    decreases bs.len(),
{
    if bs.len() == 0 {
        (seq![], seq![])
    } else {
        let r = sp_process(c, l, bs[0], skip);
        let rest = sp_resolve_from(c, l, bs.subrange(1, bs.len() as int), r.1);
        match r.0 {
            Ok(o) => (o + rest.0, rest.1),
            Err(d) => (rest.0, seq![d] + rest.1),
        }
    }
}

/// The bytes of `c` covered by `span`, or nothing if the span lies outside `c`.
fn span_slice<'b>(c: &'b [u8], span: crate::span::ByteSpan) -> (r: &'b [u8])
    ensures
        r@ == span_bytes(c@, span.low.0 as int, span.high.0 as int),
{
    let lo = span.low.0 as usize;
    let hi = span.high.0 as usize;
    if lo <= hi && hi <= c.len() {
        &c[lo..hi]
    } else {
        &c[0..0]
    }
}

/// The range of `s` that [`trim_if_output`] keeps.
fn trim_if_output_range(s: &[u8]) -> (r: (usize, usize))
    ensures
        r.0 <= r.1 <= s@.len(),
        s@.subrange(r.0 as int, r.1 as int) == trim_if_output(s@),
{
    let nl: [u8; 1] = [0x0a];
    assert(nl@ =~= lf());
    let mut lo: usize = 0;
    let n = s.len();
    match find_bytes(s, 0, &nl) {
        Some(i) => {
            proof {
                lemma_find_from_bounds(s@, lf(), 0);
                assert(find_from(s@, lf(), 0) == Some(i as int));
            }
            if is_blank_exec(&s[0..i]) {
                lo = i + 1;
            }
        },
        None => {},
    }
    let ghost s1 = match find(s@, lf()) {
        Some(i) => if is_blank(s@.subrange(0, i)) {
            s@.subrange(i + 1, s@.len() as int)
        } else {
            s@
        },
        None => s@,
    };
    let rest = &s[lo..s.len()];
    assert(rest@ == s1);
    let mut hi: usize = s.len();
    proof { lemma_rfind_bounds(rest@, 0x0a); }
    match rfind_byte_exec(rest, 0x0a) {
        Some(j) => {
            if is_blank_exec(&rest[j..rest.len()]) {
                hi = lo + j;
            }
        },
        None => {},
    }
    assert(s@.subrange(lo as int, hi as int) =~= trim_if_output(s@));
    (lo, hi)
}

/// The resolver evaluates and fills a template. The errors it finds are
/// recorded in its session.
pub struct Resolver<'a, PV, DV> {
    /// The template to resolve.
    template: &'a Template<'a>,
    /// The variables defined in the profile.
    profile_vars: Option<&'a PV>,
    /// The variables defined by the dotfile the template belongs to.
    dotfile_vars: Option<&'a DV>,
    /// The variables of the system.
    system: &'a SystemVars,
    /// The session where all diagnostics found while resolving are recorded.
    session: Session,
    /// Set when a leading line break of the next text block is to be dropped,
    /// after a block that inserted nothing at the start of a line (a comment, a
    /// print or an if block without output).
    should_skip_next_newline: bool,
}

impl<'a, PV: Vars, DV: Vars> Resolver<'a, PV, DV> {
    /// The bytes of the template's source.
    pub closed spec fn content(&self) -> Seq<u8> {
        self.template.spec_source().spec_bytes()
    }

    /// The blocks of the template.
    pub closed spec fn template_blocks(&self) -> Seq<BlockData> {
        self.template.blocks_data()
    }

    /// The variable sources.
    pub closed spec fn lookup(&self) -> Lookup {
        Lookup::of(self.profile_vars, self.dotfile_vars, self.system)
    }

    /// The session of the resolver.
    pub closed spec fn session(&self) -> Session {
        self.session
    }

    /// Whether a leading line break of the next text block is dropped.
    pub closed spec fn skip(&self) -> bool {
        self.should_skip_next_newline
    }

    /// The source fits the positions of its blocks.
    pub closed spec fn wf(&self) -> bool {
        self.content().len() <= max_source_len()
    }

    /// Creates a new resolver for `template` with the given variables.
    pub fn new(
        template: &'a Template<'a>,
        profile_vars: Option<&'a PV>,
        dotfile_vars: Option<&'a DV>,
        system: &'a SystemVars,
    ) -> (r: Self)
        ensures
            r.wf(),
            r.content() == template.spec_source().spec_bytes(),
            r.template_blocks() == template.blocks_data(),
            r.lookup() == Lookup::of(profile_vars, dotfile_vars, system),
            !r.session().is_failed(),
            r.session().reported() == Seq::<DiagData>::empty(),
            !r.skip(),
    {
        let _ = template.source();
        Resolver { template, profile_vars, dotfile_vars, system, session: Session::new(), should_skip_next_newline: false }
    }

    /// Adds a diagnostic to the session, marking it failed if it is an error.
    fn report_diagnostic(&mut self, diagnostic: Diagnostic)
        ensures
            final(self).template == old(self).template,
            final(self).profile_vars == old(self).profile_vars,
            final(self).dotfile_vars == old(self).dotfile_vars,
            final(self).system == old(self).system,
            final(self).should_skip_next_newline == old(self).should_skip_next_newline,
            crate::parser::session_step(old(self).session, final(self).session, seq![diagnostic.data()]),
    {
        let ghost d = diagnostic.data();
        if matches!(diagnostic.level(), DiagnosticLevel::Error) {
            self.session.mark_failed();
        }
        self.session.report(diagnostic);
        proof {
            assert(old(self).session.reported() + seq![d] =~= old(self).session.reported().push(d));
            assert(has_error(seq![d]) == (d.0 is Error)) by {
                if d.0 is Error {
                    assert(seq![d][0] == d);
                }
            }
        }
    }

    /// Whether position `pos` of the source is the start of a line.
    fn at_line_start(&self, pos: crate::span::BytePos) -> (r: bool)
        requires
            self.wf(),
        ensures
            r == at_line_start(self.content(), pos.0 as int),
    {
        let source = self.template.source();
        if (pos.0 as usize) <= source.bytes().len() {
            source.get_pos_location(pos).column() == 0
        } else {
            false
        }
    }

    /// Resolves the variable `var` by looking for its value in the environments
    /// it names, in order.
    fn resolve_var(&self, var: &Var) -> (r: Result<&'a str, DiagnosticBuilder>)
        ensures
            match r {
                Ok(v) => sp_resolve_var(self.content(), self.lookup(), *var) == Ok::<Seq<char>, DiagData>(v@),
                Err(d) => sp_resolve_var(self.content(), self.lookup(), *var) == Err::<Seq<char>, DiagData>(d.data()),
            },
    {
        let ghost l = self.lookup();
        let c = self.template.source().bytes();
        let name = span_slice(c, var.name);
        let mut key = String::new();
        let mut i: usize = 0;
        while i < name.len()
            invariant
                i <= name@.len(),
                key@ == latin1(name@.subrange(0, i as int)),
            decreases name.len() - i,
        {
            push_char(&mut key, name[i] as char);
            assert(latin1(name@.subrange(0, i + 1)) =~= latin1(name@.subrange(0, i as int)).push(name@[i as int] as char));
            i = i + 1;
        }
        assert(name@.subrange(0, name@.len() as int) =~= name@);
        assert(key@ == var_name(self.content(), *var));
        let envs = var.envs.envs();
        let mut k: usize = 0;
        while k < envs.len()
            invariant
                k <= envs@.len(),
                envs@ == var.envs.spec_envs(),
                key@ == var_name(self.content(), *var),
                l == self.lookup(),
                first_value(l, envs@, key@, 0) == first_value(l, envs@, key@, k as int),
            decreases envs.len() - k,
        {
            match envs[k] {
                VarEnv::Environment => {
                    match self.system.env.var(key.as_str()) {
                        Some(v) => {
                            return Ok(v);
                        },
                        None => {},
                    }
                    if key == "PUNKTF_TARGET_ARCH".to_owned() {
                        return Ok(self.system.target_arch.as_str());
                    }
                    if key == "PUNKTF_TARGET_OS".to_owned() {
                        return Ok(self.system.target_os.as_str());
                    }
                    if key == "PUNKTF_TARGET_FAMILY".to_owned() {
                        return Ok(self.system.target_family.as_str());
                    }
                },
                VarEnv::Profile => {
                    if let Some(p) = self.profile_vars {
                        if let Some(v) = p.var(key.as_str()) {
                            return Ok(v);
                        }
                    }
                },
                VarEnv::Dotfile => {
                    if let Some(d) = self.dotfile_vars {
                        if let Some(v) = d.var(key.as_str()) {
                            return Ok(v);
                        }
                    }
                },
            }
            k = k + 1;
        }
        let mut names = String::new();
        let mut j: usize = 0;
        while j < envs.len()
            invariant
                j <= envs@.len(),
                names@ == env_names(envs@.subrange(0, j as int)),
            decreases envs.len() - j,
        {
            if j > 0 {
                names.append(", ");
            }
            names.append(envs[j].name());
            proof {
                let t = envs@.subrange(0, j + 1);
                assert(t.drop_last() =~= envs@.subrange(0, j as int));
                if j == 0 {
                    assert(names@ =~= env_names(t));
                } else {
                    assert(names@ =~= env_names(t));
                }
            }
            j = j + 1;
        }
        assert(envs@.subrange(0, envs@.len() as int) =~= envs@);
        let mut desc = "no variable `".to_owned();
        desc.append(key.as_str());
        desc.append("` found in environments ");
        desc.append("[");
        desc.append(names.as_str());
        desc.append("]");
        assert(desc@ =~= missing_var_text(key@, envs@));
        Err(DiagnosticBuilder::new(DiagnosticLevel::Error)
            .message("failed to resolve variable")
            .description(desc.as_str())
            .primary_span(var.name))
    }

    /// Evaluates the if expression `expr`.
    fn resolve_if_expr(&self, expr: &IfExpr) -> (r: Result<bool, DiagnosticBuilder>)
        ensures
            match r {
                Ok(b) => sp_eval(self.content(), self.lookup(), *expr) == Ok::<bool, DiagData>(b),
                Err(d) => sp_eval(self.content(), self.lookup(), *expr) == Err::<bool, DiagData>(d.data()),
            },
    {
        match expr {
            IfExpr::Compare { var, op, other } => {
                let v = match self.resolve_var(var) {
                    Ok(v) => v,
                    Err(d) => {
                        return Err(d);
                    },
                };
                let c = self.template.source().bytes();
                let rhs = span_slice(c, *other);
                Ok(op.eval(v.as_bytes(), rhs))
            },
            IfExpr::Exists { var } => Ok(self.resolve_var(var).is_ok()),
            IfExpr::NotExists { var } => Ok(self.resolve_var(var).is_err()),
        }
    }

    /// Processes `block` and appends what it resolves to to `output`.
    fn process_block(&mut self, output: &mut Vec<u8>, block: &Block) -> (r: Result<(), DiagnosticBuilder>)
        requires
            old(self).wf(),
        ensures
            final(self).wf(),
            final(self).template == old(self).template,
            final(self).profile_vars == old(self).profile_vars,
            final(self).dotfile_vars == old(self).dotfile_vars,
            final(self).system == old(self).system,
            final(self).session == old(self).session,
            final(self).should_skip_next_newline
                == sp_process(old(self).content(), old(self).lookup(), block_data(*block), old(self).should_skip_next_newline).1,
            match sp_process(old(self).content(), old(self).lookup(), block_data(*block), old(self).should_skip_next_newline).0 {
                Ok(add) => r is Ok && final(output)@ == old(output)@ + add,
                Err(d) => r matches Err(b) && b.data() == d && final(output)@ == old(output)@,
            },
        decreases *block, 0int,
    {
        let c = self.template.source().bytes();
        match &block.kind {
            BlockKind::Text => {
                let content = span_slice(c, block.span);
                let starts_nl = (content.len() >= 1 && content[0] == 0x0a)
                    || (content.len() >= 2 && content[0] == 0x0d && content[1] == 0x0a);
                if self.should_skip_next_newline && starts_nl {
                    let nl: [u8; 1] = [0x0a];
                    assert(nl@ =~= lf());
                    let n = content.len();
                    match find_bytes(content, 0, &nl) {
                        Some(i) => {
                            proof { lemma_find_from_bounds(content@, lf(), 0); }
                            push_slice(output, content, i + 1, n);
                        },
                        None => {
                            push_slice(output, content, 0, n);
                        },
                    }
                    self.should_skip_next_newline = false;
                } else {
                    push_slice(output, content, 0, content.len());
                }
                assert(content@.subrange(0, content@.len() as int) =~= content@);
                Ok(())
            },
            BlockKind::Comment => {
                self.should_skip_next_newline = self.at_line_start(block.span.low);
                assert(output@ + seq![] =~= output@);
                Ok(())
            },
            BlockKind::Escaped(inner) => {
                let content = span_slice(c, *inner);
                let empty = content.len() == 0;
                self.should_skip_next_newline = empty && self.at_line_start(block.span.low);
                push_slice(output, content, 0, content.len());
                assert(content@.subrange(0, content@.len() as int) =~= content@);
                Ok(())
            },
            BlockKind::Var(var) => {
                self.should_skip_next_newline = false;
                match self.resolve_var(var) {
                    Ok(v) => {
                        let bytes = v.as_bytes();
                        push_slice(output, bytes, 0, bytes.len());
                        assert(bytes@.subrange(0, bytes@.len() as int) =~= bytes@);
                        Ok(())
                    },
                    Err(d) => Err(d),
                }
            },
            BlockKind::Print(_) => {
                self.should_skip_next_newline = self.at_line_start(block.span.low);
                assert(output@ + seq![] =~= output@);
                Ok(())
            },
            BlockKind::If(the_if) => {
                let mut if_output: Vec<u8> = Vec::new();
                let matched = match self.resolve_if_expr(&the_if.head.0.value) {
                    Ok(x) => x,
                    Err(d) => {
                        return Err(d.label_span(the_if.head.0.span, "while resolving this `if` block"));
                    },
                };
                let res = if matched {
                    self.process_blocks(&mut if_output, &the_if.head.1)
                } else {
                    self.process_branch(&mut if_output, the_if, 0)
                };
                match res {
                    Ok(()) => {},
                    Err(d) => {
                        return Err(d);
                    },
                }
                assert(if_output@ =~= seq![] + if_output@);
                let (lo, hi) = trim_if_output_range(&if_output);
                let at_start = self.at_line_start(block.span.low);
                self.should_skip_next_newline = lo == hi && at_start;
                push_slice(output, &if_output, lo, hi);
                Ok(())
            },
        }
    }

    /// Processes `blocks` in order and appends what they resolve to to `output`,
    /// stopping at the first diagnostic.
    fn process_blocks(&mut self, output: &mut Vec<u8>, blocks: &Vec<Block>) -> (r: Result<(), DiagnosticBuilder>)
        requires
            old(self).wf(),
        ensures
            final(self).wf(),
            final(self).template == old(self).template,
            final(self).profile_vars == old(self).profile_vars,
            final(self).dotfile_vars == old(self).dotfile_vars,
            final(self).system == old(self).system,
            final(self).session == old(self).session,
            final(self).should_skip_next_newline
                == sp_list(old(self).content(), old(self).lookup(), blocks_data(blocks@), old(self).should_skip_next_newline).1,
            match sp_list(old(self).content(), old(self).lookup(), blocks_data(blocks@), old(self).should_skip_next_newline).0 {
                Ok(add) => r is Ok && final(output)@ == old(output)@ + add,
                Err(d) => r matches Err(b) && b.data() == d,
            },
        decreases blocks@, 0int,
    {
        let ghost c = self.content();
        let ghost l = self.lookup();
        let ghost bd = blocks_data(blocks@);
        let ghost total = sp_list(c, l, bd, self.should_skip_next_newline);
        let ghost out0 = output@;
        let n = blocks.len();
        proof {
            crate::block::lemma_blocks_data_index(blocks@);
            assert(bd.subrange(0, n as int) =~= bd);
            assert(out0 =~= out0 + seq![]);
        }
        let mut i: usize = 0;
        while i < n
            invariant
                i <= n,
                n == blocks@.len(),
                bd == blocks_data(blocks@),
                bd.len() == n,
                forall|k: int| 0 <= k < n ==> #[trigger] bd[k] == block_data(blocks@[k]),
                self.wf(),
                self.template == old(self).template,
                self.profile_vars == old(self).profile_vars,
                self.dotfile_vars == old(self).dotfile_vars,
                self.system == old(self).system,
                self.session == old(self).session,
                c == self.content(),
                l == self.lookup(),
                output@.len() >= out0.len(),
                output@.subrange(0, out0.len() as int) == out0,
                out0 == old(output)@,
                total == sp_list(old(self).content(), old(self).lookup(), blocks_data(blocks@), old(self).should_skip_next_newline),
                total.1 == sp_list(c, l, bd.subrange(i as int, n as int), self.should_skip_next_newline).1,
                match sp_list(c, l, bd.subrange(i as int, n as int), self.should_skip_next_newline).0 {
                    Ok(rest) => total.0 == Ok::<Seq<u8>, DiagData>(output@.subrange(out0.len() as int, output@.len() as int) + rest),
                    Err(d) => total.0 == Err::<Seq<u8>, DiagData>(d),
                },
            decreases n - i,
        {
            let ghost sub = bd.subrange(i as int, n as int);
            let ghost before = output@;
            let ghost s_old = self.should_skip_next_newline;
            proof {
                assert(sub[0] == bd[i as int]);
                assert(sub.subrange(1, sub.len() as int) =~= bd.subrange(i + 1, n as int));
            }
            let r = self.process_block(output, &blocks[i]);
            match r {
                Ok(()) => {
                    proof {
                        let p = sp_process(c, l, bd[i as int], s_old);
                        let o = p.0->Ok_0;
                        assert(output@ == before + o);
                        let done = before.subrange(out0.len() as int, before.len() as int);
                        assert(output@.subrange(0, out0.len() as int) =~= out0);
                        assert(output@.subrange(out0.len() as int, output@.len() as int) =~= done + o);
                        match sp_list(c, l, bd.subrange(i + 1, n as int), self.should_skip_next_newline).0 {
                            Ok(rest) => {
                                assert(done + (o + rest) =~= done + o + rest);
                            },
                            Err(_) => {},
                        }
                    }
                },
                Err(d) => {
                    return Err(d);
                },
            }
            i = i + 1;
        }
        proof {
            assert(bd.subrange(n as int, n as int) =~= seq![]);
            let done = output@.subrange(out0.len() as int, output@.len() as int);
            assert(done + seq![] =~= done);
            assert(output@ =~= out0 + done);
        }
        Ok(())
    }

    /// Processes the first branch of `the_if`, from its `k`-th `elif` on, whose
    /// expression holds, or else its `else` branch.
    fn process_branch(&mut self, output: &mut Vec<u8>, the_if: &If, k: usize) -> (r: Result<(), DiagnosticBuilder>)
        requires
            old(self).wf(),
            k <= the_if.elifs@.len(),
        ensures
            final(self).wf(),
            final(self).template == old(self).template,
            final(self).profile_vars == old(self).profile_vars,
            final(self).dotfile_vars == old(self).dotfile_vars,
            final(self).system == old(self).system,
            final(self).session == old(self).session,
            final(self).should_skip_next_newline
                == sp_branch(old(self).content(), old(self).lookup(), crate::block::if_data(*the_if), k as int, old(self).should_skip_next_newline).1,
            match sp_branch(old(self).content(), old(self).lookup(), crate::block::if_data(*the_if), k as int, old(self).should_skip_next_newline).0 {
                Ok(add) => r is Ok && final(output)@ == old(output)@ + add,
                Err(d) => r matches Err(b) && b.data() == d,
            },
        decreases *the_if, the_if.elifs@.len() - k,
    {
        let ghost d = crate::block::if_data(*the_if);
        proof { crate::block::lemma_elifs_data_index(the_if.elifs@); }
        if k >= the_if.elifs.len() {
            match &the_if.els {
                Some(e) => self.process_blocks(output, &e.1),
                None => {
                    assert(output@ + seq![] =~= output@);
                    Ok(())
                },
            }
        } else {
            let elif = &the_if.elifs[k];
            let matched = match self.resolve_if_expr(&elif.0.value) {
                Ok(x) => x,
                Err(e) => {
                    return Err(e.label_span(elif.0.span, "while resolving this `elif` block"));
                },
            };
            if matched {
                self.process_blocks(output, &elif.1)
            } else {
                self.process_branch(output, the_if, k + 1)
            }
        }
    }

    /// Consumes the resolver and resolves all blocks of the template. Gives the
    /// output, unless an error was found, and all diagnostics reported.
    pub fn resolve(self) -> (r: (Option<String>, Vec<Diagnostic>))
        requires
            self.wf(),
        ensures
            ({
                let res = sp_resolve_from(self.content(), self.lookup(), self.template_blocks(), self.skip());
                &&& diags_data(r.1@) == self.session().reported() + res.1
                &&& r.0 is Some <==> !(self.session().is_failed() || has_error(res.1))
                &&& valid_utf8(res.0)
                &&& r.0 matches Some(s) ==> s@ == decode_utf8(res.0)
            }),
    {
        let ghost c = self.content();
        let ghost l = self.lookup();
        let ghost bd = self.template_blocks();
        let ghost total = sp_resolve_from(c, l, bd, self.should_skip_next_newline);
        let ghost s0 = self.session;
        let ghost mut done: Seq<DiagData> = seq![];
        let mut me = self;
        let blocks = me.template.blocks();
        proof {
            vstd::utf8::encode_utf8_valid_utf8(me.template.spec_source().content@);
            crate::cuts::lemma_resolve_valid(c, l, bd, me.should_skip_next_newline);
        }
        let n = blocks.len();
        let mut output: Vec<u8> = Vec::new();
        proof {
            crate::block::lemma_blocks_data_index(blocks@);
            assert(bd.subrange(0, n as int) =~= bd);
            crate::parser::lemma_session_step_refl(s0);
            assert(total.0 =~= output@ + total.0);
            assert(total.1 =~= done + total.1);
        }
        let mut i: usize = 0;
        while i < n
            invariant
                i <= n,
                n == blocks@.len(),
                bd == blocks_data(blocks@),
                bd.len() == n,
                forall|k: int| 0 <= k < n ==> #[trigger] bd[k] == block_data(blocks@[k]),
                me.wf(),
                c == me.content(),
                l == me.lookup(),
                crate::parser::session_step(s0, me.session, done),
                total.0 == output@ + sp_resolve_from(c, l, bd.subrange(i as int, n as int), me.should_skip_next_newline).0,
                total.1 == done + sp_resolve_from(c, l, bd.subrange(i as int, n as int), me.should_skip_next_newline).1,
            decreases n - i,
        {
            let ghost sub = bd.subrange(i as int, n as int);
            let ghost before_out = output@;
            let ghost before_session = me.session;
            proof {
                assert(sub[0] == bd[i as int]);
                assert(sub.subrange(1, sub.len() as int) =~= bd.subrange(i + 1, n as int));
            }
            let r = me.process_block(&mut output, &blocks[i]);
            let ghost rest = sp_resolve_from(c, l, bd.subrange(i + 1, n as int), me.should_skip_next_newline);
            match r {
                Ok(()) => {
                    proof {
                        let add = output@.subrange(before_out.len() as int, output@.len() as int);
                        assert(output@ =~= before_out + add);
                        assert(before_out + (add + rest.0) =~= output@ + rest.0);
                    }
                },
                Err(d) => {
                    let diag = d.build();
                    let ghost dd = diag.data();
                    me.report_diagnostic(diag);
                    proof {
                        crate::parser::lemma_session_step_trans(s0, before_session, me.session, done, seq![dd]);
                        assert(done + (seq![dd] + rest.1) =~= done + seq![dd] + rest.1);
                        done = done + seq![dd];
                    }
                },
            }
            i = i + 1;
        }
        proof {
            assert(bd.subrange(n as int, n as int) =~= seq![]);
            assert(output@ + seq![] =~= output@);
            assert(done + seq![] =~= done);
        }
        let text = string_from_bytes(&output);
        match me.session.try_finish() {
            Ok(ds) => (Some(text), ds),
            Err(ds) => (None, ds),
        }
    }
}


/// Text without `{{` is one text block, and resolves to itself: a template
/// without blocks is copied to the output unchanged, with no diagnostic.
pub proof fn law_text_without_blocks_resolves_to_itself(c: Seq<u8>, l: Lookup)
    requires
        find(c, crate::tokens::pat_open()) is None,
        c.len() <= max_source_len(),
    ensures
        sp_parse_from(c, 0).1 == Seq::<DiagData>::empty(),
        sp_resolve_from(c, l, sp_parse_from(c, 0).0, false) == (c, Seq::<DiagData>::empty()),
{
    reveal(crate::parser::sp_top);
    assert(c.subrange(0, c.len() as int) =~= c);
    let empty = c.subrange(c.len() as int, c.len() as int);
    assert(empty =~= Seq::<u8>::empty());
    assert(crate::tokens::spec_token_at(c, c.len() as int) is None);
    assert(sp_parse_from(c, c.len() as int) == (Seq::<BlockData>::empty(), Seq::<DiagData>::empty()));
    if c.len() > 0 {
        let b = BlockData { span: crate::span::ByteSpan::spec_of(0, c.len() as int), kind: KindData::Text };
        assert(sp_parse_from(c, 0).0 =~= seq![b]);
        assert(sp_parse_from(c, 0).1 =~= Seq::<DiagData>::empty());
        assert(span_bytes(c, 0, c.len() as int) =~= c);
        let bs = seq![b];
        assert(bs.subrange(1, 1) =~= Seq::<BlockData>::empty());
        assert(sp_process(c, l, b, false) == (Ok::<Seq<u8>, DiagData>(c), false));
        let none = sp_resolve_from(c, l, bs.subrange(1, 1), false);
        assert(none == (Seq::<u8>::empty(), Seq::<DiagData>::empty()));
        assert(bs[0] == b);
        assert(sp_resolve_from(c, l, bs, false) == (c + none.0, none.1));
        assert(c + none.0 =~= c);
    } else {
        assert(sp_parse_from(c, 0).0 =~= Seq::<BlockData>::empty());
        assert(c =~= Seq::<u8>::empty());
    }
}

/// A comment block adds nothing to the output, an escaped block adds exactly
/// what lies between its braces, and a variable block adds the value from the
/// first of its environments that has one; none of them fails but a variable
/// that no environment has.
pub proof fn law_block_outputs(c: Seq<u8>, l: Lookup, b: BlockData, skip: bool)
    ensures
        b.kind is Comment ==> sp_process(c, l, b, skip).0 == Ok::<Seq<u8>, DiagData>(seq![]),
        b.kind matches KindData::Escaped(inner) ==> sp_process(c, l, b, skip).0
            == Ok::<Seq<u8>, DiagData>(span_bytes(c, inner.low.0 as int, inner.high.0 as int)),
        b.kind matches KindData::Var(v) ==> match first_value(l, v.envs.spec_envs(), var_name(c, v), 0) {
            Some(x) => sp_process(c, l, b, skip).0 == Ok::<Seq<u8>, DiagData>(encode_utf8(x)),
            None => sp_process(c, l, b, skip).0 is Err,
        },
{
}

/// From the `j`-th `elif` on, where the expressions up to the `k`-th do not
/// hold, the branch taken is the one from the `k`-th on.
proof fn lemma_branch_skips_false(c: Seq<u8>, l: Lookup, d: IfData, j: int, k: int, skip: bool)
    requires
        0 <= j <= k,
        k <= d.elifs.len(),
        forall|i: int| j <= i < k ==> sp_eval(c, l, (#[trigger] d.elifs[i]).1) == Ok::<bool, DiagData>(false),
    ensures
        sp_branch(c, l, d, j, skip) == sp_branch(c, l, d, k, skip),
    decreases k - j,
{
    if j < k {
        assert(sp_eval(c, l, d.elifs[j].1) == Ok::<bool, DiagData>(false));
        lemma_branch_skips_false(c, l, d, j + 1, k, skip);
    }
}

/// An if block outputs the blocks of the first of its branches whose
/// expression holds, trimmed: its head if that holds, else the first `elif`
/// whose expression holds, and the `else` branch, or nothing, only where no
/// expression holds. An expression that cannot be evaluated before the one
/// that holds makes the block fail with its diagnostic.
pub proof fn law_if_takes_first_true_branch(c: Seq<u8>, l: Lookup, b: BlockData, skip: bool, k: int)
    requires
        b.kind is If,
    ensures
        ({
            let d = b.kind->If_0;
            let low = b.span.low.0 as int;
            &&& sp_eval(c, l, d.head.1) == Ok::<bool, DiagData>(true)
                ==> sp_process(c, l, b, skip) == if_result(c, sp_list(c, l, d.head.2, skip), low)
            &&& (sp_eval(c, l, d.head.1) == Ok::<bool, DiagData>(false) && 0 <= k < d.elifs.len()
                && sp_eval(c, l, d.elifs[k].1) == Ok::<bool, DiagData>(true)
                && forall|i: int| 0 <= i < k ==> sp_eval(c, l, (#[trigger] d.elifs[i]).1) == Ok::<bool, DiagData>(false))
                ==> sp_process(c, l, b, skip) == if_result(c, sp_list(c, l, d.elifs[k].2, skip), low)
            &&& (sp_eval(c, l, d.head.1) == Ok::<bool, DiagData>(false)
                && forall|i: int| 0 <= i < d.elifs.len() ==> sp_eval(c, l, (#[trigger] d.elifs[i]).1) == Ok::<bool, DiagData>(false))
                ==> sp_process(c, l, b, skip) == if_result(c, match d.els {
                    Some(e) => sp_list(c, l, e.1, skip),
                    None => (Ok::<Seq<u8>, DiagData>(seq![]), skip),
                }, low)
            &&& (sp_eval(c, l, d.head.1) == Ok::<bool, DiagData>(false) && 0 <= k < d.elifs.len()
                && sp_eval(c, l, d.elifs[k].1) is Err
                && forall|i: int| 0 <= i < k ==> sp_eval(c, l, (#[trigger] d.elifs[i]).1) == Ok::<bool, DiagData>(false))
                ==> sp_process(c, l, b, skip).0 == Err::<Seq<u8>, DiagData>(
                    with_label(sp_eval(c, l, d.elifs[k].1)->Err_0, d.elifs[k].0, "while resolving this `elif` block"@))
            &&& sp_eval(c, l, d.head.1) is Err ==> sp_process(c, l, b, skip).0 == Err::<Seq<u8>, DiagData>(
                    with_label(sp_eval(c, l, d.head.1)->Err_0, d.head.0, "while resolving this `if` block"@))
        }),
{
    let d = b.kind->If_0;
    if sp_eval(c, l, d.head.1) == Ok::<bool, DiagData>(false) {
        if 0 <= k < d.elifs.len()
            && forall|i: int| 0 <= i < k ==> sp_eval(c, l, (#[trigger] d.elifs[i]).1) == Ok::<bool, DiagData>(false) {
            lemma_branch_skips_false(c, l, d, 0, k, skip);
        }
        if forall|i: int| 0 <= i < d.elifs.len() ==> sp_eval(c, l, (#[trigger] d.elifs[i]).1) == Ok::<bool, DiagData>(false) {
            lemma_branch_skips_false(c, l, d, 0, d.elifs.len() as int, skip);
        }
    }
}
} // verus!
