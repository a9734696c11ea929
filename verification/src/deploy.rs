//! The decisions of deploying a file: whether it is deployed at all, what is
//! done to its content, and what its status becomes. The file system work is
//! done by the caller, which hands back what came of each step.
use vstd::prelude::*;

use crate::deployment::{DeployedDotfile, DeployedDotfileKind, Deployment, DeploymentBuilder, DotfileStatus};
use crate::diagnostic::{DiagData, Diagnostic};
use crate::parser::{max_source_len, sp_parse_from};
use crate::paths::Kind;
use crate::profile::{Dotfile, LayeredProfile, MergeMode, Priority};
use crate::resolve::{sp_resolve_from, Lookup, SystemVars};
use crate::session::{diags_data, has_error};
use crate::source::Source;
use crate::template::Template;
use crate::transform::{transform_all, ContentTransformer};
use crate::variables::Vars;
use vstd::string::StringSliceAdditionalSpecFns;
use vstd::utf8::{decode_utf8, encode_utf8, valid_utf8};

verus! {

/// Options of a deployment.
#[derive(Debug, Clone, Copy, PartialEq, Eq, Hash, Structural)]
pub struct DeployOptions {
    /// Prevents all writing: no file is written or copied, no directory created.
    pub dry_run: bool,
}

/// Options of the executor of a deployment.
#[derive(Debug, Clone, Copy, PartialEq, Eq, Hash, Structural)]
pub struct ExecutorOptions {
    /// Prevents all writing: no file is written or copied, no directory created.
    pub dry_run: bool,
}

/// Applies the transformers `ts` in order to `content`.
pub fn transform_content(ts: &Vec<ContentTransformer>, content: String) -> (r: String)
    ensures
        r@ == transform_all(ts@, content@),
{
    let ghost c0 = content@;
    let mut c = content;
    let mut i: usize = 0;
    assert(ts@.subrange(0, ts@.len() as int) =~= ts@);
    while i < ts.len()
        invariant
            i <= ts@.len(),
            transform_all(ts@, c0) == transform_all(ts@.subrange(i as int, ts@.len() as int), c@),
        decreases ts.len() - i,
    {
        proof {
            let rest = ts@.subrange(i as int, ts@.len() as int);
            assert(rest.drop_first() =~= ts@.subrange(i + 1, ts@.len() as int));
            assert(rest[0] == ts@[i as int]);
        }
        c = ts[i].transform(c);
        i = i + 1;
    }
    proof {
        assert(ts@.subrange(i as int, ts@.len() as int) =~= Seq::<ContentTransformer>::empty());
    }
    c
}

/// The UTF-8 bytes of `s`.
fn string_bytes(s: &String) -> (r: Vec<u8>)
    ensures
        r@ == encode_utf8(s@),
{
    let b = s.as_str().as_bytes();
    let v = crate::scan::slice_to_vec(b, 0, b.len());
    assert(b@.subrange(0, b@.len() as int) =~= b@);
    v
}

/// The context of the error of a template that failed to parse or resolve.
pub open spec fn file_context(source_path: Seq<char>) -> Seq<char> {
    "File: "@ + source_path
}

/// Parses and resolves the template `content` read from `source_path`. Gives the
/// output or the context of the failure, and all diagnostics reported.
pub fn render_template<PV: Vars, DV: Vars>(
    content: &str,
    source_path: &str,
    profile_vars: Option<&PV>,
    dotfile_vars: Option<&DV>,
    system: &SystemVars,
) -> (r: (Result<String, String>, Vec<Diagnostic>))
    requires
        content.spec_bytes().len() <= max_source_len(),
    ensures
        ({
            let parsed = sp_parse_from(content.spec_bytes(), 0);
            let resolved = sp_resolve_from(content.spec_bytes(), Lookup::of(profile_vars, dotfile_vars, system), parsed.0, false);
            if has_error(parsed.1) {
                &&& diags_data(r.1@) == parsed.1
                &&& r.0 matches Err(e) && e@ == file_context(source_path@)
            } else {
                &&& diags_data(r.1@) == parsed.1 + resolved.1
                &&& (r.0 is Ok <==> !has_error(resolved.1))
                &&& r.0 matches Err(e) ==> e@ == file_context(source_path@)
                &&& r.0 matches Ok(s) ==> s@ == decode_utf8(resolved.0)
            }
        }),
{
    let source = Source::file(source_path, content);
    let (parsed, mut diags) = Template::parse(source);
    let mut context = "File: ".to_owned();
    context.append(source_path);
    match parsed {
        None => (Err(context), diags),
        Some(template) => {
            let (resolved, more) = template.resolve(profile_vars, dotfile_vars, system);
            let ghost before = diags@;
            let ghost added = more@;
            let mut more = more;
            diags.append(&mut more);
            proof {
                assert(diags_data(diags@) =~= diags_data(before) + diags_data(added));
            }
            match resolved {
                Some(s) => (Ok(s), diags),
                None => (Err(context), diags),
            }
        },
    }
}

/// What came of reading the source of a file.
#[derive(Debug)]
pub enum ReadOutcome {
    /// The file holds text.
    Text(String),
    /// The file holds data that is no text.
    Binary(Vec<u8>),
    /// The file could not be read, for the given reason.
    Failed(String),
}

/// What the caller reports back after doing what a step asked for.
#[derive(Debug)]
pub enum FileEvent {
    /// The deployment of the file begins.
    Start,
    /// Whether a file exists at the target path.
    TargetExists(bool),
    /// The user's answer whether to replace the existing file, or `None` if
    /// asking failed.
    MergeAnswer(Option<bool>),
    /// The parent directory of the target was created, or why not.
    ParentCreated(Result<(), String>),
    /// The file was copied to the target, or why not.
    Copied(Result<(), String>),
    /// What came of reading the source.
    Read(ReadOutcome),
    /// The template was rendered to the given text, or the context of why not.
    Rendered(Result<String, String>),
    /// The content was written to the target, or why not.
    Written(Result<(), String>),
}

/// What a step asks the caller to do next.
#[derive(Debug)]
pub enum FileAction {
    /// Check whether a file exists at the target path.
    CheckTarget,
    /// Ask the user whether to replace the existing file.
    AskMerge,
    /// Create the parent directory of the target path.
    CreateParent,
    /// Copy the source file to the target path.
    Copy,
    /// Read the source file.
    Read,
    /// Render the template with the given text.
    Render(String),
    /// Write the given bytes to the target path.
    Write(Vec<u8>),
    /// The deployment of the file is over, with the given status.
    Finish(DotfileStatus),
}

/// Where the deployment of a file stands.
#[derive(Debug, Clone, Copy, PartialEq, Eq, Structural)]
pub enum FileStage {
    /// Nothing happened yet.
    Start,
    /// Waiting whether the target exists.
    CheckingTarget,
    /// Waiting for the user's answer.
    Asking,
    /// Waiting for the parent directory.
    CreatingParent,
    /// Waiting for the copy.
    Copying,
    /// Waiting for the content of the source.
    Reading,
    /// Waiting for the rendered template.
    Rendering,
    /// Waiting for the write.
    Writing,
    /// The deployment is over.
    Done,
}

/// The mathematical content of an action: its kind, its text and its bytes.
pub type ActionData = (int, Seq<char>, Seq<u8>);

/// The mathematical content of a status: its kind (0 success, 1 failed, 2
/// skipped) and its reason.
pub open spec fn status_data(s: DotfileStatus) -> (int, Seq<char>) {
    match s {
        DotfileStatus::Success => (0, seq![]),
        DotfileStatus::Failed(r) => (1, r@),
        DotfileStatus::Skipped(r) => (2, r@),
    }
}

/// The mathematical content of an action.
pub open spec fn action_data(a: FileAction) -> ActionData {
    match a {
        FileAction::CheckTarget => (0, seq![], seq![]),
        FileAction::AskMerge => (1, seq![], seq![]),
        FileAction::CreateParent => (2, seq![], seq![]),
        FileAction::Copy => (3, seq![], seq![]),
        FileAction::Read => (4, seq![], seq![]),
        FileAction::Render(t) => (5, t@, seq![]),
        FileAction::Write(b) => (6, seq![], b@),
        FileAction::Finish(s) => (10 + status_data(s).0, status_data(s).1, seq![]),
    }
}

/// The action that finishes with success.
pub open spec fn finish_success() -> ActionData {
    (10, seq![], seq![])
}

/// The action that finishes with a failure for `reason`.
pub open spec fn finish_failed(reason: Seq<char>) -> ActionData {
    (11, reason, seq![])
}

/// The action that finishes with a skip for `reason`.
pub open spec fn finish_skipped(reason: Seq<char>) -> ActionData {
    (12, reason, seq![])
}

/// The deployment of one file, as a machine of steps.
#[derive(Debug)]
pub struct FileDeploy {
    /// Where the deployment stands.
    stage: FileStage,
    /// The priority of the file's dotfile.
    priority: Option<Priority>,
    /// The priority of the dotfile already deployed at the target path.
    other_priority: Option<Priority>,
    /// What to do with an existing file at the target path.
    merge: MergeMode,
    /// Whether nothing is written.
    dry_run: bool,
    /// Whether the file is a template.
    template: bool,
    /// The transformers applied to the content: the profile's, then the dotfile's.
    transformers: Vec<ContentTransformer>,
}

impl FileDeploy {
    /// Where the deployment stands.
    pub closed spec fn spec_stage(&self) -> FileStage {
        self.stage
    }

    /// Whether the file is copied as it is: no template and no transformers.
    pub closed spec fn fast_path(&self) -> bool {
        !self.template && self.transformers@.len() == 0
    }

    /// Whether the file is skipped because a dotfile of higher priority is
    /// deployed at its target.
    pub closed spec fn outranked(&self) -> bool {
        match (self.priority, self.other_priority) {
            (Some(a), Some(b)) => b.0 > a.0,
            _ => false,
        }
    }

    /// Whether nothing is written.
    pub closed spec fn spec_dry_run(&self) -> bool {
        self.dry_run
    }

    /// Whether the file is a template.
    pub closed spec fn spec_template(&self) -> bool {
        self.template
    }

    /// What to do with an existing file.
    pub closed spec fn spec_merge(&self) -> MergeMode {
        self.merge
    }

    /// The transformers applied to the content.
    pub closed spec fn spec_transformers(&self) -> Seq<ContentTransformer> {
        self.transformers@
    }

    /// Whether `a` and `b` deploy the same file in the same way.
    pub closed spec fn same_plan(a: &FileDeploy, b: &FileDeploy) -> bool {
        &&& a.priority == b.priority
        &&& a.other_priority == b.other_priority
        &&& a.merge == b.merge
        &&& a.dry_run == b.dry_run
        &&& a.template == b.template
        &&& a.transformers@ == b.transformers@
    }

    /// Whether `e` is what the current stage waits for.
    pub open spec fn accepts(&self, e: &FileEvent) -> bool {
        match self.spec_stage() {
            FileStage::Start => e is Start,
            FileStage::CheckingTarget => e is TargetExists,
            FileStage::Asking => e is MergeAnswer,
            FileStage::CreatingParent => e is ParentCreated,
            FileStage::Copying => e is Copied,
            FileStage::Reading => e is Read,
            FileStage::Rendering => e is Rendered,
            FileStage::Writing => e is Written,
            FileStage::Done => false,
        }
    }

    /// Where a deployment goes once the parent directory is there: a copy, a
    /// success without one on a dry run, or a read.
    pub open spec fn spec_after_parent(&self) -> (FileStage, ActionData) {
        if self.fast_path() {
            if self.spec_dry_run() {
                (FileStage::Done, finish_success())
            } else {
                (FileStage::Copying, (3, seq![], seq![]))
            }
        } else {
            (FileStage::Reading, (4, seq![], seq![]))
        }
    }

    /// Where a deployment goes once the existing file may be replaced.
    pub open spec fn spec_to_parent(&self) -> (FileStage, ActionData) {
        if self.spec_dry_run() {
            self.spec_after_parent()
        } else {
            (FileStage::CreatingParent, (2, seq![], seq![]))
        }
    }

    /// Where a deployment goes with the content `b` to write.
    pub open spec fn spec_to_write(&self, b: Seq<u8>) -> (FileStage, ActionData) {
        if self.spec_dry_run() {
            (FileStage::Done, finish_success())
        } else {
            (FileStage::Writing, (6, seq![], b))
        }
    }

    /// The next stage and action on event `e`.
    pub open spec fn next(&self, e: FileEvent) -> (FileStage, ActionData) {
        match e {
            FileEvent::Start => if self.outranked() {
                (FileStage::Done, finish_skipped("Dotfile with higher priority is already deployed"@))
            } else {
                (FileStage::CheckingTarget, (0, seq![], seq![]))
            },
            FileEvent::TargetExists(exists) => if !exists {
                self.spec_to_parent()
            } else {
                match self.spec_merge() {
                    MergeMode::Overwrite => self.spec_to_parent(),
                    MergeMode::Keep => (FileStage::Done, finish_skipped("Dotfile already exists and merge mode is Keep"@)),
                    MergeMode::Ask => (FileStage::Asking, (1, seq![], seq![])),
                }
            },
            FileEvent::MergeAnswer(a) => match a {
                None => (FileStage::Done, finish_failed(
                    "Failed to execute merge ask function: Error evaluating user response"@,
                )),
                Some(false) => (FileStage::Done, finish_skipped("Dotfile already exists and merge ask was denied"@)),
                Some(true) => self.spec_to_parent(),
            },
            FileEvent::ParentCreated(r) => match r {
                Err(e) => (FileStage::Done, finish_failed("Failed to create parent directory: "@ + e@)),
                Ok(()) => self.spec_after_parent(),
            },
            FileEvent::Copied(r) => match r {
                Err(e) => (FileStage::Done, finish_failed("Failed to copy: "@ + e@)),
                Ok(()) => (FileStage::Done, finish_success()),
            },
            FileEvent::Read(o) => match o {
                ReadOutcome::Failed(e) => (FileStage::Done, finish_failed("Failed to read: "@ + e@)),
                ReadOutcome::Binary(b) => self.spec_to_write(b@),
                ReadOutcome::Text(t) => if self.spec_template() {
                    (FileStage::Rendering, (5, t@, seq![]))
                } else {
                    self.spec_to_write(encode_utf8(transform_all(self.spec_transformers(), t@)))
                },
            },
            FileEvent::Rendered(r) => match r {
                Err(e) => (FileStage::Done, finish_failed("Failed to resolve template: "@ + e@)),
                Ok(t) => self.spec_to_write(encode_utf8(transform_all(self.spec_transformers(), t@))),
            },
            FileEvent::Written(r) => match r {
                Err(e) => (FileStage::Done, finish_failed("Failed to write content: "@ + e@)),
                Ok(()) => (FileStage::Done, finish_success()),
            },
        }
    }

    /// Starts the deployment of a file whose dotfile has `priority` and the
    /// merge mode `merge`, where a dotfile of `other_priority` is deployed at
    /// the target already; `transformers` are applied to the content.
    pub fn new(
        priority: Option<Priority>,
        other_priority: Option<Priority>,
        merge: Option<MergeMode>,
        dry_run: bool,
        template: bool,
        transformers: Vec<ContentTransformer>,
    ) -> (r: Self)
        ensures
            r.spec_stage() == FileStage::Start,
            r.outranked() == (match (priority, other_priority) {
                (Some(a), Some(b)) => b.0 > a.0,
                _ => false,
            }),
            r.spec_merge() == (match merge {
                Some(m) => m,
                None => MergeMode::Overwrite,
            }),
            r.spec_dry_run() == dry_run,
            r.spec_template() == template,
            r.spec_transformers() == transformers@,
    {
        let merge = match merge {
            Some(m) => m,
            None => MergeMode::Overwrite,
        };
        FileDeploy { stage: FileStage::Start, priority, other_priority, merge, dry_run, template, transformers }
    }

    /// The bytes of the transformed text `t` to write.
    fn to_write(&mut self, b: Vec<u8>) -> (r: FileAction)
        ensures
            (final(self).spec_stage(), action_data(r)) == old(self).spec_to_write(b@),
            Self::same_plan(&*final(self), &*old(self)),
            final(self).spec_dry_run() == old(self).spec_dry_run(),
            final(self).spec_template() == old(self).spec_template(),
            final(self).spec_transformers() == old(self).spec_transformers(),
            final(self).spec_merge() == old(self).spec_merge(),
            final(self).fast_path() == old(self).fast_path(),
    {
        if self.dry_run {
            self.stage = FileStage::Done;
            FileAction::Finish(DotfileStatus::Success)
        } else {
            self.stage = FileStage::Writing;
            FileAction::Write(b)
        }
    }

    /// Goes on once the parent directory is there.
    fn after_parent(&mut self) -> (r: FileAction)
        ensures
            (final(self).spec_stage(), action_data(r)) == old(self).spec_after_parent(),
            Self::same_plan(&*final(self), &*old(self)),
            final(self).spec_dry_run() == old(self).spec_dry_run(),
            final(self).spec_template() == old(self).spec_template(),
            final(self).spec_transformers() == old(self).spec_transformers(),
            final(self).spec_merge() == old(self).spec_merge(),
    {
        if !self.template && self.transformers.len() == 0 {
            if self.dry_run {
                self.stage = FileStage::Done;
                FileAction::Finish(DotfileStatus::Success)
            } else {
                self.stage = FileStage::Copying;
                FileAction::Copy
            }
        } else {
            self.stage = FileStage::Reading;
            FileAction::Read
        }
    }

    /// Goes on once the existing file, if any, may be replaced.
    fn to_parent(&mut self) -> (r: FileAction)
        ensures
            (final(self).spec_stage(), action_data(r)) == old(self).spec_to_parent(),
            Self::same_plan(&*final(self), &*old(self)),
            final(self).spec_dry_run() == old(self).spec_dry_run(),
            final(self).spec_template() == old(self).spec_template(),
            final(self).spec_transformers() == old(self).spec_transformers(),
            final(self).spec_merge() == old(self).spec_merge(),
    {
        if self.dry_run {
            self.after_parent()
        } else {
            self.stage = FileStage::CreatingParent;
            FileAction::CreateParent
        }
    }

    /// Finishes with `status`.
    fn finish(&mut self, status: DotfileStatus) -> (r: FileAction)
        ensures
            final(self).spec_stage() == FileStage::Done,
            action_data(r) == (10 + status_data(status).0, status_data(status).1, Seq::<u8>::empty()),
            Self::same_plan(&*final(self), &*old(self)),
    {
        self.stage = FileStage::Done;
        FileAction::Finish(status)
    }

    /// Takes the next step on `event`, which the current stage waits for.
    pub fn step(&mut self, event: FileEvent) -> (r: FileAction)
        requires
            old(self).accepts(&event),
        ensures
            (final(self).spec_stage(), action_data(r)) == old(self).next(event),
            Self::same_plan(&*final(self), &*old(self)),
            final(self).spec_dry_run() == old(self).spec_dry_run(),
            final(self).spec_template() == old(self).spec_template(),
            final(self).spec_transformers() == old(self).spec_transformers(),
            final(self).spec_merge() == old(self).spec_merge(),
            final(self).fast_path() == old(self).fast_path(),
            final(self).outranked() == old(self).outranked(),
    {
        match event {
            FileEvent::Start => {
                let outranked = match (self.priority, self.other_priority) {
                    (Some(a), Some(b)) => b.0 > a.0,
                    _ => false,
                };
                if outranked {
                    self.finish(DotfileStatus::Skipped("Dotfile with higher priority is already deployed".to_owned()))
                } else {
                    self.stage = FileStage::CheckingTarget;
                    FileAction::CheckTarget
                }
            },
            FileEvent::TargetExists(exists) => {
                if !exists {
                    self.to_parent()
                } else {
                    match self.merge {
                        MergeMode::Overwrite => self.to_parent(),
                        MergeMode::Keep => self.finish(
                            DotfileStatus::Skipped("Dotfile already exists and merge mode is Keep".to_owned()),
                        ),
                        MergeMode::Ask => {
                            self.stage = FileStage::Asking;
                            FileAction::AskMerge
                        },
                    }
                }
            },
            FileEvent::MergeAnswer(a) => match a {
                None => self.finish(DotfileStatus::Failed(
                    "Failed to execute merge ask function: Error evaluating user response".to_owned(),
                )),
                Some(false) => self.finish(
                    DotfileStatus::Skipped("Dotfile already exists and merge ask was denied".to_owned()),
                ),
                Some(true) => self.to_parent(),
            },
            FileEvent::ParentCreated(r) => match r {
                Err(e) => {
                    let mut reason = "Failed to create parent directory: ".to_owned();
                    reason.append(e.as_str());
                    self.finish(DotfileStatus::Failed(reason))
                },
                Ok(()) => self.after_parent(),
            },
            FileEvent::Copied(r) => match r {
                Err(e) => {
                    let mut reason = "Failed to copy: ".to_owned();
                    reason.append(e.as_str());
                    self.finish(DotfileStatus::Failed(reason))
                },
                Ok(()) => self.finish(DotfileStatus::Success),
            },
            FileEvent::Read(o) => match o {
                ReadOutcome::Failed(e) => {
                    let mut reason = "Failed to read: ".to_owned();
                    reason.append(e.as_str());
                    self.finish(DotfileStatus::Failed(reason))
                },
                ReadOutcome::Binary(b) => self.to_write(b),
                ReadOutcome::Text(t) => {
                    if self.template {
                        self.stage = FileStage::Rendering;
                        FileAction::Render(t)
                    } else {
                        let out = transform_content(&self.transformers, t);
                        self.to_write(string_bytes(&out))
                    }
                },
            },
            FileEvent::Rendered(r) => match r {
                Err(e) => {
                    let mut reason = "Failed to resolve template: ".to_owned();
                    reason.append(e.as_str());
                    self.finish(DotfileStatus::Failed(reason))
                },
                Ok(t) => {
                    let out = transform_content(&self.transformers, t);
                    self.to_write(string_bytes(&out))
                },
            },
            FileEvent::Written(r) => match r {
                Err(e) => {
                    let mut reason = "Failed to write content: ".to_owned();
                    reason.append(e.as_str());
                    self.finish(DotfileStatus::Failed(reason))
                },
                Ok(()) => self.finish(DotfileStatus::Success),
            },
        }
    }
}

/// On a dry run, deploying a file never asks to create, copy or write anything.
pub proof fn law_dry_run_writes_nothing(m: FileDeploy, e: FileEvent)
    requires
        m.spec_dry_run(),
    ensures
        m.next(e).1.0 != 2,
        m.next(e).1.0 != 3,
        m.next(e).1.0 != 6,
{
}

/// A file outranked by a dotfile of higher priority at its target is skipped
/// at once; any other file goes on to look at its target.
pub proof fn law_outranked_file_skipped(m: FileDeploy)
    ensures
        m.outranked() ==> m.next(FileEvent::Start) == (FileStage::Done, finish_skipped("Dotfile with higher priority is already deployed"@)),
        !m.outranked() ==> m.next(FileEvent::Start).1 == (0int, Seq::<char>::empty(), Seq::<u8>::empty()),
{
}

/// An existing target that the user agrees to replace is deployed to as a
/// target that may be replaced: the same next step as for a missing target
/// or for the merge mode that overwrites, which is never a skip or a failure;
/// the parent directory is created next unless nothing is written.
pub proof fn law_merge_confirmed_deploys(m: FileDeploy)
    ensures
        m.next(FileEvent::MergeAnswer(Some(true))) == m.next(FileEvent::TargetExists(false)),
        m.spec_merge() is Overwrite ==> m.next(FileEvent::TargetExists(true)) == m.next(FileEvent::TargetExists(false)),
        m.next(FileEvent::MergeAnswer(Some(true))).1.0 != 11,
        m.next(FileEvent::MergeAnswer(Some(true))).1.0 != 12,
        !m.spec_dry_run() ==> m.next(FileEvent::MergeAnswer(Some(true))) == (FileStage::CreatingParent, (2int, Seq::<char>::empty(), Seq::<u8>::empty())),
        m.next(FileEvent::MergeAnswer(Some(false))) == (FileStage::Done, finish_skipped("Dotfile already exists and merge ask was denied"@)),
        m.spec_merge() is Ask ==> m.next(FileEvent::TargetExists(true)) == (FileStage::Asking, (1int, Seq::<char>::empty(), Seq::<u8>::empty())),
        m.spec_merge() is Keep ==> m.next(FileEvent::TargetExists(true))
            == (FileStage::Done, finish_skipped("Dotfile already exists and merge mode is Keep"@)),
{
}

/// The text of a file that is no template is written with all the file's
/// transformers applied in order, as that of a rendered template is: the
/// bytes to write are the UTF-8 encoding of the transformed text, and without
/// transformers of the text itself.
pub proof fn law_text_transformed_before_write(m: FileDeploy, t: String)
    ensures
        !m.spec_template() ==> m.next(FileEvent::Read(ReadOutcome::Text(t))) == m.next(FileEvent::Rendered(Ok(t))),
        !m.spec_template() && !m.spec_dry_run() ==> m.next(FileEvent::Read(ReadOutcome::Text(t)))
            == (FileStage::Writing, (6int, Seq::<char>::empty(), encode_utf8(transform_all(m.spec_transformers(), t@)))),
        !m.spec_template() && !m.spec_dry_run() && m.spec_transformers().len() == 0 ==> m.next(FileEvent::Read(ReadOutcome::Text(t)))
            == (FileStage::Writing, (6int, Seq::<char>::empty(), encode_utf8(t@))),
        !m.spec_template() && m.spec_dry_run() ==> m.next(FileEvent::Read(ReadOutcome::Text(t))) == (FileStage::Done, finish_success()),
        !m.spec_dry_run() ==> m.next(FileEvent::Rendered(Ok(t)))
            == (FileStage::Writing, (6int, Seq::<char>::empty(), encode_utf8(transform_all(m.spec_transformers(), t@)))),
        m.spec_template() ==> m.next(FileEvent::Read(ReadOutcome::Text(t))) == (FileStage::Rendering, (5int, t@, Seq::<u8>::empty())),
{
}

/// What the caller reports back while deploying a symlink.
#[derive(Debug)]
pub enum LinkEvent {
    /// The deployment of the link begins.
    Start,
    /// Whether the link source exists.
    SourceExists(bool),
    /// Whether something exists at the link target.
    TargetExists(bool),
    /// Whether what exists at the target is a symlink, or why that could not be read.
    TargetIsLink(Result<bool, String>),
    /// The old link at the target was removed, or why not.
    Removed(Result<(), String>),
    /// The link was created, or why not.
    Created(Result<(), String>),
}

/// What a step of deploying a symlink asks the caller to do next.
#[derive(Debug)]
pub enum LinkAction {
    /// Check whether the link source exists.
    CheckSource,
    /// Check whether something exists at the link target.
    CheckTarget,
    /// Check whether what exists at the target is a symlink.
    InspectTarget,
    /// Remove the old link at the target.
    RemoveTarget,
    /// Create the link.
    CreateLink,
    /// The deployment of the link is over, with the given status.
    Finish(DotfileStatus),
}

/// Where the deployment of a symlink stands.
#[derive(Debug, Clone, Copy, PartialEq, Eq, Structural)]
pub enum LinkStage {
    /// Nothing happened yet.
    Start,
    /// Waiting whether the source exists.
    CheckingSource,
    /// Waiting whether the target exists.
    CheckingTarget,
    /// Waiting whether the target is a symlink.
    Inspecting,
    /// Waiting for the removal of the old link.
    Removing,
    /// Waiting for the new link.
    Creating,
    /// The deployment is over.
    Done,
}

/// The mathematical content of a link action: its kind and its reason.
pub open spec fn link_action_data(a: LinkAction) -> (int, Seq<char>) {
    match a {
        LinkAction::CheckSource => (0, seq![]),
        LinkAction::CheckTarget => (1, seq![]),
        LinkAction::InspectTarget => (2, seq![]),
        LinkAction::RemoveTarget => (3, seq![]),
        LinkAction::CreateLink => (4, seq![]),
        LinkAction::Finish(s) => (10 + status_data(s).0, status_data(s).1),
    }
}

/// The deployment of one symlink, as a machine of steps.
#[derive(Debug)]
pub struct LinkDeploy {
    /// Where the deployment stands.
    stage: LinkStage,
    /// Whether an existing link at the target may be replaced.
    replace: bool,
    /// Whether nothing is written.
    dry_run: bool,
}

impl LinkDeploy {
    /// Where the deployment stands.
    pub closed spec fn spec_stage(&self) -> LinkStage {
        self.stage
    }

    /// Whether an existing link at the target may be replaced.
    pub closed spec fn spec_replace(&self) -> bool {
        self.replace
    }

    /// Whether nothing is written.
    pub closed spec fn spec_dry_run(&self) -> bool {
        self.dry_run
    }

    /// Whether `e` is what the current stage waits for.
    pub open spec fn accepts(&self, e: &LinkEvent) -> bool {
        match self.spec_stage() {
            LinkStage::Start => e is Start,
            LinkStage::CheckingSource => e is SourceExists,
            LinkStage::CheckingTarget => e is TargetExists,
            LinkStage::Inspecting => e is TargetIsLink,
            LinkStage::Removing => e is Removed,
            LinkStage::Creating => e is Created,
            LinkStage::Done => false,
        }
    }

    /// Where a deployment goes once the target is free: the link is created,
    /// or on a dry run it succeeds without.
    pub open spec fn spec_to_create(&self) -> (LinkStage, (int, Seq<char>)) {
        if self.spec_dry_run() {
            (LinkStage::Done, (10, seq![]))
        } else {
            (LinkStage::Creating, (4, seq![]))
        }
    }

    /// The next stage and action on event `e`.
    pub open spec fn next(&self, e: LinkEvent) -> (LinkStage, (int, Seq<char>)) {
        match e {
            LinkEvent::Start => (LinkStage::CheckingSource, (0, seq![])),
            LinkEvent::SourceExists(b) => if b {
                (LinkStage::CheckingTarget, (1, seq![]))
            } else {
                (LinkStage::Done, (11, "Link source does not exist"@))
            },
            LinkEvent::TargetExists(b) => if !b {
                self.spec_to_create()
            } else if !self.spec_replace() {
                (LinkStage::Done, (12, "Link target does already exist"@))
            } else if self.spec_dry_run() {
                self.spec_to_create()
            } else {
                (LinkStage::Inspecting, (2, seq![]))
            },
            LinkEvent::TargetIsLink(r) => match r {
                Err(e) => (LinkStage::Done, (11, "Failed get link target metadata: "@ + e@)),
                Ok(false) => (LinkStage::Done, (11, "Not allowed to replace target"@)),
                Ok(true) => (LinkStage::Removing, (3, seq![])),
            },
            LinkEvent::Removed(r) => match r {
                Err(e) => (LinkStage::Done, (11, "Failed to remove old link target: "@ + e@)),
                Ok(()) => self.spec_to_create(),
            },
            LinkEvent::Created(r) => match r {
                Err(e) => (LinkStage::Done, (11, "Failed create link: "@ + e@)),
                Ok(()) => (LinkStage::Done, (10, seq![])),
            },
        }
    }

    /// Starts the deployment of a symlink.
    pub fn new(replace: bool, dry_run: bool) -> (r: Self)
        ensures
            r.spec_stage() == LinkStage::Start,
            r.spec_replace() == replace,
            r.spec_dry_run() == dry_run,
    {
        LinkDeploy { stage: LinkStage::Start, replace, dry_run }
    }

    /// Finishes with the failure `reason`.
    fn fail(&mut self, reason: String) -> (r: LinkAction)
        ensures
            final(self).spec_stage() == LinkStage::Done,
            final(self).spec_replace() == old(self).spec_replace(),
            final(self).spec_dry_run() == old(self).spec_dry_run(),
            link_action_data(r) == (11int, reason@),
    {
        self.stage = LinkStage::Done;
        LinkAction::Finish(DotfileStatus::Failed(reason))
    }

    /// Goes on once the target is free.
    fn to_create(&mut self) -> (r: LinkAction)
        ensures
            (final(self).spec_stage(), link_action_data(r)) == old(self).spec_to_create(),
            final(self).spec_replace() == old(self).spec_replace(),
            final(self).spec_dry_run() == old(self).spec_dry_run(),
    {
        if self.dry_run {
            self.stage = LinkStage::Done;
            LinkAction::Finish(DotfileStatus::Success)
        } else {
            self.stage = LinkStage::Creating;
            LinkAction::CreateLink
        }
    }

    /// Takes the next step on `event`, which the current stage waits for.
    pub fn step(&mut self, event: LinkEvent) -> (r: LinkAction)
        requires
            old(self).accepts(&event),
        ensures
            (final(self).spec_stage(), link_action_data(r)) == old(self).next(event),
            final(self).spec_replace() == old(self).spec_replace(),
            final(self).spec_dry_run() == old(self).spec_dry_run(),
    {
        match event {
            LinkEvent::Start => {
                self.stage = LinkStage::CheckingSource;
                LinkAction::CheckSource
            },
            LinkEvent::SourceExists(b) => {
                if b {
                    self.stage = LinkStage::CheckingTarget;
                    LinkAction::CheckTarget
                } else {
                    self.fail("Link source does not exist".to_owned())
                }
            },
            LinkEvent::TargetExists(b) => {
                if !b {
                    self.to_create()
                } else if !self.replace {
                    self.stage = LinkStage::Done;
                    LinkAction::Finish(DotfileStatus::Skipped("Link target does already exist".to_owned()))
                } else if self.dry_run {
                    self.to_create()
                } else {
                    self.stage = LinkStage::Inspecting;
                    LinkAction::InspectTarget
                }
            },
            LinkEvent::TargetIsLink(r) => match r {
                Err(e) => {
                    let mut m = "Failed get link target metadata: ".to_owned();
                    m.append(e.as_str());
                    self.fail(m)
                },
                Ok(false) => self.fail("Not allowed to replace target".to_owned()),
                Ok(true) => {
                    self.stage = LinkStage::Removing;
                    LinkAction::RemoveTarget
                },
            },
            LinkEvent::Removed(r) => match r {
                Err(e) => {
                    let mut m = "Failed to remove old link target: ".to_owned();
                    m.append(e.as_str());
                    self.fail(m)
                },
                Ok(()) => self.to_create(),
            },
            LinkEvent::Created(r) => match r {
                Err(e) => {
                    let mut m = "Failed create link: ".to_owned();
                    m.append(e.as_str());
                    self.fail(m)
                },
                Ok(()) => {
                    self.stage = LinkStage::Done;
                    LinkAction::Finish(DotfileStatus::Success)
                },
            },
        }
    }
}

/// Whether the stage is one that touches the file system.
pub open spec fn link_stage_writes(s: LinkStage) -> bool {
    s is Inspecting || s is Removing || s is Creating
}

/// A link whose target exists and may not be replaced is skipped; on a dry
/// run, no step that starts from a stage that leaves the file system alone
/// leads to one that touches it, or asks to inspect, remove or create anything.
pub proof fn law_link_target_respected(m: LinkDeploy, e: LinkEvent)
    ensures
        (e matches LinkEvent::TargetExists(b) && b && !m.spec_replace()) ==> m.next(e) == (LinkStage::Done, (12int, "Link target does already exist"@)),
        (m.spec_dry_run() && m.accepts(&e) && !link_stage_writes(m.spec_stage())) ==> !link_stage_writes(m.next(e).0)
            && m.next(e).1.0 != 2 && m.next(e).1.0 != 3 && m.next(e).1.0 != 4,
{
}

/// Deploys a profile: holds the options, and records what becomes of each item.
#[derive(Debug)]
pub struct Deployer {
    /// The options of the deployment.
    options: DeployOptions,
    /// What became of each item so far.
    builder: DeploymentBuilder,
}

impl Deployer {
    /// The options of the deployment.
    pub closed spec fn spec_options(&self) -> DeployOptions {
        self.options
    }

    /// What became of each item so far, by deploy path.
    pub closed spec fn records(&self) -> Map<Seq<char>, DeployedDotfile> {
        self.builder.dotfiles_map()
    }

    /// The number of items recorded so far.
    pub closed spec fn record_count(&self) -> nat {
        self.builder.count()
    }

    /// The number of items recorded so far whose deployment failed.
    pub open spec fn failed_count(&self) -> nat {
        crate::deployment::status_paths(self.records(), 1).len()
    }

    /// Creates a deployer with the given options and nothing recorded.
    pub fn new(options: DeployOptions) -> (r: Self)
        ensures
            r.spec_options() == options,
            r.records() == Map::<Seq<char>, DeployedDotfile>::empty(),
    {
        Deployer { options, builder: DeploymentBuilder::new() }
    }

    /// Returns the options of the deployment.
    pub fn options(&self) -> (r: DeployOptions)
        ensures
            r == self.spec_options(),
    {
        self.options
    }

    /// Returns what was recorded so far.
    pub fn builder(&self) -> (r: &DeploymentBuilder)
        ensures
            r.dotfiles_map() == self.records(),
            r.count() == self.record_count(),
    {
        &self.builder
    }

    /// Consumes the deployer and gives the finished deployment: failed if some
    /// item failed.
    pub fn into_deployment(self) -> (r: Deployment)
        ensures
            r.dotfiles_map() == self.records(),
            (r.spec_status() is Success) <==> self.failed_count() == 0,
            (r.spec_status() is Success) <==> (forall|k: Seq<char>| #[trigger] self.records().contains_key(k)
                ==> !(self.records()[k].status is Failed)),
    {
        self.builder.finish()
    }

    /// Goes on after a pre-hook ran with `outcome`: the deployer as it was if
    /// the hook succeeded; else, as nothing was deployed yet, the deployment
    /// ends, failed because of the pre-hook.
    pub fn after_pre_hook(self, outcome: Result<(), String>) -> (r: Result<Deployer, Deployment>)
        ensures
            outcome is Ok ==> r == Ok::<Deployer, Deployment>(self),
            outcome is Err ==> (r matches Err(d) && d.dotfiles_map() == self.records()
                && (d.spec_status() matches crate::deployment::DeploymentStatus::Failed(s) && s@ == "Failed to execute pre-hook"@)),
    {
        match outcome {
            Ok(()) => Ok(self),
            Err(_) => Err(self.into_failed("Failed to execute pre-hook".to_owned())),
        }
    }

    /// Goes on after a post-hook ran with `outcome`: the deployer as it was if
    /// the hook succeeded; else the deployment ends, failed for the hook's
    /// error.
    pub fn after_post_hook(self, outcome: Result<(), String>) -> (r: Result<Deployer, Deployment>)
        ensures
            outcome is Ok ==> r == Ok::<Deployer, Deployment>(self),
            outcome is Err ==> (r matches Err(d) && d.dotfiles_map() == self.records()
                && (d.spec_status() matches crate::deployment::DeploymentStatus::Failed(s) && s@ == outcome->Err_0@)),
    {
        match outcome {
            Ok(()) => Ok(self),
            Err(e) => Err(self.into_failed(e)),
        }
    }

    /// Consumes the deployer and gives a deployment that failed for `reason`
    /// (a hook that failed).
    pub fn into_failed(self, reason: String) -> (r: Deployment)
        ensures
            r.dotfiles_map() == self.records(),
            r.spec_status() matches crate::deployment::DeploymentStatus::Failed(s) && s@ == reason@,
    {
        self.builder.failed(reason)
    }

    /// Starts the deployment of a file of `dotfile` to `target_path`: it is
    /// outranked if a dotfile of higher priority was deployed there; the
    /// profile's transformers apply before the dotfile's.
    pub fn start_file(&self, profile: &LayeredProfile, dotfile: &Dotfile, target_path: &str) -> (r: FileDeploy)
        ensures
            r.spec_stage() == FileStage::Start,
            r.outranked() == (match (dotfile.priority, crate::deployment::owning_priority(self.records(), target_path@, self.record_count() + 1)) {
                (Some(a), Some(b)) => b.0 > a.0,
                _ => false,
            }),
            r.spec_merge() == (match dotfile.merge {
                Some(m) => m,
                None => MergeMode::Overwrite,
            }),
            r.spec_dry_run() == self.spec_options().dry_run,
            r.spec_template() == dotfile.spec_is_template(),
            r.spec_transformers() == profile.spec_transformers().map_values(|e: (usize, ContentTransformer)| e.1)
                + dotfile.transformers@,
    {
        let other = self.builder.get_priority(target_path);
        let mut ts = profile.transformers();
        let mut i: usize = 0;
        let ghost base = ts@;
        while i < dotfile.transformers.len()
            invariant
                i <= dotfile.transformers@.len(),
                ts@ == base + dotfile.transformers@.subrange(0, i as int),
            decreases dotfile.transformers.len() - i,
        {
            ts.push(dotfile.transformers[i]);
            assert(ts@ =~= base + dotfile.transformers@.subrange(0, i + 1));
            i = i + 1;
        }
        assert(dotfile.transformers@.subrange(0, i as int) =~= dotfile.transformers@);
        FileDeploy::new(dotfile.priority, other, dotfile.merge, self.options.dry_run, dotfile.is_template(), ts)
    }

    /// Records what became of an item of kind `kind` deployed to `target_path`;
    /// an item inside a directory dotfile is recorded as part of the directory
    /// deployed to `root_target_path`.
    pub fn record(&mut self, kind: &Kind, target_path: String, root_target_path: String, status: DotfileStatus)
        ensures
            final(self).spec_options() == old(self).spec_options(),
            final(self).records().dom() == old(self).records().dom().insert(target_path@),
            forall|k: Seq<char>| k != target_path@ && #[trigger] old(self).records().contains_key(k) ==> final(self).records()[k] == old(self).records()[k],
            final(self).records()[target_path@].status == status,
            match kind {
                Kind::Root(d) => final(self).records()[target_path@].kind matches DeployedDotfileKind::Dotfile(x) && x.same_as(d),
                Kind::Child { .. } => final(self).records()[target_path@].kind matches DeployedDotfileKind::Child(p) && p@ == root_target_path@,
            },
    {
        match kind {
            Kind::Root(d) => {
                let copy = d.copied();
                self.builder.add_dotfile(target_path, copy, status);
            },
            Kind::Child { .. } => {
                self.builder.add_child(target_path, root_target_path, status);
            },
        }
    }
}


/// The text of an item that could not be walked: its context and its error,
/// joined by `: ` where both are given.
pub open spec fn errored_text(context: Option<Seq<char>>, error: Option<Seq<char>>) -> Seq<char> {
    match (context, error) {
        (Some(c), Some(e)) => c + ": "@ + e,
        (Some(c), None) => c,
        (None, Some(e)) => e,
        (None, None) => seq![],
    }
}

/// The status of an item that could not be walked, with the given context and error.
pub fn errored_status(context: Option<&str>, error: Option<&str>) -> (r: DotfileStatus)
    ensures
        r matches DotfileStatus::Failed(m) && m@ == errored_text(
            match context { Some(c) => Some(c@), None => None },
            match error { Some(e) => Some(e@), None => None },
        ),
{
    let mut m = String::new();
    match context {
        Some(c) => {
            m.append(c);
            match error {
                Some(e) => {
                    m.append(": ");
                    m.append(e);
                },
                None => {},
            }
        },
        None => match error {
            Some(e) => m.append(e),
            None => {},
        },
    }
    proof {
        reveal_strlit(": ");
    }
    assert(m@ =~= errored_text(
        match context { Some(c) => Some(c@), None => None },
        match error { Some(e) => Some(e@), None => None },
    ));
    DotfileStatus::Failed(m)
}

/// The status of a directory once it is known whether creating it worked (on
/// a dry run nothing is created, which counts as working).
pub fn directory_status(created: Result<(), String>) -> (r: DotfileStatus)
    ensures
        match created {
            Ok(()) => r is Success,
            Err(e) => r matches DotfileStatus::Failed(m) && m@ == "Failed to create directory: "@ + e@,
        },
{
    match created {
        Ok(()) => DotfileStatus::Success,
        Err(e) => {
            let mut m = "Failed to create directory: ".to_owned();
            m.append(e.as_str());
            DotfileStatus::Failed(m)
        },
    }
}
} // verus!
