//! The record of a deployment: what became of each dotfile, and of the whole.
use vstd::prelude::*;

use crate::profile::{Dotfile, Priority};
use crate::text::push_decimal;

verus! {

/// A point in time (`std::time::SystemTime`).
#[verifier::external_type_specification]
#[verifier::external_body]
pub struct ExSystemTime(std::time::SystemTime);

/// The error of a time that lies before another (`std::time::SystemTimeError`).
#[verifier::external_type_specification]
#[verifier::external_body]
pub struct ExSystemTimeError(std::time::SystemTimeError);

/// Reads the clock (`std::time::SystemTime::now`). Nothing is claimed of the
/// time read.
#[verifier::external_body]
fn now() -> std::time::SystemTime {
    std::time::SystemTime::now()
}

/// What `std::time::SystemTime::duration_since` gives for `end` and `start`:
/// the time from `start` to `end`, or the error that `start` is later.
pub uninterp spec fn elapsed(end: std::time::SystemTime, start: std::time::SystemTime) -> Result<std::time::Duration, std::time::SystemTimeError>;

/// The time from `start` to `end` (`std::time::SystemTime::duration_since`), or
/// the error that `start` is later. The claim is that the result depends on the
/// two times alone, with `end` as the receiver and `start` as the argument.
#[verifier::external_body]
fn duration_between(end: &std::time::SystemTime, start: &std::time::SystemTime) -> (r: Result<std::time::Duration, std::time::SystemTimeError>)
    ensures
        r == elapsed(*end, *start),
{
    end.duration_since(*start)
}

/// The status of the deployment of one dotfile.
#[derive(Debug, Clone)]
pub enum DotfileStatus {
    /// The dotfile was deployed.
    Success,
    /// The deployment of the dotfile failed, for the given reason.
    Failed(String),
    /// The deployment of the dotfile was skipped, for the given reason.
    Skipped(String),
}

impl DotfileStatus {
    /// Marks the dotfile operation as successful.
    pub fn success() -> (r: Self)
        ensures
            r is Success,
    {
        DotfileStatus::Success
    }

    /// Marks the dotfile operation as failed.
    pub fn failed(reason: String) -> (r: Self)
        ensures
            r matches DotfileStatus::Failed(s) && s@ == reason@,
    {
        DotfileStatus::Failed(reason)
    }

    /// Marks the dotfile operation as skipped.
    pub fn skipped(reason: String) -> (r: Self)
        ensures
            r matches DotfileStatus::Skipped(s) && s@ == reason@,
    {
        DotfileStatus::Skipped(reason)
    }

    /// Checks if the dotfile operation was successful.
    pub fn is_success(&self) -> (r: bool)
        ensures
            r == self is Success,
    {
        matches!(self, DotfileStatus::Success)
    }

    /// Checks if the dotfile operation has failed.
    pub fn is_failed(&self) -> (r: bool)
        ensures
            r == self is Failed,
    {
        matches!(self, DotfileStatus::Failed(_))
    }

    /// Checks if the dotfile operation was skipped.
    pub fn is_skipped(&self) -> (r: bool)
        ensures
            r == self is Skipped,
    {
        matches!(self, DotfileStatus::Skipped(_))
    }

    /// The text the status is displayed as.
    pub open spec fn spec_text(&self) -> Seq<char> {
        match self {
            DotfileStatus::Success => "Success"@,
            DotfileStatus::Failed(r) => "Failed: "@ + r@,
            DotfileStatus::Skipped(r) => "Skipped: "@ + r@,
        }
    }

    /// Returns the text the status is displayed as.
    pub fn to_text(&self) -> (r: String)
        ensures
            r@ == self.spec_text(),
    {
        match self {
            DotfileStatus::Success => "Success".to_owned(),
            DotfileStatus::Failed(reason) => {
                let mut s = "Failed: ".to_owned();
                s.append(reason.as_str());
                s
            },
            DotfileStatus::Skipped(reason) => {
                let mut s = "Skipped: ".to_owned();
                s.append(reason.as_str());
                s
            },
        }
    }
}

/// What kind of item was deployed.
#[derive(Debug)]
pub enum DeployedDotfileKind {
    /// A dotfile of the profile.
    Dotfile(Dotfile),
    /// A file inside a directory dotfile; holds the deploy path of that directory.
    Child(String),
}

impl DeployedDotfileKind {
    /// Checks whether this is a dotfile of the profile.
    pub fn is_dotfile(&self) -> (r: bool)
        ensures
            r == self is Dotfile,
    {
        matches!(self, DeployedDotfileKind::Dotfile(_))
    }

    /// Checks whether this is a file inside a directory dotfile.
    pub fn is_child(&self) -> (r: bool)
        ensures
            r == self is Child,
    {
        matches!(self, DeployedDotfileKind::Child(_))
    }
}

/// The result of deploying one item.
#[derive(Debug)]
pub struct DeployedDotfile {
    /// The status of the deployment.
    pub status: DotfileStatus,
    /// The kind of item.
    pub kind: DeployedDotfileKind,
}

impl DeployedDotfile {
    /// Returns the status of the deployment.
    pub fn status(&self) -> (r: &DotfileStatus)
        ensures
            *r == self.status,
    {
        &self.status
    }

    /// Returns the kind of item.
    pub fn kind(&self) -> (r: &DeployedDotfileKind)
        ensures
            *r == self.kind,
    {
        &self.kind
    }
}

/// The status of a whole deployment.
#[derive(Debug, Clone)]
pub enum DeploymentStatus {
    /// The deployment succeeded.
    Success,
    /// The deployment failed, for the given reason.
    Failed(String),
}

impl DeploymentStatus {
    /// Returns success.
    pub fn success() -> (r: Self)
        ensures
            r is Success,
    {
        DeploymentStatus::Success
    }

    /// Returns a failure with the given reason.
    pub fn failed(reason: String) -> (r: Self)
        ensures
            r matches DeploymentStatus::Failed(s) && s@ == reason@,
    {
        DeploymentStatus::Failed(reason)
    }

    /// Checks if the deployment was successful.
    pub fn is_success(&self) -> (r: bool)
        ensures
            r == self is Success,
    {
        matches!(self, DeploymentStatus::Success)
    }

    /// Checks if the deployment has failed.
    pub fn is_failed(&self) -> (r: bool)
        ensures
            r == self is Failed,
    {
        matches!(self, DeploymentStatus::Failed(_))
    }

    /// The text the status is displayed as.
    pub open spec fn spec_text(&self) -> Seq<char> {
        match self {
            DeploymentStatus::Success => "Success"@,
            DeploymentStatus::Failed(r) => "Failed: "@ + r@,
        }
    }

    /// Returns the text the status is displayed as.
    pub fn to_text(&self) -> (r: String)
        ensures
            r@ == self.spec_text(),
    {
        match self {
            DeploymentStatus::Success => "Success".to_owned(),
            DeploymentStatus::Failed(reason) => {
                let mut s = "Failed: ".to_owned();
                s.append(reason.as_str());
                s
            },
        }
    }
}

/// Whether no path occurs twice in `s`.
pub open spec fn paths_distinct(s: Seq<(String, DeployedDotfile)>) -> bool {
    forall|i: int, j: int| 0 <= i < s.len() && 0 <= j < s.len() && i != j ==> s[i].0@ != s[j].0@
}

/// The map from path to deployed item that the entries of `s` define.
pub open spec fn entries_map(s: Seq<(String, DeployedDotfile)>) -> Map<Seq<char>, DeployedDotfile> {
    Map::new(
        |k: Seq<char>| exists|i: int| 0 <= i < s.len() && s[i].0@ == k,
        |k: Seq<char>| s[choose|i: int| 0 <= i < s.len() && s[i].0@ == k].1,
    )
}

/// The paths of `m` whose record has a status of the kind `kind` (0 success,
/// 1 failed, 2 skipped).
pub open spec fn status_paths(m: Map<Seq<char>, DeployedDotfile>, kind: int) -> Set<Seq<char>> {
    m.dom().filter(|k: Seq<char>| status_kind(m[k].status) == kind)
}

/// Removing the last entry of entries with distinct paths removes its path
/// from the map they define.
proof fn lemma_entries_map_last(s: Seq<(String, DeployedDotfile)>)
    requires
        paths_distinct(s),
        s.len() > 0,
    ensures
        paths_distinct(s.drop_last()),
        !entries_map(s.drop_last()).contains_key(s.last().0@),
        entries_map(s) == entries_map(s.drop_last()).insert(s.last().0@, s.last().1),
{
    let t = s.drop_last();
    let n = t.len() as int;
    assert(forall|i: int| 0 <= i < t.len() ==> t[i] == s[i]);
    assert(entries_map(s) =~= entries_map(t).insert(s.last().0@, s.last().1)) by {
        assert forall|k: Seq<char>| #[trigger] entries_map(s).contains_key(k) implies entries_map(s)[k]
            == entries_map(t).insert(s.last().0@, s.last().1)[k] by {
            let a = choose|j: int| 0 <= j < s.len() && s[j].0@ == k;
            if k == s.last().0@ {
                assert(s[n].0@ == k);
                assert(a == n);
            } else {
                assert(a != n);
                assert(t[a].0@ == k);
                let b = choose|j: int| 0 <= j < t.len() && t[j].0@ == k;
                assert(a == b);
            }
        }
        assert forall|k: Seq<char>| #[trigger] entries_map(t).insert(s.last().0@, s.last().1).contains_key(k)
            implies entries_map(s).contains_key(k) by {
            if k == s.last().0@ {
                assert(s[n].0@ == k);
            } else {
                let b = choose|j: int| 0 <= j < t.len() && t[j].0@ == k;
                assert(s[b].0@ == k);
            }
        }
    }
}

/// Over entries with distinct paths, the map they define has as many paths as
/// there are entries, and as many paths of a status kind as there are entries
/// of that kind.
proof fn lemma_status_paths_count(s: Seq<(String, DeployedDotfile)>, kind: int)
    requires
        paths_distinct(s),
    ensures
        entries_map(s).dom().finite(),
        entries_map(s).dom().len() == s.len(),
        status_paths(entries_map(s), kind).len() == status_count(s, kind),
    decreases s.len(),
{
    if s.len() == 0 {
        assert(entries_map(s).dom() =~= Set::<Seq<char>>::empty());
        assert(status_paths(entries_map(s), kind) =~= Set::<Seq<char>>::empty());
    } else {
        let t = s.drop_last();
        lemma_entries_map_last(s);
        lemma_status_paths_count(t, kind);
        let k = s.last().0@;
        let v = s.last().1;
        assert(entries_map(s).dom() =~= entries_map(t).dom().insert(k));
        if status_kind(v.status) == kind {
            assert(status_paths(entries_map(s), kind) =~= status_paths(entries_map(t), kind).insert(k));
        } else {
            assert(status_paths(entries_map(s), kind) =~= status_paths(entries_map(t), kind));
        }
    }
}

/// A map with finitely many paths has a path whose record failed exactly when
/// the set of failed paths is not empty.
proof fn lemma_failed_paths_empty(m: Map<Seq<char>, DeployedDotfile>)
    requires
        m.dom().finite(),
    ensures
        (status_paths(m, 1).len() == 0) <==> (forall|k: Seq<char>| #[trigger] m.contains_key(k) ==> !(m[k].status is Failed)),
{
    let f = status_paths(m, 1);
    assert(f.finite());
    if f.len() == 0 {
        assert forall|k: Seq<char>| #[trigger] m.contains_key(k) implies !(m[k].status is Failed) by {
            if m[k].status is Failed {
                assert(f.contains(k));
            }
        }
    } else {
        let k = f.choose();
        assert(f.contains(k));
    }
}

/// The dotfile that the item at `p` belongs to, following at most `fuel`
/// links from a file to its directory; if `only_success`, only through items
/// that were deployed.
pub open spec fn owning_dotfile(m: Map<Seq<char>, DeployedDotfile>, p: Seq<char>, fuel: nat, only_success: bool) -> Option<Dotfile>
    decreases fuel,
{
    if fuel == 0 || !m.contains_key(p) {
        None
    } else if only_success && !(m[p].status is Success) {
        None
    } else {
        match m[p].kind {
            DeployedDotfileKind::Dotfile(d) => Some(d),
            DeployedDotfileKind::Child(parent) => owning_dotfile(m, parent@, (fuel - 1) as nat, only_success),
        }
    }
}

/// The number of entries of `s` whose status has the kind `kind` (0 success,
/// 1 failed, 2 skipped).
pub open spec fn status_count(s: Seq<(String, DeployedDotfile)>, kind: int) -> nat
    decreases s.len(),
{
    if s.len() == 0 {
        0
    } else {
        status_count(s.drop_last(), kind) + if status_kind(s.last().1.status) == kind { 1nat } else { 0nat }
    }
}

/// The kind of a status: 0 success, 1 failed, 2 skipped.
pub open spec fn status_kind(s: DotfileStatus) -> int {
    match s {
        DotfileStatus::Success => 0,
        DotfileStatus::Failed(_) => 1,
        DotfileStatus::Skipped(_) => 2,
    }
}

/// How many items of a deployment were deployed, skipped and failed.
#[derive(Debug, Clone, Copy, PartialEq, Eq, Structural)]
pub struct DeployCounts {
    /// The number of items deployed.
    pub success: usize,
    /// The number of items skipped.
    pub skipped: usize,
    /// The number of items that failed.
    pub failed: usize,
}

/// The priority of the deployed dotfile that the item at `p` belongs to.
pub open spec fn owning_priority(m: Map<Seq<char>, DeployedDotfile>, p: Seq<char>, fuel: nat) -> Option<Priority> {
    match owning_dotfile(m, p, fuel, true) {
        Some(d) => d.priority,
        None => None,
    }
}

/// The record of a finished deployment.
#[derive(Debug)]
pub struct Deployment {
    /// The time the deployment was started.
    time_start: std::time::SystemTime,
    /// The time the deployment was finished.
    time_end: std::time::SystemTime,
    /// The status of the deployment.
    status: DeploymentStatus,
    /// The items that were deployed, by deploy path; no path occurs twice.
    dotfiles: Vec<(String, DeployedDotfile)>,
}

impl Deployment {
    /// No path occurs twice.
    #[verifier::type_invariant]
    spec fn unique_paths(&self) -> bool {
        paths_distinct(self.dotfiles@)
    }

    /// The status of the deployment.
    pub closed spec fn spec_status(&self) -> DeploymentStatus {
        self.status
    }

    /// The items that were deployed, by deploy path.
    pub closed spec fn dotfiles_map(&self) -> Map<Seq<char>, DeployedDotfile> {
        entries_map(self.dotfiles@)
    }

    /// The time the deployment was started.
    pub closed spec fn spec_time_start(&self) -> std::time::SystemTime {
        self.time_start
    }

    /// The time the deployment was finished.
    pub closed spec fn spec_time_end(&self) -> std::time::SystemTime {
        self.time_end
    }

    /// Returns the time the deployment was started.
    pub fn time_start(&self) -> (r: &std::time::SystemTime)
        ensures
            *r == self.spec_time_start(),
    {
        &self.time_start
    }

    /// Returns the time the deployment was finished.
    pub fn time_end(&self) -> (r: &std::time::SystemTime)
        ensures
            *r == self.spec_time_end(),
    {
        &self.time_end
    }

    /// Returns the time the deployment took.
    pub fn duration(&self) -> (r: Result<std::time::Duration, std::time::SystemTimeError>)
        ensures
            r == elapsed(self.spec_time_end(), self.spec_time_start()),
    {
        duration_between(&self.time_end, &self.time_start)
    }

    /// Returns the status of the deployment.
    pub fn status(&self) -> (r: &DeploymentStatus)
        ensures
            *r == self.spec_status(),
    {
        &self.status
    }

    /// Returns the items that were deployed, each with its deploy path.
    pub fn dotfiles(&self) -> (r: &Vec<(String, DeployedDotfile)>)
        ensures
            entries_map(r@) == self.dotfiles_map(),
            r@ == self.entries(),
            paths_distinct(r@),
    {
        proof { use_type_invariant(self); }
        &self.dotfiles
    }

    /// The entries of the deployment.
    pub closed spec fn entries(&self) -> Seq<(String, DeployedDotfile)> {
        self.dotfiles@
    }

    /// Counts the items that were deployed, skipped and failed.
    pub fn counts(&self) -> (r: DeployCounts)
        ensures
            r.success == status_count(self.entries(), 0),
            r.failed == status_count(self.entries(), 1),
            r.skipped == status_count(self.entries(), 2),
            r.success + r.failed + r.skipped == self.entries().len(),
            r.success == status_paths(self.dotfiles_map(), 0).len(),
            r.failed == status_paths(self.dotfiles_map(), 1).len(),
            r.skipped == status_paths(self.dotfiles_map(), 2).len(),
            r.success + r.failed + r.skipped == self.dotfiles_map().len(),
    {
        proof {
            use_type_invariant(self);
            lemma_status_paths_count(self.dotfiles@, 0);
            lemma_status_paths_count(self.dotfiles@, 1);
            lemma_status_paths_count(self.dotfiles@, 2);
        }
        let mut c = DeployCounts { success: 0, skipped: 0, failed: 0 };
        let mut i: usize = 0;
        while i < self.dotfiles.len()
            invariant
                i <= self.dotfiles@.len(),
                c.success == status_count(self.dotfiles@.subrange(0, i as int), 0),
                c.failed == status_count(self.dotfiles@.subrange(0, i as int), 1),
                c.skipped == status_count(self.dotfiles@.subrange(0, i as int), 2),
                c.success + c.failed + c.skipped == i,
            decreases self.dotfiles.len() - i,
        {
            proof {
                assert(self.dotfiles@.subrange(0, i + 1).drop_last() =~= self.dotfiles@.subrange(0, i as int));
            }
            match &self.dotfiles[i].1.status {
                DotfileStatus::Success => {
                    c.success = c.success + 1;
                },
                DotfileStatus::Failed(_) => {
                    c.failed = c.failed + 1;
                },
                DotfileStatus::Skipped(_) => {
                    c.skipped = c.skipped + 1;
                },
            }
            i = i + 1;
        }
        assert(self.dotfiles@.subrange(0, i as int) =~= self.dotfiles@);
        c
    }

    /// Creates a builder for a deployment that starts now.
    pub fn build() -> (r: DeploymentBuilder)
        ensures
            r.dotfiles_map() == Map::<Seq<char>, DeployedDotfile>::empty(),
            r.count() == 0,
    {
        DeploymentBuilder::new()
    }
}

/// Collects what becomes of each item while a deployment runs.
#[derive(Debug)]
pub struct DeploymentBuilder {
    /// The time the deployment was started.
    time_start: std::time::SystemTime,
    /// The items processed so far, by deploy path; no path occurs twice.
    dotfiles: Vec<(String, DeployedDotfile)>,
}

impl DeploymentBuilder {
    /// No path occurs twice.
    #[verifier::type_invariant]
    spec fn unique_paths(&self) -> bool {
        paths_distinct(self.dotfiles@)
    }

    /// The items processed so far, by deploy path.
    pub closed spec fn dotfiles_map(&self) -> Map<Seq<char>, DeployedDotfile> {
        entries_map(self.dotfiles@)
    }

    /// The number of items processed so far.
    pub closed spec fn count(&self) -> nat {
        self.dotfiles@.len()
    }

    /// The number of items processed so far whose deployment failed.
    pub open spec fn spec_failed_count(&self) -> nat {
        status_paths(self.dotfiles_map(), 1).len()
    }

    /// The time the deployment was started.
    pub closed spec fn spec_time_start(&self) -> std::time::SystemTime {
        self.time_start
    }

    /// Creates a builder for a deployment that starts now.
    pub fn new() -> (r: Self)
        ensures
            r.dotfiles_map() == Map::<Seq<char>, DeployedDotfile>::empty(),
            r.count() == 0,
    {
        let r = DeploymentBuilder { time_start: now(), dotfiles: Vec::new() };
        assert(r.dotfiles_map() =~= Map::<Seq<char>, DeployedDotfile>::empty());
        r
    }

    /// Records `item` for the deploy path `path`, replacing an earlier record.
    fn insert(&mut self, path: String, item: DeployedDotfile)
        ensures
            final(self).dotfiles_map() == old(self).dotfiles_map().insert(path@, item),
            final(self).count() <= old(self).count() + 1,
            !old(self).dotfiles_map().contains_key(path@) ==> final(self).count() == old(self).count() + 1,
            old(self).dotfiles_map().contains_key(path@) ==> final(self).count() == old(self).count(),
            final(self).spec_time_start() == old(self).spec_time_start(),
    {
        proof { use_type_invariant(&*self); }
        let ghost s = self.dotfiles@;
        let ghost pv = path@;
        let mut i: usize = 0;
        while i < self.dotfiles.len()
            invariant
                0 <= i <= self.dotfiles@.len(),
                self.dotfiles@ == s,
                s == old(self).dotfiles@,
                self.time_start == old(self).time_start,
                pv == path@,
                paths_distinct(s),
                forall|j: int| 0 <= j < i ==> s[j].0@ != pv,
            decreases self.dotfiles.len() - i,
        {
            if self.dotfiles[i].0 == path {
                let mut v = Vec::new();
                std::mem::swap(&mut v, &mut self.dotfiles);
                let _ = v.remove(i);
                let ghost w = v@;
                v.push((path, item));
                proof {
                    let t = v@;
                    assert(s[i as int].0@ == pv);
                    assert(entries_map(s).contains_key(pv));
                    assert(forall|j: int| 0 <= j < i ==> w[j] == s[j]);
                    assert(forall|j: int| i <= j < w.len() ==> w[j] == s[j + 1]);
                    assert(paths_distinct(t)) by {
                        assert forall|a: int, b: int| 0 <= a < t.len() && 0 <= b < t.len() && a != b implies t[a].0@ != t[b].0@ by {
                            if a < w.len() && b < w.len() {
                                let a0 = if a < i { a } else { a + 1 };
                                let b0 = if b < i { b } else { b + 1 };
                                assert(t[a] == s[a0] && t[b] == s[b0]);
                            } else if a < w.len() {
                                let a0 = if a < i { a } else { a + 1 };
                                assert(t[a] == s[a0]);
                                assert(a0 != i);
                            } else {
                                let b0 = if b < i { b } else { b + 1 };
                                assert(t[b] == s[b0]);
                                assert(b0 != i);
                            }
                        }
                    }
                    assert(entries_map(t) =~= entries_map(s).insert(pv, item)) by {
                        assert forall|k: Seq<char>| #[trigger] entries_map(t).contains_key(k) implies entries_map(t)[k]
                            == entries_map(s).insert(pv, item)[k] by {
                            let a = choose|j: int| 0 <= j < t.len() && t[j].0@ == k;
                            if k == pv {
                                assert(t[w.len() as int].0@ == k);
                                assert(a == w.len());
                            } else {
                                let a0 = if a < i { a } else { a + 1 };
                                assert(t[a] == s[a0]);
                                let b = choose|j: int| 0 <= j < s.len() && s[j].0@ == k;
                                assert(a0 == b);
                            }
                        }
                        assert forall|k: Seq<char>| #[trigger] entries_map(s).insert(pv, item).contains_key(k)
                            implies entries_map(t).contains_key(k) by {
                            if k != pv {
                                let b = choose|j: int| 0 <= j < s.len() && s[j].0@ == k;
                                assert(b != i);
                                let b1 = if b < i { b } else { b - 1 };
                                assert(t[b1] == s[b]);
                            } else {
                                assert(t[w.len() as int].0@ == k);
                            }
                        }
                        assert forall|k: Seq<char>| #[trigger] entries_map(t).contains_key(k)
                            implies entries_map(s).insert(pv, item).contains_key(k) by {
                            let a = choose|j: int| 0 <= j < t.len() && t[j].0@ == k;
                            if a < w.len() {
                                let a0 = if a < i { a } else { a + 1 };
                                assert(t[a] == s[a0]);
                            }
                        }
                    }
                }
                self.dotfiles = v;
                return;
            }
            i = i + 1;
        }
        assert(!entries_map(s).contains_key(pv));
        let mut v = Vec::new();
        std::mem::swap(&mut v, &mut self.dotfiles);
        v.push((path, item));
        proof {
            let t = v@;
            assert(forall|j: int| 0 <= j < s.len() ==> t[j] == s[j]);
            assert(t[s.len() as int].0@ == pv);
            assert(paths_distinct(t));
            assert(entries_map(t) =~= entries_map(s).insert(pv, item)) by {
                assert forall|k: Seq<char>| #[trigger] entries_map(t).contains_key(k) implies entries_map(t)[k]
                    == entries_map(s).insert(pv, item)[k] by {
                    let a = choose|j: int| 0 <= j < t.len() && t[j].0@ == k;
                    if k == pv {
                        assert(a == s.len());
                    } else {
                        let b = choose|j: int| 0 <= j < s.len() && s[j].0@ == k;
                        assert(t[b] == s[b]);
                    }
                }
                assert forall|k: Seq<char>| #[trigger] entries_map(s).insert(pv, item).contains_key(k)
                    implies entries_map(t).contains_key(k) by {
                    if k != pv {
                        let b = choose|j: int| 0 <= j < s.len() && s[j].0@ == k;
                        assert(t[b] == s[b]);
                    }
                }
                assert forall|k: Seq<char>| #[trigger] entries_map(t).contains_key(k)
                    implies entries_map(s).insert(pv, item).contains_key(k) by {
                    let a = choose|j: int| 0 <= j < t.len() && t[j].0@ == k;
                    if a < s.len() {
                        assert(t[a] == s[a]);
                    }
                }
            }
        }
        self.dotfiles = v;
    }

    /// Records the dotfile `dotfile`, deployed to `path` with `status`.
    pub fn add_dotfile(&mut self, path: String, dotfile: Dotfile, status: DotfileStatus)
        ensures
            final(self).dotfiles_map() == old(self).dotfiles_map().insert(
                path@,
                DeployedDotfile { status, kind: DeployedDotfileKind::Dotfile(dotfile) },
            ),
            final(self).spec_time_start() == old(self).spec_time_start(),
    {
        self.insert(path, DeployedDotfile { status, kind: DeployedDotfileKind::Dotfile(dotfile) });
    }

    /// Records a file of the directory dotfile deployed to `parent`, deployed to
    /// `path` with `status`.
    pub fn add_child(&mut self, path: String, parent: String, status: DotfileStatus)
        ensures
            final(self).dotfiles_map() == old(self).dotfiles_map().insert(
                path@,
                DeployedDotfile { status, kind: DeployedDotfileKind::Child(parent) },
            ),
            final(self).spec_time_start() == old(self).spec_time_start(),
            chain_avoids(old(self).dotfiles_map(), parent@, path@, old(self).count() + 1)
                ==> owning_dotfile(final(self).dotfiles_map(), path@, final(self).count() + 1, false)
                    == owning_dotfile(old(self).dotfiles_map(), parent@, old(self).count() + 1, false),
            chain_avoids(old(self).dotfiles_map(), parent@, path@, old(self).count() + 1)
                ==> owning_dotfile(final(self).dotfiles_map(), path@, final(self).count() + 1, true)
                    == if status is Success {
                        owning_dotfile(old(self).dotfiles_map(), parent@, old(self).count() + 1, true)
                    } else {
                        None::<Dotfile>
                    },
    {
        let ghost m = self.dotfiles_map();
        let ghost n = self.count();
        let ghost pv = path@;
        let ghost par = parent@;
        let ghost v = DeployedDotfile { status, kind: DeployedDotfileKind::Child(parent) };
        proof {
            use_type_invariant(&*self);
            lemma_status_paths_count(self.dotfiles@, 0);
        }
        self.insert(path, DeployedDotfile { status, kind: DeployedDotfileKind::Child(parent) });
        proof {
            if chain_avoids(m, par, pv, n + 1) {
                if m.contains_key(pv) {
                    lemma_chain_avoids_less(m, par, pv, n);
                    law_child_owned_by_parent_before(m, pv, v, n);
                    lemma_owning_stable(m, par, n, false);
                    lemma_owning_stable(m, par, n, true);
                } else {
                    law_child_owned_by_parent_before(m, pv, v, n + 1);
                }
            }
        }
    }

    /// The index of the record for `path`, if there is one.
    fn find(&self, path: &str) -> (r: Option<usize>)
        ensures
            match r {
                Some(i) => i < self.dotfiles@.len() && self.dotfiles@[i as int].0@ == path@
                    && self.dotfiles_map().contains_key(path@) && self.dotfiles_map()[path@] == self.dotfiles@[i as int].1,
                None => !self.dotfiles_map().contains_key(path@),
            },
    {
        proof { use_type_invariant(self); }
        let p = path.to_owned();
        let mut i: usize = 0;
        while i < self.dotfiles.len()
            invariant
                i <= self.dotfiles@.len(),
                p@ == path@,
                paths_distinct(self.dotfiles@),
                forall|j: int| 0 <= j < i ==> self.dotfiles@[j].0@ != path@,
            decreases self.dotfiles.len() - i,
        {
            if self.dotfiles[i].0 == p {
                proof {
                    let a = choose|j: int| 0 <= j < self.dotfiles@.len() && self.dotfiles@[j].0@ == path@;
                    assert(a == i);
                }
                return Some(i);
            }
            i = i + 1;
        }
        None
    }

    /// Checks if an item was recorded for `path`.
    pub fn contains(&self, path: &str) -> (r: bool)
        ensures
            r == self.dotfiles_map().contains_key(path@),
    {
        self.find(path).is_some()
    }

    /// Follows the record at `path` to the dotfile it belongs to.
    fn owning(&self, path: &str, only_success: bool) -> (r: Option<&Dotfile>)
        ensures
            match owning_dotfile(self.dotfiles_map(), path@, self.count() + 1, only_success) {
                Some(d) => r matches Some(x) && *x == d,
                None => r is None,
            },
    {
        let n = self.dotfiles.len();
        let mut idx = match self.find(path) {
            Some(i) => i,
            None => {
                return None;
            },
        };
        let ghost m = self.dotfiles_map();
        let ghost mut p = path@;
        let mut remaining: usize = n;
        loop
            invariant
                n == self.dotfiles@.len(),
                m == self.dotfiles_map(),
                remaining <= n,
                idx < n,
                m.contains_key(p),
                m[p] == self.dotfiles@[idx as int].1,
                owning_dotfile(m, path@, self.count() + 1, only_success) == owning_dotfile(m, p, (remaining + 1) as nat, only_success),
            decreases remaining,
        {
            let entry = &self.dotfiles[idx].1;
            if only_success && !entry.status.is_success() {
                return None;
            }
            match &entry.kind {
                DeployedDotfileKind::Dotfile(d) => {
                    return Some(d);
                },
                DeployedDotfileKind::Child(parent) => {
                    proof {
                        assert(owning_dotfile(m, p, (remaining + 1) as nat, only_success) == owning_dotfile(m, parent@, remaining as nat, only_success));
                    }
                    if remaining == 0 {
                        return None;
                    }
                    match self.find(parent.as_str()) {
                        Some(j) => {
                            proof { p = parent@; }
                            idx = j;
                        },
                        None => {
                            return None;
                        },
                    }
                    remaining = remaining - 1;
                },
            }
        }
    }

    /// Gets the dotfile that the item recorded at `path` belongs to, whatever its
    /// status.
    pub fn get_dotfile(&self, path: &str) -> (r: Option<&Dotfile>)
        ensures
            match owning_dotfile(self.dotfiles_map(), path@, self.count() + 1, false) {
                Some(d) => r matches Some(x) && *x == d,
                None => r is None,
            },
    {
        self.owning(path, false)
    }

    /// Gets the dotfile that the item recorded at `path` belongs to, if it and
    /// the directories it lies in were deployed.
    pub fn get_deployed_dotfile(&self, path: &str) -> (r: Option<&Dotfile>)
        ensures
            match owning_dotfile(self.dotfiles_map(), path@, self.count() + 1, true) {
                Some(d) => r matches Some(x) && *x == d,
                None => r is None,
            },
            r matches Some(x) ==> owning_dotfile(self.dotfiles_map(), path@, self.count() + 1, false) == Some(*x),
    {
        proof {
            law_deployed_owner_is_owner(self.dotfiles_map(), path@, self.count() + 1);
        }
        self.owning(path, true)
    }

    /// Gets the priority of the dotfile deployed at `path`.
    pub fn get_priority(&self, path: &str) -> (r: Option<Priority>)
        ensures
            r == match owning_dotfile(self.dotfiles_map(), path@, self.count() + 1, true) {
                Some(d) => d.priority,
                None => None,
            },
    {
        match self.get_deployed_dotfile(path) {
            Some(d) => d.priority,
            None => None,
        }
    }

    /// Checks whether the item recorded at `path` was deployed: `None` if
    /// nothing was recorded there.
    pub fn is_deployed(&self, path: &str) -> (r: Option<bool>)
        ensures
            match r {
                Some(b) => self.dotfiles_map().contains_key(path@) && b == (self.dotfiles_map()[path@].status is Success),
                None => !self.dotfiles_map().contains_key(path@),
            },
    {
        match self.find(path) {
            Some(i) => Some(self.dotfiles[i].1.status.is_success()),
            None => None,
        }
    }

    /// Counts the records whose deployment failed.
    fn count_failed(&self) -> (r: usize)
        ensures
            r == self.spec_failed_count(),
    {
        let mut c: usize = 0;
        let mut i: usize = 0;
        while i < self.dotfiles.len()
            invariant
                i <= self.dotfiles@.len(),
                c == status_count(self.dotfiles@.subrange(0, i as int), 1),
                c <= i,
            decreases self.dotfiles.len() - i,
        {
            proof {
                assert(self.dotfiles@.subrange(0, i + 1).drop_last() =~= self.dotfiles@.subrange(0, i as int));
            }
            if self.dotfiles[i].1.status.is_failed() {
                c = c + 1;
            }
            i = i + 1;
        }
        assert(self.dotfiles@.subrange(0, i as int) =~= self.dotfiles@);
        proof {
            use_type_invariant(self);
            lemma_status_paths_count(self.dotfiles@, 1);
        }
        c
    }

    /// Consumes the builder and creates the deployment: failed if the
    /// deployment of some item failed, else successful.
    pub fn finish(self) -> (r: Deployment)
        ensures
            r.dotfiles_map() == self.dotfiles_map(),
            self.spec_failed_count() > 0 ==> (r.spec_status() matches DeploymentStatus::Failed(s)
                && s@ == "Deployment of "@ + crate::text::decimal(self.spec_failed_count()) + " dotfiles failed"@),
            self.spec_failed_count() == 0 ==> r.spec_status() is Success,
            (r.spec_status() is Success) <==> (forall|k: Seq<char>| #[trigger] self.dotfiles_map().contains_key(k)
                ==> !(self.dotfiles_map()[k].status is Failed)),
            r.spec_time_start() == self.spec_time_start(),
    {
        proof {
            use_type_invariant(&self);
            lemma_status_paths_count(self.dotfiles@, 1);
            lemma_failed_paths_empty(self.dotfiles_map());
        }
        let failed = self.count_failed();
        let status = if failed > 0 {
            let mut s = "Deployment of ".to_owned();
            push_decimal(&mut s, failed);
            s.append(" dotfiles failed");
            DeploymentStatus::Failed(s)
        } else {
            DeploymentStatus::Success
        };
        let DeploymentBuilder { time_start, dotfiles } = self;
        Deployment { time_start, time_end: now(), status, dotfiles }
    }

    /// Consumes the builder and creates a successful deployment.
    pub fn success(self) -> (r: Deployment)
        ensures
            r.dotfiles_map() == self.dotfiles_map(),
            r.spec_status() is Success,
            r.spec_time_start() == self.spec_time_start(),
    {
        proof { use_type_invariant(&self); }
        let DeploymentBuilder { time_start, dotfiles } = self;
        Deployment { time_start, time_end: now(), status: DeploymentStatus::Success, dotfiles }
    }

    /// Consumes the builder and creates a deployment that failed for `reason`.
    pub fn failed(self, reason: String) -> (r: Deployment)
        ensures
            r.dotfiles_map() == self.dotfiles_map(),
            r.spec_status() matches DeploymentStatus::Failed(s) && s@ == reason@,
            r.spec_time_start() == self.spec_time_start(),
    {
        proof { use_type_invariant(&self); }
        let DeploymentBuilder { time_start, dotfiles } = self;
        Deployment { time_start, time_end: now(), status: DeploymentStatus::Failed(reason), dotfiles }
    }
}

impl Default for DeploymentBuilder {
    fn default() -> (r: Self)
        ensures
            r.dotfiles_map() == Map::<Seq<char>, DeployedDotfile>::empty(),
    {
        DeploymentBuilder::new()
    }
}

/// A dotfile recorded at a path is found again there: the dotfile it belongs to
/// is itself, and whether it was deployed is what its status says.
pub proof fn law_recorded_dotfile_found(m: Map<Seq<char>, DeployedDotfile>, p: Seq<char>, d: Dotfile, status: DotfileStatus, fuel: nat)
    requires
        fuel > 0,
    ensures
        owning_dotfile(m.insert(p, DeployedDotfile { status, kind: DeployedDotfileKind::Dotfile(d) }), p, fuel, false) == Some(d),
        owning_dotfile(m.insert(p, DeployedDotfile { status, kind: DeployedDotfileKind::Dotfile(d) }), p, fuel, true)
            == (if status is Success { Some(d) } else { None::<Dotfile> }),
{
}


/// A file recorded at a path inside the directory dotfile recorded at
/// `parent` belongs to the dotfile that the directory belongs to; for the
/// deployed dotfile, only where the file itself was deployed.
pub proof fn law_child_owned_by_parent(m: Map<Seq<char>, DeployedDotfile>, p: Seq<char>, parent: String, status: DotfileStatus, fuel: nat)
    ensures
        owning_dotfile(m.insert(p, DeployedDotfile { status, kind: DeployedDotfileKind::Child(parent) }), p, fuel + 1, false)
            == owning_dotfile(m.insert(p, DeployedDotfile { status, kind: DeployedDotfileKind::Child(parent) }), parent@, fuel, false),
        owning_dotfile(m.insert(p, DeployedDotfile { status, kind: DeployedDotfileKind::Child(parent) }), p, fuel + 1, true)
            == if status is Success {
                owning_dotfile(m.insert(p, DeployedDotfile { status, kind: DeployedDotfileKind::Child(parent) }), parent@, fuel, true)
            } else {
                None::<Dotfile>
            },
{
}


/// A dotfile found at `p` through records that were all deployed is the
/// dotfile found there whatever the statuses.
pub proof fn law_deployed_owner_is_owner(m: Map<Seq<char>, DeployedDotfile>, p: Seq<char>, fuel: nat)
    ensures
        owning_dotfile(m, p, fuel, true) matches Some(d) ==> owning_dotfile(m, p, fuel, false) == Some(d),
    decreases fuel,
{
    if fuel > 0 && m.contains_key(p) {
        if let DeployedDotfileKind::Child(parent) = m[p].kind {
            law_deployed_owner_is_owner(m, parent@, (fuel - 1) as nat);
        }
    }
}

/// The map of records after recording `items` in order, starting from `m`;
/// a later record at a path replaces an earlier one.
pub open spec fn record_all(m: Map<Seq<char>, DeployedDotfile>, items: Seq<(Seq<char>, DeployedDotfile)>) -> Map<Seq<char>, DeployedDotfile>
    decreases items.len(),
{
    if items.len() == 0 {
        m
    } else {
        record_all(m, items.drop_last()).insert(items.last().0, items.last().1)
    }
}

/// After any sequence of records, starting from none, a record is there for
/// a path exactly when one of them was for that path.
pub proof fn law_recorded_paths(items: Seq<(Seq<char>, DeployedDotfile)>, p: Seq<char>)
    ensures
        record_all(Map::empty(), items).contains_key(p) <==> exists|i: int| 0 <= i < items.len() && (#[trigger] items[i]).0 == p,
    decreases items.len(),
{
    if items.len() > 0 {
        let init = items.drop_last();
        law_recorded_paths(init, p);
        if exists|i: int| 0 <= i < init.len() && (#[trigger] init[i]).0 == p {
            let i = choose|i: int| 0 <= i < init.len() && (#[trigger] init[i]).0 == p;
            assert(items[i] == init[i]);
        }
        if exists|i: int| 0 <= i < items.len() && (#[trigger] items[i]).0 == p {
            let i = choose|i: int| 0 <= i < items.len() && (#[trigger] items[i]).0 == p;
            if i < init.len() {
                assert(init[i] == items[i]);
            }
        }
    }
}

/// After any sequence of records, the record at a path is the last one made
/// for it.
pub proof fn law_last_record_kept(m: Map<Seq<char>, DeployedDotfile>, items: Seq<(Seq<char>, DeployedDotfile)>, i: int)
    requires
        0 <= i < items.len(),
        forall|j: int| i < j < items.len() ==> (#[trigger] items[j]).0 != items[i].0,
    ensures
        record_all(m, items).contains_key(items[i].0),
        record_all(m, items)[items[i].0] == items[i].1,
    decreases items.len(),
{
    if i < items.len() - 1 {
        let init = items.drop_last();
        assert(items[items.len() - 1].0 != items[i].0);
        assert(init[i] == items[i]);
        assert forall|j: int| i < j < init.len() implies (#[trigger] init[j]).0 != init[i].0 by {
            assert(init[j] == items[j]);
        }
        law_last_record_kept(m, init, i);
    }
}


/// Whether the chain of records from `q` to the directories it lies in,
/// followed for at most `fuel` records, does not pass through `p`.
pub open spec fn chain_avoids(m: Map<Seq<char>, DeployedDotfile>, q: Seq<char>, p: Seq<char>, fuel: nat) -> bool
    decreases fuel,
{
    if fuel == 0 {
        true
    } else if q == p {
        false
    } else if !m.contains_key(q) {
        true
    } else {
        match m[q].kind {
            DeployedDotfileKind::Dotfile(_) => true,
            DeployedDotfileKind::Child(parent) => chain_avoids(m, parent@, p, (fuel - 1) as nat),
        }
    }
}

/// A record at `p` changes nothing for a chain that does not pass through `p`.
proof fn lemma_owning_unchanged(m: Map<Seq<char>, DeployedDotfile>, q: Seq<char>, p: Seq<char>, v: DeployedDotfile, fuel: nat, only_success: bool)
    requires
        chain_avoids(m, q, p, fuel),
    ensures
        owning_dotfile(m.insert(p, v), q, fuel, only_success) == owning_dotfile(m, q, fuel, only_success),
    decreases fuel,
{
    if fuel > 0 && m.contains_key(q) {
        assert(m.insert(p, v)[q] == m[q]);
        if let DeployedDotfileKind::Child(parent) = m[q].kind {
            lemma_owning_unchanged(m, parent@, p, v, (fuel - 1) as nat, only_success);
        }
    }
}

/// A file recorded at a path `p`, inside the directory recorded at
/// `parent`, belongs to the dotfile that the directory belonged to before,
/// where the chain from the directory did not pass through `p`; for the
/// deployed dotfile, only where the file itself was deployed.
pub proof fn law_child_owned_by_parent_before(m: Map<Seq<char>, DeployedDotfile>, p: Seq<char>, v: DeployedDotfile, fuel: nat)
    requires
        v.kind is Child,
        chain_avoids(m, v.kind->Child_0@, p, fuel),
    ensures
        owning_dotfile(m.insert(p, v), p, fuel + 1, false) == owning_dotfile(m, v.kind->Child_0@, fuel, false),
        owning_dotfile(m.insert(p, v), p, fuel + 1, true)
            == if v.status is Success { owning_dotfile(m, v.kind->Child_0@, fuel, true) } else { None::<Dotfile> },
{
    let parent = v.kind->Child_0@;
    lemma_owning_unchanged(m, parent, p, v, fuel, false);
    lemma_owning_unchanged(m, parent, p, v, fuel, true);
    assert(m.insert(p, v)[p] == v);
}


/// A chain that does not pass through `p` for some records does not for
/// fewer.
proof fn lemma_chain_avoids_less(m: Map<Seq<char>, DeployedDotfile>, q: Seq<char>, p: Seq<char>, fuel: nat)
    requires
        chain_avoids(m, q, p, fuel + 1),
    ensures
        chain_avoids(m, q, p, fuel),
    decreases fuel,
{
    if fuel > 0 && q != p && m.contains_key(q) {
        if let DeployedDotfileKind::Child(parent) = m[q].kind {
            lemma_chain_avoids_less(m, parent@, p, (fuel - 1) as nat);
        }
    }
}

/// The number of links from `x` to `q` along the chain of records, where
/// the chain reaches `q` through files of directories, deployed ones where
/// `only_success`, within `fuel` records.
spec fn reach_steps(m: Map<Seq<char>, DeployedDotfile>, x: Seq<char>, q: Seq<char>, fuel: nat, only_success: bool) -> Option<nat>
    decreases fuel,
{
    if fuel == 0 || !m.contains_key(x) || (only_success && !(m[x].status is Success)) {
        None
    } else if x == q {
        Some(0)
    } else {
        match m[x].kind {
            DeployedDotfileKind::Dotfile(_) => None,
            DeployedDotfileKind::Child(parent) => match reach_steps(m, parent@, q, (fuel - 1) as nat, only_success) {
                Some(k) => Some(k + 1),
                None => None,
            },
        }
    }
}

/// A chain that reaches `q` within some records reaches it within more.
proof fn lemma_reach_more(m: Map<Seq<char>, DeployedDotfile>, x: Seq<char>, q: Seq<char>, fuel: nat, only_success: bool)
    requires
        reach_steps(m, x, q, fuel, only_success) is Some,
    ensures
        reach_steps(m, x, q, fuel + 1, only_success) == reach_steps(m, x, q, fuel, only_success),
    decreases fuel,
{
    if x != q {
        if let DeployedDotfileKind::Child(parent) = m[x].kind {
            lemma_reach_more(m, parent@, q, (fuel - 1) as nat, only_success);
        }
    }
}

/// Where the chain from `x` reaches `q` after `k` links, what is found from
/// `x` is what is found from `q` with `k` records less.
proof fn lemma_reach_shift(m: Map<Seq<char>, DeployedDotfile>, x: Seq<char>, q: Seq<char>, fuel: nat, only_success: bool, g: nat)
    requires
        reach_steps(m, x, q, fuel, only_success) is Some,
    ensures
        owning_dotfile(m, x, g, only_success) == if g > reach_steps(m, x, q, fuel, only_success)->Some_0 {
            owning_dotfile(m, q, (g - reach_steps(m, x, q, fuel, only_success)->Some_0) as nat, only_success)
        } else {
            None::<Dotfile>
        },
    decreases fuel,
{
    if x != q {
        if let DeployedDotfileKind::Child(parent) = m[x].kind {
            if g > 0 {
                lemma_reach_shift(m, parent@, q, (fuel - 1) as nat, only_success, (g - 1) as nat);
            }
        }
    }
}

/// Where the chain from the directory of the file at `q` leads back to `q`,
/// nothing is found from the directory.
proof fn lemma_cycle_finds_nothing(m: Map<Seq<char>, DeployedDotfile>, q: Seq<char>, fuel: nat, only_success: bool, g: nat)
    requires
        m.contains_key(q),
        m[q].kind is Child,
        only_success ==> m[q].status is Success,
        reach_steps(m, m[q].kind->Child_0@, q, fuel, only_success) is Some,
    ensures
        owning_dotfile(m, m[q].kind->Child_0@, g, only_success) is None,
    decreases g,
{
    let par = m[q].kind->Child_0@;
    let k = reach_steps(m, par, q, fuel, only_success)->Some_0;
    lemma_reach_shift(m, par, q, fuel, only_success, g);
    if g > k {
        let h = (g - k) as nat;
        assert(owning_dotfile(m, q, h, only_success) == owning_dotfile(m, par, (h - 1) as nat, only_success));
        lemma_cycle_finds_nothing(m, q, fuel, only_success, (h - 1) as nat);
    }
}

/// Where the chain from `x` does not reach `q`, the record at `q` changes
/// nothing of what is found from `x`.
proof fn lemma_unreached_removed(m: Map<Seq<char>, DeployedDotfile>, x: Seq<char>, q: Seq<char>, g: nat, only_success: bool)
    requires
        reach_steps(m, x, q, g, only_success) is None,
    ensures
        owning_dotfile(m, x, g, only_success) == owning_dotfile(m.remove(q), x, g, only_success),
    decreases g,
{
    if g > 0 && m.contains_key(x) && x != q && !(only_success && !(m[x].status is Success)) {
        assert(m.remove(q)[x] == m[x]);
        if let DeployedDotfileKind::Child(parent) = m[x].kind {
            lemma_unreached_removed(m, parent@, q, (g - 1) as nat, only_success);
        }
    }
}

/// Once the chain may run through as many records as there are, one record
/// more finds nothing else.
proof fn lemma_owning_stable(m: Map<Seq<char>, DeployedDotfile>, q: Seq<char>, fuel: nat, only_success: bool)
    requires
        m.dom().finite(),
        fuel >= m.dom().len(),
    ensures
        owning_dotfile(m, q, fuel, only_success) == owning_dotfile(m, q, fuel + 1, only_success),
    decreases m.dom().len(),
{
    if !m.contains_key(q) || fuel == 0 {
        if fuel == 0 && m.contains_key(q) {
            assert(m.dom().contains(q));
            assert(m.dom().len() > 0);
        }
    } else if only_success && !(m[q].status is Success) {
    } else if let DeployedDotfileKind::Child(parent) = m[q].kind {
        let par = parent@;
        if reach_steps(m, par, q, fuel, only_success) is Some {
            lemma_cycle_finds_nothing(m, q, fuel, only_success, (fuel - 1) as nat);
            lemma_cycle_finds_nothing(m, q, fuel, only_success, fuel);
        } else {
            if reach_steps(m, par, q, (fuel - 1) as nat, only_success) is Some {
                lemma_reach_more(m, par, q, (fuel - 1) as nat, only_success);
            }
            let r = m.remove(q);
            assert(r.dom() =~= m.dom().remove(q));
            lemma_unreached_removed(m, par, q, (fuel - 1) as nat, only_success);
            lemma_unreached_removed(m, par, q, fuel, only_success);
            lemma_owning_stable(r, par, (fuel - 1) as nat, only_success);
        }
    }
}

} // verus!
