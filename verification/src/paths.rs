//! The paths of a deployment: where the source keeps profiles and dotfiles,
//! and where each item is read from and deployed to.
use vstd::prelude::*;

use crate::profile::{Dotfile, LayeredProfile};

verus! {

/// What `Path::join` makes of `base` and `rel` on the platform the library is
/// built for: `rel` appended to `base` as a further component, or `rel` alone
/// where it is absolute. The separator, and what counts as absolute, are
/// those of that platform.
pub uninterp spec fn path_join(base: Seq<char>, rel: Seq<char>) -> Seq<char>;

/// Appends the path `rel` to `base` (`std::path::Path::join`); the result is
/// [`path_join`] of the two.
#[verifier::external_body]
pub(crate) fn join_path(base: &str, rel: &str) -> (r: String)
    ensures
        r@ == path_join(base@, rel@),
{
    std::path::Path::new(base).join(rel).to_string_lossy().into_owned()
}

/// The source directory of punktf: `root`, with the subdirectories `profiles`
/// and `dotfiles`.
#[derive(Debug, Clone)]
pub struct PunktfSource {
    /// The absolute root source path.
    pub root: String,
    /// The absolute path to the `profiles` directory.
    pub profiles: String,
    /// The absolute path to the `dotfiles` directory.
    pub dotfiles: String,
}

impl PunktfSource {
    /// The source with the given root; its subdirectories are `profiles` and
    /// `dotfiles` under the root.
    pub fn from_root_path(root: &str) -> (r: Self)
        ensures
            r.root@ == root@,
            r.profiles@ == path_join(root@, "profiles"@),
            r.dotfiles@ == path_join(root@, "dotfiles"@),
    {
        PunktfSource { root: root.to_owned(), profiles: join_path(root, "profiles"), dotfiles: join_path(root, "dotfiles") }
    }

    /// Returns the absolute path for the `root` directory.
    pub fn root(&self) -> (r: &str)
        ensures
            r@ == self.root@,
    {
        self.root.as_str()
    }

    /// Returns the absolute path to the `root/profiles` directory.
    pub fn profiles(&self) -> (r: &str)
        ensures
            r@ == self.profiles@,
    {
        self.profiles.as_str()
    }

    /// Returns the absolute path to the `root/dotfiles` directory.
    pub fn dotfiles(&self) -> (r: &str)
        ensures
            r@ == self.dotfiles@,
    {
        self.dotfiles.as_str()
    }
}

/// Two paths kept in step while relative child paths are appended.
#[derive(Debug, Clone)]
pub struct PathLink {
    /// The source path.
    pub source: String,
    /// The target path.
    pub target: String,
}

impl PathLink {
    /// Creates a new path link.
    pub fn new(source: String, target: String) -> (r: Self)
        ensures
            r.source@ == source@,
            r.target@ == target@,
    {
        PathLink { source, target }
    }

    /// Appends `relative` to both paths.
    pub fn join(self, relative: &str) -> (r: Self)
        ensures
            r.source@ == path_join(self.source@, relative@),
            r.target@ == path_join(self.target@, relative@),
    {
        PathLink { source: join_path(self.source.as_str(), relative), target: join_path(self.target.as_str(), relative) }
    }
}

/// The paths of an item: those of the dotfile it stems from, and, for an item
/// inside a directory dotfile, its path relative to that directory.
#[derive(Debug, Clone)]
pub struct Paths {
    /// The paths of the dotfile.
    pub root: PathLink,
    /// The relative paths of the item inside the directory dotfile.
    pub child: Option<PathLink>,
}

impl Paths {
    /// Creates the paths of a dotfile.
    pub fn new(root_source: String, root_target: String) -> (r: Self)
        ensures
            r.root.source@ == root_source@,
            r.root.target@ == root_target@,
            r.child is None,
    {
        Paths { root: PathLink::new(root_source, root_target), child: None }
    }

    /// Appends the relative path `rel_path` to the paths of the item.
    pub fn with_child(self, rel_path: &str) -> (r: Self)
        ensures
            r.root.source@ == self.root.source@,
            r.root.target@ == self.root.target@,
            match self.child {
                Some(c) => r.child matches Some(n) && n.source@ == path_join(c.source@, rel_path@)
                    && n.target@ == path_join(c.target@, rel_path@),
                None => r.child matches Some(n) && n.source@ == rel_path@ && n.target@ == rel_path@,
            },
    {
        let Paths { root, child } = self;
        let child = match child {
            Some(c) => c.join(rel_path),
            None => PathLink::new(rel_path.to_owned(), rel_path.to_owned()),
        };
        Paths { root, child: Some(child) }
    }

    /// Checks if the paths are those of a dotfile.
    pub fn is_root(&self) -> (r: bool)
        ensures
            r == self.child is None,
    {
        self.child.is_none()
    }

    /// Checks if the paths are those of an item inside a directory dotfile.
    pub fn is_child(&self) -> (r: bool)
        ensures
            r == self.child is Some,
    {
        self.child.is_some()
    }

    /// Returns the source path of the dotfile.
    pub fn root_source_path(&self) -> (r: &str)
        ensures
            r@ == self.root.source@,
    {
        self.root.source.as_str()
    }

    /// Returns the target path of the dotfile.
    pub fn root_target_path(&self) -> (r: &str)
        ensures
            r@ == self.root.target@,
    {
        self.root.target.as_str()
    }

    /// The source path of the item.
    pub open spec fn spec_child_source_path(&self) -> Seq<char> {
        match self.child {
            Some(c) => path_join(self.root.source@, c.source@),
            None => self.root.source@,
        }
    }

    /// The target path of the item.
    pub open spec fn spec_child_target_path(&self) -> Seq<char> {
        match self.child {
            Some(c) => path_join(self.root.target@, c.target@),
            None => self.root.target@,
        }
    }

    /// Returns the source path of the item; for a dotfile, its own.
    pub fn child_source_path(&self) -> (r: String)
        ensures
            r@ == self.spec_child_source_path(),
    {
        match &self.child {
            Some(c) => join_path(self.root.source.as_str(), c.source.as_str()),
            None => self.root.source.clone(),
        }
    }

    /// Returns the target path of the item; for a dotfile, its own.
    pub fn child_target_path(&self) -> (r: String)
        ensures
            r@ == self.spec_child_target_path(),
    {
        match &self.child {
            Some(c) => join_path(self.root.target.as_str(), c.target.as_str()),
            None => self.root.target.clone(),
        }
    }
}

/// What an item stems from.
#[derive(Debug)]
pub enum Kind<'a> {
    /// The item is a dotfile.
    Root(&'a Dotfile),
    /// The item lies inside a directory dotfile.
    Child {
        /// The directory dotfile the item stems from.
        root: &'a Dotfile,
        /// The source path of the directory dotfile.
        root_source_path: String,
        /// The target path of the directory dotfile.
        root_target_path: String,
    },
}

impl<'a> Kind<'a> {
    /// The kind of the item with the given paths, stemming from `dotfile`.
    pub fn from_paths(paths: &Paths, dotfile: &'a Dotfile) -> (r: Self)
        ensures
            paths.child is None ==> r == Kind::Root(dotfile),
            paths.child is Some ==> (r matches Kind::Child { root, root_source_path, root_target_path }
                && root == dotfile && root_source_path@ == paths.root.source@ && root_target_path@ == paths.root.target@),
    {
        if paths.is_root() {
            Kind::Root(dotfile)
        } else {
            Kind::Child {
                root: dotfile,
                root_source_path: paths.root.source.clone(),
                root_target_path: paths.root.target.clone(),
            }
        }
    }

    /// Returns the dotfile the item stems from.
    pub fn dotfile(&self) -> (r: &Dotfile)
        ensures
            *r == match self {
                Kind::Root(d) => **d,
                Kind::Child { root, .. } => **root,
            },
    {
        match self {
            Kind::Root(d) => d,
            Kind::Child { root, .. } => root,
        }
    }
}

/// The path under which a dotfile is deployed: its target appended to the
/// profile's target if it has one, else its path appended to it.
pub open spec fn spec_deploy_path(profile_target: Seq<char>, dotfile: Dotfile) -> Seq<char> {
    match dotfile.target {
        Some(t) => path_join(profile_target, t@),
        None => path_join(profile_target, dotfile.path@),
    }
}

/// Returns the path under which `dotfile` is deployed.
pub fn deploy_path(profile_target: &str, dotfile: &Dotfile) -> (r: String)
    ensures
        r@ == spec_deploy_path(profile_target@, *dotfile),
{
    match &dotfile.target {
        Some(t) => join_path(profile_target, t.as_str()),
        None => join_path(profile_target, dotfile.path.as_str()),
    }
}

/// The path a dotfile's items are deployed under: for a directory without a
/// target of its own, the profile's target itself (its items land directly
/// there); else the dotfile's deploy path.
pub open spec fn spec_target_path(profile_target: Seq<char>, dotfile: Dotfile, is_dir: bool) -> Seq<char> {
    if is_dir && dotfile.target is None {
        profile_target
    } else {
        spec_deploy_path(profile_target, dotfile)
    }
}

/// Returns the path a dotfile's items are deployed under.
pub fn target_path(profile_target: &str, dotfile: &Dotfile, is_dir: bool) -> (r: String)
    ensures
        r@ == spec_target_path(profile_target@, *dotfile, is_dir),
{
    if is_dir && dotfile.target.is_none() {
        profile_target.to_owned()
    } else {
        deploy_path(profile_target, dotfile)
    }
}

/// Returns the source path of `dotfile`: its path under the `dotfiles` directory.
pub fn source_path(source: &PunktfSource, dotfile: &Dotfile) -> (r: String)
    ensures
        r@ == path_join(source.dotfiles@, dotfile.path@),
{
    join_path(source.dotfiles.as_str(), dotfile.path.as_str())
}

/// Walks over each item of a layered profile.
#[derive(Debug)]
pub struct Walker<'a> {
    /// The profile to walk.
    profile: &'a LayeredProfile,
}

impl<'a> Walker<'a> {
    /// The profile the walker walks.
    pub closed spec fn spec_profile(&self) -> &'a LayeredProfile {
        self.profile
    }

    /// Creates a walker over `profile`, with its dotfiles in order of
    /// descending priority (those without one count as priority 0).
    pub fn new(profile: &'a mut LayeredProfile) -> (r: Self)
        ensures
            *r.spec_profile() == *final(profile),
            final(profile).spec_dotfiles() == crate::profile::sort_by_priority(old(profile).spec_dotfiles()),
            final(profile).names() == old(profile).names(),
            final(profile).spec_target() == old(profile).spec_target(),
            final(profile).variables_map() == old(profile).variables_map(),
            final(profile).spec_transformers() == old(profile).spec_transformers(),
            final(profile).spec_pre_hooks() == old(profile).spec_pre_hooks(),
            final(profile).spec_post_hooks() == old(profile).spec_post_hooks(),
            final(profile).spec_symlinks() == old(profile).spec_symlinks(),
    {
        profile.sort_dotfiles_by_priority();
        Walker { profile }
    }

    /// Returns the profile the walker walks.
    pub fn profile(&self) -> (r: &'a LayeredProfile)
        ensures
            r == self.spec_profile(),
    {
        self.profile
    }
}

/// What `str::to_lowercase` makes of `s`.
pub uninterp spec fn to_lower(s: Seq<char>) -> Seq<char>;

/// Returns `s` in lower case (`str::to_lowercase`); the result is [`to_lower`]
/// of `s`.
#[verifier::external_body]
pub(crate) fn lowercase(s: &str) -> (r: String)
    ensures
        r@ == to_lower(s@),
{
    s.to_lowercase()
}

/// The index of the last `.` in `s`.
pub open spec fn last_dot(s: Seq<char>) -> Option<int>
    decreases s.len(),
{
    if s.len() == 0 {
        None
    } else if s.last() == '.' {
        Some(s.len() - 1)
    } else {
        last_dot(s.drop_last())
    }
}

/// Whether the file name `file` names the profile `name`: what comes before its
/// last `.` is `name`, ignoring case.
pub open spec fn names_profile(name: Seq<char>, file: Seq<char>) -> bool {
    match last_dot(file) {
        Some(i) => to_lower(name) == to_lower(file.subrange(0, i)),
        None => false,
    }
}

/// Why no single profile file was found for a name.
#[derive(Debug, Clone, PartialEq, Eq)]
pub enum ProfileLookupError {
    /// No file names the profile.
    NotFound(String),
    /// More than one file names the profile.
    Ambiguous(String),
}

impl ProfileLookupError {
    /// The message of the error.
    pub open spec fn spec_message(&self) -> Seq<char> {
        match self {
            ProfileLookupError::NotFound(n) => "Found no profile with the name `"@ + n@ + "`"@,
            ProfileLookupError::Ambiguous(n) => "Found more than one profile with the name `"@ + n@ + "`"@,
        }
    }

    /// Returns the message of the error.
    pub fn message(&self) -> (r: String)
        ensures
            r@ == self.spec_message(),
    {
        match self {
            ProfileLookupError::NotFound(n) => {
                let mut s = "Found no profile with the name `".to_owned();
                s.append(n.as_str());
                s.append("`");
                s
            },
            ProfileLookupError::Ambiguous(n) => {
                let mut s = "Found more than one profile with the name `".to_owned();
                s.append(n.as_str());
                s.append("`");
                s
            },
        }
    }
}

/// Whether `file` names the profile `name`.
fn file_names_profile(name_lower: &String, file: &str) -> (r: bool)
    ensures
        r == (match last_dot(file@) {
            Some(i) => name_lower@ == to_lower(file@.subrange(0, i)),
            None => false,
        }),
{
    let cs = crate::transform::chars_of(file);
    let mut j: usize = cs.len();
    assert(cs@.subrange(0, j as int) =~= file@);
    while j > 0
        invariant
            j <= cs@.len(),
            cs@ == file@,
            last_dot(file@) == last_dot(file@.subrange(0, j as int)),
        decreases j,
    {
        if cs[j - 1] == '.' {
            let mut stem = String::new();
            let mut k: usize = 0;
            while k < j - 1
                invariant
                    k <= j - 1,
                    j <= cs@.len(),
                    stem@ == cs@.subrange(0, k as int),
                decreases j - 1 - k,
            {
                crate::text::push_char(&mut stem, cs[k]);
                assert(stem@ =~= cs@.subrange(0, k + 1));
                k = k + 1;
            }
            let lower = lowercase(stem.as_str());
            return *name_lower == lower;
        }
        assert(file@.subrange(0, j - 1) =~= file@.subrange(0, j as int).drop_last());
        j = j - 1;
    }
    false
}

/// Picks the profile file for the profile `name` among the file names `files`
/// of the `profiles` directory: the one that names it, if exactly one does.
pub fn find_profile(name: &str, files: &Vec<String>) -> (r: Result<usize, ProfileLookupError>)
    ensures
        match r {
            Ok(i) => i < files@.len() && names_profile(name@, files@[i as int]@)
                && forall|j: int| 0 <= j < files@.len() && j != i ==> !names_profile(name@, #[trigger] files@[j]@),
            Err(ProfileLookupError::NotFound(n)) => n@ == to_lower(name@)
                && forall|j: int| 0 <= j < files@.len() ==> !names_profile(name@, #[trigger] files@[j]@),
            Err(ProfileLookupError::Ambiguous(n)) => n@ == to_lower(name@)
                && exists|a: int, b: int| 0 <= a < b < files@.len() && names_profile(name@, files@[a]@) && names_profile(name@, files@[b]@),
        },
{
    let lower = lowercase(name);
    let mut found: Option<usize> = None;
    let mut i: usize = 0;
    while i < files.len()
        invariant
            i <= files@.len(),
            lower@ == to_lower(name@),
            match found {
                Some(f) => f < i && names_profile(name@, files@[f as int]@)
                    && forall|j: int| 0 <= j < i && j != f ==> !names_profile(name@, #[trigger] files@[j]@),
                None => forall|j: int| 0 <= j < i ==> !names_profile(name@, #[trigger] files@[j]@),
            },
        decreases files.len() - i,
    {
        if file_names_profile(&lower, files[i].as_str()) {
            match found {
                Some(f) => {
                    assert(names_profile(name@, files@[f as int]@) && names_profile(name@, files@[i as int]@));
                    return Err(ProfileLookupError::Ambiguous(lower));
                },
                None => {
                    found = Some(i);
                },
            }
        }
        i = i + 1;
    }
    match found {
        Some(f) => Ok(f),
        None => Err(ProfileLookupError::NotFound(lower)),
    }
}

} // verus!
