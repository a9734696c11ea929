//! Profiles, the dotfiles they name, and the layering of a profile with the
//! profiles it extends.
use vstd::prelude::*;

use crate::transform::ContentTransformer;
use crate::variables::{Variables, Vars};

verus! {

/// The priority of a dotfile: a dotfile of higher priority may replace one of
/// lower priority deployed at the same place.
#[derive(Debug, Clone, Copy, PartialEq, Eq, PartialOrd, Ord, Hash, Structural)]
pub struct Priority(pub u32);

impl Priority {
    /// Creates a new priority.
    pub fn new(value: u32) -> (r: Self)
        ensures
            r.0 == value,
    {
        Priority(value)
    }
}

/// Whether the optional priority `a` is above `b`: no priority is below any
/// priority, and a larger number is a higher priority.
pub open spec fn spec_priority_above(a: Option<Priority>, b: Option<Priority>) -> bool {
    match (a, b) {
        (Some(x), Some(y)) => x.0 > y.0,
        (Some(_), None) => true,
        (None, _) => false,
    }
}

/// Whether the optional priority `a` is above `b`.
pub fn priority_above(a: Option<Priority>, b: Option<Priority>) -> (r: bool)
    ensures
        r == spec_priority_above(a, b),
{
    match (a, b) {
        (Some(x), Some(y)) => x.0 > y.0,
        (Some(_), None) => true,
        (None, _) => false,
    }
}

/// What to do when a dotfile is deployed where a file exists already.
#[derive(Debug, Clone, Copy, PartialEq, Eq, Hash, Structural)]
pub enum MergeMode {
    /// Replace the existing file.
    Overwrite,
    /// Keep the existing file.
    Keep,
    /// Ask the user.
    Ask,
}

impl Default for MergeMode {
    fn default() -> (r: Self)
        ensures
            r == MergeMode::Overwrite,
    {
        MergeMode::Overwrite
    }
}

/// A command run by the native shell before or after a deployment.
#[derive(Debug, Clone, PartialEq, Eq)]
pub struct Hook(pub String);

impl Hook {
    /// Creates a new hook for the given command.
    pub fn new(command: String) -> (r: Self)
        ensures
            r.0@ == command@,
    {
        Hook(command)
    }

    /// Returns the command of the hook.
    pub fn command(&self) -> (r: &str)
        ensures
            r@ == self.0@,
    {
        self.0.as_str()
    }
}

/// A single item to be deployed: a file or a directory, with the attributes
/// that control how it is deployed.
#[derive(Debug)]
pub struct Dotfile {
    /// The path relative to the `dotfiles` directory of the source.
    pub path: String,
    /// Where the dotfile is deployed, instead of its path under the profile's
    /// target: an absolute path replaces the target, a relative one is
    /// appended to it.
    pub target: Option<String>,
    /// The priority of the dotfile.
    pub priority: Option<Priority>,
    /// Variables of the dotfile; they take precedence over those of the profile.
    pub variables: Option<Variables>,
    /// Content transformers of the dotfile, applied after those of the profile.
    pub transformers: Vec<ContentTransformer>,
    /// What to do when a file exists where the dotfile is deployed.
    pub merge: Option<MergeMode>,
    /// Whether the dotfile is a template; it is unless this says otherwise.
    pub template: Option<bool>,
}

impl Dotfile {
    /// Whether `other` holds the same attributes as this dotfile.
    pub open spec fn same_as(&self, other: &Dotfile) -> bool {
        &&& self.path@ == other.path@
        &&& (match (self.target, other.target) {
            (Some(a), Some(b)) => a@ == b@,
            (None, None) => true,
            _ => false,
        })
        &&& self.priority == other.priority
        &&& (match (self.variables, other.variables) {
            (Some(a), Some(b)) => a.view_map() == b.view_map(),
            (None, None) => true,
            _ => false,
        })
        &&& self.transformers@ == other.transformers@
        &&& self.merge == other.merge
        &&& self.template == other.template
    }

    /// Returns a copy of the dotfile.
    pub fn copied(&self) -> (r: Dotfile)
        ensures
            r.same_as(self),
    {
        let target = match &self.target {
            Some(t) => Some(t.clone()),
            None => None,
        };
        let variables = match &self.variables {
            Some(v) => Some(v.copied()),
            None => None,
        };
        let mut transformers: Vec<ContentTransformer> = Vec::new();
        let mut i: usize = 0;
        while i < self.transformers.len()
            invariant
                i <= self.transformers@.len(),
                transformers@ == self.transformers@.subrange(0, i as int),
            decreases self.transformers.len() - i,
        {
            transformers.push(self.transformers[i]);
            assert(transformers@ =~= self.transformers@.subrange(0, i + 1));
            i = i + 1;
        }
        assert(transformers@ =~= self.transformers@);
        Dotfile {
            path: self.path.clone(),
            target,
            priority: self.priority,
            variables,
            transformers,
            merge: self.merge,
            template: self.template,
        }
    }

    /// Whether the dotfile is a template.
    pub open spec fn spec_is_template(&self) -> bool {
        match self.template {
            Some(b) => b,
            None => true,
        }
    }

    /// Checks if the dotfile is considered to be a template.
    pub fn is_template(&self) -> (r: bool)
        ensures
            r == self.spec_is_template(),
    {
        match self.template {
            Some(b) => b,
            None => true,
        }
    }
}

/// A symlink to be created during the deployment.
#[derive(Debug, Clone, PartialEq, Eq)]
pub struct Symlink {
    /// Absolute path of the link source.
    pub source_path: String,
    /// Absolute path of the link target.
    pub target_path: String,
    /// Whether an existing symlink at the target path is replaced.
    pub replace: bool,
}

/// A profile: dotfiles with variables, transformers, hooks and a target.
#[derive(Debug)]
pub struct Profile {
    /// The profiles this profile extends.
    pub extends: Vec<String>,
    /// The variables of the profile.
    pub variables: Option<Variables>,
    /// The content transformers of the profile.
    pub transformers: Vec<ContentTransformer>,
    /// The root path the dotfiles are deployed to.
    pub target: Option<String>,
    /// Hooks run before the deployment.
    pub pre_hooks: Vec<Hook>,
    /// Hooks run after the deployment.
    pub post_hooks: Vec<Hook>,
    /// The dotfiles of the profile.
    pub dotfiles: Vec<Dotfile>,
    /// The symlinks of the profile.
    pub symlinks: Vec<Symlink>,
}

/// Whether no name occurs twice in `s`.
pub open spec fn layered_names_distinct(s: Seq<(String, usize, String)>) -> bool {
    forall|i: int, j: int| 0 <= i < s.len() && 0 <= j < s.len() && i != j ==> s[i].0@ != s[j].0@
}

/// The map from name to layer and value that the entries of `s` define.
pub open spec fn layered_entries_map(s: Seq<(String, usize, String)>) -> Map<Seq<char>, (int, Seq<char>)> {
    Map::new(
        |k: Seq<char>| exists|i: int| 0 <= i < s.len() && s[i].0@ == k,
        |k: Seq<char>| {
            let i = choose|i: int| 0 <= i < s.len() && s[i].0@ == k;
            (s[i].1 as int, s[i].2@)
        },
    )
}

/// Variables gathered from the layers of a profile, each with the index of the
/// layer it comes from.
#[derive(Debug)]
pub struct LayeredVariables {
    /// Name, layer and value of each variable; no name occurs twice.
    inner: Vec<(String, usize, String)>,
}

impl LayeredVariables {
    /// No name occurs twice.
    #[verifier::type_invariant]
    spec fn names_unique(&self) -> bool {
        layered_names_distinct(self.inner@)
    }

    /// The variables by name, each with its layer and value.
    pub closed spec fn layered_map(&self) -> Map<Seq<char>, (int, Seq<char>)> {
        layered_entries_map(self.inner@)
    }

    /// Creates an empty set of layered variables.
    pub fn new() -> (r: Self)
        ensures
            r.layered_map() == Map::<Seq<char>, (int, Seq<char>)>::empty(),
    {
        let r = LayeredVariables { inner: Vec::new() };
        assert(r.layered_map() =~= Map::<Seq<char>, (int, Seq<char>)>::empty());
        r
    }

    /// Whether a variable is named `key`.
    pub fn contains(&self, key: &String) -> (r: bool)
        ensures
            r == self.layered_map().contains_key(key@),
    {
        proof { use_type_invariant(self); }
        let mut i: usize = 0;
        while i < self.inner.len()
            invariant
                i <= self.inner@.len(),
                forall|j: int| 0 <= j < i ==> self.inner@[j].0@ != key@,
            decreases self.inner.len() - i,
        {
            if self.inner[i].0 == *key {
                assert(self.inner@[i as int].0@ == key@);
                return true;
            }
            i = i + 1;
        }
        false
    }

    /// Adds the variable `key` of layer `layer`, which is not present yet.
    fn push_new(&mut self, key: String, layer: usize, value: String)
        requires
            !old(self).layered_map().contains_key(key@),
        ensures
            final(self).layered_map() == old(self).layered_map().insert(key@, (layer as int, value@)),
    {
        proof { use_type_invariant(&*self); }
        let ghost s = self.inner@;
        let ghost kv = key@;
        let ghost vv = value@;
        let mut v = Vec::new();
        std::mem::swap(&mut v, &mut self.inner);
        v.push((key, layer, value));
        proof {
            let t = v@;
            assert(forall|j: int| 0 <= j < s.len() ==> t[j] == s[j]);
            assert(t[s.len() as int].0@ == kv);
            assert(forall|j: int| 0 <= j < s.len() ==> s[j].0@ != kv);
            assert(layered_names_distinct(t));
            assert(layered_entries_map(t) =~= layered_entries_map(s).insert(kv, (layer as int, vv))) by {
                assert forall|k: Seq<char>| #[trigger] layered_entries_map(t).contains_key(k) implies layered_entries_map(t)[k]
                    == layered_entries_map(s).insert(kv, (layer as int, vv))[k] by {
                    let a = choose|i: int| 0 <= i < t.len() && t[i].0@ == k;
                    if k == kv {
                        assert(a == s.len());
                    } else {
                        assert(a < s.len());
                        let b = choose|i: int| 0 <= i < s.len() && s[i].0@ == k;
                        assert(t[b] == s[b]);
                    }
                }
                assert forall|k: Seq<char>| #[trigger] layered_entries_map(s).insert(kv, (layer as int, vv)).contains_key(k)
                    implies layered_entries_map(t).contains_key(k) by {
                    if k != kv {
                        let b = choose|i: int| 0 <= i < s.len() && s[i].0@ == k;
                        assert(t[b] == s[b]);
                    } else {
                        assert(t[s.len() as int].0@ == k);
                    }
                }
                assert forall|k: Seq<char>| #[trigger] layered_entries_map(t).contains_key(k)
                    implies layered_entries_map(s).insert(kv, (layer as int, vv)).contains_key(k) by {
                    let a = choose|i: int| 0 <= i < t.len() && t[i].0@ == k;
                    if a < s.len() {
                        assert(t[a] == s[a]);
                    }
                }
            }
        }
        self.inner = v;
    }
}

impl Vars for LayeredVariables {
    open spec fn vars_map(&self) -> Map<Seq<char>, Seq<char>> {
        Map::new(|k: Seq<char>| self.layered_map().contains_key(k), |k: Seq<char>| self.layered_map()[k].1)
    }

    fn var(&self, key: &str) -> (r: Option<&str>) {
        proof { use_type_invariant(self); }
        let k = key.to_owned();
        let mut i: usize = 0;
        while i < self.inner.len()
            invariant
                i <= self.inner@.len(),
                k@ == key@,
                layered_names_distinct(self.inner@),
                forall|j: int| 0 <= j < i ==> self.inner@[j].0@ != key@,
            decreases self.inner.len() - i,
        {
            if self.inner[i].0 == k {
                proof {
                    let a = choose|j: int| 0 <= j < self.inner@.len() && self.inner@[j].0@ == key@;
                    assert(a == i);
                }
                return Some(self.inner[i].2.as_str());
            }
            i = i + 1;
        }
        None
    }
}

/// The items of `s`, each tagged with the layer `layer`.
pub open spec fn tagged<T>(layer: usize, s: Seq<T>) -> Seq<(usize, T)> {
    s.map_values(|x: T| (layer, x))
}

/// The first layer with a target, and its target.
pub open spec fn first_target(ps: Seq<Profile>) -> Option<(usize, Seq<char>)>
    decreases ps.len(),
{
    if ps.len() == 0 {
        None
    } else {
        match first_target(ps.drop_last()) {
            Some(x) => Some(x),
            None => match ps.last().target {
                Some(t) => Some(((ps.len() - 1) as usize, t@)),
                None => None,
            },
        }
    }
}

/// The variables of profile `p`.
pub open spec fn layer_vars(p: Profile) -> Map<Seq<char>, Seq<char>> {
    match p.variables {
        Some(v) => v.view_map(),
        None => Map::empty(),
    }
}

/// The first layer that defines the variable `k`, and its value there.
pub open spec fn var_source(ps: Seq<Profile>, k: Seq<char>) -> Option<(int, Seq<char>)>
    decreases ps.len(),
{
    if ps.len() == 0 {
        None
    } else {
        match var_source(ps.drop_last(), k) {
            Some(x) => Some(x),
            None => if layer_vars(ps.last()).contains_key(k) {
                Some((ps.len() - 1, layer_vars(ps.last())[k]))
            } else {
                None
            },
        }
    }
}

/// The variables of all layers: each from the first layer that defines it.
pub open spec fn layered_vars(ps: Seq<Profile>) -> Map<Seq<char>, (int, Seq<char>)> {
    Map::new(|k: Seq<char>| var_source(ps, k) is Some, |k: Seq<char>| var_source(ps, k)->0)
}

/// `acc` followed by the transformers `ts` of layer `layer` that it does not hold yet.
pub open spec fn dedup_transformers(acc: Seq<(usize, ContentTransformer)>, layer: usize, ts: Seq<ContentTransformer>) -> Seq<(usize, ContentTransformer)>
    decreases ts.len(),
{
    if ts.len() == 0 {
        acc
    } else {
        let a = dedup_transformers(acc, layer, ts.drop_last());
        if exists|j: int| 0 <= j < a.len() && a[j].1 == ts.last() {
            a
        } else {
            a.push((layer, ts.last()))
        }
    }
}

/// The transformers of all layers, each once, where it first occurs.
pub open spec fn layered_transformers(ps: Seq<Profile>) -> Seq<(usize, ContentTransformer)>
    decreases ps.len(),
{
    if ps.len() == 0 {
        seq![]
    } else {
        dedup_transformers(layered_transformers(ps.drop_last()), (ps.len() - 1) as usize, ps.last().transformers@)
    }
}

/// The hooks run before the deployment, of all layers in order.
pub open spec fn layered_pre_hooks(ps: Seq<Profile>) -> Seq<(usize, Hook)>
    decreases ps.len(),
{
    if ps.len() == 0 {
        seq![]
    } else {
        layered_pre_hooks(ps.drop_last()) + tagged((ps.len() - 1) as usize, ps.last().pre_hooks@)
    }
}

/// The hooks run after the deployment, of all layers in order.
pub open spec fn layered_post_hooks(ps: Seq<Profile>) -> Seq<(usize, Hook)>
    decreases ps.len(),
{
    if ps.len() == 0 {
        seq![]
    } else {
        layered_post_hooks(ps.drop_last()) + tagged((ps.len() - 1) as usize, ps.last().post_hooks@)
    }
}

/// The symlinks of all layers in order.
pub open spec fn layered_symlinks(ps: Seq<Profile>) -> Seq<(usize, Symlink)>
    decreases ps.len(),
{
    if ps.len() == 0 {
        seq![]
    } else {
        layered_symlinks(ps.drop_last()) + tagged((ps.len() - 1) as usize, ps.last().symlinks@)
    }
}

/// `acc` followed by the dotfiles `ds` of layer `layer` whose path it does not hold yet.
pub open spec fn dedup_dotfiles(acc: Seq<(usize, Dotfile)>, layer: usize, ds: Seq<Dotfile>) -> Seq<(usize, Dotfile)>
    decreases ds.len(),
{
    if ds.len() == 0 {
        acc
    } else {
        let a = dedup_dotfiles(acc, layer, ds.drop_last());
        if exists|j: int| 0 <= j < a.len() && a[j].1.path@ == ds.last().path@ {
            a
        } else {
            a.push((layer, ds.last()))
        }
    }
}

/// The dotfiles of all layers: for each path the first dotfile with it.
pub open spec fn layered_dotfiles(ps: Seq<Profile>) -> Seq<(usize, Dotfile)>
    decreases ps.len(),
{
    if ps.len() == 0 {
        seq![]
    } else {
        dedup_dotfiles(layered_dotfiles(ps.drop_last()), (ps.len() - 1) as usize, ps.last().dotfiles@)
    }
}

/// Appends the items of `items`, tagged with `layer`, to `acc`.
fn push_tagged<T>(acc: &mut Vec<(usize, T)>, layer: usize, items: Vec<T>)
    ensures
        final(acc)@ == old(acc)@ + tagged(layer, items@),
{
    let ghost a0 = acc@;
    let ghost all = items@;
    let total = items.len();
    let mut rest = items;
    let mut k: usize = 0;
    proof { assert(a0 + tagged(layer, all.subrange(0, 0)) =~= a0); }
    while rest.len() > 0
        invariant
            k <= all.len(),
            total == all.len(),
            rest@ == all.subrange(k as int, all.len() as int),
            acc@ == a0 + tagged(layer, all.subrange(0, k as int)),
        decreases rest.len(),
    {
        let x = rest.remove(0);
        proof {
            assert(x == all[k as int]);
            assert(tagged(layer, all.subrange(0, k + 1)) =~= tagged(layer, all.subrange(0, k as int)).push((layer, x)));
        }
        acc.push((layer, x));
        k = k + 1;
        proof {
            assert(rest@ =~= all.subrange(k as int, all.len() as int));
        }
    }
    proof {
        assert(all.subrange(0, k as int) =~= all);
    }
}

/// Appends the transformers `ts` of layer `layer` that `acc` does not hold yet.
fn push_new_transformers(acc: &mut Vec<(usize, ContentTransformer)>, layer: usize, ts: &Vec<ContentTransformer>)
    ensures
        final(acc)@ == dedup_transformers(old(acc)@, layer, ts@),
{
    let ghost a0 = acc@;
    let mut k: usize = 0;
    while k < ts.len()
        invariant
            k <= ts@.len(),
            acc@ == dedup_transformers(a0, layer, ts@.subrange(0, k as int)),
        decreases ts.len() - k,
    {
        let t = ts[k];
        let mut found = false;
        let mut j: usize = 0;
        while j < acc.len()
            invariant
                j <= acc@.len(),
                found == exists|m: int| 0 <= m < j && acc@[m].1 == t,
            decreases acc.len() - j,
        {
            if acc[j].1 == t {
                found = true;
            }
            j = j + 1;
        }
        proof {
            let pre = ts@.subrange(0, k + 1);
            assert(pre.drop_last() =~= ts@.subrange(0, k as int));
            assert(pre.last() == t);
        }
        if !found {
            acc.push((layer, t));
        }
        k = k + 1;
    }
    proof {
        assert(ts@.subrange(0, ts@.len() as int) =~= ts@);
    }
}

/// Appends the dotfiles `ds` of layer `layer` whose path `acc` does not hold yet.
fn push_new_dotfiles(acc: &mut Vec<(usize, Dotfile)>, layer: usize, ds: Vec<Dotfile>)
    ensures
        final(acc)@ == dedup_dotfiles(old(acc)@, layer, ds@),
{
    let ghost a0 = acc@;
    let ghost all = ds@;
    let total = ds.len();
    let mut rest = ds;
    let mut k: usize = 0;
    proof { assert(all.subrange(0, 0) =~= Seq::<Dotfile>::empty()); }
    while rest.len() > 0
        invariant
            k <= all.len(),
            total == all.len(),
            rest@ == all.subrange(k as int, all.len() as int),
            acc@ == dedup_dotfiles(a0, layer, all.subrange(0, k as int)),
        decreases rest.len(),
    {
        let d = rest.remove(0);
        let mut found = false;
        let mut j: usize = 0;
        while j < acc.len()
            invariant
                j <= acc@.len(),
                found == exists|m: int| 0 <= m < j && acc@[m].1.path@ == d.path@,
            decreases acc.len() - j,
        {
            if acc[j].1.path == d.path {
                found = true;
            }
            j = j + 1;
        }
        proof {
            let pre = all.subrange(0, k + 1);
            assert(pre.drop_last() =~= all.subrange(0, k as int));
            assert(pre.last() == d);
        }
        if !found {
            acc.push((layer, d));
        }
        k = k + 1;
        proof {
            assert(rest@ =~= all.subrange(k as int, all.len() as int));
        }
    }
    proof {
        assert(all.subrange(0, k as int) =~= all);
    }
}

/// Collects the profiles of a profile and of the profiles it extends.
#[derive(Debug)]
pub struct LayeredProfileBuilder {
    /// The names of the profiles, in the order they were added.
    profile_names: Vec<String>,
    /// The profiles; the first is the root profile the others were reached from.
    profiles: Vec<Profile>,
}

/// A profile made of layers: a profile and the profiles it extends.
#[derive(Debug)]
pub struct LayeredProfile {
    /// The names of the layers.
    profile_names: Vec<String>,
    /// The target of the deployment, from the first layer that has one.
    target: Option<(usize, String)>,
    /// The variables of all layers.
    variables: LayeredVariables,
    /// The content transformers of all layers.
    transformers: Vec<(usize, ContentTransformer)>,
    /// The hooks run before the deployment.
    pre_hooks: Vec<(usize, Hook)>,
    /// The hooks run after the deployment.
    post_hooks: Vec<(usize, Hook)>,
    /// The dotfiles of all layers.
    dotfiles: Vec<(usize, Dotfile)>,
    /// The symlinks of all layers.
    symlinks: Vec<(usize, Symlink)>,
}

impl LayeredProfileBuilder {
    /// Every profile has a name.
    #[verifier::type_invariant]
    spec fn named(&self) -> bool {
        self.profile_names@.len() == self.profiles@.len()
    }

    /// The names of the profiles added.
    pub closed spec fn names(&self) -> Seq<String> {
        self.profile_names@
    }

    /// The profiles added.
    pub closed spec fn layers(&self) -> Seq<Profile> {
        self.profiles@
    }

    /// Creates a builder without profiles.
    pub fn new() -> (r: Self)
        ensures
            r.names() == Seq::<String>::empty(),
            r.layers() == Seq::<Profile>::empty(),
    {
        LayeredProfileBuilder { profile_names: Vec::new(), profiles: Vec::new() }
    }

    /// Adds `profile` with the given `name` as the next layer.
    pub fn add(&mut self, name: String, profile: Profile)
        ensures
            final(self).names() == old(self).names().push(name),
            final(self).layers() == old(self).layers().push(profile),
    {
        proof { use_type_invariant(&*self); }
        let mut tmp = LayeredProfileBuilder::new();
        std::mem::swap(&mut tmp, self);
        proof { use_type_invariant(&tmp); }
        let LayeredProfileBuilder { mut profile_names, mut profiles } = tmp;
        profile_names.push(name);
        profiles.push(profile);
        *self = LayeredProfileBuilder { profile_names, profiles };
    }

    /// Consumes the builder and layers its profiles.
    pub fn finish(self) -> (r: LayeredProfile)
        ensures
            r.names() == self.names(),
            r.spec_target() == first_target(self.layers()),
            r.variables_map() == layered_vars(self.layers()),
            r.spec_transformers() == layered_transformers(self.layers()),
            r.spec_pre_hooks() == layered_pre_hooks(self.layers()),
            r.spec_post_hooks() == layered_post_hooks(self.layers()),
            r.spec_dotfiles() == layered_dotfiles(self.layers()),
            r.spec_symlinks() == layered_symlinks(self.layers()),
    {
        proof { use_type_invariant(&self); }
        let ghost ps = self.profiles@;
        let LayeredProfileBuilder { profile_names, profiles } = self;
        let n = profiles.len();
        let mut rest = profiles;
        let mut target: Option<(usize, String)> = None;
        let mut variables = LayeredVariables::new();
        let mut transformers: Vec<(usize, ContentTransformer)> = Vec::new();
        let mut pre_hooks: Vec<(usize, Hook)> = Vec::new();
        let mut post_hooks: Vec<(usize, Hook)> = Vec::new();
        let mut dotfiles: Vec<(usize, Dotfile)> = Vec::new();
        let mut symlinks: Vec<(usize, Symlink)> = Vec::new();
        let mut idx: usize = 0;
        proof {
            assert(ps.subrange(0, 0) =~= Seq::<Profile>::empty());
            assert(variables.layered_map() =~= layered_vars(Seq::<Profile>::empty()));
        }
        while idx < n
            invariant
                idx <= n,
                n == ps.len(),
                n == profile_names@.len(),
                rest@ == ps.subrange(idx as int, n as int),
                match target {
                    Some((i, t)) => first_target(ps.subrange(0, idx as int)) == Some((i, t@)),
                    None => first_target(ps.subrange(0, idx as int)) is None,
                },
                target matches Some((i, _)) ==> i < idx,
                variables.layered_map() == layered_vars(ps.subrange(0, idx as int)),
                transformers@ == layered_transformers(ps.subrange(0, idx as int)),
                pre_hooks@ == layered_pre_hooks(ps.subrange(0, idx as int)),
                post_hooks@ == layered_post_hooks(ps.subrange(0, idx as int)),
                dotfiles@ == layered_dotfiles(ps.subrange(0, idx as int)),
                symlinks@ == layered_symlinks(ps.subrange(0, idx as int)),
            decreases n - idx,
        {
            let p = rest.remove(0);
            let ghost pre = ps.subrange(0, idx as int);
            let ghost next = ps.subrange(0, idx + 1);
            proof {
                assert(p == ps[idx as int]);
                assert(next.drop_last() =~= pre);
                assert(next.last() == p);
            }
            if target.is_none() {
                match &p.target {
                    Some(t) => {
                        target = Some((idx, t.clone()));
                    },
                    None => {},
                }
            }
            let Profile {
                extends: _,
                variables: vars,
                transformers: ts,
                target: _,
                pre_hooks: pre_h,
                post_hooks: post_h,
                dotfiles: ds,
                symlinks: ls,
            } = p;
            match &vars {
                Some(v) => {
                    add_layer_vars(&mut variables, idx, v);
                    proof { lemma_layered_vars_step(next); }
                },
                None => {
                    proof {
                        lemma_layered_vars_step(next);
                        assert(variables.layered_map() =~= layered_vars(next));
                    }
                },
            }
            push_new_transformers(&mut transformers, idx, &ts);
            push_tagged(&mut pre_hooks, idx, pre_h);
            push_tagged(&mut post_hooks, idx, post_h);
            push_new_dotfiles(&mut dotfiles, idx, ds);
            push_tagged(&mut symlinks, idx, ls);
            idx = idx + 1;
            proof {
                assert(rest@ =~= ps.subrange(idx as int, n as int));
            }
        }
        proof {
            assert(ps.subrange(0, n as int) =~= ps);
        }
        LayeredProfile { profile_names, target, variables, transformers, pre_hooks, post_hooks, dotfiles, symlinks }
    }
}

/// Adding a layer: a variable comes from the earlier layers if they define it,
/// else from the new layer.
proof fn lemma_layered_vars_step(ps: Seq<Profile>)
    requires
        ps.len() > 0,
    ensures
        layered_vars(ps) == layered_vars(ps.drop_last()).union_prefer_right(
            Map::new(
                |k: Seq<char>| layer_vars(ps.last()).contains_key(k) && !layered_vars(ps.drop_last()).contains_key(k),
                |k: Seq<char>| (ps.len() - 1, layer_vars(ps.last())[k]),
            ),
        ),
{
    assert(layered_vars(ps) =~= layered_vars(ps.drop_last()).union_prefer_right(
        Map::new(
            |k: Seq<char>| layer_vars(ps.last()).contains_key(k) && !layered_vars(ps.drop_last()).contains_key(k),
            |k: Seq<char>| (ps.len() - 1, layer_vars(ps.last())[k]),
        ),
    ));
}

/// Adds the variables `vars` of layer `layer` that `lv` does not hold yet.
fn add_layer_vars(lv: &mut LayeredVariables, layer: usize, vars: &Variables)
    ensures
        final(lv).layered_map() == old(lv).layered_map().union_prefer_right(
            Map::new(
                |k: Seq<char>| vars.view_map().contains_key(k) && !old(lv).layered_map().contains_key(k),
                |k: Seq<char>| (layer as int, vars.view_map()[k]),
            ),
        ),
{
    let entries = vars.entries();
    let ghost m0 = lv.layered_map();
    let ghost es = entries@;
    let mut k: usize = 0;
    while k < entries.len()
        invariant
            k <= es.len(),
            es == entries@,
            crate::variables::names_distinct(es),
            crate::variables::pairs_map(es) == vars.view_map(),
            lv.layered_map() == m0.union_prefer_right(
                Map::new(
                    |key: Seq<char>| (exists|i: int| 0 <= i < k && es[i].0@ == key) && !m0.contains_key(key),
                    |key: Seq<char>| (layer as int, crate::variables::pairs_map(es)[key]),
                ),
            ),
        decreases entries.len() - k,
    {
        let key = &entries[k].0;
        let ghost kk = key@;
        if !lv.contains(key) {
            proof {
                assert(!m0.contains_key(kk));
                assert(crate::variables::pairs_map(es)[kk] == es[k as int].1@) by {
                    let a = choose|i: int| 0 <= i < es.len() && es[i].0@ == kk;
                    assert(a == k);
                }
            }
            lv.push_new(key.clone(), layer, entries[k].1.clone());
        } else {
            proof {
                if !m0.contains_key(kk) {
                    assert(exists|i: int| 0 <= i < k && es[i].0@ == kk);
                    let i = choose|i: int| 0 <= i < k && es[i].0@ == kk;
                    assert(es[i].0@ == es[k as int].0@);
                }
            }
        }
        k = k + 1;
        proof {
            assert(lv.layered_map() =~= m0.union_prefer_right(
                Map::new(
                    |key: Seq<char>| (exists|i: int| 0 <= i < k && es[i].0@ == key) && !m0.contains_key(key),
                    |key: Seq<char>| (layer as int, crate::variables::pairs_map(es)[key]),
                ),
            ));
        }
    }
    proof {
        assert(lv.layered_map() =~= m0.union_prefer_right(
            Map::new(
                |k: Seq<char>| vars.view_map().contains_key(k) && !m0.contains_key(k),
                |k: Seq<char>| (layer as int, vars.view_map()[k]),
            ),
        ));
    }
}

impl LayeredProfile {
    /// The target names one of the layers.
    #[verifier::type_invariant]
    spec fn target_named(&self) -> bool {
        self.target matches Some((i, _)) ==> i < self.profile_names@.len()
    }

    /// Creates a new builder for a layered profile.
    pub fn build() -> (r: LayeredProfileBuilder)
        ensures
            r.names() == Seq::<String>::empty(),
            r.layers() == Seq::<Profile>::empty(),
    {
        LayeredProfileBuilder::new()
    }

    /// Returns the name of the layer the target comes from, and the target.
    pub fn target(&self) -> (r: Option<(&str, &str)>)
        ensures
            match self.spec_target() {
                Some((i, t)) => r matches Some((n, p)) && n@ == self.names()[i as int]@ && p@ == t,
                None => r is None,
            },
    {
        proof { use_type_invariant(self); }
        match &self.target {
            Some((i, t)) => Some((self.profile_names[*i].as_str(), t.as_str())),
            None => None,
        }
    }

    /// Returns the target path of the profile.
    pub fn target_path(&self) -> (r: Option<&str>)
        ensures
            match self.spec_target() {
                Some((_, t)) => r matches Some(p) && p@ == t,
                None => r is None,
            },
    {
        match &self.target {
            Some((_, t)) => Some(t.as_str()),
            None => None,
        }
    }

    /// Returns the variables collected from all layers.
    pub fn variables(&self) -> (r: &LayeredVariables)
        ensures
            r.layered_map() == self.variables_map(),
    {
        &self.variables
    }

    /// Returns the number of content transformers collected from all layers.
    pub fn transformers_len(&self) -> (r: usize)
        ensures
            r == self.spec_transformers().len(),
    {
        self.transformers.len()
    }

    /// Returns the content transformers collected from all layers, in order.
    pub fn transformers(&self) -> (r: Vec<ContentTransformer>)
        ensures
            r@ == self.spec_transformers().map_values(|e: (usize, ContentTransformer)| e.1),
    {
        let mut out: Vec<ContentTransformer> = Vec::new();
        let mut i: usize = 0;
        while i < self.transformers.len()
            invariant
                i <= self.transformers@.len(),
                out@ == self.transformers@.subrange(0, i as int).map_values(|e: (usize, ContentTransformer)| e.1),
            decreases self.transformers.len() - i,
        {
            out.push(self.transformers[i].1);
            proof {
                assert(self.transformers@.subrange(0, i + 1).map_values(|e: (usize, ContentTransformer)| e.1)
                    =~= self.transformers@.subrange(0, i as int).map_values(|e: (usize, ContentTransformer)| e.1).push(
                    self.transformers@[i as int].1));
            }
            i = i + 1;
        }
        assert(self.transformers@.subrange(0, i as int) =~= self.transformers@);
        out
    }

    /// Returns the hooks run before the deployment, of all layers in order.
    pub fn pre_hooks(&self) -> (r: Vec<&Hook>)
        ensures
            r@.len() == self.spec_pre_hooks().len(),
            forall|i: int| 0 <= i < r@.len() ==> *r@[i] == self.spec_pre_hooks()[i].1,
    {
        second_refs(&self.pre_hooks)
    }

    /// Returns the hooks run after the deployment, of all layers in order.
    pub fn post_hooks(&self) -> (r: Vec<&Hook>)
        ensures
            r@.len() == self.spec_post_hooks().len(),
            forall|i: int| 0 <= i < r@.len() ==> *r@[i] == self.spec_post_hooks()[i].1,
    {
        second_refs(&self.post_hooks)
    }

    /// Returns the dotfiles collected from all layers, in order.
    pub fn dotfiles(&self) -> (r: Vec<&Dotfile>)
        ensures
            r@.len() == self.spec_dotfiles().len(),
            forall|i: int| 0 <= i < r@.len() ==> *r@[i] == self.spec_dotfiles()[i].1,
    {
        second_refs(&self.dotfiles)
    }

    /// Returns the symlinks collected from all layers, in order.
    pub fn symlinks(&self) -> (r: Vec<&Symlink>)
        ensures
            r@.len() == self.spec_symlinks().len(),
            forall|i: int| 0 <= i < r@.len() ==> *r@[i] == self.spec_symlinks()[i].1,
    {
        second_refs(&self.symlinks)
    }

    /// The names of the layers.
    pub closed spec fn names(&self) -> Seq<String> {
        self.profile_names@
    }

    /// The target and the layer it comes from.
    pub closed spec fn spec_target(&self) -> Option<(usize, Seq<char>)> {
        match self.target {
            Some((i, t)) => Some((i, t@)),
            None => None,
        }
    }

    /// The variables by name, each with its layer and value.
    pub closed spec fn variables_map(&self) -> Map<Seq<char>, (int, Seq<char>)> {
        self.variables.layered_map()
    }

    /// The content transformers with their layers.
    pub closed spec fn spec_transformers(&self) -> Seq<(usize, ContentTransformer)> {
        self.transformers@
    }

    /// The hooks run before the deployment, with their layers.
    pub closed spec fn spec_pre_hooks(&self) -> Seq<(usize, Hook)> {
        self.pre_hooks@
    }

    /// The hooks run after the deployment, with their layers.
    pub closed spec fn spec_post_hooks(&self) -> Seq<(usize, Hook)> {
        self.post_hooks@
    }

    /// The dotfiles with their layers.
    pub closed spec fn spec_dotfiles(&self) -> Seq<(usize, Dotfile)> {
        self.dotfiles@
    }

    /// The symlinks with their layers.
    pub closed spec fn spec_symlinks(&self) -> Seq<(usize, Symlink)> {
        self.symlinks@
    }
}

/// The target of a layered profile is that of the first layer that has one.
pub proof fn law_target_from_first_layer(ps: Seq<Profile>)
    requires
        ps.len() <= usize::MAX,
    ensures
        match first_target(ps) {
            Some((i, t)) => 0 <= i < ps.len() && (ps[i as int].target matches Some(x) && x@ == t)
                && forall|j: int| 0 <= j < i ==> (#[trigger] ps[j]).target is None,
            None => forall|j: int| 0 <= j < ps.len() ==> (#[trigger] ps[j]).target is None,
        },
    decreases ps.len(),
{
    if ps.len() > 0 {
        law_target_from_first_layer(ps.drop_last());
        assert(forall|j: int| 0 <= j < ps.len() - 1 ==> ps.drop_last()[j] == ps[j]);
    }
}

/// A variable of a layered profile has the value of the first layer that
/// defines it; it is missing only if no layer defines it.
pub proof fn law_variable_from_first_layer(ps: Seq<Profile>, k: Seq<char>)
    ensures
        match var_source(ps, k) {
            Some((i, v)) => 0 <= i < ps.len() && layer_vars(ps[i]).contains_key(k) && layer_vars(ps[i])[k] == v
                && forall|j: int| 0 <= j < i ==> !layer_vars(#[trigger] ps[j]).contains_key(k),
            None => forall|j: int| 0 <= j < ps.len() ==> !layer_vars(#[trigger] ps[j]).contains_key(k),
        },
    decreases ps.len(),
{
    if ps.len() > 0 {
        law_variable_from_first_layer(ps.drop_last(), k);
        assert(forall|j: int| 0 <= j < ps.len() - 1 ==> ps.drop_last()[j] == ps[j]);
    }
}

/// What [`dedup_dotfiles`] keeps: `acc` unchanged, then dotfiles of `ds` whose
/// path is new, each path once, and every path of `ds`.
proof fn lemma_dedup_dotfiles(acc: Seq<(usize, Dotfile)>, layer: usize, ds: Seq<Dotfile>)
    ensures
        dedup_dotfiles(acc, layer, ds).len() >= acc.len(),
        dedup_dotfiles(acc, layer, ds).subrange(0, acc.len() as int) == acc,
        forall|k: int| acc.len() <= k < dedup_dotfiles(acc, layer, ds).len() ==> {
            let e = #[trigger] dedup_dotfiles(acc, layer, ds)[k];
            &&& e.0 == layer
            &&& exists|m: int| 0 <= m < ds.len() && ds[m] == e.1
            &&& forall|j: int| 0 <= j < acc.len() ==> acc[j].1.path@ != e.1.path@
        },
        (forall|a: int, b: int| 0 <= a < b < acc.len() ==> acc[a].1.path@ != acc[b].1.path@) ==> (forall|a: int, b: int|
            0 <= a < b < dedup_dotfiles(acc, layer, ds).len() ==> dedup_dotfiles(acc, layer, ds)[a].1.path@
                != dedup_dotfiles(acc, layer, ds)[b].1.path@),
        forall|m: int| 0 <= m < ds.len() ==> exists|j: int| 0 <= j < dedup_dotfiles(acc, layer, ds).len()
            && dedup_dotfiles(acc, layer, ds)[j].1.path@ == (#[trigger] ds[m]).path@,
        forall|j: int| 0 <= j < acc.len() ==> exists|i: int| 0 <= i < dedup_dotfiles(acc, layer, ds).len()
            && dedup_dotfiles(acc, layer, ds)[i].1.path@ == (#[trigger] acc[j]).1.path@,
    decreases ds.len(),
{
    if ds.len() > 0 {
        let d0 = ds.drop_last();
        lemma_dedup_dotfiles(acc, layer, d0);
        let a = dedup_dotfiles(acc, layer, d0);
        let r = dedup_dotfiles(acc, layer, ds);
        assert(forall|m: int| 0 <= m < d0.len() ==> d0[m] == ds[m]);
        if exists|j: int| 0 <= j < a.len() && a[j].1.path@ == ds.last().path@ {
            assert(r == a);
            assert forall|m: int| 0 <= m < ds.len() implies exists|j: int| 0 <= j < r.len() && r[j].1.path@ == (#[trigger] ds[m]).path@ by {
                if m < d0.len() {
                    assert(d0[m] == ds[m]);
                }
            }
        } else {
            assert(r == a.push((layer, ds.last())));
            assert(r.subrange(0, acc.len() as int) =~= a.subrange(0, acc.len() as int));
            assert forall|k: int| acc.len() <= k < r.len() implies {
                let e = #[trigger] r[k];
                &&& e.0 == layer
                &&& exists|m: int| 0 <= m < ds.len() && ds[m] == e.1
                &&& forall|j: int| 0 <= j < acc.len() ==> acc[j].1.path@ != e.1.path@
            } by {
                if k < a.len() {
                    assert(r[k] == a[k]);
                    let m = choose|m: int| 0 <= m < d0.len() && d0[m] == a[k].1;
                    assert(ds[m] == a[k].1);
                } else {
                    assert(ds[ds.len() - 1] == r[k].1);
                    assert forall|j: int| 0 <= j < acc.len() implies acc[j].1.path@ != r[k].1.path@ by {
                        assert(a.subrange(0, acc.len() as int)[j] == a[j]);
                    }
                }
            }
            assert forall|m: int| 0 <= m < ds.len() implies exists|j: int| 0 <= j < r.len() && r[j].1.path@ == (#[trigger] ds[m]).path@ by {
                if m < d0.len() {
                    assert(d0[m] == ds[m]);
                    let j = choose|j: int| 0 <= j < a.len() && a[j].1.path@ == d0[m].path@;
                    assert(r[j] == a[j]);
                } else {
                    assert(r[a.len() as int].1 == ds[m]);
                }
            }
            assert forall|j: int| 0 <= j < acc.len() implies exists|i: int| 0 <= i < r.len() && r[i].1.path@ == (#[trigger] acc[j]).1.path@ by {
                let i = choose|i: int| 0 <= i < a.len() && a[i].1.path@ == acc[j].1.path@;
                assert(r[i] == a[i]);
            }
        }
    } else {
        assert(dedup_dotfiles(acc, layer, ds).subrange(0, acc.len() as int) =~= acc);
    }
}

/// The dotfiles of a layered profile: no path occurs twice; every path of a
/// layer occurs; each comes from its layer, and no earlier layer has a dotfile
/// with its path.
pub proof fn law_dotfiles_first_per_path(ps: Seq<Profile>)
    requires
        ps.len() <= usize::MAX,
    ensures
        forall|a: int, b: int| 0 <= a < b < layered_dotfiles(ps).len() ==> layered_dotfiles(ps)[a].1.path@
            != layered_dotfiles(ps)[b].1.path@,
        forall|i: int, m: int| 0 <= i < ps.len() && 0 <= m < ps[i].dotfiles@.len() ==> exists|j: int| 0 <= j < layered_dotfiles(ps).len()
            && layered_dotfiles(ps)[j].1.path@ == (#[trigger] ps[i].dotfiles@[m]).path@,
        forall|j: int| 0 <= j < layered_dotfiles(ps).len() ==> {
            let e = #[trigger] layered_dotfiles(ps)[j];
            &&& e.0 < ps.len()
            &&& exists|m: int| 0 <= m < ps[e.0 as int].dotfiles@.len() && ps[e.0 as int].dotfiles@[m] == e.1
            &&& forall|i: int, m: int| 0 <= i < e.0 && 0 <= m < ps[i].dotfiles@.len() ==> ps[i].dotfiles@[m].path@ != e.1.path@
        },
    decreases ps.len(),
{
    if ps.len() > 0 {
        let p0 = ps.drop_last();
        law_dotfiles_first_per_path(p0);
        let acc = layered_dotfiles(p0);
        let layer = (ps.len() - 1) as usize;
        let ds = ps.last().dotfiles@;
        lemma_dedup_dotfiles(acc, layer, ds);
        let r = layered_dotfiles(ps);
        assert(r == dedup_dotfiles(acc, layer, ds));
        assert(forall|i: int| 0 <= i < p0.len() ==> p0[i] == ps[i]);
        assert forall|i: int, m: int| 0 <= i < ps.len() && 0 <= m < ps[i].dotfiles@.len() implies exists|j: int| 0 <= j < r.len()
            && r[j].1.path@ == (#[trigger] ps[i].dotfiles@[m]).path@ by {
            if i < p0.len() {
                assert(p0[i] == ps[i]);
                let j0 = choose|j: int| 0 <= j < acc.len() && acc[j].1.path@ == p0[i].dotfiles@[m].path@;
                assert(acc[j0].1.path@ == ps[i].dotfiles@[m].path@);
            } else {
                assert(ds[m] == ps[i].dotfiles@[m]);
            }
        }
        assert forall|j: int| 0 <= j < r.len() implies {
            let e = #[trigger] r[j];
            &&& e.0 < ps.len()
            &&& exists|m: int| 0 <= m < ps[e.0 as int].dotfiles@.len() && ps[e.0 as int].dotfiles@[m] == e.1
            &&& forall|i: int, m: int| 0 <= i < e.0 && 0 <= m < ps[i].dotfiles@.len() ==> ps[i].dotfiles@[m].path@ != e.1.path@
        } by {
            if j < acc.len() {
                assert(r.subrange(0, acc.len() as int)[j] == r[j]);
                assert(r[j] == acc[j]);
                assert(p0[acc[j].0 as int] == ps[acc[j].0 as int]);
                assert forall|i: int, m: int| 0 <= i < r[j].0 && 0 <= m < ps[i].dotfiles@.len() implies ps[i].dotfiles@[m].path@ != r[j].1.path@ by {
                    assert(p0[i] == ps[i]);
                }
            } else {
                let e = r[j];
                assert forall|i: int, m: int| 0 <= i < e.0 && 0 <= m < ps[i].dotfiles@.len() implies ps[i].dotfiles@[m].path@ != e.1.path@ by {
                    assert(p0[i] == ps[i]);
                    let q = choose|q: int| 0 <= q < acc.len() && acc[q].1.path@ == p0[i].dotfiles@[m].path@;
                    assert(acc[q].1.path@ != e.1.path@);
                }
            }
        }
    }
}

/// References to the second parts of the pairs of `v`, in order.
fn second_refs<T>(v: &Vec<(usize, T)>) -> (r: Vec<&T>)
    ensures
        r@.len() == v@.len(),
        forall|i: int| 0 <= i < r@.len() ==> *r@[i] == v@[i].1,
{
    let mut out: Vec<&T> = Vec::new();
    let mut i: usize = 0;
    while i < v.len()
        invariant
            i <= v@.len(),
            out@.len() == i,
            forall|k: int| 0 <= k < i ==> *out@[k] == v@[k].1,
        decreases v.len() - i,
    {
        out.push(&v[i].1);
        i = i + 1;
    }
    out
}

/// The priority a dotfile is sorted by: its priority, or 0 without one.
pub open spec fn sort_key(e: (usize, Dotfile)) -> int {
    match e.1.priority {
        Some(p) => p.0 as int,
        None => 0,
    }
}

/// The index from `j` on before which an item with key `k` is inserted into `s`:
/// the first whose key is below `k`.
pub open spec fn insert_pos(s: Seq<(usize, Dotfile)>, k: int, j: int) -> int
    decreases s.len() - j,
{
    if j < 0 || j >= s.len() {
        s.len() as int
    } else if sort_key(s[j]) < k {
        j
    } else {
        insert_pos(s, k, j + 1)
    }
}

/// `s` sorted by descending key, keeping the order of items with equal keys.
pub open spec fn sort_by_priority(s: Seq<(usize, Dotfile)>) -> Seq<(usize, Dotfile)>
    decreases s.len(),
{
    if s.len() == 0 {
        seq![]
    } else {
        let t = sort_by_priority(s.drop_last());
        t.insert(insert_pos(t, sort_key(s.last()), 0), s.last())
    }
}

/// Where [`insert_pos`] lands: after all keys not below `k`, before a key below it.
proof fn lemma_insert_pos(s: Seq<(usize, Dotfile)>, k: int, j: int)
    requires
        0 <= j <= s.len(),
    ensures
        j <= insert_pos(s, k, j) <= s.len(),
        forall|i: int| j <= i < insert_pos(s, k, j) ==> sort_key(#[trigger] s[i]) >= k,
        insert_pos(s, k, j) < s.len() ==> sort_key(s[insert_pos(s, k, j)]) < k,
    decreases s.len() - j,
{
    if j < s.len() && sort_key(s[j]) >= k {
        lemma_insert_pos(s, k, j + 1);
    }
}

/// Sorting by priority gives the items in order of descending priority, with
/// the same number of items.
pub proof fn law_sorted_by_descending_priority(s: Seq<(usize, Dotfile)>)
    ensures
        sort_by_priority(s).len() == s.len(),
        forall|a: int, b: int| 0 <= a < b < s.len() ==> sort_key(sort_by_priority(s)[a]) >= sort_key(sort_by_priority(s)[b]),
    decreases s.len(),
{
    if s.len() > 0 {
        law_sorted_by_descending_priority(s.drop_last());
        let t = sort_by_priority(s.drop_last());
        let k = sort_key(s.last());
        lemma_insert_pos(t, k, 0);
        let p = insert_pos(t, k, 0);
        let r = t.insert(p, s.last());
        assert forall|a: int, b: int| 0 <= a < b < r.len() implies sort_key(r[a]) >= sort_key(r[b]) by {
            if b < p {
                assert(r[a] == t[a] && r[b] == t[b]);
            } else if b == p {
                assert(r[a] == t[a]);
            } else if a < p {
                assert(r[a] == t[a] && r[b] == t[b - 1]);
                if b - 1 >= p {
                    assert(sort_key(t[p]) < k);
                }
            } else if a == p {
                assert(r[b] == t[b - 1]);
                assert(sort_key(t[p]) < k);
                if b - 1 > p {
                    assert(sort_key(t[p]) >= sort_key(t[b - 1]));
                }
            } else {
                assert(r[a] == t[a - 1] && r[b] == t[b - 1]);
            }
        }
    }
}

impl LayeredProfile {
    /// Sorts the dotfiles by descending priority, keeping the order of dotfiles
    /// of equal priority; those without a priority count as priority 0.
    pub fn sort_dotfiles_by_priority(&mut self)
        ensures
            final(self).spec_dotfiles() == sort_by_priority(old(self).spec_dotfiles()),
            final(self).names() == old(self).names(),
            final(self).spec_target() == old(self).spec_target(),
            final(self).variables_map() == old(self).variables_map(),
            final(self).spec_transformers() == old(self).spec_transformers(),
            final(self).spec_pre_hooks() == old(self).spec_pre_hooks(),
            final(self).spec_post_hooks() == old(self).spec_post_hooks(),
            final(self).spec_symlinks() == old(self).spec_symlinks(),
    {
        proof { use_type_invariant(&*self); }
        let mut ds: Vec<(usize, Dotfile)> = Vec::new();
        std::mem::swap(&mut ds, &mut self.dotfiles);
        let ghost all = ds@;
        let total = ds.len();
        let mut rest = ds;
        let mut out: Vec<(usize, Dotfile)> = Vec::new();
        let mut k: usize = 0;
        proof {
            assert(all.subrange(0, 0) =~= Seq::<(usize, Dotfile)>::empty());
        }
        while rest.len() > 0
            invariant
                k <= all.len(),
                total == all.len(),
                rest@ == all.subrange(k as int, all.len() as int),
                out@ == sort_by_priority(all.subrange(0, k as int)),
            decreases rest.len(),
        {
            let e = rest.remove(0);
            let key: u64 = match e.1.priority {
                Some(p) => p.0 as u64,
                None => 0,
            };
            let ghost t = out@;
            let mut j: usize = 0;
            while j < out.len()
                invariant
                    j <= out@.len(),
                    out@ == t,
                    insert_pos(t, key as int, 0) == insert_pos(t, key as int, j as int),
                ensures
                    insert_pos(t, key as int, 0) == j,
                decreases out.len() - j,
            {
                let kj: u64 = match out[j].1.priority {
                    Some(p) => p.0 as u64,
                    None => 0,
                };
                if kj < key {
                    break;
                }
                j = j + 1;
            }
            proof {
                let pre = all.subrange(0, k + 1);
                assert(pre.drop_last() =~= all.subrange(0, k as int));
                assert(pre.last() == e);
                assert(sort_key(e) == key as int);
            }
            out.insert(j, e);
            k = k + 1;
            proof {
                assert(rest@ =~= all.subrange(k as int, all.len() as int));
            }
        }
        proof {
            assert(all.subrange(0, k as int) =~= all);
        }
        self.dotfiles = out;
    }
}


/// Whether the file name `f` is among the names `s`.
pub open spec fn names_contain(s: Seq<String>, f: Seq<char>) -> bool {
    exists|i: int| 0 <= i < s.len() && (#[trigger] s[i])@ == f
}

/// Whether resolving the profile file `file_name`, which extends other
/// profiles when `has_extends`, closes a circle: the file is among the files
/// `resolving` whose extensions are being resolved.
pub fn extends_circularly(resolving: &Vec<String>, file_name: &str, has_extends: bool) -> (r: bool)
    ensures
        r == (has_extends && names_contain(resolving@, file_name@)),
{
    if !has_extends {
        return false;
    }
    let f = file_name.to_owned();
    let mut i: usize = 0;
    while i < resolving.len()
        invariant
            i <= resolving@.len(),
            has_extends,
            f@ == file_name@,
            forall|k: int| 0 <= k < i ==> (#[trigger] resolving@[k])@ != file_name@,
        decreases resolving.len() - i,
    {
        let same = resolving[i] == f;
        if same {
            assert(resolving@[i as int]@ == file_name@);
            return true;
        }
        i = i + 1;
    }
    false
}

} // verus!
