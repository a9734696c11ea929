//! User defined variables used by profiles and dotfiles.
use vstd::prelude::*;

verus! {

/// Variables that replace values in templates.
pub trait Vars {
    /// The variables, by name.
    spec fn vars_map(&self) -> Map<Seq<char>, Seq<char>>;

    /// Gets a variable by name.
    fn var(&self, key: &str) -> (r: Option<&str>)
        ensures
            match r {
                Some(v) => self.vars_map().contains_key(key@) && v@ == self.vars_map()[key@],
                None => !self.vars_map().contains_key(key@),
            };
}

/// Whether some pair of `s` has the name `k`.
pub open spec fn has_name(s: Seq<(String, String)>, k: Seq<char>) -> bool {
    exists|i: int| 0 <= i < s.len() && s[i].0@ == k
}

/// Whether no name occurs twice in `s`.
pub open spec fn names_distinct(s: Seq<(String, String)>) -> bool {
    forall|i: int, j: int| 0 <= i < s.len() && 0 <= j < s.len() && i != j ==> s[i].0@ != s[j].0@
}

/// The map from name to value that the pairs of `s` define.
pub open spec fn pairs_map(s: Seq<(String, String)>) -> Map<Seq<char>, Seq<char>> {
    Map::new(
        |k: Seq<char>| has_name(s, k),
        |k: Seq<char>| s[choose|i: int| 0 <= i < s.len() && s[i].0@ == k].1@,
    )
}

/// The map built by inserting the pairs of `s` in order: a later value for a
/// name replaces an earlier one.
pub open spec fn items_map(s: Seq<(String, String)>) -> Map<Seq<char>, Seq<char>>
    decreases s.len(),
{
    if s.len() == 0 {
        Map::empty()
    } else {
        items_map(s.drop_last()).insert(s.last().0@, s.last().1@)
    }
}

/// User defined variables: names with their values.
#[derive(Debug)]
pub struct Variables {
    /// The pairs of name and value; no name occurs twice.
    inner: Vec<(String, String)>,
}

impl Variables {
    /// No name occurs twice.
    #[verifier::type_invariant]
    spec fn names_unique(&self) -> bool {
        names_distinct(self.inner@)
    }

    /// The variables, by name.
    pub closed spec fn view_map(&self) -> Map<Seq<char>, Seq<char>> {
        pairs_map(self.inner@)
    }

    /// Creates an empty set of variables.
    pub fn new() -> (r: Self)
        ensures
            r.view_map() == Map::<Seq<char>, Seq<char>>::empty(),
    {
        let r = Variables { inner: Vec::new() };
        assert(r.view_map() =~= Map::<Seq<char>, Seq<char>>::empty());
        r
    }

    /// Sets the variable `key` to `value`, replacing an earlier value.
    pub fn insert(&mut self, key: String, value: String)
        ensures
            final(self).view_map() == old(self).view_map().insert(key@, value@),
    {
        proof { use_type_invariant(&*self); }
        let ghost s = self.inner@;
        let ghost key_v = key@;
        let ghost value_v = value@;
        let mut i: usize = 0;
        while i < self.inner.len()
            invariant
                0 <= i <= self.inner.len(),
                self.inner@ == s,
                s == old(self).inner@,
                key_v == key@,
                value_v == value@,
                names_distinct(s),
                forall|j: int| 0 <= j < i ==> s[j].0@ != key@,
            decreases self.inner.len() - i,
        {
            if self.inner[i].0 == key {
                let mut v = Vec::new();
                std::mem::swap(&mut v, &mut self.inner);
                v.set(i, (key, value));
                proof {
                    assert(names_distinct(v@)) by {
                        assert forall|a: int, b: int| 0 <= a < v@.len() && 0 <= b < v@.len() && a != b implies v@[a].0@ != v@[b].0@ by {
                            if a != i && b != i {
                                assert(v@[a] == s[a] && v@[b] == s[b]);
                            }
                        }
                    }
                    assert(pairs_map(v@) =~= pairs_map(s).insert(key_v, value_v)) by {
                        assert forall|k: Seq<char>| #[trigger] pairs_map(v@).contains_key(k) implies pairs_map(v@)[k] == pairs_map(s).insert(key_v, value_v)[k] by {
                            let a = choose|j: int| 0 <= j < v@.len() && v@[j].0@ == k;
                            if k == key_v {
                                assert(a == i);
                            } else {
                                assert(s[a].0@ == k);
                                let b = choose|j: int| 0 <= j < s.len() && s[j].0@ == k;
                                assert(a == b);
                            }
                        }
                        assert forall|k: Seq<char>| #[trigger] pairs_map(s).insert(key_v, value_v).contains_key(k) implies pairs_map(v@).contains_key(k) by {
                            if k != key_v {
                                let b = choose|j: int| 0 <= j < s.len() && s[j].0@ == k;
                                assert(v@[b].0@ == k);
                            } else {
                                assert(v@[i as int].0@ == k);
                            }
                        }
                    }
                }
                self.inner = v;
                return;
            }
            i = i + 1;
        }
        let mut v = Vec::new();
        std::mem::swap(&mut v, &mut self.inner);
        v.push((key, value));
        proof {
            let t = v@;
            assert(t == s.push((t.last().0, t.last().1)));
            assert(names_distinct(t)) by {
                assert forall|a: int, b: int| 0 <= a < t.len() && 0 <= b < t.len() && a != b implies t[a].0@ != t[b].0@ by {
                    if a < s.len() && b < s.len() {
                        assert(t[a] == s[a] && t[b] == s[b]);
                    } else if a < s.len() {
                        assert(t[a] == s[a]);
                    } else {
                        assert(t[b] == s[b]);
                    }
                }
            }
            assert(pairs_map(t) =~= pairs_map(s).insert(key_v, value_v)) by {
                assert forall|k: Seq<char>| #[trigger] pairs_map(t).contains_key(k) implies pairs_map(t)[k] == pairs_map(s).insert(key_v, value_v)[k] by {
                    let a = choose|j: int| 0 <= j < t.len() && t[j].0@ == k;
                    if k == key_v {
                        assert(t[s.len() as int].0@ == k);
                        assert(a == s.len());
                    } else {
                        assert(a < s.len());
                        assert(s[a].0@ == k);
                        let b = choose|j: int| 0 <= j < s.len() && s[j].0@ == k;
                        assert(t[b] == s[b]);
                        assert(a == b);
                    }
                }
                assert forall|k: Seq<char>| #[trigger] pairs_map(s).insert(key_v, value_v).contains_key(k) implies pairs_map(t).contains_key(k) by {
                    if k != key_v {
                        let b = choose|j: int| 0 <= j < s.len() && s[j].0@ == k;
                        assert(t[b] == s[b]);
                    } else {
                        assert(t[s.len() as int].0@ == k);
                    }
                }
                assert forall|k: Seq<char>| #[trigger] pairs_map(t).contains_key(k) implies pairs_map(s).insert(key_v, value_v).contains_key(k) by {
                    let a = choose|j: int| 0 <= j < t.len() && t[j].0@ == k;
                    if a < s.len() {
                        assert(t[a] == s[a]);
                    }
                }
            }
        }
        self.inner = v;
    }

    /// Creates an instance from pairs of name and value; a later value for a
    /// name replaces an earlier one.
    pub fn from_items(items: Vec<(String, String)>) -> (r: Self)
        ensures
            r.view_map() == items_map(items@),
    {
        let mut vars = Variables::new();
        let n = items.len();
        let mut k: usize = 0;
        while k < n
            invariant
                0 <= k <= n,
                n == items@.len(),
                vars.view_map() == items_map(items@.subrange(0, k as int)),
            decreases n - k,
        {
            vars.insert(items[k].0.clone(), items[k].1.clone());
            proof {
                assert(items@.subrange(0, k + 1).drop_last() =~= items@.subrange(0, k as int));
            }
            k = k + 1;
        }
        proof {
            assert(items@.subrange(0, n as int) =~= items@);
        }
        vars
    }
}

impl Variables {
    /// Returns the pairs of name and value, each name once.
    pub fn entries(&self) -> (r: &Vec<(String, String)>)
        ensures
            pairs_map(r@) == self.view_map(),
            names_distinct(r@),
    {
        proof { use_type_invariant(self); }
        &self.inner
    }
}

impl Variables {
    /// Returns a copy of the variables.
    pub fn copied(&self) -> (r: Variables)
        ensures
            r.view_map() == self.view_map(),
    {
        proof { use_type_invariant(self); }
        let mut inner: Vec<(String, String)> = Vec::new();
        let mut i: usize = 0;
        while i < self.inner.len()
            invariant
                i <= self.inner@.len(),
                names_distinct(self.inner@),
                inner@.len() == i,
                forall|j: int| 0 <= j < i ==> inner@[j].0@ == self.inner@[j].0@ && inner@[j].1@ == self.inner@[j].1@,
            decreases self.inner.len() - i,
        {
            inner.push((self.inner[i].0.clone(), self.inner[i].1.clone()));
            i = i + 1;
        }
        let r = Variables { inner };
        assert(r.view_map() =~= self.view_map()) by {
            assert forall|k: Seq<char>| #[trigger] r.view_map().contains_key(k) implies r.view_map()[k] == self.view_map()[k] by {
                let a = choose|j: int| 0 <= j < r.inner@.len() && r.inner@[j].0@ == k;
                let b = choose|j: int| 0 <= j < self.inner@.len() && self.inner@[j].0@ == k;
                assert(self.inner@[a].0@ == k);
            }
            assert forall|k: Seq<char>| #[trigger] self.view_map().contains_key(k) implies r.view_map().contains_key(k) by {
                let b = choose|j: int| 0 <= j < self.inner@.len() && self.inner@[j].0@ == k;
                assert(r.inner@[b].0@ == k);
            }
        }
        r
    }
}

impl Vars for Variables {
    open spec fn vars_map(&self) -> Map<Seq<char>, Seq<char>> {
        self.view_map()
    }

    fn var(&self, key: &str) -> (r: Option<&str>) {
        proof { use_type_invariant(self); }
        let k = key.to_owned();
        let ghost s = self.inner@;
        let mut i: usize = 0;
        while i < self.inner.len()
            invariant
                0 <= i <= self.inner.len(),
                s == self.inner@,
                names_distinct(s),
                k@ == key@,
                forall|j: int| 0 <= j < i ==> s[j].0@ != key@,
            decreases self.inner.len() - i,
        {
            if self.inner[i].0 == k {
                proof {
                    let a = choose|j: int| 0 <= j < s.len() && s[j].0@ == key@;
                    assert(a == i);
                }
                return Some(self.inner[i].1.as_str());
            }
            i = i + 1;
        }
        None
    }
}


/// Building variables from pairs gives a value exactly to the names some pair has.
pub proof fn law_named_exactly(items: Seq<(String, String)>, k: Seq<char>)
    ensures
        items_map(items).contains_key(k) <==> has_name(items, k),
    decreases items.len(),
{
    if items.len() > 0 {
        let init = items.drop_last();
        law_named_exactly(init, k);
        if has_name(items, k) && items.last().0@ != k {
            let w = choose|i: int| 0 <= i < items.len() && items[i].0@ == k;
            assert(init[w] == items[w]);
        }
        if has_name(init, k) {
            let w = choose|i: int| 0 <= i < init.len() && init[i].0@ == k;
            assert(items[w] == init[w]);
        }
    }
}

/// Building variables from pairs gives a name the value of the last pair with
/// that name.
pub proof fn law_last_value_wins(items: Seq<(String, String)>, i: int)
    requires
        0 <= i < items.len(),
        forall|j: int| i < j < items.len() ==> (#[trigger] items[j]).0@ != items[i].0@,
    ensures
        items_map(items)[items[i].0@] == items[i].1@,
    decreases items.len(),
{
    if i < items.len() - 1 {
        let init = items.drop_last();
        assert(items[items.len() - 1].0@ != items[i].0@);
        assert(init[i] == items[i]);
        assert forall|j: int| i < j < init.len() implies (#[trigger] init[j]).0@ != init[i].0@ by {
            assert(init[j] == items[j]);
        }
        law_last_value_wins(init, i);
    }
}

} // verus!
