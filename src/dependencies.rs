//! The dependency set of a project or of the workspace: two collections of
//! package names, each kept sorted and free of repeats.
use vstd::prelude::*;

use crate::order::{
    compare_names, lemma_name_lt_asymmetric, lemma_name_lt_irreflexive, lemma_name_lt_transitive,
    name_lt,
};
use crate::LibraryError;

verus! {

/// The names a vector of strings holds, in order.
pub open spec fn names_of(v: Seq<String>) -> Seq<Seq<char>> {
    v.map_values(|s: String| s@)
}

/// Each name comes strictly before the next: sorted, and no name twice.
pub open spec fn strictly_sorted(s: Seq<Seq<char>>) -> bool {
    forall|i: int, j: int| 0 <= i < j < s.len() ==> name_lt(#[trigger] s[i], #[trigger] s[j])
}

/// What a dependency set holds: its two collections of names, in order.
pub struct DependencyNames {
    pub required: Seq<Seq<char>>,
    pub development: Seq<Seq<char>>,
}

pub struct EsteemDependencies {
    /// dependencies of the project or workspace
    required: Vec<String>,
    /// development dependencies of the project or workspace
    development: Vec<String>,
}

impl View for EsteemDependencies {
    type V = DependencyNames;

    closed spec fn view(&self) -> DependencyNames {
        DependencyNames { required: names_of(self.required@), development: names_of(self.development@) }
    }
}

impl DependencyNames {
    pub open spec fn wf(self) -> bool {
        strictly_sorted(self.required) && strictly_sorted(self.development)
    }

    pub open spec fn required_set(self) -> Set<Seq<char>> {
        self.required.to_set()
    }

    pub open spec fn development_set(self) -> Set<Seq<char>> {
        self.development.to_set()
    }

    /// Every name of the set, required or development.
    pub open spec fn all_names(self) -> Set<Seq<char>> {
        self.required_set() + self.development_set()
    }

    /// `after` is `self` with `names` added as development dependencies or
    /// as required ones.
    pub open spec fn names_added(self, after: DependencyNames, names: Seq<Seq<char>>, is_development: bool) -> bool {
        &&& after.wf()
        &&& is_development ==> after.development_set() == self.development_set() + names.to_set()
            && after.required == self.required
        &&& !is_development ==> after.required_set() == self.required_set() + names.to_set()
            && after.development == self.development
    }

    /// Each of `names` can be taken out in turn: each is there, and none
    /// comes twice.
    pub open spec fn can_remove_all(self, names: Seq<Seq<char>>) -> bool {
        &&& names.no_duplicates()
        &&& forall|k: int| 0 <= k < names.len() ==> self.all_names().contains(#[trigger] names[k])
    }

    /// `after` is `self` with `names` taken out of both collections.
    pub open spec fn names_removed(self, after: DependencyNames, names: Seq<Seq<char>>) -> bool {
        &&& after.wf()
        &&& after.required_set() == self.required_set() - names.to_set()
        &&& after.development_set() == self.development_set() - names.to_set()
    }
}

/// The development names followed by the required ones hold every name of
/// the set, and no other.
pub proof fn lemma_concat_holds_all_names(d: DependencyNames)
    ensures
        forall|name: Seq<char>|
            #![trigger (d.development + d.required).contains(name)]
            (d.development + d.required).contains(name) <==> d.all_names().contains(name),
{
    let c = d.development + d.required;
    assert forall|name: Seq<char>| #![trigger c.contains(name)] c.contains(name) <==> d.all_names().contains(name) by {
        if c.contains(name) {
            let k = choose|k: int| 0 <= k < c.len() && c[k] == name;
            if k < d.development.len() {
                assert(d.development[k] == name);
            } else {
                assert(d.required[k - d.development.len()] == name);
            }
        }
        if d.development.contains(name) {
            let k = choose|k: int| 0 <= k < d.development.len() && d.development[k] == name;
            assert(c[k] == name);
        }
        if d.required.contains(name) {
            let k = choose|k: int| 0 <= k < d.required.len() && d.required[k] == name;
            assert(c[d.development.len() + k] == name);
        }
    }
}

/// Two strictly sorted sequences with the same names are the same sequence.
pub proof fn lemma_sorted_unique(s: Seq<Seq<char>>, t: Seq<Seq<char>>)
    requires
        strictly_sorted(s),
        strictly_sorted(t),
        s.to_set() == t.to_set(),
    ensures
        s == t,
    decreases s.len(),
{
    if s.len() == 0 {
        if t.len() > 0 {
            assert(t.to_set().contains(t[0]));
        }
        assert(s =~= t);
    } else if t.len() == 0 {
        assert(s.to_set().contains(s[0]));
    } else {
        // the first element of each is the least name of the set
        assert(t.to_set().contains(s[0]));
        assert(s.to_set().contains(t[0]));
        let i = choose|i: int| 0 <= i < t.len() && t[i] == s[0];
        let j = choose|j: int| 0 <= j < s.len() && s[j] == t[0];
        if i > 0 && j > 0 {
            assert(name_lt(t[0], t[i]));
            assert(name_lt(s[0], s[j]));
            lemma_name_lt_asymmetric(t[0], s[0]);
        }
        if i > 0 && j == 0 {
            assert(name_lt(t[0], t[i]));
            lemma_name_lt_irreflexive(t[0]);
        }
        if i == 0 && j > 0 {
            assert(name_lt(s[0], s[j]));
            lemma_name_lt_irreflexive(s[0]);
        }
        assert(s[0] == t[0]);
        let s1 = s.drop_first();
        let t1 = t.drop_first();
        assert forall|x| s1.to_set().contains(x) implies t1.to_set().contains(x) by {
            let k = choose|k: int| 0 <= k < s1.len() && s1[k] == x;
            assert(name_lt(s[0], s[k + 1]));
            assert(t.to_set().contains(x));
            let m = choose|m: int| 0 <= m < t.len() && t[m] == x;
            if m == 0 {
                lemma_name_lt_irreflexive(s[0]);
            }
            assert(t1[m - 1] == x);
        }
        assert forall|x| t1.to_set().contains(x) implies s1.to_set().contains(x) by {
            let k = choose|k: int| 0 <= k < t1.len() && t1[k] == x;
            assert(name_lt(t[0], t[k + 1]));
            assert(s.to_set().contains(x));
            let m = choose|m: int| 0 <= m < s.len() && s[m] == x;
            if m == 0 {
                lemma_name_lt_irreflexive(t[0]);
            }
            assert(s1[m - 1] == x);
        }
        assert(s1.to_set() =~= t1.to_set());
        lemma_sorted_unique(s1, t1);
        assert(s =~= seq![s[0]] + s1);
        assert(t =~= seq![t[0]] + t1);
    }
}

/// Where `name` would stand in the sorted `v`, and whether it is there.
fn locate(v: &Vec<String>, name: &String) -> (r: (usize, bool))
    requires
        strictly_sorted(names_of(v@)),
    ensures
        r.0 <= v@.len(),
        forall|k: int| 0 <= k < r.0 ==> name_lt(#[trigger] v@[k]@, name@),
        r.1 ==> r.0 < v@.len() && v@[r.0 as int]@ == name@,
        !r.1 ==> forall|k: int| r.0 <= k < v@.len() ==> name_lt(name@, #[trigger] v@[k]@),
        r.1 <==> names_of(v@).contains(name@),
{
    let ghost s = names_of(v@);
    let mut i: usize = 0;
    while i < v.len()
        invariant
            s == names_of(v@),
            strictly_sorted(s),
            i <= v@.len(),
            forall|k: int| 0 <= k < i ==> name_lt(#[trigger] v@[k]@, name@),
        decreases v@.len() - i,
    {
        let c = compare_names(&v[i], name);
        if c == 0 {
            proof {
                assert(s[i as int] == name@);
            }
            return (i, true);
        } else if c > 0 {
            proof {
                assert forall|k: int| i <= k < v@.len() implies name_lt(name@, #[trigger] v@[k]@) by {
                    if k > i {
                        assert(name_lt(s[i as int], s[k]));
                        lemma_name_lt_transitive(name@, v@[i as int]@, v@[k]@);
                    }
                }
                assert forall|k: int| 0 <= k < s.len() implies s[k] != name@ by {
                    lemma_name_lt_irreflexive(name@);
                }
            }
            return (i, false);
        }
        i = i + 1;
    }
    proof {
        assert forall|k: int| 0 <= k < s.len() implies s[k] != name@ by {
            lemma_name_lt_irreflexive(name@);
        }
    }
    (i, false)
}

/// Puts `name` into the sorted `v`, where it belongs, unless it is there.
fn insert_name(v: &mut Vec<String>, name: String)
    requires
        strictly_sorted(names_of(old(v)@)),
    ensures
        strictly_sorted(names_of(final(v)@)),
        names_of(final(v)@).to_set() == names_of(old(v)@).to_set().insert(name@),
        names_of(old(v)@).contains(name@) ==> final(v)@ == old(v)@,
{
    let (i, found) = locate(v, &name);
    if found {
        proof {
            assert(names_of(v@).to_set().contains(name@));
            assert(names_of(v@).to_set().insert(name@) =~= names_of(v@).to_set());
        }
        return;
    }
    let ghost s = names_of(v@);
    let ghost n = name@;
    v.insert(i, name);
    proof {
        let t = names_of(v@);
        assert(t =~= s.insert(i as int, n));
        assert forall|a: int, b: int| 0 <= a < b < t.len() implies name_lt(#[trigger] t[a], #[trigger] t[b]) by {
            if b < i {
                assert(t[a] == s[a] && t[b] == s[b]);
            } else if b == i {
                assert(t[a] == s[a]);
            } else if a == i {
                assert(t[b] == s[b - 1]);
            } else if a < i {
                assert(t[a] == s[a] && t[b] == s[b - 1]);
                lemma_name_lt_transitive(t[a], n, t[b]);
            } else {
                assert(t[a] == s[a - 1] && t[b] == s[b - 1]);
            }
        }
        assert forall|x| t.to_set().contains(x) <==> s.to_set().insert(n).contains(x) by {
            if t.to_set().contains(x) {
                let k = choose|k: int| 0 <= k < t.len() && t[k] == x;
                if k < i {
                    assert(s[k] == x);
                } else if k > i {
                    assert(s[k - 1] == x);
                }
            }
            if s.to_set().contains(x) {
                let k = choose|k: int| 0 <= k < s.len() && s[k] == x;
                if k < i {
                    assert(t[k] == x);
                } else {
                    assert(t[k + 1] == x);
                }
            }
            if x == n {
                assert(t[i as int] == n);
            }
        }
        assert(t.to_set() =~= s.to_set().insert(n));
    }
}

/// Takes `name` out of the sorted `v`; false, and `v` unchanged, where it is
/// not there.
fn take_name(v: &mut Vec<String>, name: &String) -> (r: bool)
    requires
        strictly_sorted(names_of(old(v)@)),
    ensures
        strictly_sorted(names_of(final(v)@)),
        r == names_of(old(v)@).contains(name@),
        names_of(final(v)@).to_set() == names_of(old(v)@).to_set().remove(name@),
        !r ==> final(v)@ == old(v)@,
{
    let (i, found) = locate(v, name);
    if !found {
        proof {
            assert(!names_of(v@).to_set().contains(name@));
            assert(names_of(v@).to_set().remove(name@) =~= names_of(v@).to_set());
        }
        return false;
    }
    let ghost s = names_of(v@);
    let ghost n = name@;
    v.remove(i);
    proof {
        let t = names_of(v@);
        assert(t =~= s.remove(i as int));
        assert forall|a: int, b: int| 0 <= a < b < t.len() implies name_lt(#[trigger] t[a], #[trigger] t[b]) by {
            if b < i {
                assert(t[a] == s[a] && t[b] == s[b]);
            } else if a < i {
                assert(t[a] == s[a] && t[b] == s[b + 1]);
            } else {
                assert(t[a] == s[a + 1] && t[b] == s[b + 1]);
            }
        }
        assert forall|x| t.to_set().contains(x) <==> s.to_set().remove(n).contains(x) by {
            if t.to_set().contains(x) {
                let k = choose|k: int| 0 <= k < t.len() && t[k] == x;
                if k < i {
                    assert(s[k] == x);
                    assert(name_lt(s[k], s[i as int]));
                    lemma_name_lt_irreflexive(x);
                } else {
                    assert(s[k + 1] == x);
                    assert(name_lt(s[i as int], s[k + 1]));
                    lemma_name_lt_irreflexive(x);
                }
            }
            if s.to_set().contains(x) && x != n {
                let k = choose|k: int| 0 <= k < s.len() && s[k] == x;
                if k < i {
                    assert(t[k] == x);
                } else {
                    assert(k != i);
                    assert(t[k - 1] == x);
                }
            }
        }
        assert(t.to_set() =~= s.to_set().remove(n));
    }
    true
}


/// A copy of the strings of `v`, in the same order.
pub(crate) fn copy_strings(v: &Vec<String>) -> (r: Vec<String>)
    ensures
        names_of(r@) == names_of(v@),
{
    let mut r: Vec<String> = Vec::new();
    let mut i: usize = 0;
    while i < v.len()
        invariant
            i <= v@.len(),
            names_of(r@) == names_of(v@).take(i as int),
        decreases v@.len() - i,
    {
        let ghost before = r@;
        let c = v[i].clone();
        r.push(c);
        proof {
            assert(r@ == before.push(v@[i as int]));
            before.lemma_push_map_commute(|s: String| s@, v@[i as int]);
            assert(names_of(v@).take(i + 1) =~= names_of(v@).take(i as int).push(v@[i as int]@));
            assert(names_of(r@) =~= names_of(v@).take(i + 1));
        }
        i = i + 1;
    }
    proof {
        assert(names_of(v@).take(i as int) =~= names_of(v@));
    }
    r
}

impl Default for EsteemDependencies {
    fn default() -> (r: Self)
        ensures
            r@.wf(),
            r@.required == Seq::<Seq<char>>::empty(),
            r@.development == Seq::<Seq<char>>::empty(),
    {
        EsteemDependencies::new()
    }
}

impl EsteemDependencies {
    /// An empty dependency set.
    pub fn new() -> (r: Self)
        ensures
            r@.wf(),
            r@.required == Seq::<Seq<char>>::empty(),
            r@.development == Seq::<Seq<char>>::empty(),
    {
        let r = EsteemDependencies { required: Vec::new(), development: Vec::new() };
        proof {
            assert(r@.required =~= Seq::<Seq<char>>::empty());
            assert(r@.development =~= Seq::<Seq<char>>::empty());
        }
        r
    }

    /// The set with the given names, each kept once and in order, whatever
    /// the order and the repeats of the lists.
    pub fn from_lists(required: &Vec<String>, development: &Vec<String>) -> (r: Self)
        ensures
            r@.wf(),
            r@.required_set() == names_of(required@).to_set(),
            r@.development_set() == names_of(development@).to_set(),
    {
        let mut r = EsteemDependencies::new();
        let mut i: usize = 0;
        while i < required.len()
            invariant
                i <= required@.len(),
                r@.wf(),
                r@.required_set() == names_of(required@).take(i as int).to_set(),
                r@.development == Seq::<Seq<char>>::empty(),
            decreases required@.len() - i,
        {
            r.add_required_dependency(required[i].clone());
            proof {
                assert(names_of(required@).take(i + 1) =~= names_of(required@).take(i as int).push(
                    required@[i as int]@,
                ));
                names_of(required@).take(i as int).lemma_push_to_set_commute(required@[i as int]@);
            }
            i = i + 1;
        }
        proof {
            assert(names_of(required@).take(i as int) =~= names_of(required@));
        }
        let mut j: usize = 0;
        while j < development.len()
            invariant
                j <= development@.len(),
                r@.wf(),
                r@.required_set() == names_of(required@).to_set(),
                r@.development_set() == names_of(development@).take(j as int).to_set(),
            decreases development@.len() - j,
        {
            r.add_development_dependency(development[j].clone());
            proof {
                assert(names_of(development@).take(j + 1) =~= names_of(development@).take(
                    j as int,
                ).push(development@[j as int]@));
                names_of(development@).take(j as int).lemma_push_to_set_commute(
                    development@[j as int]@,
                );
            }
            j = j + 1;
        }
        proof {
            assert(names_of(development@).take(j as int) =~= names_of(development@));
        }
        r
    }

    /// A copy of this set.
    pub fn duplicate(&self) -> (r: Self)
        ensures
            r@ == self@,
    {
        EsteemDependencies {
            required: copy_strings(&self.required),
            development: copy_strings(&self.development),
        }
    }

    /// Adds a required dependency; adding one that is there changes nothing.
    pub fn add_required_dependency(&mut self, dependency: String)
        requires
            old(self)@.wf(),
        ensures
            final(self)@.wf(),
            final(self)@.required_set() == old(self)@.required_set().insert(dependency@),
            final(self)@.development == old(self)@.development,
            old(self)@.required_set().contains(dependency@) ==> final(self)@ == old(self)@,
    {
        insert_name(&mut self.required, dependency);
    }

    /// Adds a development dependency; adding one that is there changes
    /// nothing.
    pub fn add_development_dependency(&mut self, dependency: String)
        requires
            old(self)@.wf(),
        ensures
            final(self)@.wf(),
            final(self)@.development_set() == old(self)@.development_set().insert(dependency@),
            final(self)@.required == old(self)@.required,
            old(self)@.development_set().contains(dependency@) ==> final(self)@ == old(self)@,
    {
        insert_name(&mut self.development, dependency);
    }

    /// Adds a dependency to the development collection or to the required
    /// one; adding one that is there changes nothing.
    pub fn add_dependency(&mut self, dependency: String, is_development: bool)
        requires
            old(self)@.wf(),
        ensures
            final(self)@.wf(),
            is_development ==> final(self)@.development_set() == old(self)@.development_set().insert(
                dependency@,
            ) && final(self)@.required == old(self)@.required,
            !is_development ==> final(self)@.required_set() == old(self)@.required_set().insert(
                dependency@,
            ) && final(self)@.development == old(self)@.development,
            old(self)@.all_names().contains(dependency@) && (is_development ==> old(
                self,
            )@.development_set().contains(dependency@)) && (!is_development ==> old(
                self,
            )@.required_set().contains(dependency@)) ==> final(self)@ == old(self)@,
    {
        if is_development {
            self.add_development_dependency(dependency);
        } else {
            self.add_required_dependency(dependency);
        }
    }

    /// Removes a required dependency; `NotFound`, and nothing changed, where
    /// it is not there.
    pub fn remove_required_dependency(&mut self, dependency: String) -> (r: Result<(), LibraryError>)
        requires
            old(self)@.wf(),
        ensures
            final(self)@.wf(),
            r is Ok <==> old(self)@.required_set().contains(dependency@),
            r is Err ==> r == Err::<(), LibraryError>(LibraryError::NotFound) && final(self)@ == old(self)@,
            final(self)@.required_set() == old(self)@.required_set().remove(dependency@),
            final(self)@.development == old(self)@.development,
    {
        if take_name(&mut self.required, &dependency) {
            Ok(())
        } else {
            Err(LibraryError::NotFound)
        }
    }

    /// Removes a development dependency; `NotFound`, and nothing changed,
    /// where it is not there.
    pub fn remove_development_dependency(&mut self, dependency: String) -> (r: Result<(), LibraryError>)
        requires
            old(self)@.wf(),
        ensures
            final(self)@.wf(),
            r is Ok <==> old(self)@.development_set().contains(dependency@),
            r is Err ==> r == Err::<(), LibraryError>(LibraryError::NotFound) && final(self)@ == old(self)@,
            final(self)@.development_set() == old(self)@.development_set().remove(dependency@),
            final(self)@.required == old(self)@.required,
    {
        if take_name(&mut self.development, &dependency) {
            Ok(())
        } else {
            Err(LibraryError::NotFound)
        }
    }

    /// Removes a dependency from both collections: success where it was in
    /// either, `NotFound`, and nothing changed, where it was in neither.
    pub fn remove_dependency(&mut self, dependency: String) -> (r: Result<(), LibraryError>)
        requires
            old(self)@.wf(),
        ensures
            final(self)@.wf(),
            final(self)@.required_set() == old(self)@.required_set().remove(dependency@),
            final(self)@.development_set() == old(self)@.development_set().remove(dependency@),
            r is Ok <==> old(self)@.all_names().contains(dependency@),
            r is Err ==> r == Err::<(), LibraryError>(LibraryError::NotFound) && final(self)@
                == old(self)@,
    {
        let in_development = take_name(&mut self.development, &dependency);
        let in_required = take_name(&mut self.required, &dependency);
        if in_development || in_required {
            Ok(())
        } else {
            Err(LibraryError::NotFound)
        }
    }

    /// Whether `name` is a dependency of either kind.
    pub fn contains_dependency(&self, name: &String) -> (r: bool)
        requires
            self@.wf(),
        ensures
            r == self@.all_names().contains(name@),
    {
        let (_, in_development) = locate(&self.development, name);
        let (_, in_required) = locate(&self.required, name);
        in_development || in_required
    }

    /// Adds each of `to_add`, as a development dependency or as a required
    /// one.
    pub fn add_all(&mut self, to_add: &Vec<String>, is_development: bool)
        requires
            old(self)@.wf(),
        ensures
            old(self)@.names_added(final(self)@, names_of(to_add@), is_development),
    {
        let ghost names = names_of(to_add@);
        let mut i: usize = 0;
        proof {
            assert(names.take(0).to_set() =~= Set::<Seq<char>>::empty());
            assert(self@.required_set() + Set::<Seq<char>>::empty() =~= self@.required_set());
            assert(self@.development_set() + Set::<Seq<char>>::empty() =~= self@.development_set());
        }
        while i < to_add.len()
            invariant
                i <= to_add@.len(),
                names == names_of(to_add@),
                old(self)@.names_added(self@, names.take(i as int), is_development),
            decreases to_add@.len() - i,
        {
            proof {
                assert(names.take(i + 1) =~= names.take(i as int).push(names[i as int]));
                names.take(i as int).lemma_push_to_set_commute(names[i as int]);
            }
            self.add_dependency(to_add[i].clone(), is_development);
            proof {
                if is_development {
                    assert(self@.development_set() =~= old(self)@.development_set() + names.take(
                        i + 1,
                    ).to_set());
                } else {
                    assert(self@.required_set() =~= old(self)@.required_set() + names.take(
                        i + 1,
                    ).to_set());
                }
            }
            i = i + 1;
        }
        proof {
            assert(names.take(i as int) =~= names);
        }
    }

    /// Removes each of `to_remove` from both collections, all or nothing:
    /// `NotFound`, and nothing changed, where one of them is in neither
    /// collection by its turn.
    pub fn remove_all(&mut self, to_remove: &Vec<String>) -> (r: Result<(), LibraryError>)
        requires
            old(self)@.wf(),
        ensures
            r is Ok <==> old(self)@.can_remove_all(names_of(to_remove@)),
            r is Ok ==> old(self)@.names_removed(final(self)@, names_of(to_remove@)),
            r is Err ==> r == Err::<(), LibraryError>(LibraryError::NotFound) && final(self)@
                == old(self)@,
    {
        let ghost names = names_of(to_remove@);
        let ghost start = self@;
        let mut work = self.duplicate();
        let mut i: usize = 0;
        proof {
            assert(names.take(0).to_set() =~= Set::<Seq<char>>::empty());
            assert(start.required_set() - Set::<Seq<char>>::empty() =~= start.required_set());
            assert(start.development_set() - Set::<Seq<char>>::empty() =~= start.development_set());
        }
        while i < to_remove.len()
            invariant
                i <= to_remove@.len(),
                names == names_of(to_remove@),
                start == old(self)@,
                self@ == start,
                start.wf(),
                start.names_removed(work@, names.take(i as int)),
                start.can_remove_all(names.take(i as int)),
            decreases to_remove@.len() - i,
        {
            let ghost before = work@;
            let ghost x = names[i as int];
            let ghost prefix = names.take(i as int);
            proof {
                assert(names.take(i + 1) =~= prefix.push(x));
                prefix.lemma_push_to_set_commute(x);
                assert(to_remove@[i as int]@ == x);
            }
            match work.remove_dependency(to_remove[i].clone()) {
                Ok(()) => {},
                Err(e) => {
                    proof {
                        if start.can_remove_all(names) {
                            assert(start.all_names().contains(names[i as int]));
                            assert(before.all_names().contains(x) || prefix.to_set().contains(x));
                            if prefix.to_set().contains(x) {
                                let k = choose|k: int| 0 <= k < prefix.len() && prefix[k] == x;
                                assert(names[k] == names[i as int]);
                            } else {
                                assert(before.all_names().contains(x));
                            }
                        }
                    }
                    return Err(e);
                },
            }
            proof {
                let next = names.take(i + 1);
                assert(work@.required_set() =~= start.required_set() - next.to_set());
                assert(work@.development_set() =~= start.development_set() - next.to_set());
                assert(before.all_names().contains(x));
                assert(!prefix.contains(x));
                assert forall|a: int, b: int| 0 <= a < next.len() && 0 <= b < next.len() && a != b
                    implies next[a] != next[b] by {
                    if a < i && b < i {
                        assert(prefix[a] != prefix[b]);
                    } else if a < i {
                        assert(prefix.contains(next[a]));
                    } else if b < i {
                        assert(prefix.contains(next[b]));
                    }
                }
                assert forall|k: int| 0 <= k < next.len() implies start.all_names().contains(#[trigger] next[k]) by {
                    if k < i {
                        assert(prefix[k] == next[k]);
                    }
                }
            }
            i = i + 1;
        }
        proof {
            assert(names.take(i as int) =~= names);
        }
        *self = work;
        Ok(())
    }

    /// The required names, in order.
    pub fn required_list(&self) -> (r: Vec<String>)
        ensures
            names_of(r@) == self@.required,
    {
        copy_strings(&self.required)
    }

    /// The development names, in order.
    pub fn development_list(&self) -> (r: Vec<String>)
        ensures
            names_of(r@) == self@.development,
    {
        copy_strings(&self.development)
    }

    /// All names of the set: the development ones, then the required ones.
    pub fn get_all_dependencies(&self) -> (r: Vec<String>)
        ensures
            names_of(r@) == self@.development + self@.required,
    {
        let mut r = copy_strings(&self.development);
        let mut tail = copy_strings(&self.required);
        r.append(&mut tail);
        proof {
            assert(names_of(r@) =~= self@.development + self@.required);
        }
        r
    }
}

} // verus!
