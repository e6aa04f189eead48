//! Sets of packages, kept as a vector in ascending order of name. The order
//! makes the representation canonical: two sets that hold the same packages
//! hold the same vector, and every listing comes out sorted.

use vstd::prelude::*;
use vstd::std_specs::cmp::PartialEqSpecImpl;

use crate::order::is_ascending;
use crate::order::lemma_ascending_no_duplicates;
use crate::order::lemma_ascending_unique;
use crate::order::lemma_precedes_irreflexive;
use crate::order::lemma_precedes_total;
use crate::order::lemma_precedes_transitive;
use crate::order::place;
use crate::order::precedes;
use crate::order::Place;
use crate::package::package_of_line;
use crate::package::packages_in;
use crate::package::Package;
use crate::text::all_within;
use crate::text::chars_of;
use crate::text::lines_of;
use crate::text::pieces;
use crate::text::split_lines;
use crate::text::Span;

verus! {

/// The names of the packages of `items`, in the order of `items`.
pub open spec fn names_of(items: Seq<Package>) -> Seq<Seq<char>> {
    items.map_values(|p: Package| p@)
}

/// The packages that one more line adds to those of the lines before it.
pub proof fn lemma_packages_in_push(lines: Seq<Seq<char>>, line: Seq<char>)
    ensures
        packages_in(lines.push(line)) == match package_of_line(line) {
            Some(name) => packages_in(lines).insert(name),
            None => packages_in(lines),
        },
{
    let more = lines.push(line);
    let expected = match package_of_line(line) {
        Some(name) => packages_in(lines).insert(name),
        None => packages_in(lines),
    };
    assert forall|name: Seq<char>| packages_in(more).contains(name) <==> expected.contains(
        name,
    ) by {
        if packages_in(more).contains(name) {
            let i = choose|i: int|
                0 <= i < more.len() && package_of_line(#[trigger] more[i]) == Some(name);
            if i < lines.len() {
                assert(more[i] == lines[i]);
                assert(packages_in(lines).contains(name));
            }
        }
        if packages_in(lines).contains(name) {
            let i = choose|i: int|
                0 <= i < lines.len() && package_of_line(#[trigger] lines[i]) == Some(name);
            assert(more[i] == lines[i]);
        }
        if package_of_line(line) == Some(name) {
            assert(more[lines.len() as int] == line);
        }
    }
    assert(packages_in(more) =~= expected);
}

/// A set of packages.
#[derive(Debug, Eq)]
pub struct PackageSet {
    items: Vec<Package>,
}

impl View for PackageSet {
    type V = Set<Seq<char>>;

    /// The names of the packages in the set.
    open spec fn view(&self) -> Set<Seq<char>> {
        self.listing().to_set()
    }
}

impl PackageSet {
    #[verifier::type_invariant]
    spec fn well_formed(&self) -> bool {
        is_ascending(names_of(self.items@))
    }

    /// The names of the packages in the set, in the order in which the set
    /// lists them.
    pub closed spec fn listing(&self) -> Seq<Seq<char>> {
        names_of(self.items@)
    }

    /// The empty set.
    pub fn new() -> (set: PackageSet)
        ensures
            set@ == Set::<Seq<char>>::empty(),
            set.listing() == Seq::<Seq<char>>::empty(),
    {
        let set = PackageSet { items: Vec::new() };
        proof {
            assert(set.listing() =~= Seq::<Seq<char>>::empty());
            assert(set@ =~= Set::<Seq<char>>::empty());
        }
        set
    }

    /// The number of packages in the set.
    pub fn len(&self) -> (n: usize)
        ensures
            n == self@.len(),
            n == self.listing().len(),
    {
        proof {
            use_type_invariant(self);
            lemma_ascending_no_duplicates(self.listing());
            self.listing().unique_seq_to_set();
        }
        self.items.len()
    }

    /// Whether the set holds no package.
    pub fn is_empty(&self) -> (r: bool)
        ensures
            r == (self@ == Set::<Seq<char>>::empty()),
            r == (self.listing().len() == 0),
    {
        proof {
            if self.items@.len() == 0 {
                assert(self@ =~= Set::<Seq<char>>::empty());
            } else {
                assert(self@.contains(self.listing()[0]));
            }
        }
        self.items.len() == 0
    }

    /// The packages of the set in ascending order, each once.
    pub fn as_slice(&self) -> (items: &[Package])
        ensures
            names_of(items@) == self.listing(),
            names_of(items@).to_set() == self@,
            is_ascending(names_of(items@)),
    {
        proof {
            use_type_invariant(self);
        }
        self.items.as_slice()
    }

    /// The first position at which a package of the given name could stand:
    /// every package before it comes before the name, and none from it on does.
    fn lower_bound(&self, name: &str) -> (at: usize)
        ensures
            at <= self.items@.len(),
            forall|i: int| 0 <= i < at ==> precedes(#[trigger] self.listing()[i], name@),
            forall|i: int|
                at <= i < self.items@.len() ==> !precedes(#[trigger] self.listing()[i], name@),
    {
        proof {
            use_type_invariant(self);
        }
        let ghost names = self.listing();
        let mut low: usize = 0;
        let mut high: usize = self.items.len();
        while low < high
            invariant
                names == self.listing(),
                names.len() == self.items@.len(),
                is_ascending(names),
                low <= high <= self.items@.len(),
                forall|i: int| 0 <= i < low ==> precedes(#[trigger] names[i], name@),
                forall|i: int| high <= i < names.len() ==> !precedes(#[trigger] names[i], name@),
            decreases high - low,
        {
            let mid = low + (high - low) / 2;
            let before = match place(self.items[mid].as_str(), name) {
                Place::Before => true,
                _ => false,
            };
            assert(before == precedes(names[mid as int], name@));
            if before {
                assert forall|i: int| 0 <= i < mid + 1 implies precedes(
                    #[trigger] names[i],
                    name@,
                ) by {
                    if i < mid {
                        assert(precedes(names[i], names[mid as int]));
                        lemma_precedes_transitive(names[i], names[mid as int], name@);
                    }
                }
                low = mid + 1;
            } else {
                assert forall|i: int| mid <= i < names.len() implies !precedes(
                    #[trigger] names[i],
                    name@,
                ) by {
                    if mid < i && precedes(names[i], name@) {
                        assert(precedes(names[mid as int], names[i]));
                        lemma_precedes_transitive(names[mid as int], names[i], name@);
                    }
                }
                high = mid;
            }
        }
        low
    }

    /// Where `name` stands in the listing if the set holds it: at the position
    /// that `lower_bound` gives, and nowhere else.
    proof fn lemma_found_at(names: Seq<Seq<char>>, name: Seq<char>, at: int)
        requires
            is_ascending(names),
            0 <= at <= names.len(),
            forall|i: int| 0 <= i < at ==> precedes(#[trigger] names[i], name),
            forall|i: int| at <= i < names.len() ==> !precedes(#[trigger] names[i], name),
        ensures
            names.to_set().contains(name) <==> (at < names.len() && names[at] == name),
            forall|i: int|
                at <= i < names.len() && names[i] != name ==> precedes(name, #[trigger] names[i]),
            forall|i: int| at < i < names.len() ==> names[i] != name,
    {
        assert forall|i: int| at < i < names.len() implies names[i] != name by {
            assert(precedes(names[at], names[i]));
            assert(!precedes(names[at], name));
        }
        assert forall|i: int| at <= i < names.len() && names[i] != name implies precedes(
            name,
            #[trigger] names[i],
        ) by {
            assert(!precedes(names[i], name));
            lemma_precedes_total(name, names[i]);
        }
        if names.to_set().contains(name) {
            let k = choose|k: int| 0 <= k < names.len() && names[k] == name;
            if k < at {
                assert(precedes(names[k], name));
                lemma_precedes_irreflexive(name);
            }
        }
        if at < names.len() && names[at] == name {
            assert(names.to_set().contains(names[at]));
        }
    }

    /// Whether the set holds `package`.
    pub fn contains(&self, package: &Package) -> (r: bool)
        ensures
            r == self@.contains(package@),
    {
        self.contains_name(package.as_str())
    }

    /// Whether the set holds a package of the name `name`.
    pub fn contains_name(&self, name: &str) -> (r: bool)
        ensures
            r == self@.contains(name@),
    {
        proof {
            use_type_invariant(self);
        }
        let at = self.lower_bound(name);
        proof {
            Self::lemma_found_at(self.listing(), name@, at as int);
        }
        if at < self.items.len() {
            match place(self.items[at].as_str(), name) {
                Place::Same => true,
                _ => false,
            }
        } else {
            false
        }
    }

    /// Adds `package` to the set. Says whether the set did not hold it before.
    pub fn insert(&mut self, package: Package) -> (added: bool)
        ensures
            final(self)@ == old(self)@.insert(package@),
            added == !old(self)@.contains(package@),
    {
        proof {
            use_type_invariant(&*self);
        }
        let at = self.lower_bound(package.as_str());
        let ghost before = self.listing();
        proof {
            Self::lemma_found_at(before, package@, at as int);
        }
        let present = if at < self.items.len() {
            match place(self.items[at].as_str(), package.as_str()) {
                Place::Same => true,
                _ => false,
            }
        } else {
            false
        };
        if present {
            proof {
                assert(self@.insert(package@) =~= self@);
            }
            return false;
        }
        let ghost after = before.insert(at as int, package@);
        proof {
            assert(is_ascending(after)) by {
                assert forall|i: int, j: int| 0 <= i < j < after.len() implies precedes(
                    after[i],
                    after[j],
                ) by {
                    if j < at {
                        assert(precedes(before[i], before[j]));
                    } else if j == at {
                        assert(precedes(before[i], package@));
                    } else if i < at {
                        assert(precedes(before[i], package@));
                        assert(precedes(package@, before[j - 1]));
                        lemma_precedes_transitive(before[i], package@, before[j - 1]);
                    } else if i == at {
                        assert(precedes(package@, before[j - 1]));
                    } else {
                        assert(precedes(before[i - 1], before[j - 1]));
                    }
                }
            }
            assert(after.to_set() =~= before.to_set().insert(package@)) by {
                assert forall|name: Seq<char>| after.to_set().contains(name) <==> before.to_set().insert(
                    package@,
                ).contains(name) by {
                    if after.to_set().contains(name) {
                        let k = choose|k: int| 0 <= k < after.len() && after[k] == name;
                        if k < at {
                            assert(before[k] == name);
                            assert(before.to_set().contains(name));
                        } else if k > at {
                            assert(before[k - 1] == name);
                            assert(before.to_set().contains(name));
                        }
                    }
                    if before.to_set().contains(name) {
                        let k = choose|k: int| 0 <= k < before.len() && before[k] == name;
                        if k < at {
                            assert(after[k] == name);
                        } else {
                            assert(after[k + 1] == name);
                        }
                    }
                    if name == package@ {
                        assert(after[at as int] == name);
                    }
                }
            }
            assert(names_of(self.items@.insert(at as int, package)) =~= after);
        }
        let mut items: Vec<Package> = Vec::new();
        core::mem::swap(&mut items, &mut self.items);
        items.insert(at, package);
        self.items = items;
        true
    }

    /// Adds every package of `other` to the set.
    pub fn extend(&mut self, other: &PackageSet)
        ensures
            final(self)@ == old(self)@.union(other@),
    {
        let items = other.as_slice();
        let ghost names = names_of(items@);
        let mut i: usize = 0;
        proof {
            assert(self@ =~= old(self)@.union(names.take(0).to_set()));
        }
        while i < items.len()
            invariant
                i <= items@.len(),
                names == names_of(items@),
                names.to_set() == other@,
                self@ == old(self)@.union(names.take(i as int).to_set()),
            decreases items@.len() - i,
        {
            proof {
                assert(names.take(i + 1) =~= names.take(i as int).push(names[i as int]));
                names.take(i as int).lemma_push_to_set_commute(names[i as int]);
                assert(old(self)@.union(names.take(i as int).to_set()).insert(names[i as int])
                    =~= old(self)@.union(names.take(i + 1).to_set()));
            }
            self.insert(items[i].clone());
            i += 1;
        }
        proof {
            assert(names.take(i as int) =~= names);
        }
    }

    /// The packages of the set that `other` does not hold, in ascending order,
    /// each once.
    pub fn difference_sorted(&self, other: &PackageSet) -> (result: Vec<Package>)
        ensures
            is_ascending(names_of(result@)),
            names_of(result@).to_set() == self@.difference(other@),
    {
        proof {
            use_type_invariant(self);
        }
        let ghost names = self.listing();
        let mut result: Vec<Package> = Vec::new();
        let mut i: usize = 0;
        proof {
            assert(names_of(result@).to_set() =~= names.take(0).to_set().difference(other@));
        }
        while i < self.items.len()
            invariant
                i <= self.items@.len(),
                names == self.listing(),
                names.len() == self.items@.len(),
                is_ascending(names),
                is_ascending(names_of(result@)),
                forall|k: int, j: int|
                    0 <= k < result@.len() && i <= j < names.len() ==> precedes(
                        #[trigger] names_of(result@)[k],
                        #[trigger] names[j],
                    ),
                names_of(result@).to_set() == names.take(i as int).to_set().difference(other@),
            decreases self.items@.len() - i,
        {
            let item = &self.items[i];
            let ghost kept = names_of(result@);
            proof {
                assert(item@ == names[i as int]);
                assert(names.take(i + 1) =~= names.take(i as int).push(names[i as int]));
                names.take(i as int).lemma_push_to_set_commute(names[i as int]);
            }
            if !other.contains(item) {
                let copy = item.clone();
                proof {
                    let grown = kept.push(copy@);
                    assert(names_of(result@.push(copy)) =~= grown);
                    kept.lemma_push_to_set_commute(copy@);
                    assert(grown.to_set() =~= names.take(i + 1).to_set().difference(other@));
                    assert forall|a: int, b: int| 0 <= a < b < grown.len() implies precedes(
                        grown[a],
                        grown[b],
                    ) by {
                        if b < kept.len() {
                            assert(precedes(kept[a], kept[b]));
                        } else {
                            assert(precedes(kept[a], names[i as int]));
                        }
                    }
                    assert forall|k: int, j: int|
                        0 <= k < grown.len() && i + 1 <= j < names.len() implies precedes(
                        #[trigger] grown[k],
                        #[trigger] names[j],
                    ) by {
                        if k < kept.len() {
                            assert(precedes(kept[k], names[j]));
                        } else {
                            assert(precedes(names[i as int], names[j]));
                        }
                    }
                }
                result.push(copy);
            } else {
                proof {
                    assert(kept.to_set() =~= names.take(i + 1).to_set().difference(other@));
                }
            }
            i += 1;
        }
        proof {
            assert(names.take(i as int) =~= names);
        }
        result
    }

    /// Adds the packages that the lines `lines[from..to]` of `text` name.
    pub fn add_lines(&mut self, text: &Vec<char>, lines: &Vec<Span>, from: usize, to: usize)
        requires
            all_within(lines@, text@.len()),
            from <= to <= lines@.len(),
        ensures
            final(self)@ == old(self)@.union(
                packages_in(pieces(lines@, text@).subrange(from as int, to as int)),
            ),
    {
        let ghost all = pieces(lines@, text@);
        let mut i: usize = from;
        proof {
            assert(packages_in(all.subrange(from as int, from as int)) =~= Set::<
                Seq<char>,
            >::empty());
            assert(self@ =~= old(self)@.union(Set::<Seq<char>>::empty()));
        }
        while i < to
            invariant
                all_within(lines@, text@.len()),
                from <= i <= to <= lines@.len(),
                all == pieces(lines@, text@),
                self@ == old(self)@.union(packages_in(all.subrange(from as int, i as int))),
            decreases to - i,
        {
            let ghost seen = all.subrange(from as int, i as int);
            proof {
                assert(all.subrange(from as int, i + 1) =~= seen.push(all[i as int]));
                lemma_packages_in_push(seen, all[i as int]);
                assert(lines@[i as int].within(text@.len()));
            }
            match Package::parse_span(text, lines[i]) {
                Some(package) => {
                    proof {
                        assert(old(self)@.union(packages_in(seen)).insert(package@) =~= old(
                            self,
                        )@.union(packages_in(seen).insert(package@)));
                    }
                    self.insert(package);
                },
                None => {},
            }
            i += 1;
        }
    }

    /// The packages that the lines of `content` name.
    pub fn from_lines(content: &str) -> (set: PackageSet)
        ensures
            set@ == packages_in(lines_of(content@)),
    {
        let text = chars_of(content);
        let lines = split_lines(&text);
        let mut set = PackageSet::new();
        set.add_lines(&text, &lines, 0, lines.len());
        proof {
            let all = pieces(lines@, text@);
            assert(all.subrange(0, lines@.len() as int) =~= all);
            assert(set@ =~= packages_in(lines_of(content@)));
        }
        set
    }
}

impl Clone for PackageSet {
    fn clone(&self) -> (copy: Self)
        ensures
            copy@ == self@,
            copy.listing() == self.listing(),
    {
        proof {
            use_type_invariant(self);
        }
        let mut items: Vec<Package> = Vec::new();
        let mut i: usize = 0;
        while i < self.items.len()
            invariant
                i <= self.items@.len(),
                names_of(items@) == names_of(self.items@).take(i as int),
            decreases self.items@.len() - i,
        {
            let copy = self.items[i].clone();
            proof {
                assert(names_of(self.items@)[i as int] == self.items@[i as int]@);
                assert(names_of(items@.push(copy)) =~= names_of(items@).push(copy@));
                assert(names_of(self.items@).take(i + 1) =~= names_of(self.items@).take(
                    i as int,
                ).push(copy@));
            }
            items.push(copy);
            i += 1;
        }
        proof {
            assert(names_of(self.items@).take(i as int) =~= names_of(self.items@));
        }
        PackageSet { items }
    }
}

impl PartialEq for PackageSet {
    fn eq(&self, other: &Self) -> (r: bool) {
        proof {
            use_type_invariant(self);
            use_type_invariant(other);
            if self@ == other@ {
                lemma_ascending_unique(self.listing(), other.listing());
            }
        }
        if self.items.len() != other.items.len() {
            return false;
        }
        let mut i: usize = 0;
        while i < self.items.len()
            invariant
                i <= self.items@.len(),
                self.items@.len() == other.items@.len(),
                self@ == other@ ==> self.listing() == other.listing(),
                forall|k: int| 0 <= k < i ==> self.listing()[k] == other.listing()[k],
            decreases self.items@.len() - i,
        {
            proof {
                assert(self.listing()[i as int] == self.items@[i as int]@);
                assert(other.listing()[i as int] == other.items@[i as int]@);
            }
            match place(self.items[i].as_str(), other.items[i].as_str()) {
                Place::Same => {},
                _ => {
                    return false;
                },
            }
            i += 1;
        }
        proof {
            assert(self.listing() =~= other.listing());
        }
        true
    }
}

impl PartialEqSpecImpl for PackageSet {
    open spec fn obeys_eq_spec() -> bool {
        true
    }

    open spec fn eq_spec(&self, other: &Self) -> bool {
        self@ == other@
    }
}

} // verus!
