//! Backends: the package managers that pacdef drives. Each knows its binary,
//! the header of its section in group files and the switches of its commands,
//! gathers the packages that the groups declare for it, and compares them with
//! what is installed.

use vstd::prelude::*;

use crate::group::group_views;
use crate::group::Group;
use crate::group::GroupView;
use crate::group_file::extract_section;
use crate::group_file::section_packages;
use crate::order::is_ascending;
use crate::order::lemma_ascending_no_duplicates;
use crate::order::lemma_ascending_unique;
use crate::package::packages_in;
use crate::package::Package;
use crate::package_set::names_of;
use crate::package_set::PackageSet;
use crate::text::all_within;
use crate::text::chars_of;
use crate::text::first_word;
use crate::text::first_word_span;
use crate::text::lines_of;
use crate::text::pieces;
use crate::text::split_lines;
use crate::text::Span;

verus! {

/// The known backends.
#[derive(Clone, Copy, Debug, PartialEq, Eq, Hash, Structural)]
pub enum Backends {
    /// The package manager of the system.
    Pacman,
    /// The package manager of the Rust language.
    Rust,
}

impl Backends {
    /// The known backends in their fixed order.
    pub open spec fn all() -> Seq<Backends> {
        seq![Backends::Pacman, Backends::Rust]
    }

    /// The name of the executable that is run for this backend.
    pub open spec fn binary(self) -> Seq<char> {
        match self {
            Backends::Pacman => "pacman"@,
            Backends::Rust => "cargo"@,
        }
    }

    /// The header of this backend's section in a group file.
    pub open spec fn section(self) -> Seq<char> {
        match self {
            Backends::Pacman => "pacman"@,
            Backends::Rust => "rust"@,
        }
    }

    /// The arguments that stand before the packages when packages are
    /// installed.
    pub open spec fn switches_install(self) -> Seq<Seq<char>> {
        match self {
            Backends::Pacman => seq!["-S"@],
            Backends::Rust => seq!["install"@],
        }
    }

    /// The arguments that stand before the packages when packages are
    /// removed.
    pub open spec fn switches_remove(self) -> Seq<Seq<char>> {
        match self {
            Backends::Pacman => seq!["-Rsn"@],
            Backends::Rust => seq!["uninstall"@],
        }
    }

    /// The arguments with which the binary lists every installed package.
    pub open spec fn switches_list_all(self) -> Seq<Seq<char>> {
        match self {
            Backends::Pacman => seq!["-Qq"@],
            Backends::Rust => seq!["install"@, "--list"@],
        }
    }

    /// The arguments with which the binary lists the packages that the user
    /// asked for, as opposed to those that came as dependencies.
    pub open spec fn switches_list_explicit(self) -> Seq<Seq<char>> {
        match self {
            Backends::Pacman => seq!["-Qqe"@],
            Backends::Rust => seq!["install"@, "--list"@],
        }
    }

    /// A walk over the known backends, from the first.
    pub fn iter() -> (it: BackendIter)
        ensures
            it.remaining() == Backends::all(),
    {
        BackendIter(Some(Backends::Pacman))
    }
}

/// The known backends hold every backend, and each once.
pub proof fn lemma_every_backend_once()
    ensures
        Backends::all().no_duplicates(),
        forall|kind: Backends| Backends::all().contains(kind),
{
    let all = Backends::all();
    assert(all[0] == Backends::Pacman);
    assert(all[1] == Backends::Rust);
    assert forall|kind: Backends| all.contains(kind) by {
        match kind {
            Backends::Pacman => {
                assert(all[0] == kind);
            },
            Backends::Rust => {
                assert(all[1] == kind);
            },
        }
    }
}

/// A walk over the known backends in their fixed order.
#[derive(Debug)]
pub struct BackendIter(Option<Backends>);

/// What a walk has yet to give is an end piece of the known backends: every
/// walk, wherever it stands, goes on in the fixed order and ends after the
/// last of them.
pub proof fn lemma_remaining_is_suffix(walk: BackendIter)
    ensures
        walk.remaining().len() <= Backends::all().len(),
        walk.remaining() == Backends::all().skip(
            Backends::all().len() - walk.remaining().len(),
        ),
{
    let all = Backends::all();
    assert(all.skip(0) =~= all);
    assert(all.skip(1) =~= seq![Backends::Rust]);
    assert(all.skip(2) =~= Seq::<Backends>::empty());
}

impl BackendIter {
    /// The backends that the walk has yet to give, in order.
    pub closed spec fn remaining(&self) -> Seq<Backends> {
        match self.0 {
            Some(Backends::Pacman) => seq![Backends::Pacman, Backends::Rust],
            Some(Backends::Rust) => seq![Backends::Rust],
            None => Seq::empty(),
        }
    }

    /// The next backend of the walk, newly made and without managed packages;
    /// `None` once all were given.
    pub fn next(&mut self) -> (next: Option<Backend>)
        ensures
            match next {
                Some(backend) => {
                    &&& old(self).remaining().len() > 0
                    &&& backend@.kind == old(self).remaining()[0]
                    &&& backend@.managed == Set::<Seq<char>>::empty()
                    &&& final(self).remaining() == old(self).remaining().drop_first()
                },
                None => {
                    &&& old(self).remaining().len() == 0
                    &&& final(self).remaining() == old(self).remaining()
                },
            },
    {
        match self.0 {
            Some(Backends::Pacman) => {
                self.0 = Some(Backends::Rust);
                proof {
                    assert(seq![Backends::Pacman, Backends::Rust].drop_first() =~= seq![
                        Backends::Rust,
                    ]);
                }
                Some(Backend::new(Backends::Pacman))
            },
            Some(Backends::Rust) => {
                self.0 = None;
                proof {
                    assert(seq![Backends::Rust].drop_first() =~= Seq::<Backends>::empty());
                }
                Some(Backend::new(Backends::Rust))
            },
            None => None,
        }
    }
}

/// The texts of `items`, in order.
pub open spec fn texts_of(items: Seq<&str>) -> Seq<Seq<char>> {
    items.map_values(|s: &str| s@)
}

/// The texts of `items`, in order.
pub open spec fn strings_of(items: Seq<String>) -> Seq<Seq<char>> {
    items.map_values(|s: String| s@)
}

/// A command to run: the binary and the arguments that it is given, in order.
#[derive(Debug)]
pub struct Invocation {
    /// The name of the executable.
    pub binary: String,
    /// The arguments.
    pub args: Vec<String>,
}

/// What a command is: the text of the binary and of each argument.
pub struct InvocationView {
    /// The name of the executable.
    pub binary: Seq<char>,
    /// The arguments.
    pub args: Seq<Seq<char>>,
}

impl View for Invocation {
    type V = InvocationView;

    open spec fn view(&self) -> InvocationView {
        InvocationView { binary: self.binary@, args: strings_of(self.args@) }
    }
}

/// The command that applies `switches` to `packages`: none for no packages,
/// else the binary with the switches and then the packages, in the order given.
pub open spec fn command_for(
    binary: Seq<char>,
    switches: Seq<Seq<char>>,
    packages: Seq<Seq<char>>,
) -> Option<InvocationView> {
    if packages.len() == 0 {
        None
    } else {
        Some(InvocationView { binary, args: switches + packages })
    }
}

/// Whether `found` is the command `wanted`, or both are none.
pub open spec fn same_command(found: Option<Invocation>, wanted: Option<InvocationView>) -> bool {
    match (found, wanted) {
        (Some(f), Some(w)) => f@ == w,
        (None, None) => true,
        _ => false,
    }
}

/// The packages that a listing of installed packages names: the first word
/// of each line. An indented line has no first word and names nothing, nor
/// does a line whose first word is no package name.
pub open spec fn listed_packages(listing: Seq<char>) -> Set<Seq<char>> {
    packages_in(lines_of(listing).map_values(|line: Seq<char>| first_word(line)))
}

/// The packages that the groups of `groups` declare in the section of
/// `header`, all together.
pub open spec fn declared_in(groups: Seq<GroupView>, header: Seq<char>) -> Set<Seq<char>>
    decreases groups.len(),
{
    if groups.len() == 0 {
        Set::empty()
    } else {
        declared_in(groups.drop_last(), header).union(groups.last().section(header))
    }
}

/// A name is declared by some groups exactly if one of them declares it.
pub proof fn lemma_declared_in(groups: Seq<GroupView>, header: Seq<char>, name: Seq<char>)
    ensures
        declared_in(groups, header).contains(name) <==> exists|i: int|
            0 <= i < groups.len() && (#[trigger] groups[i]).section(header).contains(name),
    decreases groups.len(),
{
    if groups.len() > 0 {
        let before = groups.drop_last();
        lemma_declared_in(before, header, name);
        if declared_in(before, header).contains(name) {
            let i = choose|i: int|
                0 <= i < before.len() && (#[trigger] before[i]).section(header).contains(name);
            assert(groups[i] == before[i]);
        }
        if groups.last().section(header).contains(name) {
            assert(groups[groups.len() - 1].section(header).contains(name));
        }
        if exists|i: int|
            0 <= i < groups.len() && (#[trigger] groups[i]).section(header).contains(name) {
            let i = choose|i: int|
                0 <= i < groups.len() && (#[trigger] groups[i]).section(header).contains(name);
            if i < before.len() {
                assert(before[i] == groups[i]);
            }
        }
    }
}

/// Loading the same groups a second time changes nothing.
pub proof fn lemma_load_idempotent(
    managed: Set<Seq<char>>,
    groups: Seq<GroupView>,
    header: Seq<char>,
)
    ensures
        managed.union(declared_in(groups, header)).union(declared_in(groups, header))
            == managed.union(declared_in(groups, header)),
{
    assert(managed.union(declared_in(groups, header)).union(declared_in(groups, header))
        =~= managed.union(declared_in(groups, header)));
}

/// Whether `names` lists the set `set` in ascending order, each name once.
pub open spec fn lists_sorted(names: Seq<Seq<char>>, set: Set<Seq<char>>) -> bool {
    is_ascending(names) && names.to_set() == set
}

/// A sorted listing of a set holds each name of the set, and none twice.
pub proof fn lemma_sorted_listing_exact(names: Seq<Seq<char>>, set: Set<Seq<char>>)
    requires
        lists_sorted(names, set),
    ensures
        names.no_duplicates(),
        forall|name: Seq<char>| names.contains(name) <==> set.contains(name),
        set.finite(),
        names.len() == set.len(),
{
    lemma_ascending_no_duplicates(names);
    names.unique_seq_to_set();
    vstd::seq_lib::seq_to_set_is_finite(names);
}

/// A set has one sorted listing: whenever the same sets are compared, the
/// same list comes out.
pub proof fn lemma_sorted_listing_unique(
    a: Seq<Seq<char>>,
    b: Seq<Seq<char>>,
    set: Set<Seq<char>>,
)
    requires
        lists_sorted(a, set),
        lists_sorted(b, set),
    ensures
        a == b,
{
    lemma_ascending_unique(a, b);
}

/// What a backend is: which of the known backends, and the packages it
/// manages.
pub struct BackendView {
    /// Which backend this is.
    pub kind: Backends,
    /// The names of the packages that the groups declare for this backend.
    pub managed: Set<Seq<char>>,
}

/// One package manager together with the packages that it is to manage.
#[derive(Debug)]
pub struct Backend {
    kind: Backends,
    managed: PackageSet,
}

impl View for Backend {
    type V = BackendView;

    closed spec fn view(&self) -> BackendView {
        BackendView { kind: self.kind, managed: self.managed@ }
    }
}

impl Backend {
    /// The backend `kind`, managing no package yet.
    pub fn new(kind: Backends) -> (backend: Backend)
        ensures
            backend@ == (BackendView { kind, managed: Set::<Seq<char>>::empty() }),
    {
        Backend { kind, managed: PackageSet::new() }
    }

    /// Which of the known backends this is.
    pub fn kind(&self) -> (kind: Backends)
        ensures
            kind == self@.kind,
    {
        self.kind
    }

    /// The name of the executable that is run for this backend.
    pub fn get_binary(&self) -> (binary: &'static str)
        ensures
            binary@ == self@.kind.binary(),
    {
        match self.kind {
            Backends::Pacman => "pacman",
            Backends::Rust => "cargo",
        }
    }

    /// The header of this backend's section in a group file.
    pub fn get_section(&self) -> (section: &'static str)
        ensures
            section@ == self@.kind.section(),
    {
        match self.kind {
            Backends::Pacman => "pacman",
            Backends::Rust => "rust",
        }
    }

    /// The arguments that stand before the packages when packages are
    /// installed.
    pub fn get_switches_install(&self) -> (switches: &'static [&'static str])
        ensures
            texts_of(switches@) == self@.kind.switches_install(),
    {
        let switches: &'static [&'static str] = match self.kind {
            Backends::Pacman => &["-S"],
            Backends::Rust => &["install"],
        };
        proof {
            assert(texts_of(switches@) =~= self@.kind.switches_install());
        }
        switches
    }

    /// The arguments that stand before the packages when packages are
    /// removed.
    pub fn get_switches_remove(&self) -> (switches: &'static [&'static str])
        ensures
            texts_of(switches@) == self@.kind.switches_remove(),
    {
        let switches: &'static [&'static str] = match self.kind {
            Backends::Pacman => &["-Rsn"],
            Backends::Rust => &["uninstall"],
        };
        proof {
            assert(texts_of(switches@) =~= self@.kind.switches_remove());
        }
        switches
    }

    /// The packages that this backend manages.
    pub fn get_managed_packages(&self) -> (managed: &PackageSet)
        ensures
            managed@ == self@.managed,
    {
        &self.managed
    }

    /// Adds to the managed packages what each group of `groups` declares in
    /// this backend's section.
    pub fn load(&mut self, groups: &[Group])
        ensures
            final(self)@.kind == old(self)@.kind,
            final(self)@.managed == old(self)@.managed.union(
                declared_in(group_views(groups@), old(self)@.kind.section()),
            ),
    {
        let ghost header = self@.kind.section();
        let ghost all = group_views(groups@);
        let mut i: usize = 0;
        proof {
            assert(all.take(0) =~= Seq::<GroupView>::empty());
            assert(self@.managed =~= old(self)@.managed.union(declared_in(all.take(0), header)));
        }
        while i < groups.len()
            invariant
                i <= groups@.len(),
                all == group_views(groups@),
                header == old(self)@.kind.section(),
                self@.kind == old(self)@.kind,
                self@.managed == old(self)@.managed.union(declared_in(all.take(i as int), header)),
            decreases groups@.len() - i,
        {
            let declared = self.extract_packages_from_group_file_content(groups[i].content());
            proof {
                assert(all.take(i + 1).drop_last() =~= all.take(i as int));
                assert(all.take(i + 1).last() == groups@[i as int]@);
                assert(old(self)@.managed.union(declared_in(all.take(i as int), header)).union(
                    declared@,
                ) =~= old(self)@.managed.union(declared_in(all.take(i + 1), header)));
            }
            self.managed.extend(&declared);
            i += 1;
        }
        proof {
            assert(all.take(i as int) =~= all);
        }
    }

    /// Adds `packages` to the managed packages.
    pub fn add_packages(&mut self, packages: PackageSet)
        ensures
            final(self)@.kind == old(self)@.kind,
            final(self)@.managed == old(self)@.managed.union(packages@),
    {
        self.managed.extend(&packages);
    }

    /// The packages that a group file of the content `content` declares in
    /// this backend's section.
    pub fn extract_packages_from_group_file_content(&self, content: &str) -> (declared:
        PackageSet)
        ensures
            declared@ == section_packages(content@, self@.kind.section()),
    {
        extract_section(content, self.get_section())
    }

    /// The managed packages that are not among `installed`, the packages
    /// installed on the system: what is to be installed. In ascending order,
    /// each once.
    pub fn get_missing_packages_sorted(&self, installed: &PackageSet) -> (missing: Vec<Package>)
        ensures
            lists_sorted(names_of(missing@), self@.managed.difference(installed@)),
    {
        self.managed.difference_sorted(installed)
    }

    /// The packages of `explicitly_installed`, those that the user asked the
    /// system to install, that are not managed: what no group declares. In
    /// ascending order, each once.
    pub fn get_unmanaged_packages_sorted(&self, explicitly_installed: &PackageSet) -> (unmanaged:
        Vec<Package>)
        ensures
            lists_sorted(names_of(unmanaged@), explicitly_installed@.difference(self@.managed)),
    {
        explicitly_installed.difference_sorted(&self.managed)
    }

    /// The texts of `switches` followed by the names of `packages`.
    fn arguments(switches: &[&str], packages: &[Package]) -> (args: Vec<String>)
        ensures
            strings_of(args@) == texts_of(switches@) + names_of(packages@),
    {
        let mut args: Vec<String> = Vec::new();
        let mut i: usize = 0;
        proof {
            assert(strings_of(args@) =~= texts_of(switches@).take(0));
        }
        while i < switches.len()
            invariant
                i <= switches@.len(),
                strings_of(args@) == texts_of(switches@).take(i as int),
            decreases switches@.len() - i,
        {
            let switch = switches[i].to_owned();
            proof {
                assert(texts_of(switches@)[i as int] == switch@);
                assert(strings_of(args@.push(switch)) =~= strings_of(args@).push(switch@));
                assert(texts_of(switches@).take(i + 1) =~= texts_of(switches@).take(
                    i as int,
                ).push(switch@));
            }
            args.push(switch);
            i += 1;
        }
        let mut j: usize = 0;
        proof {
            assert(texts_of(switches@).take(i as int) =~= texts_of(switches@));
            assert(strings_of(args@) =~= texts_of(switches@) + names_of(packages@).take(0));
        }
        while j < packages.len()
            invariant
                j <= packages@.len(),
                strings_of(args@) == texts_of(switches@) + names_of(packages@).take(j as int),
            decreases packages@.len() - j,
        {
            let name = packages[j].to_string();
            proof {
                assert(names_of(packages@)[j as int] == name@);
                assert(strings_of(args@.push(name)) =~= strings_of(args@).push(name@));
                assert(names_of(packages@).take(j + 1) =~= names_of(packages@).take(
                    j as int,
                ).push(name@));
                assert((texts_of(switches@) + names_of(packages@).take(j as int)).push(name@)
                    =~= texts_of(switches@) + names_of(packages@).take(j + 1));
            }
            args.push(name);
            j += 1;
        }
        proof {
            assert(names_of(packages@).take(j as int) =~= names_of(packages@));
        }
        args
    }

    /// The command that applies `switches` to `packages`.
    fn command(&self, switches: &[&str], packages: &[Package]) -> (command: Option<Invocation>)
        ensures
            same_command(
                command,
                command_for(self@.kind.binary(), texts_of(switches@), names_of(packages@)),
            ),
    {
        if packages.len() == 0 {
            return None;
        }
        let args = Backend::arguments(switches, packages);
        Some(Invocation { binary: self.get_binary().to_owned(), args })
    }

    /// The command that runs the binary with `switches` alone.
    fn query(&self, switches: &[&str]) -> (query: Invocation)
        ensures
            query@ == (InvocationView {
                binary: self@.kind.binary(),
                args: texts_of(switches@),
            }),
    {
        let args = Backend::arguments(switches, &[]);
        proof {
            let none: Seq<Package> = Seq::empty();
            assert(texts_of(switches@) + names_of(none) =~= texts_of(switches@));
        }
        Invocation { binary: self.get_binary().to_owned(), args }
    }

    /// The command whose output lists every package that is installed on the
    /// system.
    pub fn query_all_installed(&self) -> (query: Invocation)
        ensures
            query@ == (InvocationView {
                binary: self@.kind.binary(),
                args: self@.kind.switches_list_all(),
            }),
    {
        let switches: &'static [&'static str] = match self.kind {
            Backends::Pacman => &["-Qq"],
            Backends::Rust => &["install", "--list"],
        };
        proof {
            assert(texts_of(switches@) =~= self@.kind.switches_list_all());
        }
        self.query(switches)
    }

    /// The command whose output lists the packages that the user asked the
    /// system to install.
    pub fn query_explicitly_installed(&self) -> (query: Invocation)
        ensures
            query@ == (InvocationView {
                binary: self@.kind.binary(),
                args: self@.kind.switches_list_explicit(),
            }),
    {
        let switches: &'static [&'static str] = match self.kind {
            Backends::Pacman => &["-Qqe"],
            Backends::Rust => &["install", "--list"],
        };
        proof {
            assert(texts_of(switches@) =~= self@.kind.switches_list_explicit());
        }
        self.query(switches)
    }

    /// The packages that `listing` names, the output of one of the two
    /// listing commands.
    pub fn installed_from_listing(&self, listing: &str) -> (installed: PackageSet)
        ensures
            installed@ == listed_packages(listing@),
    {
        let text = chars_of(listing);
        let lines = split_lines(&text);
        let mut words: Vec<Span> = Vec::new();
        let mut i: usize = 0;
        let ghost first_words = pieces(lines@, text@).map_values(|line: Seq<char>| first_word(line));
        proof {
            assert(pieces(words@, text@) =~= first_words.take(0));
        }
        while i < lines.len()
            invariant
                i <= lines@.len(),
                all_within(lines@, text@.len()),
                all_within(words@, text@.len()),
                first_words == pieces(lines@, text@).map_values(
                    |line: Seq<char>| first_word(line),
                ),
                pieces(words@, text@) == first_words.take(i as int),
            decreases lines@.len() - i,
        {
            proof {
                assert(lines@[i as int].within(text@.len()));
            }
            let word = first_word_span(&text, lines[i]);
            proof {
                assert(pieces(lines@, text@)[i as int] == lines@[i as int].of(text@));
                assert(first_words[i as int] == word.of(text@));
                assert(pieces(words@.push(word), text@) =~= pieces(words@, text@).push(
                    word.of(text@),
                ));
                assert(first_words.take(i + 1) =~= first_words.take(i as int).push(
                    first_words[i as int],
                ));
            }
            words.push(word);
            i += 1;
        }
        let mut installed = PackageSet::new();
        installed.add_lines(&text, &words, 0, words.len());
        proof {
            assert(first_words.take(i as int) =~= first_words);
            assert(first_words.subrange(0, words@.len() as int) =~= first_words);
            assert(installed@ =~= packages_in(first_words));
        }
        installed
    }

    /// The command that installs `packages`: this backend's binary with its
    /// switches for installing and then the name of each package, in the
    /// order given. No command for no packages.
    pub fn install_packages(&self, packages: &[Package]) -> (command: Option<Invocation>)
        ensures
            same_command(
                command,
                command_for(
                    self@.kind.binary(),
                    self@.kind.switches_install(),
                    names_of(packages@),
                ),
            ),
            command is None <==> packages@.len() == 0,
    {
        self.command(self.get_switches_install(), packages)
    }

    /// The command that removes `packages`: this backend's binary with its
    /// switches for removing and then the name of each package, in the order
    /// given. No command for no packages.
    pub fn remove_packages(&self, packages: Vec<Package>) -> (command: Option<Invocation>)
        ensures
            same_command(
                command,
                command_for(
                    self@.kind.binary(),
                    self@.kind.switches_remove(),
                    names_of(packages@),
                ),
            ),
            command is None <==> packages@.len() == 0,
    {
        self.command(self.get_switches_remove(), packages.as_slice())
    }
}

} // verus!
