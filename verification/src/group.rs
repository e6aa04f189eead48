//! Groups: named declaration files, and the loading of a directory of them.

use core::cmp::Ordering;
use vstd::prelude::*;
use vstd::std_specs::cmp::PartialEqSpecImpl;
use vstd::std_specs::cmp::PartialOrdSpec;
use vstd::std_specs::cmp::PartialOrdSpecImpl;

use crate::group_file::declared_packages;
use crate::group_file::ends_section;
use crate::group_file::header_line;
use crate::group_file::lemma_single_section;
use crate::group_file::section_packages;
use crate::order::place;
use crate::order::place_of;
use crate::order::precedes;
use crate::order::Place;
use crate::package::is_package_name;
use crate::package::lemma_names_name_themselves;
use crate::package_set::PackageSet;
use crate::path::join;
use crate::path::join_path;
use crate::text::lines_of;

verus! {

/// What a group is: the name of its file and the file's content.
pub struct GroupView {
    /// The name of the group: the name of its file.
    pub name: Seq<char>,
    /// The content of the group's file.
    pub content: Seq<char>,
}

impl GroupView {
    /// The packages of the group: all that its file declares.
    pub open spec fn packages(self) -> Set<Seq<char>> {
        declared_packages(self.content)
    }

    /// The packages that the group declares in the section of `header`.
    pub open spec fn section(self, header: Seq<char>) -> Set<Seq<char>> {
        section_packages(self.content, header)
    }
}

/// A group whose file starts with the header line of `header`, and holds no
/// line that opens the section of another header, has exactly the packages of
/// that section.
pub proof fn lemma_group_of_one_section(group: GroupView, header: Seq<char>)
    requires
        lines_of(group.content).len() > 0,
        lines_of(group.content)[0] == header_line(header),
        forall|i: int|
            0 <= i < lines_of(group.content).len() ==> !ends_section(
                lines_of(group.content)[i],
                header,
            ),
    ensures
        group.packages() == group.section(header),
{
    lemma_single_section(group.content, header);
}

/// A group whose file holds the header line of `header` and after it nothing
/// but package names has exactly those packages, and has them in that
/// section, in whatever order the names stand.
pub proof fn lemma_group_round_trip(group: GroupView, header: Seq<char>, names: Seq<Seq<char>>)
    requires
        lines_of(group.content) == seq![header_line(header)] + names,
        forall|i: int| 0 <= i < names.len() ==> is_package_name(names[i]),
    ensures
        group.packages() == names.to_set(),
        group.section(header) == names.to_set(),
{
    let lines = lines_of(group.content);
    assert(lines[0] == header_line(header));
    assert(lines.drop_first() =~= names);
    assert forall|i: int| 0 <= i < lines.len() implies !ends_section(lines[i], header) by {
        if i > 0 {
            assert(lines[i] == names[i - 1]);
        }
    }
    lemma_single_section(group.content, header);
    lemma_names_name_themselves(names);
}

/// A named collection of packages, read from one declaration file.
#[derive(Debug, Eq)]
pub struct Group {
    name: String,
    content: String,
    packages: PackageSet,
}

impl View for Group {
    type V = GroupView;

    closed spec fn view(&self) -> GroupView {
        GroupView { name: self.name@, content: self.content@ }
    }
}

impl Group {
    #[verifier::type_invariant]
    spec fn well_formed(&self) -> bool {
        self.packages@ == declared_packages(self.content@)
    }

    /// The group of the file named `name` with the content `content`.
    pub fn new(name: String, content: String) -> (group: Group)
        ensures
            group@.name == name@,
            group@.content == content@,
    {
        let packages = PackageSet::from_lines(content.as_str());
        Group { name, content, packages }
    }

    /// The name of the group.
    pub fn name(&self) -> (name: &str)
        ensures
            name@ == self@.name,
    {
        self.name.as_str()
    }

    /// The content of the group's file.
    pub fn content(&self) -> (content: &str)
        ensures
            content@ == self@.content,
    {
        self.content.as_str()
    }

    /// The packages of the group.
    pub fn packages(&self) -> (packages: &PackageSet)
        ensures
            packages@ == self@.packages(),
    {
        proof {
            use_type_invariant(self);
        }
        &self.packages
    }

    /// The place of this group relative to `other` in the order of groups,
    /// which is the order of their names alone. The partial comparison gives
    /// the same answer.
    pub fn cmp(&self, other: &Group) -> (r: Ordering)
        ensures
            r == match place_of(self@.name, other@.name) {
                Place::Before => Ordering::Less,
                Place::Same => Ordering::Equal,
                Place::After => Ordering::Greater,
            },
            PartialOrdSpec::partial_cmp_spec(self, other) == Some(r),
    {
        match place(self.name.as_str(), other.name.as_str()) {
            Place::Before => Ordering::Less,
            Place::Same => Ordering::Equal,
            Place::After => Ordering::Greater,
        }
    }
}

/// Why a directory or a file could not be read.
#[derive(Clone, Copy, Debug, PartialEq, Eq, Structural)]
pub enum ReadErrorKind {
    /// There is no such directory or file.
    NotFound,
    /// The directory or file may not be read.
    PermissionDenied,
    /// What was read is not text.
    InvalidData,
    /// Reading failed in some other way.
    Other,
}

/// One file of the groups directory as it was found: its name, and its
/// content or why the content could not be read.
#[derive(Debug)]
pub struct GroupFile {
    /// The name of the file within the directory.
    pub name: String,
    /// The content of the file, or why it could not be read.
    pub content: Result<String, ReadErrorKind>,
}

/// A failure to read the groups directory or one of its files.
#[derive(Debug)]
pub struct LoadError {
    /// The path of the directory or file that could not be read.
    pub path: String,
    /// Why it could not be read.
    pub kind: ReadErrorKind,
}

/// What a failure to read is: the path and the reason.
pub struct LoadErrorView {
    /// The path of the directory or file that could not be read.
    pub path: Seq<char>,
    /// Why it could not be read.
    pub kind: ReadErrorKind,
}

impl View for LoadError {
    type V = LoadErrorView;

    open spec fn view(&self) -> LoadErrorView {
        LoadErrorView { path: self.path@, kind: self.kind }
    }
}

/// What loading a directory gave: a group for each file that could be read,
/// and a failure for each that could not.
#[derive(Debug)]
pub struct Loaded {
    /// The groups, in the order of their files.
    pub groups: Vec<Group>,
    /// The failures, in the order of their files.
    pub errors: Vec<LoadError>,
}

/// The groups of the files of `files` that could be read, in the order of the
/// files.
pub open spec fn readable_groups(files: Seq<GroupFile>) -> Seq<GroupView>
    decreases files.len(),
{
    if files.len() == 0 {
        Seq::empty()
    } else {
        let before = readable_groups(files.drop_last());
        match files.last().content {
            Ok(content) => before.push(GroupView { name: files.last().name@, content: content@ }),
            Err(_) => before,
        }
    }
}

/// The failures of the files of `files` that could not be read, in the order
/// of the files; each names the path of its file in the directory `dir`.
pub open spec fn read_failures(dir: Seq<char>, files: Seq<GroupFile>) -> Seq<LoadErrorView>
    decreases files.len(),
{
    if files.len() == 0 {
        Seq::empty()
    } else {
        let before = read_failures(dir, files.drop_last());
        match files.last().content {
            Ok(_) => before,
            Err(kind) => before.push(
                LoadErrorView { path: join(dir, files.last().name@), kind },
            ),
        }
    }
}

/// The views of `groups`, in order.
pub open spec fn group_views(groups: Seq<Group>) -> Seq<GroupView> {
    groups.map_values(|g: Group| g@)
}

/// The views of `errors`, in order.
pub open spec fn error_views(errors: Seq<LoadError>) -> Seq<LoadErrorView> {
    errors.map_values(|e: LoadError| e@)
}

/// What loading the directory `dir` gives, for what was found when the
/// directory was read.
pub open spec fn load_result(
    dir: Seq<char>,
    listing: Result<Vec<GroupFile>, ReadErrorKind>,
    result: Result<Loaded, LoadError>,
) -> bool {
    match listing {
        Ok(files) => {
            &&& result matches Ok(loaded)
            &&& group_views(loaded.groups@) == readable_groups(files@)
            &&& error_views(loaded.errors@) == read_failures(dir, files@)
        },
        Err(kind) => {
            &&& result matches Err(error)
            &&& error@ == LoadErrorView { path: dir, kind }
        },
    }
}

/// Every group that loading gives comes from a file of the listing, and
/// groups come in the order of their files.
pub proof fn lemma_readable_groups_from_files(files: Seq<GroupFile>)
    ensures
        readable_groups(files).len() <= files.len(),
        forall|k: int|
            0 <= k < readable_groups(files).len() ==> exists|i: int|
                k <= i < files.len() && files[i].name@ == (#[trigger] readable_groups(
                    files,
                )[k]).name,
    decreases files.len(),
{
    if files.len() > 0 {
        let before = files.drop_last();
        lemma_readable_groups_from_files(before);
        let groups = readable_groups(files);
        assert forall|k: int| 0 <= k < groups.len() implies exists|i: int|
            k <= i < files.len() && files[i].name@ == (#[trigger] groups[k]).name by {
            if k < readable_groups(before).len() {
                let i = choose|i: int|
                    k <= i < before.len() && before[i].name@ == readable_groups(before)[k].name;
                assert(files[i] == before[i]);
            } else {
                assert(files[files.len() - 1].name@ == groups[k].name);
            }
        }
    }
}

/// Files of different names give groups of different names: where no two
/// files of the listing share a name, no two groups do, and so no two groups
/// are equal.
pub proof fn lemma_groups_distinct(files: Seq<GroupFile>)
    requires
        forall|i: int, j: int|
            0 <= i < j < files.len() ==> files[i].name@ != files[j].name@,
    ensures
        forall|k: int, l: int|
            0 <= k < l < readable_groups(files).len() ==> readable_groups(files)[k].name
                != readable_groups(files)[l].name,
    decreases files.len(),
{
    if files.len() > 0 {
        let before = files.drop_last();
        assert forall|i: int, j: int| 0 <= i < j < before.len() implies before[i].name@
            != before[j].name@ by {
            assert(files[i] == before[i]);
            assert(files[j] == before[j]);
        }
        lemma_groups_distinct(before);
        lemma_readable_groups_from_files(before);
        let groups = readable_groups(files);
        let earlier = readable_groups(before);
        assert forall|k: int, l: int| 0 <= k < l < groups.len() implies groups[k].name
            != groups[l].name by {
            if l < earlier.len() {
                assert(groups[k] == earlier[k]);
                assert(groups[l] == earlier[l]);
            } else {
                let i = choose|i: int|
                    k <= i < before.len() && before[i].name@ == earlier[k].name;
                assert(files[i] == before[i]);
                assert(groups[l].name == files[files.len() - 1].name@);
            }
        }
    }
}

impl Group {
    /// Loads the groups of the directory `dir` from what was found when the
    /// directory was read. Each file that could be read becomes a group of the
    /// file's name; each that could not becomes a failure that names the
    /// file's path, and the others are loaded all the same. Where the
    /// directory itself could not be read, the failure names the directory.
    pub fn load_from_dir(dir: &str, listing: Result<Vec<GroupFile>, ReadErrorKind>) -> (result:
        Result<Loaded, LoadError>)
        ensures
            load_result(dir@, listing, result),
    {
        let files = match listing {
            Ok(files) => files,
            Err(kind) => {
                return Err(LoadError { path: dir.to_owned(), kind });
            },
        };
        let mut groups: Vec<Group> = Vec::new();
        let mut errors: Vec<LoadError> = Vec::new();
        let mut i: usize = 0;
        proof {
            assert(files@.take(0) =~= Seq::<GroupFile>::empty());
            assert(group_views(groups@) =~= readable_groups(files@.take(0)));
            assert(error_views(errors@) =~= read_failures(dir@, files@.take(0)));
        }
        while i < files.len()
            invariant
                i <= files@.len(),
                group_views(groups@) == readable_groups(files@.take(i as int)),
                error_views(errors@) == read_failures(dir@, files@.take(i as int)),
            decreases files@.len() - i,
        {
            let file = &files[i];
            proof {
                assert(files@.take(i + 1).drop_last() =~= files@.take(i as int));
                assert(files@.take(i + 1).last() == files@[i as int]);
            }
            match &file.content {
                Ok(content) => {
                    let group = Group::new(file.name.clone(), content.clone());
                    proof {
                        assert(group_views(groups@.push(group)) =~= group_views(groups@).push(
                            group@,
                        ));
                    }
                    groups.push(group);
                },
                Err(kind) => {
                    let error = LoadError {
                        path: join_path(dir, file.name.as_str()),
                        kind: *kind,
                    };
                    proof {
                        assert(error_views(errors@.push(error)) =~= error_views(errors@).push(
                            error@,
                        ));
                    }
                    errors.push(error);
                },
            }
            i += 1;
        }
        proof {
            assert(files@.take(i as int) =~= files@);
        }
        Ok(Loaded { groups, errors })
    }
}

impl Clone for Group {
    fn clone(&self) -> (copy: Self)
        ensures
            copy@ == self@,
    {
        proof {
            use_type_invariant(self);
        }
        Group {
            name: self.name.clone(),
            content: self.content.clone(),
            packages: self.packages.clone(),
        }
    }
}

impl PartialEq for Group {
    fn eq(&self, other: &Self) -> (r: bool) {
        proof {
            use_type_invariant(self);
            use_type_invariant(other);
        }
        self.name == other.name && self.packages == other.packages
    }
}

impl PartialEqSpecImpl for Group {
    open spec fn obeys_eq_spec() -> bool {
        true
    }

    open spec fn eq_spec(&self, other: &Self) -> bool {
        self@.name == other@.name && self@.packages() == other@.packages()
    }
}

impl PartialOrd for Group {
    fn partial_cmp(&self, other: &Self) -> (r: Option<Ordering>) {
        match place(self.name.as_str(), other.name.as_str()) {
            Place::Before => Some(Ordering::Less),
            Place::Same => Some(Ordering::Equal),
            Place::After => Some(Ordering::Greater),
        }
    }
}

impl PartialOrdSpecImpl for Group {
    open spec fn obeys_partial_cmp_spec() -> bool {
        true
    }

    /// Groups are ordered by their names alone: two groups of one name are
    /// equal in the order, whatever their packages.
    open spec fn partial_cmp_spec(&self, other: &Self) -> Option<Ordering> {
        if self@.name == other@.name {
            Some(Ordering::Equal)
        } else if precedes(self@.name, other@.name) {
            Some(Ordering::Less)
        } else {
            Some(Ordering::Greater)
        }
    }
}

impl core::hash::Hash for Group {
    fn hash<H: core::hash::Hasher>(&self, state: &mut H) {
        self.name.hash(state);
    }
}

} // verus!
