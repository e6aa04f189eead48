//! Packages: what a line of a declaration file must hold to name one, and the
//! value that stands for the name.

use core::cmp::Ordering;
use vstd::prelude::*;
use vstd::std_specs::cmp::PartialEqSpecImpl;
use vstd::std_specs::cmp::PartialOrdSpecImpl;

use crate::order::place;
use crate::order::precedes;
use crate::order::Place;
use crate::text::chars_of;
use crate::text::find_char;
use crate::text::index_of;
use crate::text::char_is_whitespace;
use crate::text::is_whitespace;
use crate::text::lemma_index_of;
use crate::text::lemma_trim_end;
use crate::text::lemma_trim_start;
use crate::text::string_of;
use crate::text::trim;
use crate::text::trim_span;
use crate::text::Span;

verus! {

/// Whether `name` can name a package: it is not empty, does not start a
/// section header, and holds neither white space nor a comment sign.
pub open spec fn is_package_name(name: Seq<char>) -> bool {
    &&& name.len() > 0
    &&& name[0] != '['
    &&& forall|i: int| 0 <= i < name.len() ==> !is_whitespace(name[i]) && name[i] != '#'
}

/// What a line holds once its comment, which a `#` starts, and the white space
/// around the rest are taken away.
pub open spec fn token_of(line: Seq<char>) -> Seq<char> {
    trim(line.take(index_of(line, '#')))
}

/// The package that `line` names, if it names one. Blank lines, comments,
/// section headers and lines of several words name none.
pub open spec fn package_of_line(line: Seq<char>) -> Option<Seq<char>> {
    if is_package_name(token_of(line)) {
        Some(token_of(line))
    } else {
        None
    }
}

/// The names of the packages that the lines of `lines` name.
pub open spec fn packages_in(lines: Seq<Seq<char>>) -> Set<Seq<char>> {
    Set::new(
        |name: Seq<char>|
            exists|i: int| 0 <= i < lines.len() && package_of_line(#[trigger] lines[i]) == Some(name),
    )
}

/// A package name read back as a line names the same package: the text of a
/// package is its own canonical form.
pub proof fn lemma_name_is_canonical(name: Seq<char>)
    requires
        is_package_name(name),
    ensures
        package_of_line(name) == Some(name),
{
    lemma_index_of(name, '#', name.len() as int);
    assert(name.take(name.len() as int) =~= name);
    lemma_trim_start(name, 0);
    assert(name.skip(0) =~= name);
    lemma_trim_end(name, name.len() as int);
}

/// Lines that are package names name exactly themselves.
pub proof fn lemma_names_name_themselves(names: Seq<Seq<char>>)
    requires
        forall|i: int| 0 <= i < names.len() ==> is_package_name(names[i]),
    ensures
        packages_in(names) == names.to_set(),
{
    assert forall|name: Seq<char>| packages_in(names).contains(name) <==> names.to_set().contains(
        name,
    ) by {
        if packages_in(names).contains(name) {
            let i = choose|i: int|
                0 <= i < names.len() && package_of_line(#[trigger] names[i]) == Some(name);
            lemma_name_is_canonical(names[i]);
        }
        if names.to_set().contains(name) {
            let i = choose|i: int| 0 <= i < names.len() && names[i] == name;
            lemma_name_is_canonical(names[i]);
        }
    }
    assert(packages_in(names) =~= names.to_set());
}

/// Which packages a list of lines names depends on which lines occur in it,
/// not on their order or number.
pub proof fn lemma_packages_in_any_order(a: Seq<Seq<char>>, b: Seq<Seq<char>>)
    requires
        a.to_set() == b.to_set(),
    ensures
        packages_in(a) == packages_in(b),
{
    assert forall|name: Seq<char>| packages_in(a).contains(name) <==> packages_in(b).contains(
        name,
    ) by {
        if packages_in(a).contains(name) {
            let i = choose|i: int| 0 <= i < a.len() && package_of_line(#[trigger] a[i]) == Some(name);
            assert(a.to_set().contains(a[i]));
            assert(b.to_set().contains(a[i]));
            let j = choose|j: int| 0 <= j < b.len() && b[j] == a[i];
            assert(package_of_line(b[j]) == Some(name));
        }
        if packages_in(b).contains(name) {
            let i = choose|i: int| 0 <= i < b.len() && package_of_line(#[trigger] b[i]) == Some(name);
            assert(b.to_set().contains(b[i]));
            assert(a.to_set().contains(b[i]));
            let j = choose|j: int| 0 <= j < a.len() && a[j] == b[i];
            assert(package_of_line(a[j]) == Some(name));
        }
    }
    assert(packages_in(a) =~= packages_in(b));
}

/// The name of one package. Two packages of the same name are the same
/// package; packages are ordered as their names are.
#[derive(Debug, Eq, Ord, Hash)]
pub struct Package {
    name: String,
}

impl View for Package {
    type V = Seq<char>;

    /// The package's name.
    closed spec fn view(&self) -> Seq<char> {
        self.name@
    }
}

impl Package {
    #[verifier::type_invariant]
    spec fn well_formed(&self) -> bool {
        is_package_name(self.name@)
    }

    /// The package that the line `span` of `text` names, if it names one.
    pub fn parse_span(text: &Vec<char>, span: Span) -> (r: Option<Package>)
        requires
            span.within(text@.len()),
        ensures
            match r {
                Some(p) => package_of_line(span.of(text@)) == Some(p@),
                None => package_of_line(span.of(text@)) is None,
            },
    {
        let hash = find_char(text, span, '#');
        let body = Span { from: span.from, to: hash };
        proof {
            assert(body.of(text@) =~= span.of(text@).take(index_of(span.of(text@), '#')));
        }
        let token = trim_span(text, body);
        assert(token.of(text@) == token_of(span.of(text@)));
        if token.from == token.to || text[token.from] == '[' {
            return None;
        }
        let mut at: usize = token.from;
        while at < token.to
            invariant
                token.within(text@.len()),
                token.from <= at <= token.to,
                token.of(text@) == token_of(span.of(text@)),
                forall|i: int|
                    token.from <= i < at ==> !is_whitespace(text@[i]) && text@[i] != '#',
            decreases token.to - at,
        {
            if char_is_whitespace(text[at]) || text[at] == '#' {
                proof {
                    let name = token.of(text@);
                    assert(name[at - token.from] == text@[at as int]);
                    assert(!is_package_name(name));
                }
                return None;
            }
            at += 1;
        }
        Some(Package { name: string_of(text, token) })
    }

    /// The package that `line` names, if it names one.
    pub fn try_from(line: &str) -> (r: Option<Package>)
        ensures
            match r {
                Some(p) => package_of_line(line@) == Some(p@),
                None => package_of_line(line@) is None,
            },
    {
        let text = chars_of(line);
        let whole = Span { from: 0, to: text.len() };
        proof {
            assert(whole.of(text@) =~= line@);
        }
        Package::parse_span(&text, whole)
    }

    /// The package's name. Read as a line it names this package again.
    pub fn as_str(&self) -> (s: &str)
        ensures
            s@ == self@,
            is_package_name(self@),
            package_of_line(s@) == Some(self@),
    {
        proof {
            use_type_invariant(self);
            lemma_name_is_canonical(self.name@);
        }
        self.name.as_str()
    }

    /// The package's name as a string of its own: the text that a backend's
    /// command takes for this package.
    pub fn to_string(&self) -> (s: String)
        ensures
            s@ == self@,
    {
        self.name.clone()
    }

    /// Whether this package comes before `other` in the order of packages.
    pub fn precedes(&self, other: &Package) -> (r: bool)
        ensures
            r == precedes(self@, other@),
    {
        match place(self.name.as_str(), other.name.as_str()) {
            Place::Before => true,
            _ => false,
        }
    }
}

impl Clone for Package {
    fn clone(&self) -> (r: Self)
        ensures
            r@ == self@,
    {
        proof {
            use_type_invariant(self);
        }
        Package { name: self.name.clone() }
    }
}

impl PartialEq for Package {
    fn eq(&self, other: &Self) -> (r: bool) {
        self.name == other.name
    }
}

impl PartialEqSpecImpl for Package {
    open spec fn obeys_eq_spec() -> bool {
        true
    }

    open spec fn eq_spec(&self, other: &Self) -> bool {
        self@ == other@
    }
}

impl PartialOrd for Package {
    fn partial_cmp(&self, other: &Self) -> (r: Option<Ordering>) {
        match place(self.name.as_str(), other.name.as_str()) {
            Place::Before => Some(Ordering::Less),
            Place::Same => Some(Ordering::Equal),
            Place::After => Some(Ordering::Greater),
        }
    }
}

impl PartialOrdSpecImpl for Package {
    open spec fn obeys_partial_cmp_spec() -> bool {
        true
    }

    open spec fn partial_cmp_spec(&self, other: &Self) -> Option<Ordering> {
        if self@ == other@ {
            Some(Ordering::Equal)
        } else if precedes(self@, other@) {
            Some(Ordering::Less)
        } else {
            Some(Ordering::Greater)
        }
    }
}

} // verus!
