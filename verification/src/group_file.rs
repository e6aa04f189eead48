//! The format of a group file. A file holds sections, each opened by a line
//! that is a header in square brackets; the lines from a header to the next
//! line that opens the section of another header name the packages of that
//! header's backend.

use vstd::prelude::*;

use crate::order::is_ascending;
use crate::order::lemma_ascending_unique;
use crate::package::lemma_packages_in_any_order;
use crate::package::package_of_line;
use crate::package::packages_in;
use crate::package_set::PackageSet;
use crate::text::all_within;
use crate::text::chars_of;
use crate::text::index_of;
use crate::text::lemma_index_of_bounds;
use crate::text::lemma_trim_end_prefix;
use crate::text::lemma_trim_start;
use crate::text::lines_of;
use crate::text::pieces;
use crate::text::split_lines;
use crate::text::trim_end;
use crate::text::trim_start;
use crate::text::Span;

verus! {

/// The line that opens the section of `header`: the header in square
/// brackets, and nothing else.
pub open spec fn header_line(header: Seq<char>) -> Seq<char> {
    seq!['['] + header + seq![']']
}

/// Whether `line` opens a section, of whatever header.
pub open spec fn opens_section(line: Seq<char>) -> bool {
    line.len() > 0 && line[0] == '['
}

/// The lines that follow the first line of `lines` that is exactly the header
/// line of `header`; none where no line is.
pub open spec fn after_header(lines: Seq<Seq<char>>, header: Seq<char>) -> Seq<Seq<char>>
    decreases lines.len(),
{
    if lines.len() == 0 {
        Seq::empty()
    } else if lines[0] == header_line(header) {
        lines.drop_first()
    } else {
        after_header(lines.drop_first(), header)
    }
}

/// Whether `line` ends the section of `header`: it opens a section and is
/// not the header line of `header` itself.
pub open spec fn ends_section(line: Seq<char>, header: Seq<char>) -> bool {
    opens_section(line) && line != header_line(header)
}

/// The lines of `lines` that come before its first line that ends the section
/// of `header`.
pub open spec fn block(lines: Seq<Seq<char>>, header: Seq<char>) -> Seq<Seq<char>>
    decreases lines.len(),
{
    if lines.len() == 0 || ends_section(lines[0], header) {
        Seq::empty()
    } else {
        seq![lines[0]] + block(lines.drop_first(), header)
    }
}

/// The lines of the section of `header`: those between its first header line
/// and the next line that opens the section of another header, or the end.
pub open spec fn section_lines(lines: Seq<Seq<char>>, header: Seq<char>) -> Seq<Seq<char>> {
    block(after_header(lines, header), header)
}

/// The packages that a file of the content `content` declares in the section
/// of `header`.
pub open spec fn section_packages(content: Seq<char>, header: Seq<char>) -> Set<Seq<char>> {
    packages_in(section_lines(lines_of(content), header))
}

/// The packages that a file of the content `content` declares, in whatever
/// section.
pub open spec fn declared_packages(content: Seq<char>) -> Set<Seq<char>> {
    packages_in(lines_of(content))
}

/// Where the first header line of `header` stands decides what follows it.
pub proof fn lemma_after_header(lines: Seq<Seq<char>>, header: Seq<char>, n: int)
    requires
        0 <= n <= lines.len(),
        forall|i: int| 0 <= i < n ==> lines[i] != header_line(header),
        n == lines.len() || lines[n] == header_line(header),
    ensures
        after_header(lines, header) == if n < lines.len() {
            lines.skip(n + 1)
        } else {
            Seq::empty()
        },
    decreases lines.len(),
{
    if lines.len() == 0 {
    } else if n == 0 {
        assert(lines.drop_first() =~= lines.skip(1));
    } else {
        let rest = lines.drop_first();
        assert forall|i: int| 0 <= i < n - 1 implies rest[i] != header_line(header) by {
            assert(rest[i] == lines[i + 1]);
        }
        lemma_after_header(rest, header, n - 1);
        if n < lines.len() {
            assert(rest.skip(n) =~= lines.skip(n + 1));
        }
    }
}

/// Where the first line that ends the section stands decides the block.
pub proof fn lemma_block(lines: Seq<Seq<char>>, header: Seq<char>, n: int)
    requires
        0 <= n <= lines.len(),
        forall|i: int| 0 <= i < n ==> !ends_section(lines[i], header),
        n == lines.len() || ends_section(lines[n], header),
    ensures
        block(lines, header) == lines.take(n),
    decreases lines.len(),
{
    if n == 0 {
        assert(lines.take(0) =~= Seq::<Seq<char>>::empty());
    } else {
        let rest = lines.drop_first();
        assert forall|i: int| 0 <= i < n - 1 implies !ends_section(rest[i], header) by {
            assert(rest[i] == lines[i + 1]);
        }
        lemma_block(rest, header, n - 1);
        assert(seq![lines[0]] + rest.take(n - 1) =~= lines.take(n));
    }
}

/// A line that opens a section names no package.
pub proof fn lemma_header_names_nothing(line: Seq<char>)
    requires
        opens_section(line),
    ensures
        package_of_line(line) is None,
{
    lemma_index_of_bounds(line, '#');
    let body = line.take(index_of(line, '#'));
    if body.len() > 0 {
        assert(body[0] == '[');
        lemma_trim_start(body, 0);
        assert(body.skip(0) =~= body);
        let token = trim_end(body);
        lemma_trim_end_prefix(body);
        if token.len() > 0 {
            assert(token[0] == body[0]);
        }
    } else {
        assert(trim_start(body) =~= body);
        assert(trim_end(body) =~= body);
    }
}

/// A file whose first line is the header line of `header`, and which holds
/// no line that opens the section of another header, declares in that section
/// every package that it declares at all.
pub proof fn lemma_single_section(content: Seq<char>, header: Seq<char>)
    requires
        lines_of(content).len() > 0,
        lines_of(content)[0] == header_line(header),
        forall|i: int|
            0 <= i < lines_of(content).len() ==> !ends_section(lines_of(content)[i], header),
    ensures
        section_lines(lines_of(content), header) == lines_of(content).drop_first(),
        section_packages(content, header) == declared_packages(content),
{
    let lines = lines_of(content);
    let rest = lines.drop_first();
    assert forall|i: int| 0 <= i < rest.len() implies !ends_section(rest[i], header) by {
        assert(rest[i] == lines[i + 1]);
    }
    lemma_block(rest, header, rest.len() as int);
    assert(rest.take(rest.len() as int) =~= rest);
    lemma_header_names_nothing(lines[0]);
    assert forall|name: Seq<char>| packages_in(lines).contains(name) <==> packages_in(
        rest,
    ).contains(name) by {
        if packages_in(lines).contains(name) {
            let i = choose|i: int|
                0 <= i < lines.len() && package_of_line(#[trigger] lines[i]) == Some(name);
            assert(rest[i - 1] == lines[i]);
        }
        if packages_in(rest).contains(name) {
            let i = choose|i: int|
                0 <= i < rest.len() && package_of_line(#[trigger] rest[i]) == Some(name);
            assert(lines[i + 1] == rest[i]);
        }
    }
    assert(packages_in(lines) =~= packages_in(rest));
}

/// The packages of a section do not depend on the order of its lines: two
/// sections of the same header whose lines are the same up to their order
/// declare the same packages.
pub proof fn lemma_section_any_order(header: Seq<char>, a: Seq<Seq<char>>, b: Seq<Seq<char>>)
    requires
        a.to_multiset() == b.to_multiset(),
        forall|i: int| 0 <= i < a.len() ==> !ends_section(a[i], header),
    ensures
        section_lines(seq![header_line(header)] + a, header) == a,
        section_lines(seq![header_line(header)] + b, header) == b,
        packages_in(section_lines(seq![header_line(header)] + a, header)) == packages_in(
            section_lines(seq![header_line(header)] + b, header),
        ),
{
    a.to_multiset_ensures();
    b.to_multiset_ensures();
    assert forall|line: Seq<char>| a.to_set().contains(line) <==> b.to_set().contains(line) by {
        assert(a.contains(line) <==> a.to_multiset().count(line) > 0);
        assert(b.contains(line) <==> b.to_multiset().count(line) > 0);
    }
    assert(a.to_set() =~= b.to_set());
    assert forall|i: int| 0 <= i < b.len() implies !ends_section(b[i], header) by {
        assert(b.to_set().contains(b[i]));
        assert(a.to_set().contains(b[i]));
        let j = choose|j: int| 0 <= j < a.len() && a[j] == b[i];
        assert(!ends_section(a[j], header));
    }
    let with_a = seq![header_line(header)] + a;
    let with_b = seq![header_line(header)] + b;
    assert(with_a.drop_first() =~= a);
    assert(with_b.drop_first() =~= b);
    lemma_block(a, header, a.len() as int);
    lemma_block(b, header, b.len() as int);
    assert(a.take(a.len() as int) =~= a);
    assert(b.take(b.len() as int) =~= b);
    lemma_packages_in_any_order(a, b);
}

/// Whether the line `line` of `text` ends the section of `header`.
fn is_section_end(text: &Vec<char>, line: Span, header: &Vec<char>) -> (r: bool)
    requires
        line.within(text@.len()),
    ensures
        r == ends_section(line.of(text@), header@),
{
    proof {
        if line.from < line.to {
            assert(line.of(text@)[0] == text@[line.from as int]);
        }
    }
    line.from < line.to && text[line.from] == '[' && !is_header_line(text, line, header)
}

/// Extracting a section is repeatable: whatever two extractions of the same
/// header from the same content give, they give the same packages, and list
/// them alike.
pub proof fn lemma_extraction_repeatable(
    content: Seq<char>,
    header: Seq<char>,
    first: Seq<Seq<char>>,
    second: Seq<Seq<char>>,
)
    requires
        is_ascending(first),
        is_ascending(second),
        first.to_set() == section_packages(content, header),
        second.to_set() == section_packages(content, header),
    ensures
        first == second,
{
    lemma_ascending_unique(first, second);
}

/// Whether the line `line` of `text` is exactly the header line of `header`.
fn is_header_line(text: &Vec<char>, line: Span, header: &Vec<char>) -> (r: bool)
    requires
        line.within(text@.len()),
    ensures
        r == (line.of(text@) == header_line(header@)),
{
    let ghost found = line.of(text@);
    let ghost wanted = header_line(header@);
    let width = line.to - line.from;
    if width < 2 || width - 2 != header.len() {
        proof {
            assert(found.len() == width);
            assert(wanted.len() == header@.len() + 2);
        }
        return false;
    }
    if text[line.from] != '[' || text[line.to - 1] != ']' {
        proof {
            assert(found[0] == text@[line.from as int]);
            assert(found[width - 1] == text@[line.to - 1]);
            assert(wanted[0] == '[');
            assert(wanted[width - 1] == ']');
        }
        return false;
    }
    let mut i: usize = 0;
    while i < header.len()
        invariant
            line.within(text@.len()),
            width == line.to - line.from,
            width == header@.len() + 2,
            i <= header@.len(),
            found == line.of(text@),
            wanted == header_line(header@),
            forall|k: int| 0 <= k < i ==> text@[line.from + 1 + k] == header@[k],
        decreases header@.len() - i,
    {
        if text[line.from + 1 + i] != header[i] {
            proof {
                assert(found[1 + i] == text@[line.from + 1 + i]);
                assert(wanted[1 + i] == header@[i as int]);
            }
            return false;
        }
        i += 1;
    }
    proof {
        assert forall|k: int| 0 <= k < found.len() implies found[k] == wanted[k] by {
            assert(found[k] == text@[line.from + k]);
            if 0 < k < width - 1 {
                assert(text@[line.from + 1 + (k - 1)] == header@[k - 1]);
            }
        }
        assert(found =~= wanted);
    }
    true
}

/// The packages that a file of the content `content` declares in the section
/// of `header`: those named by the lines after the first line that is exactly
/// `[header]`, up to the next line that starts with `[` and is not that header
/// line again. A content without that header line declares none.
pub fn extract_section(content: &str, header: &str) -> (set: PackageSet)
    ensures
        set@ == section_packages(content@, header@),
{
    let text = chars_of(content);
    let lines = split_lines(&text);
    let wanted = chars_of(header);
    let ghost all = pieces(lines@, text@);
    let mut set = PackageSet::new();
    let mut start: usize = 0;
    while start < lines.len() && !is_header_line(&text, lines[start], &wanted)
        invariant
            all_within(lines@, text@.len()),
            all == pieces(lines@, text@),
            start <= lines@.len(),
            wanted@ == header@,
            forall|i: int| 0 <= i < start ==> all[i] != header_line(header@),
        decreases lines@.len() - start,
    {
        start += 1;
    }
    proof {
        lemma_after_header(all, header@, start as int);
    }
    if start == lines.len() {
        proof {
            assert(packages_in(Seq::<Seq<char>>::empty()) =~= Set::<Seq<char>>::empty());
        }
        return set;
    }
    let first = start + 1;
    let mut end: usize = first;
    while end < lines.len() && !is_section_end(&text, lines[end], &wanted)
        invariant
            all_within(lines@, text@.len()),
            all == pieces(lines@, text@),
            first <= end <= lines@.len(),
            wanted@ == header@,
            forall|i: int| first <= i < end ==> !ends_section(all[i], header@),
        decreases lines@.len() - end,
    {
        end += 1;
    }
    proof {
        let tail = all.skip(first as int);
        lemma_block(tail, header@, end - first);
        assert(tail.take(end - first) =~= all.subrange(first as int, end as int));
        assert(Set::<Seq<char>>::empty().union(
            packages_in(all.subrange(first as int, end as int)),
        ) =~= packages_in(all.subrange(first as int, end as int)));
    }
    set.add_lines(&text, &lines, first, end);
    set
}

} // verus!
