use pacdef::package::Package;
use pacdef::package_set::PackageSet;

fn package(name: &str) -> Package {
    Package::try_from(name).expect("a package name")
}

fn names(packages: &[Package]) -> Vec<String> {
    packages.iter().map(|p| p.to_string()).collect()
}

fn set_of(items: &[&str]) -> PackageSet {
    let mut set = PackageSet::new();
    for item in items {
        set.insert(package(item));
    }
    set
}

#[test]
fn a_plain_line_names_a_package() {
    let p = Package::try_from("firefox").unwrap();
    assert_eq!(p.as_str(), "firefox");
    assert_eq!(p.to_string(), String::from("firefox"));
}

#[test]
fn surrounding_white_space_is_not_part_of_the_name() {
    assert_eq!(package("  \tfirefox \r").as_str(), "firefox");
    assert_eq!(package("\u{a0}firefox\u{3000}").as_str(), "firefox");
    assert_eq!(package("\u{2003}neovim\u{2028}").as_str(), "neovim");
}

#[test]
fn a_comment_is_not_part_of_the_name() {
    assert_eq!(package("firefox # the browser").as_str(), "firefox");
    assert_eq!(package("firefox#browser").as_str(), "firefox");
    assert_eq!(package("  git   ## twice #").as_str(), "git");
}

#[test]
fn blank_and_comment_lines_name_nothing() {
    assert!(Package::try_from("").is_none());
    assert!(Package::try_from("   ").is_none());
    assert!(Package::try_from("\t\r").is_none());
    assert!(Package::try_from("# just a comment").is_none());
    assert!(Package::try_from("   # indented comment").is_none());
}

#[test]
fn malformed_lines_name_nothing() {
    assert!(Package::try_from("two words").is_none());
    assert!(Package::try_from("tab\tseparated").is_none());
    assert!(Package::try_from("[pacman]").is_none());
    assert!(Package::try_from("  [rust]  ").is_none());
    assert!(Package::try_from("[unclosed").is_none());
}

#[test]
fn a_bracket_inside_a_name_is_accepted() {
    assert_eq!(package("lib[x]").as_str(), "lib[x]");
    assert_eq!(package("repo/package").as_str(), "repo/package");
}

#[test]
fn a_name_is_its_own_canonical_text() {
    for line in ["firefox", "  git # vcs", "lib32-glibc", "größe", "日本語"] {
        let p = package(line);
        let again = package(p.as_str());
        assert_eq!(again, p);
        assert_eq!(again.as_str(), p.as_str());
    }
}

#[test]
fn packages_are_equal_by_name() {
    assert_eq!(package("git"), package("  git  "));
    assert_ne!(package("git"), package("gti"));
    assert!(package("git") == package("git # comment"));
    assert_eq!(package("git").clone(), package("git"));
}

#[test]
fn packages_are_ordered_by_name() {
    assert!(package("a") < package("b"));
    assert!(package("a") < package("ab"));
    assert!(package("ab") < package("b"));
    assert!(package("B") < package("a"));
    assert!(package("z") < package("é"));
    assert!(package("é") < package("日"));
    assert!(!(package("git") < package("git")));
    assert!(package("git") <= package("git"));
    assert!(package("b") > package("ab"));
    assert!(package("a").precedes(&package("b")));
    assert!(!package("b").precedes(&package("a")));
    assert!(!package("a").precedes(&package("a")));
}

#[test]
fn the_order_of_packages_is_the_order_of_their_names_as_strings() {
    let words = ["a", "ab", "abc", "b", "B", "é", "e", "zz", "日本", "日", "0", "-", "a-b", "a_b"];
    for x in words {
        for y in words {
            let (p, q) = (package(x), package(y));
            assert_eq!(p.partial_cmp(&q), Some(x.cmp(y)));
            assert_eq!(p.cmp(&q), x.cmp(y));
            assert_eq!(p.precedes(&q), x < y);
            assert_eq!(p == q, x == y);
        }
    }
}

#[test]
fn a_new_set_is_empty() {
    let set = PackageSet::new();
    assert!(set.is_empty());
    assert_eq!(set.len(), 0);
    assert!(set.as_slice().is_empty());
    assert!(!set.contains(&package("git")));
}

#[test]
fn a_set_holds_what_was_inserted_and_nothing_twice() {
    let mut set = PackageSet::new();
    assert!(set.insert(package("git")));
    assert!(set.insert(package("bash")));
    assert!(!set.insert(package("git")));
    assert!(set.insert(package("zsh")));
    assert!(!set.insert(package(" bash ")));
    assert_eq!(set.len(), 3);
    assert!(!set.is_empty());
    assert!(set.contains(&package("git")));
    assert!(set.contains(&package("bash")));
    assert!(set.contains(&package("zsh")));
    assert!(!set.contains(&package("fish")));
    assert!(set.contains_name("git"));
    assert!(!set.contains_name("gi"));
    assert!(!set.contains_name("gitt"));
}

#[test]
fn a_set_lists_its_packages_in_ascending_order() {
    let set = set_of(&["pear", "apple", "fig", "banana", "apple", "cherry", "fig"]);
    assert_eq!(names(set.as_slice()), vec!["apple", "banana", "cherry", "fig", "pear"]);
}

#[test]
fn many_insertions_in_any_order_give_the_same_set() {
    let mut forward = PackageSet::new();
    let mut backward = PackageSet::new();
    let mut mixed = PackageSet::new();
    for i in 0..200 {
        forward.insert(package(&format!("pkg{i:03}")));
        backward.insert(package(&format!("pkg{:03}", 199 - i)));
        mixed.insert(package(&format!("pkg{:03}", (i * 37) % 200)));
    }
    assert_eq!(forward.len(), 200);
    assert!(forward == backward);
    assert!(forward == mixed);
    let listed = names(mixed.as_slice());
    let mut sorted = listed.clone();
    sorted.sort();
    sorted.dedup();
    assert_eq!(listed, sorted);
    for i in 0..200 {
        assert!(mixed.contains_name(&format!("pkg{i:03}")));
    }
    assert!(!mixed.contains_name("pkg200"));
}

#[test]
fn sets_are_equal_when_they_hold_the_same_packages() {
    assert!(set_of(&["a", "b"]) == set_of(&["b", "a", "b"]));
    assert!(set_of(&["a", "b"]) != set_of(&["a"]));
    assert!(set_of(&["a", "b"]) != set_of(&["a", "c"]));
    assert!(set_of(&[]) == PackageSet::new());
    let set = set_of(&["x", "y"]);
    assert!(set.clone() == set);
}

#[test]
fn extending_a_set_gives_the_union() {
    let mut set = set_of(&["a", "c", "e"]);
    set.extend(&set_of(&["b", "c", "d"]));
    assert_eq!(names(set.as_slice()), vec!["a", "b", "c", "d", "e"]);
    set.extend(&PackageSet::new());
    assert_eq!(set.len(), 5);
    let mut empty = PackageSet::new();
    empty.extend(&set);
    assert!(empty == set);
}

#[test]
fn the_difference_is_sorted_and_holds_what_the_other_lacks() {
    let a = set_of(&["vim", "git", "zsh", "bash", "htop"]);
    let b = set_of(&["git", "htop", "curl"]);
    assert_eq!(names(&a.difference_sorted(&b)), vec!["bash", "vim", "zsh"]);
    assert_eq!(names(&b.difference_sorted(&a)), vec!["curl"]);
    assert!(a.difference_sorted(&a).is_empty());
    assert_eq!(names(&a.difference_sorted(&PackageSet::new())), names(a.as_slice()));
    assert!(PackageSet::new().difference_sorted(&a).is_empty());
}

#[test]
fn the_packages_of_a_text_are_those_that_its_lines_name() {
    let set = PackageSet::from_lines("zsh\n\n# shells\nbash # the default\n  fish  \r\nzsh\ntwo words\n[tag]\n");
    assert_eq!(names(set.as_slice()), vec!["bash", "fish", "zsh"]);
    assert!(PackageSet::from_lines("").is_empty());
    assert!(PackageSet::from_lines("\n\n\n").is_empty());
    assert_eq!(names(PackageSet::from_lines("last").as_slice()), vec!["last"]);
    assert_eq!(names(PackageSet::from_lines("a\r\nb\r\n").as_slice()), vec!["a", "b"]);
}

#[test]
fn a_long_text_is_read_in_full() {
    let mut text = String::new();
    for i in 0..5000 {
        text.push_str(&format!("  package-{:05}  # number {i}\r\n\n", (i * 7919) % 5000));
    }
    let set = PackageSet::from_lines(&text);
    assert_eq!(set.len(), 5000);
    let listed = names(set.as_slice());
    assert_eq!(listed[0], "package-00000");
    assert_eq!(listed[4999], "package-04999");
    assert!(listed.windows(2).all(|pair| pair[0] < pair[1]));
}
