use pacdef::backend::Backend;
use pacdef::backend::Backends;
use pacdef::group_file::extract_section;
use pacdef::package_set::PackageSet;

fn names(set: &PackageSet) -> Vec<String> {
    set.as_slice().iter().map(|p| p.to_string()).collect()
}

#[test]
fn each_header_yields_its_own_block() {
    let content = "[X]\na\nb\n[Y]\nc\n";
    assert_eq!(names(&extract_section(content, "X")), vec!["a", "b"]);
    assert_eq!(names(&extract_section(content, "Y")), vec!["c"]);
    assert!(extract_section(content, "Z").is_empty());
}

#[test]
fn extracting_twice_gives_the_same_set() {
    let content = "[pacman]\nzsh\ngit\n\n[rust]\nripgrep\n";
    for header in ["pacman", "rust", "absent"] {
        let first = extract_section(content, header);
        let second = extract_section(content, header);
        assert!(first == second);
        assert_eq!(names(&first), names(&second));
    }
}

#[test]
fn a_file_without_the_header_declares_nothing() {
    assert!(extract_section("", "pacman").is_empty());
    assert!(extract_section("a\nb\n", "pacman").is_empty());
    assert!(extract_section("[rust]\nripgrep\n", "pacman").is_empty());
}

#[test]
fn a_section_without_package_lines_declares_nothing() {
    assert!(extract_section("[pacman]", "pacman").is_empty());
    assert!(extract_section("[pacman]\n", "pacman").is_empty());
    assert!(extract_section("[pacman]\n[rust]\nripgrep\n", "pacman").is_empty());
    assert!(extract_section("[pacman]\n\n# nothing yet\n\n", "pacman").is_empty());
}

#[test]
fn headers_must_match_exactly() {
    let content = "[Pacman]\na\n[pacman ]\nb\n [pacman]\nc\n[pacman] # tag\nd\n[pacmanx]\ne\n[pacma]\nf\n";
    assert!(extract_section(content, "pacman").is_empty());
    assert_eq!(names(&extract_section(content, "Pacman")), vec!["a"]);
    assert_eq!(names(&extract_section(content, "pacman ")), vec!["b", "c"]);
    assert_eq!(names(&extract_section(content, "pacmanx")), vec!["e"]);
    assert_eq!(names(&extract_section(content, "pacma")), vec!["f"]);
}

#[test]
fn lines_before_the_header_belong_to_no_section() {
    let content = "stray\n[X]\na\n";
    assert_eq!(names(&extract_section(content, "X")), vec!["a"]);
}

#[test]
fn a_section_ends_at_the_next_line_that_starts_a_header() {
    let content = "[X]\na\n[anything at all\nb\n[X]\nc\n";
    assert_eq!(names(&extract_section(content, "X")), vec!["a"]);
    let indented = "[X]\na\n  [Y]\nb\n";
    assert_eq!(names(&extract_section(indented, "X")), vec!["a", "b"]);
}

#[test]
fn the_sections_own_header_does_not_end_it() {
    let content = "[X]\na\n[X]\nb\n[Y]\nc\n[X]\nd\n";
    assert_eq!(names(&extract_section(content, "X")), vec!["a", "b"]);
    assert_eq!(names(&extract_section(content, "Y")), vec!["c"]);
}

#[test]
fn only_the_first_block_of_a_header_is_read() {
    let content = "[X]\na\n[Y]\nb\n[X]\nc\n";
    assert_eq!(names(&extract_section(content, "X")), vec!["a"]);
    assert_eq!(names(&extract_section(content, "Y")), vec!["b"]);
}

#[test]
fn unparseable_lines_in_a_section_are_skipped() {
    let content = "[X]\n\n# comment\nfirst # why\n   \ntwo words\n\tsecond\t\n";
    assert_eq!(names(&extract_section(content, "X")), vec!["first", "second"]);
}

#[test]
fn the_order_of_lines_in_a_section_does_not_matter() {
    let one = extract_section("[X]\nc\na\nb\n", "X");
    let other = extract_section("[X]\nb\nc\na\na\n", "X");
    assert!(one == other);
    assert_eq!(names(&one), vec!["a", "b", "c"]);
}

#[test]
fn files_with_carriage_returns_are_read_alike() {
    let content = "[X]\r\na\r\nb\r\n[Y]\r\nc\r\n";
    assert_eq!(names(&extract_section(content, "X")), vec!["a", "b"]);
    assert_eq!(names(&extract_section(content, "Y")), vec!["c"]);
}

#[test]
fn an_empty_header_is_a_header_like_any_other() {
    let content = "[]\na\n[X]\nb\n";
    assert_eq!(names(&extract_section(content, "")), vec!["a"]);
}

#[test]
fn a_header_may_hold_any_characters() {
    let content = "[päckchen]\na\n[x]y]\nb\n";
    assert_eq!(names(&extract_section(content, "päckchen")), vec!["a"]);
    assert_eq!(names(&extract_section(content, "x]y")), vec!["b"]);
}

#[test]
fn a_backend_extracts_its_own_section() {
    let content = "[pacman]\nzsh\ngit\n\n[rust]\nripgrep\nfd-find\n";
    let pacman = Backend::new(Backends::Pacman);
    let rust = Backend::new(Backends::Rust);
    assert_eq!(names(&pacman.extract_packages_from_group_file_content(content)), vec!["git", "zsh"]);
    assert_eq!(
        names(&rust.extract_packages_from_group_file_content(content)),
        vec!["fd-find", "ripgrep"]
    );
    assert!(pacman.extract_packages_from_group_file_content("[rust]\nripgrep\n").is_empty());
}
