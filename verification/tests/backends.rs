use pacdef::backend::Backend;
use pacdef::backend::BackendIter;
use pacdef::backend::Backends;
use pacdef::group::Group;
use pacdef::package::Package;
use pacdef::package_set::PackageSet;

fn package(name: &str) -> Package {
    Package::try_from(name).expect("a package name")
}

fn packages(items: &[&str]) -> Vec<Package> {
    items.iter().map(|name| package(name)).collect()
}

fn set_of(items: &[&str]) -> PackageSet {
    let mut set = PackageSet::new();
    for item in items {
        set.insert(package(item));
    }
    set
}

fn names(packages: &[Package]) -> Vec<String> {
    packages.iter().map(|p| p.to_string()).collect()
}

fn group(name: &str, content: &str) -> Group {
    Group::new(String::from(name), String::from(content))
}

fn kinds(mut it: BackendIter) -> Vec<Backends> {
    let mut found = Vec::new();
    while let Some(backend) = it.next() {
        assert!(backend.get_managed_packages().is_empty());
        found.push(backend.kind());
    }
    assert!(it.next().is_none());
    found
}

#[test]
fn the_registry_yields_each_backend_once_in_a_fixed_order() {
    assert_eq!(kinds(Backends::iter()), vec![Backends::Pacman, Backends::Rust]);
    assert_eq!(kinds(Backends::iter()), kinds(Backends::iter()));
}

#[test]
fn a_finished_walk_stays_finished() {
    let mut it = Backends::iter();
    assert_eq!(it.next().map(|b| b.kind()), Some(Backends::Pacman));
    assert_eq!(it.next().map(|b| b.kind()), Some(Backends::Rust));
    assert!(it.next().is_none());
    assert!(it.next().is_none());
}

#[test]
fn the_system_backend_has_its_constants() {
    let backend = Backend::new(Backends::Pacman);
    assert_eq!(backend.kind(), Backends::Pacman);
    assert_eq!(backend.get_binary(), "pacman");
    assert_eq!(backend.get_section(), "pacman");
    assert_eq!(backend.get_switches_install().to_vec(), vec!["-S"]);
    assert_eq!(backend.get_switches_remove().to_vec(), vec!["-Rsn"]);
    assert!(backend.get_managed_packages().is_empty());
}

#[test]
fn the_rust_backend_has_its_constants() {
    let backend = Backend::new(Backends::Rust);
    assert_eq!(backend.kind(), Backends::Rust);
    assert_eq!(backend.get_binary(), "cargo");
    assert_eq!(backend.get_section(), "rust");
    assert_eq!(backend.get_switches_install().to_vec(), vec!["install"]);
    assert_eq!(backend.get_switches_remove().to_vec(), vec!["uninstall"]);
}

#[test]
fn loading_gathers_the_backends_section_of_every_group() {
    let groups = vec![
        group("base", "[pacman]\nzsh\ngit\n[rust]\nripgrep\n"),
        group("dev", "[rust]\nfd-find\nripgrep\n[pacman]\ngdb\ngit\n"),
        group("empty", ""),
        group("other", "[apt]\nnot-ours\n"),
    ];
    let mut pacman = Backend::new(Backends::Pacman);
    pacman.load(&groups);
    assert_eq!(names(pacman.get_managed_packages().as_slice()), vec!["gdb", "git", "zsh"]);
    let mut rust = Backend::new(Backends::Rust);
    rust.load(&groups);
    assert_eq!(names(rust.get_managed_packages().as_slice()), vec!["fd-find", "ripgrep"]);
}

#[test]
fn loading_the_same_groups_again_changes_nothing() {
    let groups = vec![group("base", "[pacman]\nzsh\ngit\n")];
    let mut backend = Backend::new(Backends::Pacman);
    backend.load(&groups);
    let once = backend.get_managed_packages().clone();
    backend.load(&groups);
    assert!(*backend.get_managed_packages() == once);
    backend.load(&[]);
    assert!(*backend.get_managed_packages() == once);
}

#[test]
fn added_packages_become_managed() {
    let mut backend = Backend::new(Backends::Rust);
    backend.load(&[group("base", "[rust]\nripgrep\n")]);
    backend.add_packages(set_of(&["bat", "ripgrep"]));
    assert_eq!(names(backend.get_managed_packages().as_slice()), vec!["bat", "ripgrep"]);
    backend.add_packages(PackageSet::new());
    assert_eq!(backend.get_managed_packages().len(), 2);
    assert_eq!(backend.kind(), Backends::Rust);
}

#[test]
fn missing_packages_are_managed_but_not_installed() {
    let mut backend = Backend::new(Backends::Pacman);
    backend.add_packages(set_of(&["zsh", "git", "vim", "htop"]));
    let installed = set_of(&["git", "linux", "htop", "glibc"]);
    assert_eq!(names(&backend.get_missing_packages_sorted(&installed)), vec!["vim", "zsh"]);
    assert_eq!(
        names(&backend.get_missing_packages_sorted(&installed)),
        names(&backend.get_missing_packages_sorted(&installed))
    );
}

#[test]
fn with_nothing_installed_everything_managed_is_missing() {
    let mut backend = Backend::new(Backends::Pacman);
    backend.add_packages(set_of(&["c", "a", "b"]));
    assert_eq!(names(&backend.get_missing_packages_sorted(&PackageSet::new())), vec!["a", "b", "c"]);
    let all = set_of(&["a", "b", "c", "d"]);
    assert!(backend.get_missing_packages_sorted(&all).is_empty());
    assert!(Backend::new(Backends::Rust).get_missing_packages_sorted(&all).is_empty());
}

#[test]
fn unmanaged_packages_are_explicitly_installed_but_not_managed() {
    let mut backend = Backend::new(Backends::Pacman);
    backend.add_packages(set_of(&["zsh", "git"]));
    let explicit = set_of(&["git", "steam", "discord", "zsh", "audacity"]);
    assert_eq!(
        names(&backend.get_unmanaged_packages_sorted(&explicit)),
        vec!["audacity", "discord", "steam"]
    );
    assert!(backend.get_unmanaged_packages_sorted(&PackageSet::new()).is_empty());
    assert!(backend.get_unmanaged_packages_sorted(&set_of(&["git"])).is_empty());
}

#[test]
fn installing_nothing_gives_no_command() {
    for kind in [Backends::Pacman, Backends::Rust] {
        assert!(Backend::new(kind).install_packages(&[]).is_none());
    }
}

#[test]
fn removing_nothing_gives_no_command() {
    for kind in [Backends::Pacman, Backends::Rust] {
        assert!(Backend::new(kind).remove_packages(Vec::new()).is_none());
    }
}

#[test]
fn installing_runs_the_binary_with_the_switches_and_then_the_packages() {
    let command = Backend::new(Backends::Pacman)
        .install_packages(&packages(&["zsh", "git", "vim"]))
        .unwrap();
    assert_eq!(command.binary, "pacman");
    assert_eq!(command.args, vec!["-S", "zsh", "git", "vim"]);
    let command = Backend::new(Backends::Rust).install_packages(&packages(&["ripgrep"])).unwrap();
    assert_eq!(command.binary, "cargo");
    assert_eq!(command.args, vec!["install", "ripgrep"]);
}

#[test]
fn removing_runs_the_binary_with_the_switches_and_then_the_packages() {
    let command = Backend::new(Backends::Pacman).remove_packages(packages(&["b", "a"])).unwrap();
    assert_eq!(command.binary, "pacman");
    assert_eq!(command.args, vec!["-Rsn", "b", "a"]);
    let command = Backend::new(Backends::Rust).remove_packages(packages(&["bat"])).unwrap();
    assert_eq!(command.binary, "cargo");
    assert_eq!(command.args, vec!["uninstall", "bat"]);
}

#[test]
fn missing_packages_install_in_sorted_order() {
    let mut backend = Backend::new(Backends::Pacman);
    backend.load(&[group("g", "[pacman]\nzsh\nbash\nfish\n")]);
    let missing = backend.get_missing_packages_sorted(&set_of(&["fish"]));
    let command = backend.install_packages(&missing).unwrap();
    assert_eq!(command.args, vec!["-S", "bash", "zsh"]);
}

#[test]
fn the_listing_queries_run_the_binary_with_the_listing_switches() {
    let pacman = Backend::new(Backends::Pacman);
    let all = pacman.query_all_installed();
    assert_eq!(all.binary, "pacman");
    assert_eq!(all.args, vec!["-Qq"]);
    let explicit = pacman.query_explicitly_installed();
    assert_eq!(explicit.binary, "pacman");
    assert_eq!(explicit.args, vec!["-Qqe"]);
    let rust = Backend::new(Backends::Rust);
    for query in [rust.query_all_installed(), rust.query_explicitly_installed()] {
        assert_eq!(query.binary, "cargo");
        assert_eq!(query.args, vec!["install", "--list"]);
    }
}

#[test]
fn a_listing_names_the_first_word_of_each_unindented_line() {
    let backend = Backend::new(Backends::Rust);
    let listing = "ripgrep v13.0.0:\n    rg\nfd-find v8.7.0:\n    fd\nbat v0.22.1 (/src/bat):\n    bat\n";
    let installed = backend.installed_from_listing(listing);
    assert_eq!(names(installed.as_slice()), vec!["bat", "fd-find", "ripgrep"]);
}

#[test]
fn a_listing_of_bare_names_names_them_all() {
    let backend = Backend::new(Backends::Pacman);
    let installed = backend.installed_from_listing("zsh\nbash\nlinux\n\nbash\n");
    assert_eq!(names(installed.as_slice()), vec!["bash", "linux", "zsh"]);
    assert!(backend.installed_from_listing("").is_empty());
    assert!(backend.installed_from_listing("  indented only\n\tx\n").is_empty());
    assert!(backend.installed_from_listing("[odd] thing\n# comment\n").is_empty());
}
