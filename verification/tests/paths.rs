use pacdef::path::get_home_dir;
use pacdef::path::get_pacdef_base_dir;
use pacdef::path::get_pacdef_group_dir;
use pacdef::path::get_xdg_config_home;
use pacdef::path::join_path;
use pacdef::path::Environment;
use pacdef::path::PathError;

fn env(xdg_config_home: Option<&str>, home: Option<&str>) -> Environment {
    Environment {
        xdg_config_home: xdg_config_home.map(String::from),
        home: home.map(String::from),
    }
}

#[test]
fn a_component_is_appended_after_a_separator() {
    assert_eq!(join_path("/home/u", ".config"), "/home/u/.config");
    assert_eq!(join_path("relative", "x"), "relative/x");
    assert_eq!(join_path("a/b", "c/d"), "a/b/c/d");
}

#[test]
fn no_second_separator_is_put_after_one() {
    assert_eq!(join_path("/home/u/", ".config"), "/home/u/.config");
    assert_eq!(join_path("/", "etc"), "/etc");
}

#[test]
fn an_empty_base_gets_no_separator() {
    assert_eq!(join_path("", "pacdef"), "pacdef");
    assert_eq!(join_path("", ""), "");
}

#[test]
fn an_empty_component_leaves_a_trailing_separator() {
    assert_eq!(join_path("/home/u", ""), "/home/u/");
    assert_eq!(join_path("/home/u/", ""), "/home/u/");
}

#[test]
fn an_absolute_component_replaces_the_base() {
    assert_eq!(join_path("/home/u", "/etc"), "/etc");
    assert_eq!(join_path("", "/etc"), "/etc");
}

#[test]
fn joining_is_what_the_standard_library_does_to_paths() {
    for base in ["", "/", "a", "a/", "/a/b", "/a/b/", "ä/ö"] {
        for component in ["", "x", "x/y", "/x", ".config", "/"] {
            let mut expected = std::path::PathBuf::from(base);
            expected.push(component);
            assert_eq!(
                std::path::PathBuf::from(join_path(base, component)),
                expected,
                "{base:?} {component:?}"
            );
            assert_eq!(Some(join_path(base, component).as_str()), expected.to_str());
        }
    }
}

#[test]
fn the_home_directory_is_the_value_of_home() {
    assert_eq!(get_home_dir(&env(None, Some("/home/u"))), Ok(String::from("/home/u")));
    assert_eq!(get_home_dir(&env(Some("/x"), Some("/home/u"))), Ok(String::from("/home/u")));
    assert_eq!(get_home_dir(&env(None, None)), Err(PathError::HomeNotSet));
    assert_eq!(get_home_dir(&env(Some("/x"), None)), Err(PathError::HomeNotSet));
}

#[test]
fn the_configuration_directory_prefers_xdg_config_home() {
    assert_eq!(get_xdg_config_home(&env(Some("/xdg"), Some("/home/u"))), Ok(String::from("/xdg")));
    assert_eq!(get_xdg_config_home(&env(Some("/xdg"), None)), Ok(String::from("/xdg")));
    assert_eq!(get_xdg_config_home(&env(Some(""), Some("/home/u"))), Ok(String::from("")));
}

#[test]
fn the_configuration_directory_falls_back_to_home() {
    assert_eq!(
        get_xdg_config_home(&env(None, Some("/home/u"))),
        Ok(String::from("/home/u/.config"))
    );
    assert_eq!(get_xdg_config_home(&env(None, Some("/"))), Ok(String::from("/.config")));
}

#[test]
fn without_either_variable_there_is_no_directory() {
    let nothing = env(None, None);
    assert_eq!(get_xdg_config_home(&nothing), Err(PathError::HomeNotSet));
    assert_eq!(get_pacdef_base_dir(&nothing), Err(PathError::HomeNotSet));
    assert_eq!(get_pacdef_group_dir(&nothing), Err(PathError::HomeNotSet));
}

#[test]
fn the_base_directory_is_pacdef_in_the_configuration_directory() {
    assert_eq!(get_pacdef_base_dir(&env(Some("/xdg"), None)), Ok(String::from("/xdg/pacdef")));
    assert_eq!(
        get_pacdef_base_dir(&env(None, Some("/home/u"))),
        Ok(String::from("/home/u/.config/pacdef"))
    );
    assert_eq!(get_pacdef_base_dir(&env(Some("/xdg/"), None)), Ok(String::from("/xdg/pacdef")));
    assert_eq!(get_pacdef_base_dir(&env(Some(""), None)), Ok(String::from("pacdef")));
}

#[test]
fn the_group_directory_is_groups_in_the_base_directory() {
    assert_eq!(
        get_pacdef_group_dir(&env(Some("/xdg"), Some("/home/u"))),
        Ok(String::from("/xdg/pacdef/groups"))
    );
    assert_eq!(
        get_pacdef_group_dir(&env(None, Some("/home/u"))),
        Ok(String::from("/home/u/.config/pacdef/groups"))
    );
}
