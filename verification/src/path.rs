//! Where the configuration lives: the directory of pacdef and, in it, the
//! directory of the group files, derived from the values of the environment
//! variables `XDG_CONFIG_HOME` and `HOME`.

use vstd::prelude::*;
use vstd::string::StringExecFns;

use crate::text::chars_of;

verus! {

/// The path that results when `component` is appended to `base` as a further
/// component. An absolute component replaces the base; otherwise a separator
/// is put between the two unless the base is empty or already ends in one.
pub open spec fn join(base: Seq<char>, component: Seq<char>) -> Seq<char> {
    if component.len() > 0 && component[0] == '/' {
        component
    } else if base.len() == 0 || base.last() == '/' {
        base + component
    } else {
        base + seq!['/'] + component
    }
}

/// The values of the environment variables that decide where the
/// configuration lives; `None` for a variable that is not set.
#[derive(Debug)]
pub struct Environment {
    /// The value of `XDG_CONFIG_HOME`.
    pub xdg_config_home: Option<String>,
    /// The value of `HOME`.
    pub home: Option<String>,
}

/// Why no configuration directory can be named.
#[derive(Clone, Copy, Debug, PartialEq, Eq, Structural)]
pub enum PathError {
    /// `HOME` is not set, and it was needed.
    HomeNotSet,
}

/// The text of a variable's value.
pub open spec fn value_of(variable: Option<String>) -> Option<Seq<char>> {
    match variable {
        Some(value) => Some(value@),
        None => None,
    }
}

impl Environment {
    /// The home directory: the value of `HOME`.
    pub open spec fn home_dir(self) -> Result<Seq<char>, PathError> {
        match value_of(self.home) {
            Some(home) => Ok(home),
            None => Err(PathError::HomeNotSet),
        }
    }

    /// The directory of configuration files: the value of `XDG_CONFIG_HOME`
    /// where it is set, else `.config` in the home directory.
    pub open spec fn config_home(self) -> Result<Seq<char>, PathError> {
        match value_of(self.xdg_config_home) {
            Some(dir) => Ok(dir),
            None => match self.home_dir() {
                Ok(home) => Ok(join(home, ".config"@)),
                Err(e) => Err(e),
            },
        }
    }

    /// The directory of pacdef: `pacdef` in the directory of configuration
    /// files.
    pub open spec fn base_dir(self) -> Result<Seq<char>, PathError> {
        match self.config_home() {
            Ok(dir) => Ok(join(dir, "pacdef"@)),
            Err(e) => Err(e),
        }
    }

    /// The directory of the group files: `groups` in the directory of pacdef.
    pub open spec fn group_dir(self) -> Result<Seq<char>, PathError> {
        match self.base_dir() {
            Ok(dir) => Ok(join(dir, "groups"@)),
            Err(e) => Err(e),
        }
    }
}

/// Whether two results name the same path or are the same error.
pub open spec fn same_path(found: Result<String, PathError>, wanted: Result<Seq<char>, PathError>) -> bool {
    match (found, wanted) {
        (Ok(path), Ok(text)) => path@ == text,
        (Err(e), Err(f)) => e == f,
        _ => false,
    }
}

/// Appends `component` to `base` as a further path component.
pub fn join_path(base: &str, component: &str) -> (path: String)
    ensures
        path@ == join(base@, component@),
{
    let part = chars_of(component);
    if part.len() > 0 && part[0] == '/' {
        return component.to_owned();
    }
    let head = chars_of(base);
    let mut path = base.to_owned();
    if head.len() > 0 && head[head.len() - 1] != '/' {
        path.push('/');
    }
    path.append(component);
    path
}

/// The home directory. Fails where `HOME` is not set.
pub fn get_home_dir(env: &Environment) -> (dir: Result<String, PathError>)
    ensures
        same_path(dir, env.home_dir()),
{
    match &env.home {
        Some(home) => Ok(home.clone()),
        None => Err(PathError::HomeNotSet),
    }
}

/// The directory of configuration files. Fails where neither
/// `XDG_CONFIG_HOME` nor `HOME` is set.
pub fn get_xdg_config_home(env: &Environment) -> (dir: Result<String, PathError>)
    ensures
        same_path(dir, env.config_home()),
{
    match &env.xdg_config_home {
        Some(dir) => Ok(dir.clone()),
        None => match get_home_dir(env) {
            Ok(home) => Ok(join_path(home.as_str(), ".config")),
            Err(e) => Err(e),
        },
    }
}

/// The directory of pacdef. Fails where neither `XDG_CONFIG_HOME` nor `HOME`
/// is set.
pub fn get_pacdef_base_dir(env: &Environment) -> (dir: Result<String, PathError>)
    ensures
        same_path(dir, env.base_dir()),
{
    match get_xdg_config_home(env) {
        Ok(dir) => Ok(join_path(dir.as_str(), "pacdef")),
        Err(e) => Err(e),
    }
}

/// The directory of the group files. Fails where neither `XDG_CONFIG_HOME`
/// nor `HOME` is set.
pub fn get_pacdef_group_dir(env: &Environment) -> (dir: Result<String, PathError>)
    ensures
        same_path(dir, env.group_dir()),
{
    match get_pacdef_base_dir(env) {
        Ok(dir) => Ok(join_path(dir.as_str(), "groups")),
        Err(e) => Err(e),
    }
}

} // verus!
