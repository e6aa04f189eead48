//! Declared packages against installed packages.
//!
//! A user declares in group files which packages each package manager, a
//! backend, is to have installed. This library reads those declarations,
//! gathers for each backend the packages it manages, and compares them with
//! what is installed: what is managed but not installed is missing, what was
//! installed by hand but is not managed is unmanaged. It also names the
//! commands that install and remove packages, and the directories in which
//! the declarations live.
//!
//! The library computes and decides; it reads no file and runs no program.
//! Every executable function is verified against a contract over the views
//! of its arguments: names are sequences of characters, sets of packages are
//! sets of names.

pub mod backend;
pub mod group;
pub mod group_file;
pub mod order;
pub mod package;
pub mod package_set;
pub mod path;
pub mod text;

pub use backend::Backend;
pub use backend::BackendIter;
pub use backend::Backends;
pub use backend::Invocation;
pub use group::Group;
pub use package::Package;
pub use package_set::PackageSet;
pub use path::get_home_dir;
pub use path::get_pacdef_base_dir;
pub use path::get_pacdef_group_dir;
