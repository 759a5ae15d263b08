//! Finds the installed Python interpreter that satisfies a requested version.
//!
//! File names of the form `python<major>.<minor>` are read as versions, the
//! files found on a search path are collected into a map from version to path,
//! and a request (any version, a major version, or an exact version) selects
//! the path of the highest version that supports it.
pub mod decimal;
pub mod discovery;
pub mod error;
pub mod executables;
pub mod order;
pub mod path;
pub mod text;
pub mod version;

pub use discovery::{
    all_executables, all_executables_in_paths, find_executable, flatten_directories,
};
pub use error::{ComponentError, Error};
pub use executables::{find_executable_in_hashmap, Executables};
pub use path::{FileName, FilePath};
pub use version::{ExactVersion, RequestedVersion};
