//! File-system paths, as far as this library reads them.
use vstd::prelude::*;

verus! {

/// The final component of a path, as the platform reports it.
#[derive(Debug, PartialEq, Eq)]
pub enum FileName {
    /// The path has no final component, as the root directory has none.
    Missing,
    /// The final component is not text in the platform's encoding.
    NotText,
    /// The final component, as text.
    Text(String),
}

/// A path to a file, with the final component that the platform reports for
/// it.
#[derive(Debug, PartialEq, Eq)]
pub struct FilePath {
    /// The whole path. It is handed back for the version that it is found
    /// under, and never looked into.
    pub path: String,
    /// The final component of the path.
    pub file_name: FileName,
}

impl Clone for FileName {
    fn clone(&self) -> (copy: FileName)
        ensures
            copy == *self,
    {
        match self {
            FileName::Missing => FileName::Missing,
            FileName::NotText => FileName::NotText,
            FileName::Text(name) => FileName::Text(name.clone()),
        }
    }
}

impl Clone for FilePath {
    fn clone(&self) -> (copy: FilePath)
        ensures
            copy == *self,
    {
        FilePath { path: self.path.clone(), file_name: self.file_name.clone() }
    }
}

} // verus!
