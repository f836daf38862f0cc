//! Where a Library lies in its repository.

use vstd::prelude::*;
use crate::error::{ContextError, ErrorView};
use crate::profile::LIBRARY_DIR;

verus! {

/// A place below a directory: `relative` joined to `base`. How the two are written
/// as one path is for the platform to say.
#[derive(Debug)]
pub struct Place<T> {
    pub base: T,
    pub relative: &'static str,
}

/// Where the Library of a repository lies.
pub fn library_root<T>(repository: T) -> (r: Place<T>)
    ensures
        r.base == repository,
        r.relative@ == ".okf/project-context"@,
{
    Place { base: repository, relative: LIBRARY_DIR }
}

/// Where a Library keeps its profile.
pub fn profile_path<T>(root: T) -> (r: Place<T>)
    ensures
        r.base == root,
        r.relative@ == "profile.json"@,
{
    Place { base: root, relative: "profile.json" }
}

/// Where the OKF registry of a repository lies.
pub fn registry_path<T>(repository: T) -> (r: Place<T>)
    ensures
        r.base == repository,
        r.relative@ == ".okf/libraries.json"@,
{
    Place { base: repository, relative: ".okf/libraries.json" }
}

/// The directory that holds the repository of a Library: the one above the
/// directory that holds the Library.
pub fn repository_from_library_root<T>(okf_directory: Option<T>, above: Option<T>) -> (r: Result<
    T,
    ContextError,
>)
    ensures
        match r {
            Ok(repository) => okf_directory is Some && above == Some(repository),
            Err(error) => error@ == (if okf_directory is None {
                ErrorView::NoOkfParent
            } else {
                ErrorView::NoRepositoryParent
            }) && (okf_directory is None || above is None),
        },
{
    match okf_directory {
        None => Err(ContextError::NoOkfParent),
        Some(_) => match above {
            None => Err(ContextError::NoRepositoryParent),
            Some(repository) => Ok(repository),
        },
    }
}

/// The root that a provider serves: the one that it was told, or else the one
/// that its environment names.
pub fn provider_root<T>(explicit: Option<T>, environment: Option<T>) -> (r: Result<T, ContextError>)
    ensures
        match r {
            Ok(root) => if explicit is Some {
                explicit == Some(root)
            } else {
                environment == Some(root)
            },
            Err(error) => explicit is None && environment is None && error@
                == ErrorView::NoLibraryRoot,
        },
{
    match explicit {
        Some(root) => Ok(root),
        None => match environment {
            Some(root) => Ok(root),
            None => Err(ContextError::NoLibraryRoot),
        },
    }
}

} // verus!
