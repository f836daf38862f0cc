use std::path::{Path, PathBuf};

use project_context::error::ContextError;
use project_context::layout::{
    library_root, profile_path, provider_root, registry_path, repository_from_library_root,
};

#[test]
fn libraries_lie_below_their_repository() {
    let root = library_root("/work/demo");
    assert_eq!((root.base, root.relative), ("/work/demo", ".okf/project-context"));
    let profile = profile_path("root");
    assert_eq!((profile.base, profile.relative), ("root", "profile.json"));
    let registry = registry_path("/work/demo");
    assert_eq!((registry.base, registry.relative), ("/work/demo", ".okf/libraries.json"));
}

#[test]
fn places_are_joined_by_the_platform() {
    let place = library_root(Path::new("work"));
    let expected: PathBuf = ["work", ".okf", "project-context"].into_iter().collect();
    assert_eq!(place.base.join(place.relative), expected);
}

#[test]
fn repository_is_two_directories_above_its_library() {
    assert_eq!(repository_from_library_root(Some("r/.okf"), Some("r")).expect("found"), "r");
    assert!(matches!(
        repository_from_library_root(None::<&str>, None),
        Err(ContextError::NoOkfParent)
    ));
    assert!(matches!(
        repository_from_library_root(None, Some("r")),
        Err(ContextError::NoOkfParent)
    ));
    assert!(matches!(
        repository_from_library_root(Some("/"), None),
        Err(ContextError::NoRepositoryParent)
    ));
}

#[test]
fn explicit_root_comes_before_the_environment() {
    assert_eq!(provider_root(Some(1), Some(2)).expect("explicit"), 1);
    assert_eq!(provider_root(None, Some(2)).expect("environment"), 2);
    assert!(matches!(provider_root(None::<u8>, None), Err(ContextError::NoLibraryRoot)));
}
