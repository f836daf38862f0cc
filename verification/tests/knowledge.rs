use project_context::error::ContextError;
use project_context::knowledge::{
    normalize_knowledge_path, uri_of, uri_path, validate_library_id, validate_repo_prefixes,
};

fn normalized(value: &str) -> String {
    normalize_knowledge_path(value).expect("accepted path")
}

#[test]
fn rejects_knowledge_path_traversal() {
    assert!(normalize_knowledge_path("../secret").is_err());
    assert!(normalize_knowledge_path("current\\secret").is_err());
    assert!(uri_path("okf://demo/../../secret", "demo").is_err());
}

#[test]
fn library_ids_are_portable() {
    assert!(validate_library_id("project-context.v1").is_ok());
    assert!(validate_library_id("../project").is_err());
}

#[test]
fn library_ids_are_ascii_and_not_empty() {
    assert!(validate_library_id("A_z-0.9").is_ok());
    for id in ["", "a b", "a/b", "é", "a:b", "a\n"] {
        let error = validate_library_id(id).expect_err("refused id");
        assert_eq!(error.message(), format!("invalid Library id '{id}'"));
    }
}

#[test]
fn knowledge_paths_have_one_spelling() {
    assert_eq!(normalized(""), "");
    assert_eq!(normalized(" / "), "");
    assert_eq!(normalized("current"), "current");
    assert_eq!(normalized("  //current///architecture/ "), "current/architecture");
    assert_eq!(normalized("a b/c"), "a b/c");
    assert_eq!(normalized("..."), "...");
}

#[test]
fn knowledge_paths_are_refused_for_their_first_bad_segment() {
    let cases = [("a/./b/..", "."), ("a/../b/.", ".."), ("a/c:d/..", "c:d"), ("..", "..")];
    for (value, segment) in cases {
        match normalize_knowledge_path(value) {
            Err(ContextError::InvalidSegment { segment: found }) => assert_eq!(found, segment),
            other => panic!("{other:?}"),
        }
    }
    for value in ["a\\..", "a\0b", "../\\"] {
        assert!(matches!(
            normalize_knowledge_path(value),
            Err(ContextError::InvalidKnowledgePath)
        ));
    }
}

#[test]
fn normalizing_a_knowledge_path_twice() {
    for value in ["", "/a//b/", "current/architecture", " x "] {
        let once = normalized(value);
        assert_eq!(normalized(&once), once);
    }
    // Slashes are cut off after white space, so white space can be left over.
    assert_eq!(normalized("/ a"), " a");
    assert_eq!(normalized(" a"), "a");
}

#[test]
fn uris_name_their_own_path() {
    let uri = uri_of("demo", "current/decisions");
    assert_eq!(uri, "okf://demo/current/decisions");
    assert_eq!(uri_path(&uri, "demo").expect("own uri"), "current/decisions");
    assert_eq!(uri_path("okf://demo/", "demo").expect("root"), "");
}

#[test]
fn uris_belong_to_one_library() {
    for uri in ["okf://demo2/status", "okf://dem/status", "okf://demo", "http://demo/status", ""] {
        match uri_path(uri, "demo") {
            Err(ContextError::ForeignUri { uri: found, library }) => {
                assert_eq!(found, uri);
                assert_eq!(library, "demo");
            }
            other => panic!("{other:?}"),
        }
    }
}

#[test]
fn prefixes_name_something_inside_the_repository() {
    let list = |items: &[&str]| items.iter().map(|item| item.to_string()).collect::<Vec<_>>();
    assert!(validate_repo_prefixes(&list(&[])).is_ok());
    assert!(validate_repo_prefixes(&list(&["src", "./docs/", "a..b", "..."])).is_ok());
    for bad in ["", " ./ ", "/", "..", "a/../b", "a\\..\\b"] {
        match validate_repo_prefixes(&list(&["src", bad, ".."])) {
            Err(ContextError::InvalidPrefix { prefix }) => assert_eq!(prefix, bad),
            other => panic!("{other:?}"),
        }
    }
}
