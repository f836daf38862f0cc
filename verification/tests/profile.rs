use project_context::error::ContextError;
use project_context::profile::{
    all_current_topics, bind_profile_repository, default_excluded_prefixes, default_impact_rules,
    impacted_topics, load_profile, load_profile_for_repository, new_profile, save_profile,
    validate_profile, ImpactRule, Profile, DEFAULT_LIBRARY_ID, LIBRARY_DIR,
};
use project_context::scaffold::init;

fn list(items: &[&str]) -> Vec<String> {
    items.iter().map(|item| item.to_string()).collect()
}

fn demo() -> Profile {
    new_profile(Some("Demo"), None, "demo")
}

#[test]
fn impact_analysis_is_conservative_for_unknown_paths() {
    let topics = impacted_topics(
        &["new-layout/module.xyz".to_owned()],
        &default_impact_rules("demo"),
        "demo",
    );
    assert_eq!(topics, all_current_topics("demo"));
}

#[test]
fn current_topics_are_uris_in_order() {
    assert_eq!(
        all_current_topics("demo"),
        list(&[
            "okf://demo/current/architecture",
            "okf://demo/current/components",
            "okf://demo/current/constraints",
            "okf://demo/current/decisions",
        ])
    );
}

#[test]
fn changes_concern_the_topics_of_their_rules() {
    let rules = default_impact_rules("demo");
    assert_eq!(
        impacted_topics(&list(&["src/lib.rs", "Cargo.toml"]), &rules, "demo"),
        list(&[
            "okf://demo/current/architecture",
            "okf://demo/current/components",
            "okf://demo/current/constraints",
        ])
    );
    assert_eq!(
        impacted_topics(&list(&["docs/adr.md"]), &rules, "demo"),
        list(&["okf://demo/current/architecture", "okf://demo/current/decisions"])
    );
    assert_eq!(impacted_topics(&[], &rules, "demo"), list(&[]));
    assert_eq!(impacted_topics(&list(&["x"]), &[], "demo"), all_current_topics("demo"));
}

#[test]
fn topics_are_reported_once_and_in_order() {
    let rule = |topic: &str| ImpactRule { topic: topic.to_owned(), path_prefixes: list(&["a"]) };
    let rules = [rule("z"), rule("b"), rule("z")];
    assert_eq!(impacted_topics(&list(&["a/1"]), &rules, "demo"), list(&["b", "z"]));
}

#[test]
fn defaults_are_the_ones_that_are_documented() {
    assert_eq!(LIBRARY_DIR, ".okf/project-context");
    assert_eq!(DEFAULT_LIBRARY_ID, "project-context");
    assert_eq!(
        default_excluded_prefixes(),
        list(&[
            ".okf/project-context",
            ".okf/.gitignore",
            ".okf/cache",
            ".okf/libraries.json",
            ".okf/state",
        ])
    );
    let rules = default_impact_rules("demo");
    let counts: Vec<usize> = rules.iter().map(|rule| rule.path_prefixes.len()).collect();
    assert_eq!(counts, [10, 7, 17, 4]);
    let topics: Vec<String> = rules.iter().map(|rule| rule.topic.clone()).collect();
    assert_eq!(topics, all_current_topics("demo"));
    assert_eq!(rules[2].path_prefixes[0], ".github");
    assert_eq!(rules[3].path_prefixes, list(&["docs", "adr", "decisions", "rfcs"]));
}

#[test]
fn new_profiles_are_valid_and_named() {
    assert!(validate_profile(&demo()).is_ok());
    assert_eq!(new_profile(Some("Given"), Some("dir"), "id").project, "Given");
    assert_eq!(new_profile(None, Some("dir"), "id").project, "dir");
    assert_eq!(new_profile(None, None, "id").project, "id");
    assert_eq!(demo().repository, ".");
    assert_eq!(demo().schema_version, "1");
    assert!(demo().validated_revision.is_none());
}

#[test]
fn profiles_are_refused_for_their_first_fault() {
    let mut profile = demo();
    profile.excluded_prefixes.push("..".to_owned());
    assert!(matches!(
        validate_profile(&profile),
        Err(ContextError::InvalidPrefix { ref prefix }) if prefix == ".."
    ));
    profile.impact_rules[1].path_prefixes.push("a/../b".to_owned());
    assert!(matches!(
        validate_profile(&profile),
        Err(ContextError::InvalidPrefix { ref prefix }) if prefix == "a/../b"
    ));
    profile.impact_rules[0].topic = "okf://other/status".to_owned();
    let error = validate_profile(&profile).expect_err("foreign topic");
    assert_eq!(
        error.message(),
        "impact rule topic 'okf://other/status' is invalid: URI 'okf://other/status' does not \
         belong to Library 'demo'"
    );
    profile.library_id = "no id".to_owned();
    assert!(matches!(validate_profile(&profile), Err(ContextError::InvalidLibraryId { .. })));
    profile.project = " \n".to_owned();
    assert!(matches!(validate_profile(&profile), Err(ContextError::EmptyProject)));
    profile.schema_version = "2".to_owned();
    assert!(matches!(
        validate_profile(&profile),
        Err(ContextError::UnsupportedSchema { ref version }) if version == "2"
    ));
    assert!(load_profile(profile.clone()).is_err());
    assert!(load_profile_for_repository(profile.clone(), "/r").is_err());
    assert!(save_profile(&profile).is_err());
}

#[test]
fn saved_profiles_survive_moves() {
    let mut profile = bind_profile_repository(demo(), "/first/place");
    assert_eq!(profile.repository, "/first/place");
    profile.validated_revision = Some("abc".to_owned());
    let stored = save_profile(&profile).expect("valid profile");
    assert_eq!(stored.repository, ".");
    let loaded = load_profile_for_repository(stored, "/second/place").expect("loads");
    assert_eq!(loaded.repository, "/second/place");
    assert_eq!(loaded.project, "Demo");
    assert_eq!(loaded.library_id, "demo");
    assert_eq!(loaded.validated_revision.as_deref(), Some("abc"));
    assert_eq!(loaded.excluded_prefixes, default_excluded_prefixes());
    assert_eq!(loaded.impact_rules.len(), 4);
}

#[test]
fn generated_profile_is_portable() {
    let made = init("/r/root", false, false, DEFAULT_LIBRARY_ID, Some("Portable"), Some("r"))
        .expect("initialize");
    let stored = save_profile(&made.profile).expect("stored");
    assert_eq!(stored.repository, ".");
    let bound = bind_profile_repository(stored, "/somewhere");
    assert_eq!(save_profile(&bound).expect("stored again").repository, ".");
}
