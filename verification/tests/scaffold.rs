use project_context::error::ContextError;
use project_context::provider::{read_node, ReadTarget};
use project_context::scaffold::{
    create_scaffold, ensure_runtime_gitignore, init, write_doc, yaml_string,
};

#[test]
fn yaml_strings_are_quoted_safely() {
    assert_eq!(
        yaml_string("Project: demo").expect("quoted"),
        "\"Project: demo\""
    );
}

#[test]
fn quoting_escapes_what_json_escapes() {
    let value = "a\"b\\c\u{8}\u{c}\n\r\t\u{0}\u{1f}\u{7f}é\u{2028}/";
    assert_eq!(
        yaml_string(value).expect("quoted"),
        "\"a\\\"b\\\\c\\b\\f\\n\\r\\t\\u0000\\u001f\u{7f}é\u{2028}/\""
    );
    assert_eq!(yaml_string("").expect("quoted"), "\"\"");
}

#[test]
fn quoted_texts_are_read_back() {
    let mut seen = Vec::new();
    for code in 0..0x300_u32 {
        let value = format!("x{}y", char::from_u32(code).expect("a character"));
        let quoted = yaml_string(&value).expect("quoted");
        assert!(quoted.chars().all(|c| c >= ' '));
        let back: String = serde_json::from_str(&quoted).expect("a JSON string");
        assert_eq!(back, value);
        assert!(!seen.contains(&quoted));
        seen.push(quoted);
    }
}

#[test]
fn documents_have_a_front_matter() {
    assert_eq!(
        write_doc("Title", "What it is."),
        "---\ntitle: Title\nsummary: What it is.\ntags: [project-context]\n---\n# Title\n\n\
         <!-- Maintained by an authorized Project Context workflow. -->\n"
    );
}

#[test]
fn a_new_library_holds_every_node() {
    let files = create_scaffold("demo", "Say \"hi\"").expect("scaffold");
    let paths: Vec<&str> = files.iter().map(|file| file.path.as_str()).collect();
    assert_eq!(
        paths,
        [
            "okf-library.yaml",
            "index.md",
            "current/architecture.md",
            "current/constraints.md",
            "current/decisions.md",
            "current/components.md",
            "history/log.md",
        ]
    );
    for path in ["index", "current/architecture", "current/constraints", "history/log"] {
        match read_node(path) {
            Ok(ReadTarget::File(file)) => assert!(paths.contains(&file.as_str())),
            other => panic!("{other:?}"),
        }
    }
    let manifest = &files[0].contents;
    assert!(manifest.starts_with(
        "schema_version: \"1\"\nid: \"demo\"\nname: \"Say \\\"hi\\\" Project Context\"\n\
         version: \"0.1.0\"\n\ncatalog:\n  - id: status\n"
    ));
    assert!(manifest.contains("    terms: [history, changes, checkpoints]\n\nquery:\n"));
    assert!(manifest.ends_with(
        "      args: [provider, --library-root, \"${library_root}\"]\n      timeout_ms: 30000\n"
    ));
    assert_eq!(manifest.lines().count(), 53);
    assert_eq!(
        files[6].contents,
        write_doc(
            "Project History",
            "Append-only history of material context changes and validated checkpoints."
        )
    );
}

#[test]
fn runtime_files_are_ignored() {
    let all = "/cache/\n/libraries.json\n/state/\n";
    assert_eq!(ensure_runtime_gitignore(""), all);
    assert_eq!(ensure_runtime_gitignore(all), all);
    assert_eq!(
        ensure_runtime_gitignore("mine"),
        "mine\n/cache/\n/libraries.json\n/state/\n"
    );
    assert_eq!(
        ensure_runtime_gitignore("  /state/ \r\n/cache"),
        "  /state/ \r\n/cache\n/cache/\n/libraries.json\n"
    );
    let once = ensure_runtime_gitignore("a\n/libraries.json");
    assert_eq!(once, "a\n/libraries.json\n/cache/\n/state/\n");
    assert_eq!(ensure_runtime_gitignore(&once), once);
}

#[test]
fn libraries_are_replaced_only_by_force() {
    let made = init("/r/root", false, false, "demo", None, Some("dir")).expect("initialize");
    assert!(!made.reset);
    assert_eq!(made.profile.project, "dir");
    assert_eq!(made.profile.library_id, "demo");
    assert_eq!(made.files.len(), 7);
    assert!(made.files[0].contents.contains("name: \"dir Project Context\"\n"));
    let error = init("/r/root", true, false, "demo", None, None).expect_err("exists");
    assert_eq!(error.message(), "Project Context Library already exists at /r/root");
    assert!(init("/r/root", true, true, "demo", None, None).expect("forced").reset);
    assert!(!init("/r/root", false, true, "demo", None, None).expect("forced").reset);
    assert!(matches!(
        init("/r/root", true, false, "no id", None, None),
        Err(ContextError::InvalidLibraryId { .. })
    ));
}
