use project_context::order::{comes_before, insert};
use project_context::paths::{
    filter_paths, lines, merge_paths, normalize_repo_path, path_matches_prefix,
};

fn list(items: &[&str]) -> Vec<String> {
    items.iter().map(|item| item.to_string()).collect()
}

#[test]
fn prefix_matching_respects_path_segments() {
    assert!(path_matches_prefix("src/lib.rs", "src"));
    assert!(path_matches_prefix("src", "src"));
    assert!(!path_matches_prefix("src2/lib.rs", "src"));
}

#[test]
fn prefixes_match_whatever_their_spelling() {
    assert!(path_matches_prefix(".\\src\\lib.rs", "./src/"));
    assert!(path_matches_prefix("anything/at/all", ""));
    assert!(path_matches_prefix("anything/at/all", "./"));
    assert!(!path_matches_prefix("src", "src/lib.rs"));
    assert!(path_matches_prefix("a/b/c", "a/b"));
    assert!(path_matches_prefix("a/b/c", "a"));
}

#[test]
fn repository_paths_have_one_spelling() {
    assert_eq!(normalize_repo_path("  ././src\\lib.rs/ "), "src/lib.rs");
    assert_eq!(normalize_repo_path("/a/"), "a");
    assert_eq!(normalize_repo_path(".\\"), "");
    assert_eq!(normalize_repo_path("../a"), "../a");
    assert_eq!(normalize_repo_path(".okf"), ".okf");
    for value in ["", "./a/b/", " c ", "d\\e"] {
        let once = normalize_repo_path(value);
        assert_eq!(normalize_repo_path(&once), once);
    }
    // Slashes are cut off last, so a second pass can find more to cut.
    assert_eq!(normalize_repo_path("/./a"), "./a");
    assert_eq!(normalize_repo_path("./a"), "a");
}

#[test]
fn lines_are_paths_without_blanks() {
    assert_eq!(
        lines("b.rs\r\n\n  ./a.rs  \n \t\nsub\\c.rs"),
        list(&["b.rs", "a.rs", "sub/c.rs"])
    );
    assert_eq!(lines(""), list(&[]));
}

#[test]
fn filtering_keeps_what_no_prefix_matches() {
    let paths = list(&["src/b", ".okf/project-context/x", "src/a", "src/b", ".okfx"]);
    let excluded = list(&[".okf/project-context", ".okf"]);
    let kept = filter_paths(&paths, &excluded);
    assert_eq!(kept, list(&[".okfx", "src/a", "src/b"]));
    assert_eq!(filter_paths(&kept, &excluded), kept);
    assert_eq!(filter_paths(&paths, &list(&[""])), list(&[]));
}

#[test]
fn filtering_distributes_over_merging() {
    let left = list(&["x/1", "y/1"]);
    let right = list(&["y/2", "x/1"]);
    let excluded = list(&["x"]);
    assert_eq!(
        filter_paths(&merge_paths(&left, &right), &excluded),
        merge_paths(&filter_paths(&left, &excluded), &filter_paths(&right, &excluded))
    );
}

#[test]
fn merging_sorts_and_drops_repetitions() {
    assert_eq!(
        merge_paths(&list(&["b", "a"]), &list(&["c", "a", ""])),
        list(&["", "a", "b", "c"])
    );
}

#[test]
fn texts_are_ordered_like_strings() {
    let samples = ["", "a", "aa", "ab", "b", "Z", "é", "\u{ffff}", "\u{10000}", "-", "_"];
    for a in samples {
        for b in samples {
            assert_eq!(comes_before(a, b), a < b, "{a:?} {b:?}");
        }
    }
}

#[test]
fn insertion_keeps_a_set_ascending() {
    let mut set: Vec<String> = Vec::new();
    for item in ["m", "b", "z", "b", "a", "m", "\u{10000}", "\u{ffff}"] {
        insert(&mut set, item.to_string());
    }
    assert_eq!(set, list(&["a", "b", "m", "z", "\u{ffff}", "\u{10000}"]));
}
