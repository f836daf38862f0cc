use project_context::profile::{new_profile, Profile, DEFAULT_LIBRARY_ID};
use project_context::query::{
    candidate, default_query_limit, lexical_score, query_library, query_result, query_terms,
    score_lowered, truncate, words_between, ProviderQuery, QueryResult, Score,
};
use project_context::scaffold::create_scaffold;
use project_context::status::ContextState;

fn list(items: &[&str]) -> Vec<String> {
    items.iter().map(|item| item.to_string()).collect()
}

fn numbers(score: Option<Score>) -> Option<(u128, usize, usize)> {
    score.map(|score| (score.points, score.matched, score.terms))
}

fn profile() -> Profile {
    new_profile(Some("Query"), None, DEFAULT_LIBRARY_ID)
}

fn contents(items: [&str; 6]) -> [String; 6] {
    items.map(|item| item.to_owned())
}

fn ask(text: &str, limit: usize, items: [&str; 6]) -> QueryResult {
    let query = ProviderQuery { text: text.to_owned(), limit };
    query_library(&profile(), &query, &contents(items), ContextState::Dirty)
}

fn paths(result: &QueryResult) -> Vec<String> {
    result
        .hits
        .iter()
        .map(|hit| hit.uri.strip_prefix("okf://project-context/").expect("own uri").to_owned())
        .collect()
}

/// The score as one number.
fn total(score: Score) -> f64 {
    let share =
        if score.terms == 0 { 0.0 } else { score.matched as f64 / score.terms as f64 };
    score.points as f64 + share
}

#[test]
fn provider_query_matches_individual_terms() {
    let files = create_scaffold(DEFAULT_LIBRARY_ID, "Query").expect("scaffold");
    let written = |path: &str| {
        files.iter().find(|file| file.path == path).expect("file").contents.clone()
    };
    let contents = [
        "# Project Context Status\n".to_owned(),
        "# Architecture\n\nThe runtime composes mounted providers.\n".to_owned(),
        written("current/constraints.md"),
        written("current/decisions.md"),
        written("current/components.md"),
        written("history/log.md"),
    ];
    let query = ProviderQuery { text: "runtime architecture".to_owned(), limit: 20 };
    let result = query_library(&profile(), &query, &contents, ContextState::Uninitialized);
    assert!(result.hits.iter().any(|hit| hit.uri.ends_with("/current/architecture")));
}

#[test]
fn terms_are_words_in_order_without_repetition() {
    assert_eq!(
        query_terms("runtime, (mounted) runtime_x a-b é9 ß!"),
        list(&["a-b", "mounted", "runtime", "runtime_x", "ß", "é9"])
    );
    assert_eq!(query_terms(" ,;/ "), list(&[]));
    assert_eq!(query_terms("--"), list(&["--"]));
    assert_eq!(
        words_between(&['a', '.', 'b', 'a', '.', 'a'], &[true, false, true, true, false, true]),
        list(&["a", "ba"])
    );
}

#[test]
fn terms_survive_joining() {
    for value in ["", "b a, b-c/_d", "x", "\u{3000}\u{e9}t\u{e9}\u{2028}\u{660}1"] {
        let terms = query_terms(value);
        assert_eq!(query_terms(&terms.join(" ")), terms);
    }
    assert_eq!(query_terms("Ab,aB"), list(&["Ab", "aB"]));
}

#[test]
fn no_letter_or_digit_is_white_space() {
    for code in 0..=0x10ffff_u32 {
        if let Some(c) = char::from_u32(code) {
            assert!(!(c.is_alphanumeric() && c.is_whitespace()), "U+{code:04X}");
        }
    }
}

#[test]
fn scores_go_by_the_best_place() {
    let terms = list(&["alpha", "beta", "gamma"]);
    assert_eq!(
        numbers(score_lowered("x/alpha", "beta", "gamma", "alpha", &terms)),
        Some((20 + 5 + 3 + 1, 3, 3))
    );
    assert_eq!(
        numbers(score_lowered("x", "alpha", "alpha", "alpha", &terms)),
        Some((12 + 3, 1, 3))
    );
    assert_eq!(numbers(score_lowered("x", "y", "alpha", "alpha", &terms)), Some((6 + 1, 1, 3)));
    assert_eq!(numbers(score_lowered("x", "y", "a beta", "alpha beta", &terms)), Some((1, 1, 3)));
    assert_eq!(numbers(score_lowered("x", "y", "z", "alpha", &terms)), None);
    assert_eq!(numbers(score_lowered("x", "y", "z", "", &terms)), Some((0, 0, 3)));
    assert_eq!(numbers(score_lowered("x", "y", "a. b", ". ", &[])), Some((6, 0, 0)));
}

#[test]
fn nodes_match_whatever_their_case() {
    let terms = list(&["éa"]);
    assert_eq!(numbers(lexical_score("X", "ÉA", "", "éa", &terms)), Some((12 + 3, 1, 1)));
    assert_eq!(numbers(lexical_score("X", "Y", "some ÉA", "éa", &terms)), Some((6 + 1, 1, 1)));
    assert_eq!(numbers(lexical_score("X", "Y", "", "éa", &terms)), None);
}

#[test]
fn a_score_is_points_and_the_share_of_terms() {
    assert_eq!(total(Score { points: 9, matched: 1, terms: 2 }), 9.5);
    assert_eq!(total(Score { points: 6, matched: 0, terms: 0 }), 6.0);
}

#[test]
fn texts_are_cut_by_characters() {
    assert_eq!(truncate("abc", 3), "abc");
    assert_eq!(truncate("äbc", 2), "äb…");
    assert_eq!(truncate("abc", 0), "…");
    assert_eq!(truncate("", 0), "");
}

#[test]
fn the_limit_is_twenty_unless_said_otherwise() {
    assert_eq!(default_query_limit(), 20);
}

#[test]
fn candidates_are_the_nodes_of_the_library() {
    let all: Vec<(&str, &str)> = (0..6).map(candidate).collect();
    assert_eq!(
        all,
        [
            ("status", "Live project freshness"),
            ("current/architecture", "Architecture"),
            ("current/constraints", "Constraints"),
            ("current/decisions", "Decisions"),
            ("current/components", "Components"),
            ("history/log", "Project history"),
        ]
    );
}

#[test]
fn an_empty_phrase_finds_everything_by_uri() {
    let result = ask("  ", 20, ["s", "a", "c", "d", "k", "h"]);
    assert_eq!(
        paths(&result),
        [
            "current/architecture",
            "current/components",
            "current/constraints",
            "current/decisions",
            "history/log",
            "status",
        ]
    );
    assert!(result.hits.iter().all(|hit| total(hit.score) == 0.0));
    assert_eq!(paths(&ask("", 20, ["s", "a", "c", "d", "k", "h"])), paths(&result));
}

#[test]
fn the_best_hits_come_first() {
    let result = ask(
        " Runtime RULES ",
        20,
        ["", "the runtime rules here", "rules", "", "runtime", "no"],
    );
    assert_eq!(
        paths(&result),
        ["current/architecture", "current/components", "current/constraints"]
    );
    let scores: Vec<f64> = result.hits.iter().map(|hit| total(hit.score)).collect();
    assert_eq!(scores, [6.0 + 2.0 + 1.0, 1.0 + 0.5, 1.0 + 0.5]);
    assert_eq!(result.hits[0].metadata, [("matched_terms".to_owned(), "2".to_owned())]);
    assert_eq!(result.hits[0].title.as_deref(), Some("Architecture"));
    assert_eq!(result.hits[0].snippet.as_deref(), Some("the runtime rules here"));
}

#[test]
fn hits_are_limited() {
    let all = ["x", "x", "x", "x", "x", "x"];
    assert_eq!(ask("x", 0, all).hits.len(), 0);
    assert_eq!(ask("x", 2, all).hits.len(), 2);
    assert_eq!(ask("x", usize::MAX, all).hits.len(), 6);
    assert_eq!(
        paths(&ask("x", 2, all)),
        ["current/architecture", "current/components"]
    );
}

#[test]
fn results_say_where_they_come_from() {
    let long = "y".repeat(300);
    let result = ask("y", 5, ["", &long, "", "", "", ""]);
    assert!(result.answer.is_none());
    assert_eq!(result.provider, "project-context");
    assert_eq!(result.strategy, "lexical");
    assert_eq!(result.provenance, [("freshness".to_owned(), "DIRTY".to_owned())]);
    let snippet = result
        .hits
        .iter()
        .find(|hit| hit.uri.ends_with("/architecture"))
        .and_then(|hit| hit.snippet.clone())
        .expect("snippet");
    assert_eq!(snippet, format!("{}…", "y".repeat(240)));
}

#[test]
fn results_follow_given_scores() {
    let score = |points, matched| Some(Score { points, matched, terms: 4 });
    let scores = [score(3, 1), None, score(3, 2), score(7, 0), None, score(3, 1)];
    let result =
        query_result("lib", 3, &contents(["0", "1", "2", "3", "4", "5"]), &scores, 4, ContextState::Valid);
    let uris: Vec<&str> = result.hits.iter().map(|hit| hit.uri.as_str()).collect();
    assert_eq!(
        uris,
        ["okf://lib/current/decisions", "okf://lib/current/constraints", "okf://lib/history/log"]
    );
}
