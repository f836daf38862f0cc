use project_context::error::ContextError;
use project_context::git::Reply;
use project_context::profile::{new_profile, Profile};
use project_context::provider::{
    build_catalog, catalog_entry, check_request_size, handle_provider_request, list_nodes, node,
    read_node, refusal, Answer, ProviderRequest, ProviderStep, ReadTarget, Seen, Unread,
    MAX_PROVIDER_REQUEST_BYTES, PROVIDER_PROTOCOL,
};
use project_context::query::ProviderQuery;

fn profile() -> Profile {
    new_profile(Some("Demo"), None, "demo")
}

fn request(operation: &str) -> ProviderRequest {
    ProviderRequest {
        protocol: PROVIDER_PROTOCOL.to_owned(),
        operation: operation.to_owned(),
        library: "demo".to_owned(),
        path: None,
        uri: None,
        query: None,
    }
}

fn nothing_seen() -> Seen {
    Seen { before: Vec::new(), files: Vec::new(), after: Vec::new() }
}

fn git(arguments: &[String]) -> Reply {
    let stdout: &[u8] = if arguments[0] == "rev-parse" { b"abc\n" } else { b"" };
    Reply::Finished { success: true, stdout: stdout.to_vec(), stderr: Vec::new() }
}

/// Drives a request to its end; `read` answers for the files.
fn answer(
    request: &ProviderRequest,
    read: impl Fn(&str) -> Result<String, String>,
) -> (Result<Answer, ContextError>, Vec<String>) {
    let mut seen = nothing_seen();
    let mut trace = Vec::new();
    loop {
        assert!(seen.before.len() <= 6 && seen.files.len() <= 5 && seen.after.len() <= 6);
        match handle_provider_request(&profile(), request, &seen) {
            ProviderStep::Ask(arguments) => {
                trace.push("git".to_owned());
                seen.before.push(git(&arguments));
            }
            ProviderStep::Read(file) => {
                trace.push(file.clone());
                seen.files.push(
                    read(&file).map_err(|cause| Unread { path: format!("/root/{file}"), cause }),
                );
            }
            ProviderStep::AskAgain(arguments) => {
                trace.push("git again".to_owned());
                seen.after.push(git(&arguments));
            }
            ProviderStep::Done(result) => return (result, trace),
        }
    }
}

fn refused(request: &ProviderRequest) -> String {
    answer(request, |_| Err("unused".to_owned())).0.expect_err("refused").message()
}

#[test]
fn the_catalog_ascends_and_is_readable() {
    let catalog = build_catalog(&profile());
    assert_eq!(catalog.library, "demo");
    let ids: Vec<&str> = catalog.entries.iter().map(|entry| entry.id.as_str()).collect();
    assert_eq!(
        ids,
        ["architecture", "components", "constraints", "decisions", "history", "status"]
    );
    let terms: Vec<String> = catalog.entries.iter().map(|entry| entry.terms.join(" ")).collect();
    assert_eq!(
        terms,
        [
            "architecture boundaries modules",
            "components modules packages",
            "constraints invariants rules",
            "adr decisions rationale",
            "changes checkpoint history",
            "dirty freshness revision status",
        ]
    );
    let status = &catalog.entries[5];
    assert_eq!(status.title, "Live project freshness");
    assert_eq!(
        status.description.as_deref(),
        Some("Current Git revision, working-tree freshness, and impacted topics.")
    );
    for entry in &catalog.entries {
        let path = entry.uri.strip_prefix("okf://demo/").expect("own uri");
        assert!(read_node(path).is_ok());
    }
}

#[test]
fn catalog_terms_form_a_set() {
    let entry = catalog_entry("l", "i", "t", "d", "p/q", &["b", "a", "b"]);
    assert_eq!(entry.uri, "okf://l/p/q");
    assert_eq!(entry.terms, ["a", "b"]);
    assert_eq!(entry.description.as_deref(), Some("d"));
}

#[test]
fn nodes_are_listed_below_their_path() {
    let uris = |path: &str| -> Vec<String> {
        list_nodes(&profile(), path).expect("list").into_iter().map(|node| node.uri).collect()
    };
    assert_eq!(
        uris(""),
        ["okf://demo/index", "okf://demo/status", "okf://demo/current", "okf://demo/history"]
    );
    assert_eq!(
        uris("/current/"),
        [
            "okf://demo/current/architecture",
            "okf://demo/current/constraints",
            "okf://demo/current/decisions",
            "okf://demo/current/components",
        ]
    );
    assert_eq!(uris("history"), ["okf://demo/history/log"]);
    assert!(uris("elsewhere").is_empty());
    assert!(list_nodes(&profile(), "..").is_err());
    let nodes = list_nodes(&profile(), "").expect("list");
    assert!(nodes[1].virtual_node && !nodes[0].virtual_node);
    assert_eq!(nodes[0].kind, "content");
    assert_eq!(nodes[2].kind, "directory");
    assert_eq!(nodes[2].title.as_deref(), Some("Current project knowledge"));
    assert!(node("l", "p", "content", None, true).title.is_none());
}

#[test]
fn nodes_are_read_from_their_files() {
    assert!(matches!(read_node(" /status/"), Ok(ReadTarget::Status)));
    for path in [
        "index",
        "current/architecture",
        "current/constraints",
        "current/decisions",
        "current/components",
        "history/log",
    ] {
        match read_node(path) {
            Ok(ReadTarget::File(file)) => assert_eq!(file, format!("{path}.md")),
            other => panic!("{other:?}"),
        }
    }
    for path in ["", "current", "history", "profile.json", "index.md"] {
        let error = read_node(path).expect_err("no node");
        assert_eq!(error.message(), format!("knowledge path '{path}' was not found"));
    }
}

#[test]
fn foreign_requests_are_refused_first() {
    let mut foreign = request("no such operation");
    foreign.library = "other".to_owned();
    assert_eq!(
        refused(&foreign),
        "provider belongs to Library 'demo' but request targets 'other'"
    );
    foreign.protocol = "okf-provider/2".to_owned();
    assert_eq!(refused(&foreign), "unsupported provider protocol 'okf-provider/2'");
}

#[test]
fn incomplete_requests_are_refused() {
    assert_eq!(refused(&request("write")), "unsupported provider operation 'write'");
    assert_eq!(refused(&request("read")), "read requires uri");
    assert_eq!(refused(&request("query")), "query requires query payload");
    let mut list = request("list");
    list.path = Some("a/../b".to_owned());
    assert_eq!(refused(&list), "invalid knowledge path segment '..'");
}

#[test]
fn catalogs_and_lists_need_nothing_from_outside() {
    let unused = |_: &str| -> Result<String, String> { panic!("nothing is read") };
    let (result, trace) = answer(&request("catalog"), unused);
    assert!(matches!(result, Ok(Answer::Catalog(ref catalog)) if catalog.entries.len() == 6));
    assert!(trace.is_empty());
    let (result, trace) = answer(&request("list"), unused);
    assert!(matches!(result, Ok(Answer::Nodes(ref nodes)) if nodes.len() == 4));
    assert!(trace.is_empty());
}

#[test]
fn reading_a_file_gives_its_content() {
    let mut read = request("read");
    read.uri = Some("okf://demo/current/decisions".to_owned());
    let (result, trace) = answer(&read, |file| Ok(format!("<{file}>")));
    assert!(matches!(
        result,
        Ok(Answer::Content(ref content)) if content == "<current/decisions.md>"
    ));
    assert_eq!(trace, ["current/decisions.md"]);
    let (result, _) = answer(&read, |_| Err("gone".to_owned()));
    assert_eq!(
        result.expect_err("unreadable").message(),
        "failed to read /root/current/decisions.md: gone"
    );
    read.uri = Some("okf://other/status".to_owned());
    assert_eq!(
        refused(&read),
        "URI 'okf://other/status' does not belong to Library 'demo'"
    );
    read.uri = Some("okf://demo/secret".to_owned());
    assert_eq!(refused(&read), "knowledge path 'secret' was not found");
}

#[test]
fn reading_the_status_asks_git() {
    let mut read = request("read");
    read.uri = Some("okf://demo/status".to_owned());
    let (result, trace) = answer(&read, |_| Err("unused".to_owned()));
    match result {
        Ok(Answer::Content(content)) => {
            assert!(content.contains("- state: UNINITIALIZED\n"));
            assert!(content.contains("- current revision: abc\n"));
        }
        other => panic!("{other:?}"),
    }
    assert_eq!(trace, ["git"; 5]);
}

#[test]
fn refreshing_asks_git_and_says_nothing() {
    let (result, trace) = answer(&request("refresh"), |_| Err("unused".to_owned()));
    assert!(matches!(result, Ok(Answer::Nothing)));
    assert_eq!(trace, ["git"; 5]);
}

#[test]
fn queries_look_at_every_node() {
    let mut query = request("query");
    query.query = Some(ProviderQuery { text: "needle".to_owned(), limit: 20 });
    let (result, trace) = answer(&query, |file| {
        Ok(if file == "history/log.md" { "a Needle" } else { "hay" }.to_owned())
    });
    match result {
        Ok(Answer::Hits(result)) => {
            let uris: Vec<&str> = result.hits.iter().map(|hit| hit.uri.as_str()).collect();
            assert_eq!(uris, ["okf://demo/history/log"]);
            assert_eq!(
                result.provenance,
                [("freshness".to_owned(), "UNINITIALIZED".to_owned())]
            );
        }
        other => panic!("{other:?}"),
    }
    let files = [
        "current/architecture.md",
        "current/constraints.md",
        "current/decisions.md",
        "current/components.md",
        "history/log.md",
    ];
    assert_eq!(trace[..5], ["git"; 5]);
    assert_eq!(trace[5..10], files);
    assert_eq!(trace[10..], ["git again"; 5]);
}

#[test]
fn queries_fail_at_the_first_unreadable_file() {
    let mut query = request("query");
    query.query = Some(ProviderQuery { text: "x".to_owned(), limit: 1 });
    let (result, trace) = answer(&query, |file| {
        if file == "current/constraints.md" { Err("no".to_owned()) } else { Ok(String::new()) }
    });
    assert_eq!(
        result.expect_err("unreadable").message(),
        "failed to read /root/current/constraints.md: no"
    );
    assert_eq!(trace.last().map(String::as_str), Some("current/constraints.md"));
}

#[test]
fn a_query_sees_the_status_as_a_node() {
    let mut query = request("query");
    query.query = Some(ProviderQuery { text: "uninitialized".to_owned(), limit: 20 });
    let (result, _) = answer(&query, |_| Ok(String::new()));
    match result {
        Ok(Answer::Hits(result)) => {
            assert_eq!(result.hits.len(), 1);
            assert_eq!(result.hits[0].uri, "okf://demo/status");
        }
        other => panic!("{other:?}"),
    }
}

#[test]
fn large_requests_are_refused() {
    assert_eq!(MAX_PROVIDER_REQUEST_BYTES, 1_048_576);
    assert!(check_request_size(MAX_PROVIDER_REQUEST_BYTES).is_ok());
    let error = check_request_size(MAX_PROVIDER_REQUEST_BYTES + 1).expect_err("too large");
    assert_eq!(error.message(), "provider request exceeds the 1048576 byte limit");
}

#[test]
fn refusals_carry_the_message() {
    let told = refusal(&ContextError::MissingUri);
    assert_eq!(told.code, "project-context-error");
    assert_eq!(told.message, "read requires uri");
}
