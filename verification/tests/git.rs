use project_context::error::ContextError;
use project_context::git::{
    branch_arguments, canonical_repository, changed_paths, current_branch, current_revision,
    current_revision_optional, diff_arguments, ensure_git_repository, failure_message, git_output,
    head_arguments, inside_arguments, leading_arguments, resolve_arguments, resolve_revision, toplevel_arguments,
    working_arguments, working_tree_paths, Reply, Step,
};

fn list(items: &[&str]) -> Vec<String> {
    items.iter().map(|item| item.to_string()).collect()
}

fn printed(stdout: &str) -> Reply {
    Reply::Finished { success: true, stdout: stdout.as_bytes().to_vec(), stderr: Vec::new() }
}

fn failed(stderr: &str) -> Reply {
    Reply::Finished { success: false, stdout: Vec::new(), stderr: stderr.as_bytes().to_vec() }
}

fn absent() -> Reply {
    Reply::NotStarted { cause: "no such file".to_owned() }
}

#[test]
fn git_is_asked_in_these_words() {
    assert_eq!(leading_arguments(), list(&["-c", "core.quotepath=false", "-C"]));
    assert_eq!(toplevel_arguments(), list(&["rev-parse", "--show-toplevel"]));
    assert_eq!(inside_arguments(), list(&["rev-parse", "--is-inside-work-tree"]));
    assert_eq!(head_arguments(), list(&["rev-parse", "--verify", "--quiet", "HEAD"]));
    assert_eq!(branch_arguments(), list(&["symbolic-ref", "--short", "-q", "HEAD"]));
    assert_eq!(resolve_arguments("v1"), list(&["rev-parse", "--verify", "v1^{commit}"]));
    assert_eq!(
        diff_arguments("a", "b"),
        list(&["diff", "--find-renames", "--name-only", "a..b", "--"])
    );
    assert_eq!(working_arguments(0), list(&["diff", "--name-only"]));
    assert_eq!(working_arguments(1), list(&["diff", "--cached", "--name-only"]));
    assert_eq!(working_arguments(2), list(&["ls-files", "--others", "--exclude-standard"]));
}

#[test]
fn output_is_trimmed_text() {
    let arguments = list(&["rev-parse", "x"]);
    assert_eq!(git_output(&arguments, &printed(" text\n")).expect("text"), "text");
    let error = git_output(&arguments, &failed("fatal: no \n")).expect_err("failure");
    assert_eq!(error.message(), "git rev-parse x failed: fatal: no");
    let error = git_output(&arguments, &absent()).expect_err("not started");
    assert_eq!(error.message(), "failed to execute git rev-parse x: no such file");
}

#[test]
fn output_that_is_no_text_is_refused() {
    let bytes = vec![b'a', 0xff, b'b'];
    let complaint = String::from_utf8(bytes.clone()).expect_err("no text").to_string();
    let reply = Reply::Finished { success: true, stdout: bytes, stderr: Vec::new() };
    let error = git_output(&list(&["x"]), &reply).expect_err("no text");
    assert_eq!(error.message(), format!("git output was not UTF-8: {complaint}"));
    let error = current_revision_optional(&reply).expect_err("no text");
    assert!(matches!(error, ContextError::NotUtf8 { .. }));
}

#[test]
fn failures_are_shown_even_where_they_are_no_text() {
    assert_eq!(failure_message(&vec![b' ', b'a', 0xff, b'b', b'\n']), "a\u{fffd}b");
    assert_eq!(failure_message(&"é\n".as_bytes().to_vec()), "é");
}

#[test]
fn repository_root_is_discovered_from_nested_directory() {
    let root = canonical_repository("/work/demo/src/nested", &printed("/work/demo\n"));
    assert_eq!(root.expect("repository root"), "/work/demo");
    let error = canonical_repository("/tmp", &failed("fatal: not a git repository"))
        .expect_err("no repository");
    assert_eq!(
        error.message(),
        "/tmp is not inside a Git working tree: git rev-parse --show-toplevel failed: fatal: not \
         a git repository"
    );
}

#[test]
fn only_working_trees_are_accepted() {
    assert!(ensure_git_repository("/r", &printed("true\n")).is_ok());
    let error = ensure_git_repository("/r", &printed("false\n")).expect_err("bare repository");
    assert_eq!(error.message(), "/r is not a Git working tree");
    assert!(matches!(
        ensure_git_repository("/r", &failed("x")),
        Err(ContextError::ProgramFailed { .. })
    ));
}

#[test]
fn silence_means_that_there_is_no_commit() {
    assert_eq!(current_revision_optional(&printed("abc\n")).expect("head").as_deref(), Some("abc"));
    assert!(current_revision_optional(&printed("\n")).expect("empty").is_none());
    assert!(current_revision_optional(&failed("")).expect("no commit").is_none());
    let error = current_revision_optional(&failed("fatal: bad\n")).expect_err("failure");
    assert_eq!(error.message(), "git rev-parse --verify --quiet HEAD failed: fatal: bad");
    assert!(matches!(
        current_revision_optional(&absent()),
        Err(ContextError::NotStarted { .. })
    ));
    assert_eq!(current_revision("/r", &printed("abc")).expect("head"), "abc");
    let error = current_revision("/r", &failed("")).expect_err("no commit");
    assert_eq!(error.message(), "repository '/r' does not have a commit yet");
}

#[test]
fn a_branch_that_cannot_be_named_is_none() {
    assert_eq!(current_branch(&printed("main\n")).as_deref(), Some("main"));
    assert!(current_branch(&printed("  \n")).is_none());
    assert!(current_branch(&failed("x")).is_none());
    assert!(current_branch(&absent()).is_none());
}

#[test]
fn revisions_are_resolved_to_commits() {
    assert_eq!(resolve_revision("v1", &printed("abc\n")).expect("commit"), "abc");
    let error = resolve_revision("v1", &failed("fatal")).expect_err("unknown");
    assert_eq!(error.message(), "git rev-parse --verify v1^{commit} failed: fatal");
}

#[test]
fn committed_paths_are_listed() {
    let paths = changed_paths("a", "b", &printed("src/x\n./y\n")).expect("paths");
    assert_eq!(paths, list(&["src/x", "y"]));
    assert!(changed_paths("a", "b", &failed("bad revision")).is_err());
}

#[test]
fn the_working_tree_takes_three_answers() {
    let excluded = list(&[".okf"]);
    let mut replies = Vec::new();
    for (k, answer) in ["b\n.okf/x\n", "a\n", "b\nc\n"].into_iter().enumerate() {
        match working_tree_paths(&replies, &excluded) {
            Step::Run(arguments) => assert_eq!(arguments, working_arguments(k)),
            other => panic!("{other:?}"),
        }
        replies.push(printed(answer));
    }
    match working_tree_paths(&replies, &excluded) {
        Step::Done(Ok(paths)) => assert_eq!(paths, list(&["a", "b", "c"])),
        other => panic!("{other:?}"),
    }
}

#[test]
fn the_first_failure_ends_the_listing() {
    match working_tree_paths(&[printed("a"), failed("broken")], &[]) {
        Step::Done(Err(error)) => {
            assert_eq!(error.message(), "git diff --cached --name-only failed: broken")
        }
        other => panic!("{other:?}"),
    }
}
