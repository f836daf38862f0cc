use project_context::git::{
    branch_arguments, diff_arguments, head_arguments, resolve_arguments, working_arguments, Reply,
    Step,
};
use project_context::profile::{
    all_current_topics, load_profile_for_repository, new_profile, save_profile, Profile,
    DEFAULT_LIBRARY_ID,
};
use project_context::scaffold::init;
use project_context::status::{
    assess, checkpoint, compute_status, status_for_repository, status_markdown,
    uninitialized_status, ContextState, ContextStatus,
};
use project_context::error::ContextError;

fn list(items: &[&str]) -> Vec<String> {
    items.iter().map(|item| item.to_string()).collect()
}

/// A repository as Git would describe it.
#[derive(Default)]
struct Repository {
    head: Option<String>,
    unstaged: Vec<String>,
    staged: Vec<String>,
    untracked: Vec<String>,
    committed: Vec<String>,
    broken: Vec<Vec<String>>,
}

fn printed(stdout: &str) -> Reply {
    Reply::Finished { success: true, stdout: stdout.as_bytes().to_vec(), stderr: Vec::new() }
}

fn failed(stderr: &str) -> Reply {
    Reply::Finished { success: false, stdout: Vec::new(), stderr: stderr.as_bytes().to_vec() }
}

impl Repository {
    fn at(head: &str) -> Repository {
        Repository { head: Some(head.to_owned()), ..Repository::default() }
    }

    fn reply(&self, arguments: &[String]) -> Reply {
        if self.broken.iter().any(|broken| broken == arguments) {
            return failed("broken");
        }
        if arguments == head_arguments() {
            return match &self.head {
                Some(head) => printed(head),
                None => failed(""),
            };
        }
        if arguments == branch_arguments() {
            return printed("main\n");
        }
        for (k, paths) in [&self.unstaged, &self.staged, &self.untracked].into_iter().enumerate() {
            if arguments == working_arguments(k) {
                return printed(&paths.join("\n"));
            }
        }
        if arguments[0] == "diff" {
            return printed(&self.committed.join("\n"));
        }
        if arguments[..2] == ["rev-parse", "--verify"] {
            let name = arguments[2].strip_suffix("^{commit}").expect("a commit");
            return match name {
                "HEAD" => printed(self.head.as_ref().expect("a commit")),
                "missing" => failed("fatal: Needed a single revision"),
                other => printed(other),
            };
        }
        panic!("{arguments:?}")
    }

    fn run<T>(&self, step: impl Fn(&[Reply]) -> Step<T>) -> Result<T, ContextError> {
        let mut replies = Vec::new();
        loop {
            assert!(replies.len() <= 6);
            match step(&replies) {
                Step::Run(arguments) => replies.push(self.reply(&arguments)),
                Step::Done(result) => return result,
            }
        }
    }

    fn status(&self, profile: &Profile) -> ContextStatus {
        self.run(|replies| compute_status(profile, replies)).expect("status")
    }

    fn status_of_stored(&self, stored: &Profile) -> ContextStatus {
        self.run(|replies| status_for_repository("/r", Some("r"), Some(stored), replies))
            .expect("status")
    }

    fn checkpoint(
        &self,
        profile: &Profile,
        revision: Option<&str>,
    ) -> Result<Profile, ContextError> {
        self.run(|replies| checkpoint(profile, revision, replies))
    }
}

fn initialized(project: &str) -> Profile {
    let made = init("/r/.okf/project-context", false, false, DEFAULT_LIBRARY_ID, Some(project), None)
        .expect("initialize");
    let stored = save_profile(&made.profile).expect("store");
    load_profile_for_repository(stored, "/r").expect("load")
}

#[test]
fn empty_repository_can_initialize_but_not_checkpoint() {
    let repository = Repository {
        untracked: list(&[".okf/.gitignore", ".okf/project-context/profile.json"]),
        ..Repository::default()
    };
    let profile = initialized("Empty project");
    let status = repository.status(&profile);
    assert_eq!(status.state, ContextState::Uninitialized);
    assert!(status.current_revision.is_none());
    let error = repository.checkpoint(&profile, None).expect_err("checkpoint must fail");
    assert!(error.message().contains("does not have a commit yet"));
}

#[test]
fn context_only_commits_do_not_invalidate_project_knowledge() {
    let mut repository = Repository::at("first");
    repository.untracked = list(&[".okf/.gitignore", ".okf/project-context/index.md"]);
    let profile = initialized("Demo");
    let profile = repository.checkpoint(&profile, None).expect("checkpoint");
    assert_eq!(profile.validated_revision.as_deref(), Some("first"));
    let checkpointed = repository.status(&profile);
    assert_eq!(checkpointed.state, ContextState::Valid);
    let stored = save_profile(&profile).expect("store");

    repository.head = Some("second".to_owned());
    repository.committed = repository.untracked.clone();
    repository.untracked = Vec::new();
    let valid = repository.status_of_stored(&stored);
    assert_eq!(valid.state, ContextState::Valid);
    assert!(valid.changed_paths.is_empty());
    assert!(valid.impacted_topics.is_empty());

    repository.untracked = list(&["src/lib.rs"]);
    let dirty = repository.status_of_stored(&stored);
    assert_eq!(dirty.state, ContextState::Dirty);
    assert!(dirty.changed_paths.contains(&"src/lib.rs".to_owned()));
    assert!(dirty
        .impacted_topics
        .contains(&"okf://project-context/current/architecture".to_owned()));
    assert!(dirty
        .impacted_topics
        .contains(&"okf://project-context/current/components".to_owned()));
}

#[test]
fn staged_unstaged_untracked_and_committed_changes_count() {
    let mut profile = initialized("Demo");
    profile.validated_revision = Some("first".to_owned());
    let mut repository = Repository::at("second");
    repository.unstaged = list(&["d"]);
    repository.staged = list(&["c", "d"]);
    repository.untracked = list(&["b"]);
    repository.committed = list(&["a", "b", ".okf/cache/x"]);
    let status = repository.status(&profile);
    assert_eq!(status.state, ContextState::Dirty);
    assert_eq!(status.changed_paths, list(&["a", "b", "c", "d"]));
    assert_eq!(status.impacted_topics, all_current_topics(DEFAULT_LIBRARY_ID));
    assert_eq!(status.branch.as_deref(), Some("main"));
    assert_eq!(status.current_revision.as_deref(), Some("second"));
    assert!(status.diagnostics.is_empty());
}

#[test]
fn git_failures_leave_the_freshness_unknown() {
    let mut profile = initialized("Demo");
    profile.validated_revision = Some("first".to_owned());
    let mut repository = Repository::at("second");
    repository.broken = vec![diff_arguments("first", "second")];
    let status = repository.status(&profile);
    assert_eq!(status.state, ContextState::Unknown);
    assert_eq!(
        status.diagnostics,
        list(&["failed to compare validated and current revisions: git diff --find-renames \
                --name-only first..second -- failed: broken"])
    );
    assert_eq!(status.impacted_topics, all_current_topics(DEFAULT_LIBRARY_ID));

    repository.broken = vec![working_arguments(1)];
    let status = repository.status(&profile);
    assert_eq!(status.state, ContextState::Unknown);
    assert_eq!(
        status.diagnostics,
        list(&["failed to inspect working tree: git diff --cached --name-only failed: broken"])
    );

    repository.broken = vec![head_arguments()];
    let status = repository.status(&profile);
    assert_eq!(status.state, ContextState::Unknown);
    assert_eq!(
        status.diagnostics,
        list(&["failed to resolve current revision: git rev-parse --verify --quiet HEAD failed: \
                broken"])
    );
    assert!(status.current_revision.is_none());
}

#[test]
fn a_lost_head_leaves_the_freshness_unknown() {
    let mut profile = initialized("Demo");
    profile.validated_revision = Some("first".to_owned());
    let status = Repository::default().status(&profile);
    assert_eq!(status.state, ContextState::Unknown);
    assert!(status.diagnostics.is_empty());
}

#[test]
fn observations_are_weighed_without_git() {
    let mut profile = initialized("Demo");
    profile.validated_revision = Some("one".to_owned());
    let head = || Ok(Some("one".to_owned()));
    let status = assess(&profile, head(), None, Ok(Vec::new()), Ok(list(&["ignored"])));
    assert_eq!(status.state, ContextState::Valid);
    let status = assess(&profile, head(), None, Ok(list(&["docs/x"])), Ok(Vec::new()));
    assert_eq!(status.state, ContextState::Dirty);
    assert_eq!(status.changed_paths, list(&["docs/x"]));
    let two = Ok(Some("two".to_owned()));
    let status = assess(&profile, two, None, Ok(Vec::new()), Ok(list(&[".okf/state/x"])));
    assert_eq!(status.state, ContextState::Valid);
}

#[test]
fn invalid_profiles_have_no_status() {
    let mut profile = initialized("Demo");
    profile.schema_version = "7".to_owned();
    match compute_status(&profile, &[]) {
        Step::Done(Err(error)) => assert_eq!(
            error.message(),
            "unsupported Project Context profile schema version '7'"
        ),
        other => panic!("{other:?}"),
    }
}

#[test]
fn checkpoints_refuse_a_dirty_working_tree() {
    let mut repository = Repository::at("first");
    repository.staged = list(&["src/b"]);
    repository.untracked = list(&["a", ".okf/cache/z"]);
    let error = repository.checkpoint(&initialized("Demo"), None).expect_err("dirty");
    assert_eq!(
        error.message(),
        "refusing to checkpoint a dirty working tree; commit or revert these paths first: a, src/b"
    );
}

#[test]
fn checkpoints_are_of_the_current_revision() {
    let repository = Repository::at("first");
    let profile = initialized("Demo");
    let done = repository.checkpoint(&profile, Some("HEAD")).expect("current");
    assert_eq!(done.validated_revision.as_deref(), Some("first"));
    assert_eq!(done.project, "Demo");
    let error = repository.checkpoint(&profile, Some("older")).expect_err("another revision");
    assert_eq!(
        error.message(),
        "checkpoint revision 'older' resolves to older, but current HEAD is first; checkpoint the \
         current verified HEAD"
    );
    let error = repository.checkpoint(&profile, Some("missing")).expect_err("no revision");
    assert_eq!(
        error.message(),
        "git rev-parse --verify missing^{commit} failed: fatal: Needed a single revision"
    );
    assert_eq!(resolve_arguments("missing")[2], "missing^{commit}");
}

#[test]
fn checkpoints_fail_where_git_fails() {
    let mut repository = Repository::at("first");
    repository.broken = vec![working_arguments(2)];
    let error = repository.checkpoint(&initialized("Demo"), None).expect_err("failure");
    assert_eq!(error.message(), "git ls-files --others --exclude-standard failed: broken");
}

#[test]
fn repositories_without_a_library_are_uninitialized() {
    let mut repository = Repository::at("first");
    repository.untracked = list(&["x", ".okf/state/y"]);
    let status = repository
        .run(|replies| status_for_repository("/work/demo", Some("demo"), None, replies))
        .expect("status");
    assert_eq!(status.state, ContextState::Uninitialized);
    assert_eq!(status.project, "demo");
    assert_eq!(status.library_id, DEFAULT_LIBRARY_ID);
    assert_eq!(status.repository, "/work/demo");
    assert_eq!(status.changed_paths, list(&["x"]));
    assert_eq!(status.impacted_topics, all_current_topics(DEFAULT_LIBRARY_ID));
    assert_eq!(status.current_revision.as_deref(), Some("first"));
    assert_eq!(status.branch.as_deref(), Some("main"));
    assert!(status.validated_revision.is_none());

    repository.broken = vec![head_arguments(), working_arguments(0)];
    let status = repository
        .run(|replies| uninitialized_status("/", None, replies))
        .expect("status");
    assert_eq!(status.project, "project");
    assert_eq!(
        status.diagnostics,
        list(&[
            "failed to resolve current revision: git rev-parse --verify --quiet HEAD failed: \
             broken",
            "failed to inspect working tree: git diff --name-only failed: broken",
        ])
    );
}

#[test]
fn stored_profiles_are_bound_to_their_repository() {
    let repository = Repository::at("first");
    let stored = new_profile(Some("Stored"), None, "stored");
    let status = repository
        .run(|replies| status_for_repository("/r", Some("r"), Some(&stored), replies))
        .expect("status");
    assert_eq!(status.project, "Stored");
    assert_eq!(status.repository, "/r");
    assert_eq!(status.state, ContextState::Uninitialized);
    let mut broken = stored.clone();
    broken.project = String::new();
    let error = repository
        .run(|replies| status_for_repository("/r", Some("r"), Some(&broken), replies))
        .expect_err("invalid");
    assert_eq!(error.message(), "Project Context profile project name must not be empty");
}

#[test]
fn statuses_are_shown_as_markdown() {
    let mut profile = initialized("Demo");
    profile.validated_revision = Some("first".to_owned());
    let mut repository = Repository::at("first");
    assert_eq!(
        status_markdown(&repository.status(&profile)),
        "# Project Context Status\n\n- state: VALID\n- project: Demo\n- repository: /r\n\
         - branch: main\n- validated revision: first\n- current revision: first\n\
         - changed paths: none\n- impacted topics: none\n- diagnostics: none\n"
    );
    repository.head = None;
    repository.unstaged = list(&["docs/a", "docs/b"]);
    repository.broken = vec![branch_arguments()];
    assert_eq!(
        status_markdown(&repository.status(&profile)),
        "# Project Context Status\n\n- state: UNKNOWN\n- project: Demo\n- repository: /r\n\
         - branch: <detached-or-unknown>\n- validated revision: first\n\
         - current revision: <none>\n- changed paths: docs/a, docs/b\n\
         - impacted topics: okf://project-context/current/architecture, \
         okf://project-context/current/decisions\n- diagnostics: none\n"
    );
    let mut status = repository.status(&profile);
    status.diagnostics = list(&["one", "two"]);
    assert!(status_markdown(&status).ends_with("- diagnostics: one | two\n"));
}

#[test]
fn states_have_names() {
    assert_eq!(ContextState::Uninitialized.name(), "UNINITIALIZED");
    assert_eq!(ContextState::Valid.name(), "VALID");
    assert_eq!(ContextState::Dirty.name(), "DIRTY");
    assert_eq!(ContextState::Unknown.name(), "UNKNOWN");
}
