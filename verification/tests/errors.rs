use project_context::error::ContextError;

fn text(value: &str) -> String {
    value.to_owned()
}

#[test]
fn errors_tell_what_went_wrong() {
    let words = || vec![text("a"), text("b")];
    let cases = [
        (ContextError::InvalidLibraryId { id: text("x y") }, "invalid Library id 'x y'"),
        (ContextError::InvalidKnowledgePath, "invalid knowledge path"),
        (
            ContextError::InvalidSegment { segment: text("..") },
            "invalid knowledge path segment '..'",
        ),
        (
            ContextError::ForeignUri { uri: text("u"), library: text("l") },
            "URI 'u' does not belong to Library 'l'",
        ),
        (ContextError::KnowledgeNotFound { path: text("p") }, "knowledge path 'p' was not found"),
        (
            ContextError::UnsupportedSchema { version: text("9") },
            "unsupported Project Context profile schema version '9'",
        ),
        (ContextError::EmptyProject, "Project Context profile project name must not be empty"),
        (
            ContextError::InvalidTopic { topic: text("t"), cause: text("c") },
            "impact rule topic 't' is invalid: c",
        ),
        (
            ContextError::InvalidPrefix { prefix: text(" ") },
            "invalid repository path prefix ' '",
        ),
        (
            ContextError::LibraryExists { root: text("/r") },
            "Project Context Library already exists at /r",
        ),
        (
            ContextError::NotStarted { program: text("git"), arguments: words(), cause: text("c") },
            "failed to execute git a b: c",
        ),
        (
            ContextError::ProgramFailed {
                program: text("okf"),
                arguments: words(),
                message: text("m"),
            },
            "okf a b failed: m",
        ),
        (ContextError::NotUtf8 { cause: text("c") }, "git output was not UTF-8: c"),
        (
            ContextError::NotInWorkingTree { path: text("/p"), cause: text("c") },
            "/p is not inside a Git working tree: c",
        ),
        (ContextError::NotWorkingTree { repository: text("/r") }, "/r is not a Git working tree"),
        (
            ContextError::NoCommit { repository: text("/r") },
            "repository '/r' does not have a commit yet",
        ),
        (
            ContextError::DirtyWorkingTree { paths: words() },
            "refusing to checkpoint a dirty working tree; commit or revert these paths first: a, b",
        ),
        (
            ContextError::RevisionMismatch {
                requested: text("q"),
                resolved: text("r"),
                current: text("c"),
            },
            "checkpoint revision 'q' resolves to r, but current HEAD is c; checkpoint the current \
             verified HEAD",
        ),
        (ContextError::NoLibraryRoot, "provider requires --library-root or OKF_LIBRARY_ROOT"),
        (ContextError::NoOkfParent, "Library root has no .okf parent"),
        (ContextError::NoRepositoryParent, ".okf directory has no repository parent"),
        (
            ContextError::RequestTooLarge { limit: 10 },
            "provider request exceeds the 10 byte limit",
        ),
        (
            ContextError::UnsupportedProtocol { protocol: text("p") },
            "unsupported provider protocol 'p'",
        ),
        (
            ContextError::WrongLibrary { provider: text("a"), target: text("b") },
            "provider belongs to Library 'a' but request targets 'b'",
        ),
        (ContextError::MissingUri, "read requires uri"),
        (ContextError::MissingQuery, "query requires query payload"),
        (
            ContextError::UnsupportedOperation { operation: text("o") },
            "unsupported provider operation 'o'",
        ),
        (
            ContextError::OkfNotStarted { cause: text("c") },
            "failed to execute the okf CLI; install OKF CLI 0.2 or newer: c",
        ),
        (ContextError::AddFailed { message: text("m") }, "okf library add failed: m"),
        (
            ContextError::Unreadable { path: text("/f"), cause: text("c") },
            "failed to read /f: c",
        ),
        (ContextError::NotQuoted, "failed to quote YAML string"),
    ];
    for (error, message) in cases {
        assert_eq!(error.message(), message);
    }
}
