//! What can go wrong, and how it is said.

use vstd::prelude::*;
use crate::text::{
    contains_text, decimal, decimal_string, join, joined, law_joined_text_holds_every_item,
    lemma_contained, lemma_contained_on, texts, Text,
};

verus! {

/// Why a request was refused.
#[derive(Debug)]
pub enum ContextError {
    /// A Library id with a character outside ASCII letters, digits, `-`, `_` and `.`, or none at all.
    InvalidLibraryId { id: String },
    /// A knowledge path that holds a backslash or a NUL character.
    InvalidKnowledgePath,
    /// A knowledge path segment that is `.`, `..` or holds a colon.
    InvalidSegment { segment: String },
    /// A URI that does not name a node of the Library.
    ForeignUri { uri: String, library: String },
    /// A knowledge path that names no node.
    KnowledgeNotFound { path: String },
    /// A profile written for another schema version.
    UnsupportedSchema { version: String },
    /// A profile without a project name.
    EmptyProject,
    /// An impact rule whose topic is no URI of the Library.
    InvalidTopic { topic: String, cause: String },
    /// A path prefix that is empty or climbs out of the repository.
    InvalidPrefix { prefix: String },
    /// A Library that would be overwritten without being asked to.
    LibraryExists { root: String },
    /// A program that could not be started.
    NotStarted { program: String, arguments: Vec<String>, cause: String },
    /// A program that ended without success.
    ProgramFailed { program: String, arguments: Vec<String>, message: String },
    /// Git output that is no text.
    NotUtf8 { cause: String },
    /// A directory whose Git repository cannot be found.
    NotInWorkingTree { path: String, cause: String },
    /// A repository that Git does not take for a working tree.
    NotWorkingTree { repository: String },
    /// A repository without a commit.
    NoCommit { repository: String },
    /// A checkpoint of a working tree with uncommitted changes.
    DirtyWorkingTree { paths: Vec<String> },
    /// A checkpoint of a revision other than the current one.
    RevisionMismatch { requested: String, resolved: String, current: String },
    /// A provider that was not told where its Library is.
    NoLibraryRoot,
    /// A Library root that lies in no directory.
    NoOkfParent,
    /// A directory of Libraries that lies in no repository.
    NoRepositoryParent,
    /// A provider request of more bytes than are read.
    RequestTooLarge { limit: usize },
    /// A request in another protocol.
    UnsupportedProtocol { protocol: String },
    /// A request for another Library.
    WrongLibrary { provider: String, target: String },
    /// A request to read nothing in particular.
    MissingUri,
    /// A request to query for nothing in particular.
    MissingQuery,
    /// A request for an operation that the provider does not have.
    UnsupportedOperation { operation: String },
    /// The OKF command line could not be started.
    OkfNotStarted { cause: String },
    /// OKF refused to install the Library.
    AddFailed { message: String },
    /// A file that could not be read.
    Unreadable { path: String, cause: String },
    /// A text that could not be quoted.
    NotQuoted,
}

/// The mathematical value of an [`ContextError`].
pub enum ErrorView {
    InvalidLibraryId { id: Text },
    InvalidKnowledgePath,
    InvalidSegment { segment: Text },
    ForeignUri { uri: Text, library: Text },
    KnowledgeNotFound { path: Text },
    UnsupportedSchema { version: Text },
    EmptyProject,
    InvalidTopic { topic: Text, cause: Text },
    InvalidPrefix { prefix: Text },
    LibraryExists { root: Text },
    NotStarted { program: Text, arguments: Seq<Text>, cause: Text },
    ProgramFailed { program: Text, arguments: Seq<Text>, message: Text },
    NotUtf8 { cause: Text },
    NotInWorkingTree { path: Text, cause: Text },
    NotWorkingTree { repository: Text },
    NoCommit { repository: Text },
    DirtyWorkingTree { paths: Seq<Text> },
    RevisionMismatch { requested: Text, resolved: Text, current: Text },
    NoLibraryRoot,
    NoOkfParent,
    NoRepositoryParent,
    RequestTooLarge { limit: nat },
    UnsupportedProtocol { protocol: Text },
    WrongLibrary { provider: Text, target: Text },
    MissingUri,
    MissingQuery,
    UnsupportedOperation { operation: Text },
    OkfNotStarted { cause: Text },
    AddFailed { message: Text },
    Unreadable { path: Text, cause: Text },
    NotQuoted,
}

impl View for ContextError {
    type V = ErrorView;

    open spec fn view(&self) -> ErrorView {
        match self {
            ContextError::InvalidLibraryId { id } => ErrorView::InvalidLibraryId { id: id@ },
            ContextError::InvalidKnowledgePath => ErrorView::InvalidKnowledgePath,
            ContextError::InvalidSegment { segment } => ErrorView::InvalidSegment {
                segment: segment@,
            },
            ContextError::ForeignUri { uri, library } => ErrorView::ForeignUri {
                uri: uri@,
                library: library@,
            },
            ContextError::KnowledgeNotFound { path } => ErrorView::KnowledgeNotFound {
                path: path@,
            },
            ContextError::UnsupportedSchema { version } => ErrorView::UnsupportedSchema {
                version: version@,
            },
            ContextError::EmptyProject => ErrorView::EmptyProject,
            ContextError::InvalidTopic { topic, cause } => ErrorView::InvalidTopic {
                topic: topic@,
                cause: cause@,
            },
            ContextError::InvalidPrefix { prefix } => ErrorView::InvalidPrefix { prefix: prefix@ },
            ContextError::LibraryExists { root } => ErrorView::LibraryExists { root: root@ },
            ContextError::NotStarted { program, arguments, cause } => ErrorView::NotStarted {
                program: program@,
                arguments: texts(arguments@),
                cause: cause@,
            },
            ContextError::ProgramFailed { program, arguments, message } => ErrorView::ProgramFailed {
                program: program@,
                arguments: texts(arguments@),
                message: message@,
            },
            ContextError::NotUtf8 { cause } => ErrorView::NotUtf8 { cause: cause@ },
            ContextError::NotInWorkingTree { path, cause } => ErrorView::NotInWorkingTree {
                path: path@,
                cause: cause@,
            },
            ContextError::NotWorkingTree { repository } => ErrorView::NotWorkingTree {
                repository: repository@,
            },
            ContextError::NoCommit { repository } => ErrorView::NoCommit {
                repository: repository@,
            },
            ContextError::DirtyWorkingTree { paths } => ErrorView::DirtyWorkingTree {
                paths: texts(paths@),
            },
            ContextError::RevisionMismatch { requested, resolved, current } => ErrorView::RevisionMismatch {
                requested: requested@,
                resolved: resolved@,
                current: current@,
            },
            ContextError::NoLibraryRoot => ErrorView::NoLibraryRoot,
            ContextError::NoOkfParent => ErrorView::NoOkfParent,
            ContextError::NoRepositoryParent => ErrorView::NoRepositoryParent,
            ContextError::RequestTooLarge { limit } => ErrorView::RequestTooLarge {
                limit: *limit as nat,
            },
            ContextError::UnsupportedProtocol { protocol } => ErrorView::UnsupportedProtocol {
                protocol: protocol@,
            },
            ContextError::WrongLibrary { provider, target } => ErrorView::WrongLibrary {
                provider: provider@,
                target: target@,
            },
            ContextError::MissingUri => ErrorView::MissingUri,
            ContextError::MissingQuery => ErrorView::MissingQuery,
            ContextError::UnsupportedOperation { operation } => ErrorView::UnsupportedOperation {
                operation: operation@,
            },
            ContextError::OkfNotStarted { cause } => ErrorView::OkfNotStarted { cause: cause@ },
            ContextError::AddFailed { message } => ErrorView::AddFailed { message: message@ },
            ContextError::Unreadable { path, cause } => ErrorView::Unreadable {
                path: path@,
                cause: cause@,
            },
            ContextError::NotQuoted => ErrorView::NotQuoted,
        }
    }
}

/// What a fallible function gave, by its view.
pub open spec fn outcome<T: View>(result: Result<T, ContextError>) -> Result<T::V, ErrorView> {
    match result {
        Ok(value) => Ok(value@),
        Err(error) => Err(error@),
    }
}

/// What a fallible function without a result gave.
pub open spec fn verdict(result: Result<(), ContextError>) -> Result<(), ErrorView> {
    match result {
        Ok(_) => Ok(()),
        Err(error) => Err(error@),
    }
}

/// What a fallible function that returns a list of strings gave.
pub open spec fn list_outcome(result: Result<Vec<String>, ContextError>) -> Result<Seq<Text>, ErrorView> {
    match result {
        Ok(list) => Ok(texts(list@)),
        Err(error) => Err(error@),
    }
}

/// The sentence that tells a user of the error.
pub open spec fn error_text(error: ErrorView) -> Text {
    match error {
        ErrorView::InvalidLibraryId { id } => "invalid Library id '"@ + id + "'"@,
        ErrorView::InvalidKnowledgePath => "invalid knowledge path"@,
        ErrorView::InvalidSegment { segment } => {
            "invalid knowledge path segment '"@ + segment + "'"@
        },
        ErrorView::ForeignUri { uri, library } => {
            "URI '"@ + uri + "' does not belong to Library '"@ + library + "'"@
        },
        ErrorView::KnowledgeNotFound { path } => "knowledge path '"@ + path + "' was not found"@,
        ErrorView::UnsupportedSchema { version } => {
            "unsupported Project Context profile schema version '"@ + version + "'"@
        },
        ErrorView::EmptyProject => "Project Context profile project name must not be empty"@,
        ErrorView::InvalidTopic { topic, cause } => {
            "impact rule topic '"@ + topic + "' is invalid: "@ + cause
        },
        ErrorView::InvalidPrefix { prefix } => "invalid repository path prefix '"@ + prefix + "'"@,
        ErrorView::LibraryExists { root } => "Project Context Library already exists at "@ + root,
        ErrorView::NotStarted { program, arguments, cause } => {
            "failed to execute "@ + program + " "@ + joined(arguments, " "@) + ": "@ + cause
        },
        ErrorView::ProgramFailed { program, arguments, message } => {
            program + " "@ + joined(arguments, " "@) + " failed: "@ + message
        },
        ErrorView::NotUtf8 { cause } => "git output was not UTF-8: "@ + cause,
        ErrorView::NotInWorkingTree { path, cause } => {
            path + " is not inside a Git working tree: "@ + cause
        },
        ErrorView::NotWorkingTree { repository } => repository + " is not a Git working tree"@,
        ErrorView::NoCommit { repository } => {
            "repository '"@ + repository + "' does not have a commit yet"@
        },
        ErrorView::DirtyWorkingTree { paths } => {
            "refusing to checkpoint a dirty working tree; commit or revert these paths first: "@
                + joined(paths, ", "@)
        },
        ErrorView::RevisionMismatch { requested, resolved, current } => {
            "checkpoint revision '"@ + requested + "' resolves to "@ + resolved
                + ", but current HEAD is "@ + current + "; checkpoint the current verified HEAD"@
        },
        ErrorView::NoLibraryRoot => "provider requires --library-root or OKF_LIBRARY_ROOT"@,
        ErrorView::NoOkfParent => "Library root has no .okf parent"@,
        ErrorView::NoRepositoryParent => ".okf directory has no repository parent"@,
        ErrorView::RequestTooLarge { limit } => {
            "provider request exceeds the "@ + decimal(limit) + " byte limit"@
        },
        ErrorView::UnsupportedProtocol { protocol } => {
            "unsupported provider protocol '"@ + protocol + "'"@
        },
        ErrorView::WrongLibrary { provider, target } => {
            "provider belongs to Library '"@ + provider + "' but request targets '"@ + target
                + "'"@
        },
        ErrorView::MissingUri => "read requires uri"@,
        ErrorView::MissingQuery => "query requires query payload"@,
        ErrorView::UnsupportedOperation { operation } => {
            "unsupported provider operation '"@ + operation + "'"@
        },
        ErrorView::OkfNotStarted { cause } => {
            "failed to execute the okf CLI; install OKF CLI 0.2 or newer: "@ + cause
        },
        ErrorView::AddFailed { message } => "okf library add failed: "@ + message,
        ErrorView::Unreadable { path, cause } => "failed to read "@ + path + ": "@ + cause,
        ErrorView::NotQuoted => "failed to quote YAML string"@,
    }
}

impl ContextError {
    /// The sentence that tells a user of the error.
    pub fn message(&self) -> (r: String)
        ensures
            r@ == error_text(self@),
    {
        match self {
            ContextError::InvalidLibraryId { id } => "invalid Library id '".to_owned()
                .concat(id.as_str())
                .concat("'"),
            ContextError::InvalidKnowledgePath => "invalid knowledge path".to_owned(),
            ContextError::InvalidSegment { segment } =>
                "invalid knowledge path segment '".to_owned()
                .concat(segment.as_str())
                .concat("'"),
            ContextError::ForeignUri { uri, library } => "URI '".to_owned()
                .concat(uri.as_str())
                .concat("' does not belong to Library '")
                .concat(library.as_str())
                .concat("'"),
            ContextError::KnowledgeNotFound { path } => "knowledge path '".to_owned()
                .concat(path.as_str())
                .concat("' was not found"),
            ContextError::UnsupportedSchema { version } =>
                "unsupported Project Context profile schema version '".to_owned()
                .concat(version.as_str())
                .concat("'"),
            ContextError::EmptyProject =>
                "Project Context profile project name must not be empty".to_owned(),
            ContextError::InvalidTopic { topic, cause } => "impact rule topic '".to_owned()
                .concat(topic.as_str())
                .concat("' is invalid: ")
                .concat(cause.as_str()),
            ContextError::InvalidPrefix { prefix } => "invalid repository path prefix '".to_owned()
                .concat(prefix.as_str())
                .concat("'"),
            ContextError::LibraryExists { root } =>
                "Project Context Library already exists at ".to_owned()
                .concat(root.as_str()),
            ContextError::NotStarted { program, arguments, cause } =>
                "failed to execute ".to_owned()
                .concat(program.as_str())
                .concat(" ")
                .concat(join(arguments, " ").as_str())
                .concat(": ")
                .concat(cause.as_str()),
            ContextError::ProgramFailed { program, arguments, message } => program.clone()
                .concat(" ")
                .concat(join(arguments, " ").as_str())
                .concat(" failed: ")
                .concat(message.as_str()),
            ContextError::NotUtf8 { cause } => "git output was not UTF-8: ".to_owned()
                .concat(cause.as_str()),
            ContextError::NotInWorkingTree { path, cause } => path.clone()
                .concat(" is not inside a Git working tree: ")
                .concat(cause.as_str()),
            ContextError::NotWorkingTree { repository } => repository.clone()
                .concat(" is not a Git working tree"),
            ContextError::NoCommit { repository } => "repository '".to_owned()
                .concat(repository.as_str())
                .concat("' does not have a commit yet"),
            ContextError::DirtyWorkingTree { paths } =>
                "refusing to checkpoint a dirty working tree; commit or revert these paths first: ".to_owned()
                .concat(join(paths, ", ").as_str()),
            ContextError::RevisionMismatch { requested, resolved, current } =>
                "checkpoint revision '".to_owned()
                .concat(requested.as_str())
                .concat("' resolves to ")
                .concat(resolved.as_str())
                .concat(", but current HEAD is ")
                .concat(current.as_str())
                .concat("; checkpoint the current verified HEAD"),
            ContextError::NoLibraryRoot =>
                "provider requires --library-root or OKF_LIBRARY_ROOT".to_owned(),
            ContextError::NoOkfParent => "Library root has no .okf parent".to_owned(),
            ContextError::NoRepositoryParent =>
                ".okf directory has no repository parent".to_owned(),
            ContextError::RequestTooLarge { limit } => "provider request exceeds the ".to_owned()
                .concat(decimal_string(*limit as u128).as_str())
                .concat(" byte limit"),
            ContextError::UnsupportedProtocol { protocol } =>
                "unsupported provider protocol '".to_owned()
                .concat(protocol.as_str())
                .concat("'"),
            ContextError::WrongLibrary { provider, target } =>
                "provider belongs to Library '".to_owned()
                .concat(provider.as_str())
                .concat("' but request targets '")
                .concat(target.as_str())
                .concat("'"),
            ContextError::MissingUri => "read requires uri".to_owned(),
            ContextError::MissingQuery => "query requires query payload".to_owned(),
            ContextError::UnsupportedOperation { operation } =>
                "unsupported provider operation '".to_owned()
                .concat(operation.as_str())
                .concat("'"),
            ContextError::OkfNotStarted { cause } =>
                "failed to execute the okf CLI; install OKF CLI 0.2 or newer: ".to_owned()
                .concat(cause.as_str()),
            ContextError::AddFailed { message } => "okf library add failed: ".to_owned()
                .concat(message.as_str()),
            ContextError::Unreadable { path, cause } => "failed to read ".to_owned()
                .concat(path.as_str())
                .concat(": ")
                .concat(cause.as_str()),
            ContextError::NotQuoted => "failed to quote YAML string".to_owned(),
        }
    }
}

/// The sentence that tells of an error holds everything that the error is about: the
/// texts as they are, each item of a list, and numbers in decimal. Where there is more
/// than one, it says which is which.
pub proof fn law_messages_hold_every_detail(error: ErrorView)
    ensures
        ({
            let shown = error_text(error);
            match error {
                ErrorView::InvalidLibraryId { id } => {
                    &&& contains_text(shown, id)
                },
                ErrorView::InvalidSegment { segment } => {
                    &&& contains_text(shown, segment)
                },
                ErrorView::ForeignUri { uri, library } => {
                    &&& contains_text(shown, "URI '"@ + uri)
                    &&& contains_text(shown, "' does not belong to Library '"@ + library)
                },
                ErrorView::KnowledgeNotFound { path } => {
                    &&& contains_text(shown, path)
                },
                ErrorView::UnsupportedSchema { version } => {
                    &&& contains_text(shown, version)
                },
                ErrorView::InvalidTopic { topic, cause } => {
                    &&& contains_text(shown, "impact rule topic '"@ + topic)
                    &&& contains_text(shown, "' is invalid: "@ + cause)
                },
                ErrorView::InvalidPrefix { prefix } => {
                    &&& contains_text(shown, prefix)
                },
                ErrorView::LibraryExists { root } => {
                    &&& contains_text(shown, root)
                },
                ErrorView::NotStarted { program, arguments, cause } => {
                    &&& contains_text(shown, "failed to execute "@ + program)
                    &&& forall|i: int|
                        0 <= i < arguments.len() ==> contains_text(shown, #[trigger] arguments[i])
                    &&& contains_text(shown, ": "@ + cause)
                },
                ErrorView::ProgramFailed { program, arguments, message } => {
                    &&& contains_text(shown, program)
                    &&& forall|i: int|
                        0 <= i < arguments.len() ==> contains_text(shown, #[trigger] arguments[i])
                    &&& contains_text(shown, " failed: "@ + message)
                },
                ErrorView::NotUtf8 { cause } => {
                    &&& contains_text(shown, cause)
                },
                ErrorView::NotInWorkingTree { path, cause } => {
                    &&& contains_text(shown, path)
                    &&& contains_text(shown, " is not inside a Git working tree: "@ + cause)
                },
                ErrorView::NotWorkingTree { repository } => {
                    &&& contains_text(shown, repository)
                },
                ErrorView::NoCommit { repository } => {
                    &&& contains_text(shown, repository)
                },
                ErrorView::DirtyWorkingTree { paths } => {
                    &&& forall|i: int|
                        0 <= i < paths.len() ==> contains_text(shown, #[trigger] paths[i])
                },
                ErrorView::RevisionMismatch { requested, resolved, current } => {
                    &&& contains_text(shown, "checkpoint revision '"@ + requested)
                    &&& contains_text(shown, "' resolves to "@ + resolved)
                    &&& contains_text(shown, ", but current HEAD is "@ + current)
                },
                ErrorView::UnsupportedProtocol { protocol } => {
                    &&& contains_text(shown, protocol)
                },
                ErrorView::WrongLibrary { provider, target } => {
                    &&& contains_text(shown, "provider belongs to Library '"@ + provider)
                    &&& contains_text(shown, "' but request targets '"@ + target)
                },
                ErrorView::UnsupportedOperation { operation } => {
                    &&& contains_text(shown, operation)
                },
                ErrorView::OkfNotStarted { cause } => {
                    &&& contains_text(shown, cause)
                },
                ErrorView::AddFailed { message } => {
                    &&& contains_text(shown, message)
                },
                ErrorView::Unreadable { path, cause } => {
                    &&& contains_text(shown, "failed to read "@ + path)
                    &&& contains_text(shown, ": "@ + cause)
                },
                ErrorView::RequestTooLarge { limit } => contains_text(shown, decimal(limit)),
                _ => true,
            }
        }),
{
    let shown = error_text(error);
    let none = Seq::<char>::empty();
    match error {
        ErrorView::InvalidLibraryId { id } => {
            assert(shown =~= ("invalid Library id '"@) + (id) + ("'"@));
            lemma_contained(shown, "invalid Library id '"@, id, "'"@);
        },
        ErrorView::InvalidSegment { segment } => {
            assert(shown =~= ("invalid knowledge path segment '"@) + (segment) + ("'"@));
            lemma_contained(shown, "invalid knowledge path segment '"@, segment, "'"@);
        },
        ErrorView::ForeignUri { uri, library } => {
            assert(shown =~= (none) + ("URI '"@ + uri)
                + ("' does not belong to Library '"@ + library + "'"@));
            lemma_contained(
                shown,
                none,
                "URI '"@ + uri,
                "' does not belong to Library '"@ + library + "'"@,
            );
            assert(shown =~= ("URI '"@ + uri) + ("' does not belong to Library '"@ + library)
                + ("'"@));
            lemma_contained(
                shown,
                "URI '"@ + uri,
                "' does not belong to Library '"@ + library,
                "'"@,
            );
        },
        ErrorView::KnowledgeNotFound { path } => {
            assert(shown =~= ("knowledge path '"@) + (path) + ("' was not found"@));
            lemma_contained(shown, "knowledge path '"@, path, "' was not found"@);
        },
        ErrorView::UnsupportedSchema { version } => {
            assert(shown =~= ("unsupported Project Context profile schema version '"@)
                + (version) + ("'"@));
            lemma_contained(
                shown,
                "unsupported Project Context profile schema version '"@,
                version,
                "'"@,
            );
        },
        ErrorView::InvalidTopic { topic, cause } => {
            assert(shown =~= (none) + ("impact rule topic '"@ + topic)
                + ("' is invalid: "@ + cause));
            lemma_contained(shown, none, "impact rule topic '"@ + topic, "' is invalid: "@ + cause);
            assert(shown =~= ("impact rule topic '"@ + topic) + ("' is invalid: "@ + cause)
                + (none));
            lemma_contained(shown, "impact rule topic '"@ + topic, "' is invalid: "@ + cause, none);
        },
        ErrorView::InvalidPrefix { prefix } => {
            assert(shown =~= ("invalid repository path prefix '"@) + (prefix) + ("'"@));
            lemma_contained(shown, "invalid repository path prefix '"@, prefix, "'"@);
        },
        ErrorView::LibraryExists { root } => {
            assert(shown =~= ("Project Context Library already exists at "@) + (root) + (none));
            lemma_contained(shown, "Project Context Library already exists at "@, root, none);
        },
        ErrorView::NotStarted { program, arguments, cause } => {
            assert(shown =~= (none) + ("failed to execute "@ + program)
                + (" "@ + joined(arguments, " "@) + ": "@ + cause));
            lemma_contained(
                shown,
                none,
                "failed to execute "@ + program,
                " "@ + joined(arguments, " "@) + ": "@ + cause,
            );
            assert(shown =~= ("failed to execute "@ + program + " "@)
                + (joined(arguments, " "@)) + (": "@ + cause));
            lemma_contained(
                shown,
                "failed to execute "@ + program + " "@,
                joined(arguments, " "@),
                ": "@ + cause,
            );
            assert forall|i: int| 0 <= i < arguments.len() implies contains_text(
                shown,
                #[trigger] arguments[i],
            ) by {
                law_joined_text_holds_every_item(arguments, " "@, i);
                lemma_contained_on(
                    "failed to execute "@ + program + " "@,
                    joined(arguments, " "@),
                    ": "@ + cause,
                    arguments[i],
                );
            }
            assert(shown =~= ("failed to execute "@ + program + " "@ + joined(arguments, " "@))
                + (": "@ + cause) + (none));
            lemma_contained(
                shown,
                "failed to execute "@ + program + " "@ + joined(arguments, " "@),
                ": "@ + cause,
                none,
            );
        },
        ErrorView::ProgramFailed { program, arguments, message } => {
            assert(shown =~= (none) + (program)
                + (" "@ + joined(arguments, " "@) + " failed: "@ + message));
            lemma_contained(
                shown,
                none,
                program,
                " "@ + joined(arguments, " "@) + " failed: "@ + message,
            );
            assert(shown =~= (program + " "@) + (joined(arguments, " "@))
                + (" failed: "@ + message));
            lemma_contained(shown, program + " "@, joined(arguments, " "@), " failed: "@ + message);
            assert forall|i: int| 0 <= i < arguments.len() implies contains_text(
                shown,
                #[trigger] arguments[i],
            ) by {
                law_joined_text_holds_every_item(arguments, " "@, i);
                lemma_contained_on(
                    program + " "@,
                    joined(arguments, " "@),
                    " failed: "@ + message,
                    arguments[i],
                );
            }
            assert(shown =~= (program + " "@ + joined(arguments, " "@))
                + (" failed: "@ + message) + (none));
            lemma_contained(
                shown,
                program + " "@ + joined(arguments, " "@),
                " failed: "@ + message,
                none,
            );
        },
        ErrorView::NotUtf8 { cause } => {
            assert(shown =~= ("git output was not UTF-8: "@) + (cause) + (none));
            lemma_contained(shown, "git output was not UTF-8: "@, cause, none);
        },
        ErrorView::NotInWorkingTree { path, cause } => {
            assert(shown =~= (none) + (path) + (" is not inside a Git working tree: "@ + cause));
            lemma_contained(shown, none, path, " is not inside a Git working tree: "@ + cause);
            assert(shown =~= (path) + (" is not inside a Git working tree: "@ + cause) + (none));
            lemma_contained(shown, path, " is not inside a Git working tree: "@ + cause, none);
        },
        ErrorView::NotWorkingTree { repository } => {
            assert(shown =~= (none) + (repository) + (" is not a Git working tree"@));
            lemma_contained(shown, none, repository, " is not a Git working tree"@);
        },
        ErrorView::NoCommit { repository } => {
            assert(shown =~= ("repository '"@) + (repository) + ("' does not have a commit yet"@));
            lemma_contained(shown, "repository '"@, repository, "' does not have a commit yet"@);
        },
        ErrorView::DirtyWorkingTree { paths } => {
            assert(shown =~= ("refusing to checkpoint a dirty working tree; commit or revert these paths first: "@)
                + (joined(paths, ", "@)) + (none));
            lemma_contained(
                shown,
                "refusing to checkpoint a dirty working tree; commit or revert these paths first: "@,
                joined(paths, ", "@),
                none,
            );
            assert forall|i: int| 0 <= i < paths.len() implies contains_text(
                shown,
                #[trigger] paths[i],
            ) by {
                law_joined_text_holds_every_item(paths, ", "@, i);
                lemma_contained_on(
                    "refusing to checkpoint a dirty working tree; commit or revert these paths first: "@,
                    joined(paths, ", "@),
                    none,
                    paths[i],
                );
            }
        },
        ErrorView::RevisionMismatch { requested, resolved, current } => {
            assert(shown =~= (none) + ("checkpoint revision '"@ + requested)
                + ("' resolves to "@ + resolved + ", but current HEAD is "@ + current
                + "; checkpoint the current verified HEAD"@));
            lemma_contained(
                shown,
                none,
                "checkpoint revision '"@ + requested,
                "' resolves to "@ + resolved + ", but current HEAD is "@ + current
                    + "; checkpoint the current verified HEAD"@,
            );
            assert(shown =~= ("checkpoint revision '"@ + requested)
                + ("' resolves to "@ + resolved)
                + (", but current HEAD is "@ + current
                + "; checkpoint the current verified HEAD"@));
            lemma_contained(
                shown,
                "checkpoint revision '"@ + requested,
                "' resolves to "@ + resolved,
                ", but current HEAD is "@ + current + "; checkpoint the current verified HEAD"@,
            );
            assert(shown =~= ("checkpoint revision '"@ + requested + "' resolves to "@ + resolved)
                + (", but current HEAD is "@ + current)
                + ("; checkpoint the current verified HEAD"@));
            lemma_contained(
                shown,
                "checkpoint revision '"@ + requested + "' resolves to "@ + resolved,
                ", but current HEAD is "@ + current,
                "; checkpoint the current verified HEAD"@,
            );
        },
        ErrorView::UnsupportedProtocol { protocol } => {
            assert(shown =~= ("unsupported provider protocol '"@) + (protocol) + ("'"@));
            lemma_contained(shown, "unsupported provider protocol '"@, protocol, "'"@);
        },
        ErrorView::WrongLibrary { provider, target } => {
            assert(shown =~= (none) + ("provider belongs to Library '"@ + provider)
                + ("' but request targets '"@ + target + "'"@));
            lemma_contained(
                shown,
                none,
                "provider belongs to Library '"@ + provider,
                "' but request targets '"@ + target + "'"@,
            );
            assert(shown =~= ("provider belongs to Library '"@ + provider)
                + ("' but request targets '"@ + target) + ("'"@));
            lemma_contained(
                shown,
                "provider belongs to Library '"@ + provider,
                "' but request targets '"@ + target,
                "'"@,
            );
        },
        ErrorView::UnsupportedOperation { operation } => {
            assert(shown =~= ("unsupported provider operation '"@) + (operation) + ("'"@));
            lemma_contained(shown, "unsupported provider operation '"@, operation, "'"@);
        },
        ErrorView::OkfNotStarted { cause } => {
            assert(shown =~= ("failed to execute the okf CLI; install OKF CLI 0.2 or newer: "@)
                + (cause) + (none));
            lemma_contained(
                shown,
                "failed to execute the okf CLI; install OKF CLI 0.2 or newer: "@,
                cause,
                none,
            );
        },
        ErrorView::AddFailed { message } => {
            assert(shown =~= ("okf library add failed: "@) + (message) + (none));
            lemma_contained(shown, "okf library add failed: "@, message, none);
        },
        ErrorView::Unreadable { path, cause } => {
            assert(shown =~= (none) + ("failed to read "@ + path) + (": "@ + cause));
            lemma_contained(shown, none, "failed to read "@ + path, ": "@ + cause);
            assert(shown =~= ("failed to read "@ + path) + (": "@ + cause) + (none));
            lemma_contained(shown, "failed to read "@ + path, ": "@ + cause, none);
        },
        ErrorView::RequestTooLarge { limit } => {
            lemma_contained(
                shown,
                "provider request exceeds the "@,
                decimal(limit),
                " byte limit"@,
            );
        },
        _ => {},
    }
}

} // verus!
