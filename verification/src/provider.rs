//! What the provider of a Library answers.
//!
//! Git and the files of the Library are asked elsewhere: an answer is a function
//! of what has been seen of them so far.

use vstd::prelude::*;
use crate::error::{error_text, outcome, verdict, ContextError, ErrorView};
use crate::git::{replies_view, Reply, ReplyView, Step, StepView};
use crate::knowledge::{
    knowledge_path, law_uri_names_its_path, law_uris_begin_with_their_library, lemma_one_word,
    lemma_two_words, node_uri, normalize_knowledge_path, path_of_uri, uri_of, uri_path,
};
use crate::order::{
    ascending, ascending_list, before, insert, law_ascending_list, law_ascending_list_exists,
};
use crate::paths::lemma_take_set;
use crate::profile::{current_topics, Profile, ProfileView};
use crate::query::{
    answered, candidate, candidates, hits_match, law_hits_show_their_own_content, matches_hit,
    query_library, searched, ProviderQuery, QueryResult, QueryView, ResultView,
};
use crate::status::{
    compute_status, law_conversations_end, markdown, optional_str, state_name, status_markdown,
    status_step, StatusView,
};
use crate::text::{optional_text, same_text, texts, Text};

verus! {

/// The protocol that the provider speaks.
pub const PROVIDER_PROTOCOL: &'static str = "okf-provider/1";

/// How many bytes of a request are read.
pub const MAX_PROVIDER_REQUEST_BYTES: usize = 1024 * 1024;

/// What the provider is asked.
#[derive(Debug)]
pub struct ProviderRequest {
    pub protocol: String,
    pub operation: String,
    pub library: String,
    pub path: Option<String>,
    pub uri: Option<String>,
    pub query: Option<ProviderQuery>,
}

/// The mathematical value of a [`ProviderRequest`].
pub struct RequestView {
    pub protocol: Text,
    pub operation: Text,
    pub library: Text,
    pub path: Option<Text>,
    pub uri: Option<Text>,
    pub query: Option<QueryView>,
}

impl View for ProviderRequest {
    type V = RequestView;

    open spec fn view(&self) -> RequestView {
        RequestView {
            protocol: self.protocol@,
            operation: self.operation@,
            library: self.library@,
            path: optional_text(self.path),
            uri: optional_text(self.uri),
            query: match self.query {
                Some(query) => Some(query@),
                None => None,
            },
        }
    }
}

/// A topic of the Library, as its catalog presents it. The terms ascend.
#[derive(Debug)]
pub struct CatalogEntry {
    pub id: String,
    pub title: String,
    pub description: Option<String>,
    pub uri: String,
    pub terms: Vec<String>,
}

/// The mathematical value of a [`CatalogEntry`].
pub struct EntryView {
    pub id: Text,
    pub title: Text,
    pub description: Option<Text>,
    pub uri: Text,
    pub terms: Seq<Text>,
}

impl View for CatalogEntry {
    type V = EntryView;

    open spec fn view(&self) -> EntryView {
        EntryView {
            id: self.id@,
            title: self.title@,
            description: optional_text(self.description),
            uri: self.uri@,
            terms: texts(self.terms@),
        }
    }
}

/// What a Library is about.
#[derive(Debug)]
pub struct LibraryCatalog {
    pub library: String,
    pub entries: Vec<CatalogEntry>,
}

/// The mathematical value of a [`LibraryCatalog`].
pub struct CatalogView {
    pub library: Text,
    pub entries: Seq<EntryView>,
}

/// The views of a list of catalog entries.
pub open spec fn entries_view(list: Seq<CatalogEntry>) -> Seq<EntryView> {
    Seq::new(list.len(), |i: int| list[i]@)
}

impl View for LibraryCatalog {
    type V = CatalogView;

    open spec fn view(&self) -> CatalogView {
        CatalogView { library: self.library@, entries: entries_view(self.entries@) }
    }
}

/// A node of the Library. A virtual node is in no file.
#[derive(Debug)]
pub struct KnowledgeNode {
    pub uri: String,
    pub kind: String,
    pub title: Option<String>,
    pub virtual_node: bool,
}

/// The mathematical value of a [`KnowledgeNode`].
pub struct NodeView {
    pub uri: Text,
    pub kind: Text,
    pub title: Option<Text>,
    pub virtual_node: bool,
}

impl View for KnowledgeNode {
    type V = NodeView;

    open spec fn view(&self) -> NodeView {
        NodeView {
            uri: self.uri@,
            kind: self.kind@,
            title: optional_text(self.title),
            virtual_node: self.virtual_node,
        }
    }
}

/// The views of a list of nodes.
pub open spec fn nodes_view(list: Seq<KnowledgeNode>) -> Seq<NodeView> {
    Seq::new(list.len(), |i: int| list[i]@)
}

/// The views of a list of borrowed strings.
pub open spec fn strs(items: Seq<&str>) -> Seq<Text> {
    Seq::new(items.len(), |i: int| items[i]@)
}

/// The catalog entry of the node at `path`.
pub open spec fn entry(
    library: Text,
    id: Text,
    title: Text,
    description: Text,
    path: Text,
    terms: Seq<Text>,
) -> EntryView {
    EntryView {
        id,
        title,
        description: Some(description),
        uri: node_uri(library, path),
        terms: ascending_list(terms.to_set()),
    }
}

/// The catalog of a Library, by ascending id.
pub open spec fn catalog(library: Text) -> CatalogView {
    CatalogView {
        library,
        entries: seq![
            entry(
                library,
                "architecture"@,
                "Architecture"@,
                "Current architecture, boundaries, dependencies, and major flows."@,
                "current/architecture"@,
                seq!["architecture"@, "modules"@, "boundaries"@],
            ),
            entry(
                library,
                "components"@,
                "Components"@,
                "Current component responsibilities and ownership boundaries."@,
                "current/components"@,
                seq!["components"@, "modules"@, "packages"@],
            ),
            entry(
                library,
                "constraints"@,
                "Constraints"@,
                "Durable product and technical constraints."@,
                "current/constraints"@,
                seq!["constraints"@, "invariants"@, "rules"@],
            ),
            entry(
                library,
                "decisions"@,
                "Decisions"@,
                "Active decisions, rationale, and supersession notes."@,
                "current/decisions"@,
                seq!["decisions"@, "adr"@, "rationale"@],
            ),
            entry(
                library,
                "history"@,
                "Project history"@,
                "Append-only material context changes and validated checkpoints."@,
                "history/log"@,
                seq!["history"@, "changes"@, "checkpoint"@],
            ),
            entry(
                library,
                "status"@,
                "Live project freshness"@,
                "Current Git revision, working-tree freshness, and impacted topics."@,
                "status"@,
                seq!["status"@, "freshness"@, "revision"@, "dirty"@],
            ),
        ],
    }
}

/// The catalog entry of the node at `path`.
pub fn catalog_entry(
    library: &str,
    id: &str,
    title: &str,
    description: &str,
    path: &str,
    terms: &[&str],
) -> (r: CatalogEntry)
    ensures
        r@ == entry(library@, id@, title@, description@, path@, strs(terms@)),
        ascending(r@.terms),
{
    let mut set: Vec<String> = Vec::new();
    let ghost all = strs(terms@);
    let mut i: usize = 0;
    assert(texts(set@).to_set() =~= all.take(0).to_set());
    while i < terms.len()
        invariant
            i <= terms@.len(),
            all == strs(terms@),
            ascending(texts(set@)),
            texts(set@).to_set() == all.take(i as int).to_set(),
        decreases terms@.len() - i,
    {
        proof {
            lemma_take_set(all, i as int);
        }
        insert(&mut set, terms[i].to_owned());
        i += 1;
    }
    assert(all.take(i as int) =~= all);
    proof {
        law_ascending_list(texts(set@));
    }
    CatalogEntry {
        id: id.to_owned(),
        title: title.to_owned(),
        description: Some(description.to_owned()),
        uri: uri_of(library, path),
        terms: set,
    }
}

/// The catalog of a Library.
pub fn build_catalog(profile: &Profile) -> (r: LibraryCatalog)
    ensures
        r@ == catalog(profile.library_id@),
{
    let id = profile.library_id.as_str();
    let architecture = ["architecture", "modules", "boundaries"];
    let components = ["components", "modules", "packages"];
    let constraints = ["constraints", "invariants", "rules"];
    let decisions = ["decisions", "adr", "rationale"];
    let history = ["history", "changes", "checkpoint"];
    let status = ["status", "freshness", "revision", "dirty"];
    proof {
        assert(strs(architecture@) =~= seq!["architecture"@, "modules"@, "boundaries"@]);
        assert(strs(components@) =~= seq!["components"@, "modules"@, "packages"@]);
        assert(strs(constraints@) =~= seq!["constraints"@, "invariants"@, "rules"@]);
        assert(strs(decisions@) =~= seq!["decisions"@, "adr"@, "rationale"@]);
        assert(strs(history@) =~= seq!["history"@, "changes"@, "checkpoint"@]);
        assert(strs(status@) =~= seq!["status"@, "freshness"@, "revision"@, "dirty"@]);
    }
    let entries = vec![
        catalog_entry(
            id,
            "architecture",
            "Architecture",
            "Current architecture, boundaries, dependencies, and major flows.",
            "current/architecture",
            &architecture,
        ),
        catalog_entry(
            id,
            "components",
            "Components",
            "Current component responsibilities and ownership boundaries.",
            "current/components",
            &components,
        ),
        catalog_entry(
            id,
            "constraints",
            "Constraints",
            "Durable product and technical constraints.",
            "current/constraints",
            &constraints,
        ),
        catalog_entry(
            id,
            "decisions",
            "Decisions",
            "Active decisions, rationale, and supersession notes.",
            "current/decisions",
            &decisions,
        ),
        catalog_entry(
            id,
            "history",
            "Project history",
            "Append-only material context changes and validated checkpoints.",
            "history/log",
            &history,
        ),
        catalog_entry(
            id,
            "status",
            "Live project freshness",
            "Current Git revision, working-tree freshness, and impacted topics.",
            "status",
            &status,
        ),
    ];
    assert(entries_view(entries@) =~= catalog(id@).entries);
    LibraryCatalog { library: profile.library_id.clone(), entries }
}

/// The node at `path`.
pub open spec fn node_at(
    library: Text,
    path: Text,
    kind: Text,
    title: Text,
    virtual_node: bool,
) -> NodeView {
    NodeView { uri: node_uri(library, path), kind, title: Some(title), virtual_node }
}

/// The nodes directly below a normalized knowledge path.
pub open spec fn nodes_below(library: Text, path: Text) -> Seq<NodeView> {
    if path == ""@ {
        seq![
            node_at(library, "index"@, "content"@, "Project Context"@, false),
            node_at(library, "status"@, "content"@, "Live project freshness"@, true),
            node_at(library, "current"@, "directory"@, "Current project knowledge"@, false),
            node_at(library, "history"@, "directory"@, "Project history"@, false),
        ]
    } else if path == "current"@ {
        seq![
            node_at(library, "current/architecture"@, "content"@, "Architecture"@, false),
            node_at(library, "current/constraints"@, "content"@, "Constraints"@, false),
            node_at(library, "current/decisions"@, "content"@, "Decisions"@, false),
            node_at(library, "current/components"@, "content"@, "Components"@, false),
        ]
    } else if path == "history"@ {
        seq![node_at(library, "history/log"@, "content"@, "Project history"@, false)]
    } else {
        Seq::empty()
    }
}

/// What listing a knowledge path gives.
pub open spec fn listed_nodes(library: Text, path: Text) -> Result<Seq<NodeView>, ErrorView> {
    match knowledge_path(path) {
        Err(error) => Err(error),
        Ok(path) => Ok(nodes_below(library, path)),
    }
}

/// What a fallible function that returns nodes gave.
pub open spec fn nodes_outcome(result: Result<Vec<KnowledgeNode>, ContextError>) -> Result<
    Seq<NodeView>,
    ErrorView,
> {
    match result {
        Ok(list) => Ok(nodes_view(list@)),
        Err(error) => Err(error@),
    }
}

/// The node at `path`.
pub fn node(library: &str, path: &str, kind: &str, title: Option<&str>, virtual_node: bool) -> (r:
    KnowledgeNode)
    ensures
        r@ == (NodeView {
            uri: node_uri(library@, path@),
            kind: kind@,
            title: optional_str(title),
            virtual_node,
        }),
{
    KnowledgeNode {
        uri: uri_of(library, path),
        kind: kind.to_owned(),
        title: match title {
            Some(title) => Some(title.to_owned()),
            None => None,
        },
        virtual_node,
    }
}

/// The nodes directly below a knowledge path.
pub fn list_nodes(profile: &Profile, path: &str) -> (r: Result<Vec<KnowledgeNode>, ContextError>)
    ensures
        nodes_outcome(r) == listed_nodes(profile.library_id@, path@),
{
    let path = match normalize_knowledge_path(path) {
        Err(error) => {
            return Err(error);
        },
        Ok(path) => path,
    };
    let path = path.as_str();
    let id = profile.library_id.as_str();
    let nodes = if same_text(path, "") {
        vec![
            node(id, "index", "content", Some("Project Context"), false),
            node(id, "status", "content", Some("Live project freshness"), true),
            node(id, "current", "directory", Some("Current project knowledge"), false),
            node(id, "history", "directory", Some("Project history"), false),
        ]
    } else if same_text(path, "current") {
        vec![
            node(id, "current/architecture", "content", Some("Architecture"), false),
            node(id, "current/constraints", "content", Some("Constraints"), false),
            node(id, "current/decisions", "content", Some("Decisions"), false),
            node(id, "current/components", "content", Some("Components"), false),
        ]
    } else if same_text(path, "history") {
        vec![node(id, "history/log", "content", Some("Project history"), false)]
    } else {
        Vec::new()
    };
    assert(nodes_view(nodes@) =~= nodes_below(id@, path@));
    Ok(nodes)
}

/// Where the content of a node comes from.
#[derive(Debug)]
pub enum ReadTarget {
    /// It is the live status of the project.
    Status,
    /// It is in this file of the Library.
    File(String),
}

/// The mathematical value of a [`ReadTarget`].
pub enum TargetView {
    Status,
    File(Text),
}

impl View for ReadTarget {
    type V = TargetView;

    open spec fn view(&self) -> TargetView {
        match self {
            ReadTarget::Status => TargetView::Status,
            ReadTarget::File(file) => TargetView::File(file@),
        }
    }
}

/// The knowledge paths of the nodes that are in files.
pub open spec fn stored(path: Text) -> bool {
    ||| path == "index"@
    ||| path == "current/architecture"@
    ||| path == "current/constraints"@
    ||| path == "current/decisions"@
    ||| path == "current/components"@
    ||| path == "history/log"@
}

/// Where the content of the node at a knowledge path comes from.
pub open spec fn read_target(path: Text) -> Result<TargetView, ErrorView> {
    match knowledge_path(path) {
        Err(error) => Err(error),
        Ok(path) => if path == "status"@ {
            Ok(TargetView::Status)
        } else if stored(path) {
            Ok(TargetView::File(path + ".md"@))
        } else {
            Err(ErrorView::KnowledgeNotFound { path })
        },
    }
}

/// Where the content of the node at a knowledge path comes from.
pub fn read_node(path: &str) -> (r: Result<ReadTarget, ContextError>)
    ensures
        outcome(r) == read_target(path@),
{
    let path = match normalize_knowledge_path(path) {
        Err(error) => {
            return Err(error);
        },
        Ok(path) => path,
    };
    if same_text(path.as_str(), "status") {
        return Ok(ReadTarget::Status);
    }
    if same_text(path.as_str(), "index") || same_text(path.as_str(), "current/architecture")
        || same_text(path.as_str(), "current/constraints") || same_text(
        path.as_str(),
        "current/decisions",
    ) || same_text(path.as_str(), "current/components") || same_text(path.as_str(), "history/log") {
        Ok(ReadTarget::File(path.concat(".md")))
    } else {
        Err(ContextError::KnowledgeNotFound { path })
    }
}

/// A file of the Library that could not be read: where it was looked for, and what
/// went wrong.
#[derive(Debug)]
pub struct Unread {
    pub path: String,
    pub cause: String,
}

/// The mathematical value of an [`Unread`].
pub struct UnreadView {
    pub path: Text,
    pub cause: Text,
}

impl View for Unread {
    type V = UnreadView;

    open spec fn view(&self) -> UnreadView {
        UnreadView { path: self.path@, cause: self.cause@ }
    }
}

/// What has been seen so far of Git and of the files of the Library. A query
/// asks Git twice: before and after it reads the files.
#[derive(Debug)]
pub struct Seen {
    pub before: Vec<Reply>,
    pub files: Vec<Result<String, Unread>>,
    pub after: Vec<Reply>,
}

/// The mathematical value of [`Seen`].
pub struct SeenView {
    pub before: Seq<ReplyView>,
    pub files: Seq<Result<Text, UnreadView>>,
    pub after: Seq<ReplyView>,
}

/// The view of what reading a file gave: its content, or why it failed.
pub open spec fn file_view(file: Result<String, Unread>) -> Result<Text, UnreadView> {
    match file {
        Ok(content) => Ok(content@),
        Err(failure) => Err(failure@),
    }
}

/// The views of what reading files gave.
pub open spec fn files_view(list: Seq<Result<String, Unread>>) -> Seq<Result<Text, UnreadView>> {
    Seq::new(list.len(), |i: int| file_view(list[i]))
}

impl View for Seen {
    type V = SeenView;

    open spec fn view(&self) -> SeenView {
        SeenView {
            before: replies_view(self.before@),
            files: files_view(self.files@),
            after: replies_view(self.after@),
        }
    }
}

/// What the provider answers.
#[derive(Debug)]
pub enum Answer {
    Catalog(LibraryCatalog),
    Nodes(Vec<KnowledgeNode>),
    Content(String),
    Hits(QueryResult),
    Nothing,
}

/// The mathematical value of an [`Answer`].
pub enum AnswerView {
    Catalog(CatalogView),
    Nodes(Seq<NodeView>),
    Content(Text),
    Hits(ResultView),
    Nothing,
}

impl View for Answer {
    type V = AnswerView;

    open spec fn view(&self) -> AnswerView {
        match self {
            Answer::Catalog(catalog) => AnswerView::Catalog(catalog@),
            Answer::Nodes(nodes) => AnswerView::Nodes(nodes_view(nodes@)),
            Answer::Content(content) => AnswerView::Content(content@),
            Answer::Hits(result) => AnswerView::Hits(result@),
            Answer::Nothing => AnswerView::Nothing,
        }
    }
}

/// Where an answer stands after what has been seen so far.
#[derive(Debug)]
pub enum ProviderStep {
    /// Git is to be run with these arguments next, before any file is read.
    Ask(Vec<String>),
    /// This file of the Library is to be read next.
    Read(String),
    /// Git is to be run with these arguments next, after the files were read.
    AskAgain(Vec<String>),
    /// The answer is known.
    Done(Result<Answer, ContextError>),
}

/// The mathematical value of a [`ProviderStep`].
pub enum ProviderStepView {
    Ask(Seq<Text>),
    Read(Text),
    AskAgain(Seq<Text>),
    Done(Result<AnswerView, ErrorView>),
}

impl View for ProviderStep {
    type V = ProviderStepView;

    open spec fn view(&self) -> ProviderStepView {
        match self {
            ProviderStep::Ask(arguments) => ProviderStepView::Ask(texts(arguments@)),
            ProviderStep::Read(file) => ProviderStepView::Read(file@),
            ProviderStep::AskAgain(arguments) => ProviderStepView::AskAgain(texts(arguments@)),
            ProviderStep::Done(result) => ProviderStepView::Done(outcome(*result)),
        }
    }
}

/// What reading one file comes to: its content, why it failed, or that it has
/// not been read yet.
pub open spec fn content_of(file: Text, files: Seq<Result<Text, UnreadView>>, k: int) -> Result<
    Text,
    ProviderStepView,
> {
    if files.len() <= k {
        Err(ProviderStepView::Read(file))
    } else {
        match files[k] {
            Ok(content) => Ok(content),
            Err(failure) => Err(
                ProviderStepView::Done(
                    Err(ErrorView::Unreadable { path: failure.path, cause: failure.cause }),
                ),
            ),
        }
    }
}

/// The file of the candidate in place `k` of a query.
pub open spec fn candidate_file(k: int) -> Text {
    candidates()[k].0 + ".md"@
}

/// The contents of the files that a query looks at, from the one in place `k`
/// on, or the step that is taken as long as they are not all known.
pub open spec fn candidate_contents(files: Seq<Result<Text, UnreadView>>, k: int) -> Result<
    Seq<Text>,
    ProviderStepView,
>
    decreases 6 - k,
{
    if k >= 6 {
        Ok(Seq::empty())
    } else {
        match content_of(candidate_file(k), files, k - 1) {
            Err(step) => Err(step),
            Ok(content) => match candidate_contents(files, k + 1) {
                Err(step) => Err(step),
                Ok(rest) => Ok(seq![content] + rest),
            },
        }
    }
}

/// What a query is answered: the status of the project and the files are looked
/// through, and the freshness is observed once more.
pub open spec fn query_step(
    profile: ProfileView,
    query: QueryView,
    seen: SeenView,
) -> ProviderStepView {
    match status_step(profile, seen.before) {
        StepView::Run(arguments) => ProviderStepView::Ask(arguments),
        StepView::Done(Err(error)) => ProviderStepView::Done(Err(error)),
        StepView::Done(Ok(status)) => match candidate_contents(seen.files, 1) {
            Err(step) => step,
            Ok(contents) => match status_step(profile, seen.after) {
                StepView::Run(arguments) => ProviderStepView::AskAgain(arguments),
                StepView::Done(Err(error)) => ProviderStepView::Done(Err(error)),
                StepView::Done(Ok(now)) => ProviderStepView::Done(
                    Ok(
                        AnswerView::Hits(
                            answered(
                                profile.library_id,
                                query,
                                seq![markdown(status)] + contents,
                                now.state,
                            ),
                        ),
                    ),
                ),
            },
        },
    }
}

/// What a request to read a URI is answered.
pub open spec fn read_step(
    profile: ProfileView,
    uri: Text,
    seen: SeenView,
) -> ProviderStepView {
    match path_of_uri(uri, profile.library_id) {
        Err(error) => ProviderStepView::Done(Err(error)),
        Ok(path) => match read_target(path) {
            Err(error) => ProviderStepView::Done(Err(error)),
            Ok(TargetView::Status) => match status_step(profile, seen.before) {
                StepView::Run(arguments) => ProviderStepView::Ask(arguments),
                StepView::Done(Err(error)) => ProviderStepView::Done(Err(error)),
                StepView::Done(Ok(status)) => ProviderStepView::Done(
                    Ok(AnswerView::Content(markdown(status))),
                ),
            },
            Ok(TargetView::File(file)) => match content_of(file, seen.files, 0) {
                Err(step) => step,
                Ok(content) => ProviderStepView::Done(Ok(AnswerView::Content(content))),
            },
        },
    }
}

/// What a request is answered. Requests in another protocol or for another
/// Library are refused, in this order, whatever they ask.
pub open spec fn provider_step(
    profile: ProfileView,
    request: RequestView,
    seen: SeenView,
) -> ProviderStepView {
    if request.protocol != "okf-provider/1"@ {
        ProviderStepView::Done(
            Err(ErrorView::UnsupportedProtocol { protocol: request.protocol }),
        )
    } else if request.library != profile.library_id {
        ProviderStepView::Done(
            Err(
                ErrorView::WrongLibrary { provider: profile.library_id, target: request.library },
            ),
        )
    } else if request.operation == "catalog"@ {
        ProviderStepView::Done(Ok(AnswerView::Catalog(catalog(profile.library_id))))
    } else if request.operation == "list"@ {
        let path = match request.path {
            Some(path) => path,
            None => ""@,
        };
        match listed_nodes(profile.library_id, path) {
            Err(error) => ProviderStepView::Done(Err(error)),
            Ok(nodes) => ProviderStepView::Done(Ok(AnswerView::Nodes(nodes))),
        }
    } else if request.operation == "read"@ {
        match request.uri {
            None => ProviderStepView::Done(Err(ErrorView::MissingUri)),
            Some(uri) => read_step(profile, uri, seen),
        }
    } else if request.operation == "query"@ {
        match request.query {
            None => ProviderStepView::Done(Err(ErrorView::MissingQuery)),
            Some(query) => query_step(profile, query, seen),
        }
    } else if request.operation == "refresh"@ {
        match status_step(profile, seen.before) {
            StepView::Run(arguments) => ProviderStepView::Ask(arguments),
            StepView::Done(Err(error)) => ProviderStepView::Done(Err(error)),
            StepView::Done(Ok(_)) => ProviderStepView::Done(Ok(AnswerView::Nothing)),
        }
    } else {
        ProviderStepView::Done(
            Err(ErrorView::UnsupportedOperation { operation: request.operation }),
        )
    }
}

/// What reading one file comes to.
fn read_content(file: String, files: &Vec<Result<String, Unread>>, k: usize) -> (r:
    Result<String, ProviderStep>)
    ensures
        match r {
            Ok(content) => content_of(file@, files_view(files@), k as int) == Ok::<
                Text,
                ProviderStepView,
            >(content@),
            Err(step) => content_of(file@, files_view(files@), k as int) == Err::<
                Text,
                ProviderStepView,
            >(step@),
        },
{
    if files.len() <= k {
        return Err(ProviderStep::Read(file));
    }
    match &files[k] {
        Ok(content) => Ok(content.clone()),
        Err(failure) => Err(
            ProviderStep::Done(
                Err(
                    ContextError::Unreadable {
                        path: failure.path.clone(),
                        cause: failure.cause.clone(),
                    },
                ),
            ),
        ),
    }
}

/// What a request to read a URI is answered.
fn answer_read(profile: &Profile, uri: &str, seen: &Seen) -> (r: ProviderStep)
    ensures
        r@ == read_step(profile@, uri@, seen@),
{
    let path = match uri_path(uri, profile.library_id.as_str()) {
        Err(error) => {
            return ProviderStep::Done(Err(error));
        },
        Ok(path) => path,
    };
    match read_node(path.as_str()) {
        Err(error) => ProviderStep::Done(Err(error)),
        Ok(ReadTarget::Status) => match compute_status(profile, seen.before.as_slice()) {
            Step::Run(arguments) => ProviderStep::Ask(arguments),
            Step::Done(Err(error)) => ProviderStep::Done(Err(error)),
            Step::Done(Ok(status)) => ProviderStep::Done(
                Ok(Answer::Content(status_markdown(&status))),
            ),
        },
        Ok(ReadTarget::File(file)) => match read_content(file, &seen.files, 0) {
            Err(step) => step,
            Ok(content) => ProviderStep::Done(Ok(Answer::Content(content))),
        },
    }
}

/// The content of the candidate in place `k` of a query.
fn candidate_content(files: &Vec<Result<String, Unread>>, k: usize) -> (r: Result<
    String,
    ProviderStep,
>)
    requires
        1 <= k < 6,
    ensures
        match r {
            Ok(content) => content_of(candidate_file(k as int), files_view(files@), k - 1)
                == Ok::<Text, ProviderStepView>(content@),
            Err(step) => content_of(candidate_file(k as int), files_view(files@), k - 1)
                == Err::<Text, ProviderStepView>(step@),
        },
{
    let (path, _) = candidate(k);
    read_content(path.to_owned().concat(".md"), files, k - 1)
}

/// What a query is answered.
#[verifier::rlimit(60)]
fn answer_query(profile: &Profile, query: &ProviderQuery, seen: &Seen) -> (r:
    ProviderStep)
    ensures
        r@ == query_step(profile@, query@, seen@),
{
    let status = match compute_status(profile, seen.before.as_slice()) {
        Step::Run(arguments) => {
            return ProviderStep::Ask(arguments);
        },
        Step::Done(Err(error)) => {
            return ProviderStep::Done(Err(error));
        },
        Step::Done(Ok(status)) => status_markdown(&status),
    };
    proof {
        reveal_with_fuel(candidate_contents, 6);
    }
    let architecture = match candidate_content(&seen.files, 1) {
        Err(step) => {
            return step;
        },
        Ok(content) => content,
    };
    let constraints = match candidate_content(&seen.files, 2) {
        Err(step) => {
            return step;
        },
        Ok(content) => content,
    };
    let decisions = match candidate_content(&seen.files, 3) {
        Err(step) => {
            return step;
        },
        Ok(content) => content,
    };
    let components = match candidate_content(&seen.files, 4) {
        Err(step) => {
            return step;
        },
        Ok(content) => content,
    };
    let history = match candidate_content(&seen.files, 5) {
        Err(step) => {
            return step;
        },
        Ok(content) => content,
    };
    let ghost rest = candidate_contents(seen@.files, 1)->Ok_0;
    let contents = [status, architecture, constraints, decisions, components, history];
    assert(texts(contents@) =~= seq![status@] + rest);
    match compute_status(profile, seen.after.as_slice()) {
        Step::Run(arguments) => ProviderStep::AskAgain(arguments),
        Step::Done(Err(error)) => ProviderStep::Done(Err(error)),
        Step::Done(Ok(now)) => ProviderStep::Done(
            Ok(Answer::Hits(query_library(profile, query, &contents, now.state))),
        ),
    }
}

/// What a request is answered, as far as Git and the files of the Library have been
/// seen.
pub fn handle_provider_request(
    profile: &Profile,
    request: &ProviderRequest,
    seen: &Seen,
) -> (r: ProviderStep)
    ensures
        r@ == provider_step(profile@, request@, seen@),
{
    if !same_text(request.protocol.as_str(), PROVIDER_PROTOCOL) {
        return ProviderStep::Done(
            Err(ContextError::UnsupportedProtocol { protocol: request.protocol.clone() }),
        );
    }
    if !same_text(request.library.as_str(), profile.library_id.as_str()) {
        return ProviderStep::Done(
            Err(
                ContextError::WrongLibrary {
                    provider: profile.library_id.clone(),
                    target: request.library.clone(),
                },
            ),
        );
    }
    let operation = request.operation.as_str();
    if same_text(operation, "catalog") {
        ProviderStep::Done(Ok(Answer::Catalog(build_catalog(profile))))
    } else if same_text(operation, "list") {
        let path = match &request.path {
            Some(path) => path.as_str(),
            None => "",
        };
        match list_nodes(profile, path) {
            Err(error) => ProviderStep::Done(Err(error)),
            Ok(nodes) => ProviderStep::Done(Ok(Answer::Nodes(nodes))),
        }
    } else if same_text(operation, "read") {
        match &request.uri {
            None => ProviderStep::Done(Err(ContextError::MissingUri)),
            Some(uri) => answer_read(profile, uri.as_str(), seen),
        }
    } else if same_text(operation, "query") {
        match &request.query {
            None => ProviderStep::Done(Err(ContextError::MissingQuery)),
            Some(query) => answer_query(profile, query, seen),
        }
    } else if same_text(operation, "refresh") {
        match compute_status(profile, seen.before.as_slice()) {
            Step::Run(arguments) => ProviderStep::Ask(arguments),
            Step::Done(Err(error)) => ProviderStep::Done(Err(error)),
            Step::Done(Ok(_)) => ProviderStep::Done(Ok(Answer::Nothing)),
        }
    } else {
        ProviderStep::Done(
            Err(ContextError::UnsupportedOperation { operation: request.operation.clone() }),
        )
    }
}

/// Refuses requests of more bytes than are read.
pub fn check_request_size(bytes: usize) -> (r: Result<(), ContextError>)
    ensures
        verdict(r) == (if bytes > 1024 * 1024 {
            Err::<(), ErrorView>(ErrorView::RequestTooLarge { limit: 1024 * 1024 })
        } else {
            Ok(())
        }),
{
    if bytes > MAX_PROVIDER_REQUEST_BYTES {
        Err(ContextError::RequestTooLarge { limit: MAX_PROVIDER_REQUEST_BYTES })
    } else {
        Ok(())
    }
}

/// What a refused request is told.
#[derive(Debug)]
pub struct Refusal {
    pub code: String,
    pub message: String,
}

/// What the requester is told of an error.
pub fn refusal(error: &ContextError) -> (r: Refusal)
    ensures
        r.code@ == "project-context-error"@,
        r.message@ == error_text(error@),
{
    Refusal { code: "project-context-error".to_owned(), message: error.message() }
}

/// The node paths of every Library are knowledge paths as they stand.
proof fn lemma_node_paths()
    ensures
        knowledge_path("status"@) == Ok::<Text, ErrorView>("status"@),
        forall|path: Text| #[trigger]
            stored(path) ==> knowledge_path(path) == Ok::<Text, ErrorView>(path),
        !stored("status"@),
{
    reveal_strlit("status");
    reveal_strlit("index");
    reveal_strlit("current");
    reveal_strlit("history");
    reveal_strlit("architecture");
    reveal_strlit("constraints");
    reveal_strlit("decisions");
    reveal_strlit("components");
    reveal_strlit("log");
    reveal_strlit("current/architecture");
    reveal_strlit("current/constraints");
    reveal_strlit("current/decisions");
    reveal_strlit("current/components");
    reveal_strlit("history/log");
    let start = "current"@;
    assert("current/architecture"@ =~= start.push('/') + "architecture"@);
    assert("current/constraints"@ =~= start.push('/') + "constraints"@);
    assert("current/decisions"@ =~= start.push('/') + "decisions"@);
    assert("current/components"@ =~= start.push('/') + "components"@);
    assert("history/log"@ =~= "history"@.push('/') + "log"@);
    lemma_one_word("status"@);
    lemma_one_word("index"@);
    lemma_two_words(start, "architecture"@);
    lemma_two_words(start, "constraints"@);
    lemma_two_words(start, "decisions"@);
    lemma_two_words(start, "components"@);
    lemma_two_words("history"@, "log"@);
    assert("index"@[0] != "status"@[0]);
    assert("current/architecture"@[0] != "status"@[0]);
    assert("current/constraints"@[0] != "status"@[0]);
    assert("current/decisions"@[0] != "status"@[0]);
    assert("current/components"@[0] != "status"@[0]);
    assert("history/log"@[0] != "status"@[0]);
}

/// What reading a URI of the Library leads to.
pub open spec fn uri_target(library: Text, uri: Text) -> Result<TargetView, ErrorView> {
    match path_of_uri(uri, library) {
        Err(error) => Err(error),
        Ok(path) => read_target(path),
    }
}

/// Whatever URI is read, what is read is the live status or the file of one of the
/// stored nodes.
pub proof fn law_reads_stay_in_the_library(library: Text, uri: Text)
    ensures
        uri_target(library, uri) matches Ok(TargetView::File(file)) ==> exists|path: Text| #[trigger]
            stored(path) && file == path + ".md"@,
{
}

/// Every node that the catalog names can be read.
pub proof fn law_catalog_is_readable(library: Text, k: int)
    requires
        0 <= k < catalog(library).entries.len(),
    ensures
        uri_target(library, catalog(library).entries[k].uri) is Ok,
{
    lemma_node_paths();
    law_uri_names_its_path(library, "current/architecture"@);
    law_uri_names_its_path(library, "current/components"@);
    law_uri_names_its_path(library, "current/constraints"@);
    law_uri_names_its_path(library, "current/decisions"@);
    law_uri_names_its_path(library, "history/log"@);
    law_uri_names_its_path(library, "status"@);
    assert(stored("current/architecture"@) && stored("current/components"@));
    assert(stored("current/constraints"@) && stored("current/decisions"@));
    assert(stored("history/log"@));
}

/// The catalog ascends by id, and so do the terms of each entry.
pub proof fn law_catalog_ascends(library: Text)
    ensures
        ascending(
            Seq::new(
                catalog(library).entries.len(),
                |k: int| catalog(library).entries[k].id,
            ),
        ),
        forall|k: int|
            0 <= k < catalog(library).entries.len() ==> ascending(
                (#[trigger] catalog(library).entries[k]).terms,
            ),
{
    let entries = catalog(library).entries;
    reveal_strlit("architecture");
    reveal_strlit("components");
    reveal_strlit("constraints");
    reveal_strlit("decisions");
    reveal_strlit("history");
    reveal_strlit("status");
    let ids = Seq::new(entries.len(), |k: int| entries[k].id);
    assert(ids =~= seq![
        "architecture"@,
        "components"@,
        "constraints"@,
        "decisions"@,
        "history"@,
        "status"@,
    ]);
    reveal_with_fuel(before, 4);
    assert(before(ids[1], ids[2]));
    law_ascending_list_exists(seq!["architecture"@, "modules"@, "boundaries"@]);
    law_ascending_list_exists(seq!["components"@, "modules"@, "packages"@]);
    law_ascending_list_exists(seq!["constraints"@, "invariants"@, "rules"@]);
    law_ascending_list_exists(seq!["decisions"@, "adr"@, "rationale"@]);
    law_ascending_list_exists(seq!["history"@, "changes"@, "checkpoint"@]);
    law_ascending_list_exists(seq!["status"@, "freshness"@, "revision"@, "dirty"@]);
}

/// Every content node that is listed can be read, the virtual ones as the live
/// status and the others from a file; every directory can be listed in turn.
pub proof fn law_listed_nodes_can_be_followed(library: Text, path: Text, k: int)
    requires
        0 <= k < nodes_below(library, path).len(),
    ensures
        ({
            let node = nodes_below(library, path)[k];
            &&& node.kind == "content"@ ==> if node.virtual_node {
                uri_target(library, node.uri) == Ok::<TargetView, ErrorView>(TargetView::Status)
            } else {
                uri_target(library, node.uri) matches Ok(TargetView::File(_))
            }
            &&& node.kind != "content"@ ==> {
                &&& node.kind == "directory"@
                &&& path_of_uri(node.uri, library) is Ok
                &&& listed_nodes(library, path_of_uri(node.uri, library)->Ok_0) is Ok
                &&& listed_nodes(library, path_of_uri(node.uri, library)->Ok_0)->Ok_0.len() > 0
            }
        }),
{
    lemma_node_paths();
    reveal_strlit("");
    reveal_strlit("current");
    reveal_strlit("history");
    reveal_strlit("content");
    reveal_strlit("directory");
    assert("content"@[0] != "directory"@[0]);
    assert("current"@[0] != "history"@[0]);
    lemma_one_word("current"@);
    lemma_one_word("history"@);
    assert(stored("index"@) && stored("history/log"@));
    assert(stored("current/architecture"@) && stored("current/components"@));
    assert(stored("current/constraints"@) && stored("current/decisions"@));
    law_uri_names_its_path(library, "index"@);
    law_uri_names_its_path(library, "status"@);
    law_uri_names_its_path(library, "current"@);
    law_uri_names_its_path(library, "history"@);
    law_uri_names_its_path(library, "current/architecture"@);
    law_uri_names_its_path(library, "current/constraints"@);
    law_uri_names_its_path(library, "current/decisions"@);
    law_uri_names_its_path(library, "current/components"@);
    law_uri_names_its_path(library, "history/log"@);
}

/// A query looks at what reading its candidates gives.
pub proof fn law_candidates_are_readable(k: int)
    requires
        0 <= k < 6,
    ensures
        read_target(candidates()[k].0) == Ok::<TargetView, ErrorView>(
            if k == 0 {
                TargetView::Status
            } else {
                TargetView::File(candidate_file(k))
            },
        ),
{
    lemma_node_paths();
    assert(stored("history/log"@));
    assert(stored("current/architecture"@) && stored("current/components"@));
    assert(stored("current/constraints"@) && stored("current/decisions"@));
}

/// Every topic that a change can concern by default is in the catalog.
pub proof fn law_current_topics_are_catalogued(library: Text, k: int)
    requires
        0 <= k < current_topics(library).len(),
    ensures
        exists|i: int|
            0 <= i < catalog(library).entries.len() && (#[trigger] catalog(library).entries[i]).uri
                == current_topics(library)[k],
{
    assert(catalog(library).entries[k].uri == current_topics(library)[k]);
}

/// Whatever a request in another protocol or for another Library asks, and
/// whatever has been seen, it is refused.
pub proof fn law_foreign_requests_are_refused(
    profile: ProfileView,
    request: RequestView,
    seen: SeenView,
)
    requires
        request.protocol != "okf-provider/1"@ || request.library != profile.library_id,
    ensures
        provider_step(profile, request, seen) matches ProviderStepView::Done(Err(_)),
{
}

/// Six replies, five files and six more replies are always enough to answer.
pub proof fn law_requests_are_answered(
    profile: ProfileView,
    request: RequestView,
    seen: SeenView,
)
    requires
        seen.before.len() >= 6,
        seen.files.len() >= 5,
        seen.after.len() >= 6,
    ensures
        provider_step(profile, request, seen) is Done,
{
    law_conversations_end(profile, None, profile.repository, None, seen.before);
    law_conversations_end(profile, None, profile.repository, None, seen.after);
    reveal_with_fuel(candidate_contents, 6);
}

/// The names of the operations differ.
proof fn lemma_operations()
    ensures
        "catalog"@ != "list"@,
        "catalog"@ != "read"@,
        "catalog"@ != "query"@,
        "catalog"@ != "refresh"@,
        "list"@ != "read"@,
        "list"@ != "query"@,
        "list"@ != "refresh"@,
        "read"@ != "query"@,
        "read"@ != "refresh"@,
        "query"@ != "refresh"@,
{
    reveal_strlit("catalog");
    reveal_strlit("list");
    reveal_strlit("read");
    reveal_strlit("query");
    reveal_strlit("refresh");
    assert("catalog"@[0] == 'c' && "refresh"@[0] == 'r');
    assert("list"@[0] == 'l' && "read"@[0] == 'r');
    assert("read"@.len() == 4 && "refresh"@.len() == 7 && "query"@.len() == 5);
}

/// A request that the provider of this Library is to answer.
pub open spec fn addressed(request: RequestView, profile: ProfileView, operation: Text) -> bool {
    &&& request.protocol == "okf-provider/1"@
    &&& request.library == profile.library_id
    &&& request.operation == operation
}

/// The knowledge paths of the nodes that are in files, and the files.
pub open spec fn file_of(path: Text) -> Option<Text> {
    if path == "index"@ {
        Some("index.md"@)
    } else if path == "current/architecture"@ {
        Some("current/architecture.md"@)
    } else if path == "current/constraints"@ {
        Some("current/constraints.md"@)
    } else if path == "current/decisions"@ {
        Some("current/decisions.md"@)
    } else if path == "current/components"@ {
        Some("current/components.md"@)
    } else if path == "history/log"@ {
        Some("history/log.md"@)
    } else {
        None
    }
}

proof fn lemma_file_of(path: Text)
    ensures
        file_of(path) is Some <==> stored(path),
        file_of(path) matches Some(file) ==> file == path + ".md"@,
        file_of("status"@) is None,
{
    lemma_node_paths();
    reveal_strlit(".md");
    reveal_strlit("index");
    reveal_strlit("index.md");
    reveal_strlit("current/architecture");
    reveal_strlit("current/architecture.md");
    reveal_strlit("current/constraints");
    reveal_strlit("current/constraints.md");
    reveal_strlit("current/decisions");
    reveal_strlit("current/decisions.md");
    reveal_strlit("current/components");
    reveal_strlit("current/components.md");
    reveal_strlit("history/log");
    reveal_strlit("history/log.md");
    assert("index.md"@ =~= "index"@ + ".md"@);
    assert("current/architecture.md"@ =~= "current/architecture"@ + ".md"@);
    assert("current/constraints.md"@ =~= "current/constraints"@ + ".md"@);
    assert("current/decisions.md"@ =~= "current/decisions"@ + ".md"@);
    assert("current/components.md"@ =~= "current/components"@ + ".md"@);
    assert("history/log.md"@ =~= "history/log"@ + ".md"@);
}

/// A knowledge path leads to the live status, to the file of its node, or nowhere.
pub proof fn law_nodes_are_in_their_files(path: Text)
    ensures
        knowledge_path(path) matches Err(error) ==> read_target(path) == Err::<
            TargetView,
            ErrorView,
        >(error),
        knowledge_path(path) == Ok::<Text, ErrorView>("status"@) ==> read_target(path) == Ok::<
            TargetView,
            ErrorView,
        >(TargetView::Status),
        knowledge_path(path) matches Ok(node) ==> {
            &&& file_of(node) is Some ==> read_target(path) == Ok::<TargetView, ErrorView>(
                TargetView::File(file_of(node)->Some_0),
            )
            &&& file_of(node) is None && node != "status"@ ==> read_target(path) == Err::<
                TargetView,
                ErrorView,
            >(ErrorView::KnowledgeNotFound { path: node })
        },
{
    lemma_file_of("status"@);
    if let Ok(node) = knowledge_path(path) {
        lemma_file_of(node);
    }
}

/// Every stored node can be read by its URI, from its own file.
pub proof fn law_uris_lead_to_their_files(library: Text, path: Text)
    requires
        file_of(path) is Some,
    ensures
        uri_target(library, "okf://"@ + library + "/"@ + path) == Ok::<TargetView, ErrorView>(
            TargetView::File(file_of(path)->Some_0),
        ),
        uri_target(library, "okf://"@ + library + "/"@ + "status"@) == Ok::<
            TargetView,
            ErrorView,
        >(TargetView::Status),
{
    lemma_node_paths();
    lemma_file_of(path);
    law_uris_begin_with_their_library(Seq::empty(), library, path);
    law_uris_begin_with_their_library(Seq::empty(), library, "status"@);
    law_nodes_are_in_their_files(path);
    law_nodes_are_in_their_files("status"@);
}

/// Reading a stored node asks for its file and answers exactly what is in it, or that
/// it cannot be read; reading the status asks Git and answers the status document. A
/// URI that leads nowhere is refused.
pub proof fn law_reading_answers_the_content(
    profile: ProfileView,
    request: RequestView,
    uri: Text,
    seen: SeenView,
)
    requires
        addressed(request, profile, "read"@),
        request.uri == Some(uri),
    ensures
        ({
            let target = uri_target(profile.library_id, uri);
            let step = provider_step(profile, request, seen);
            &&& target matches Err(error) ==> step == ProviderStepView::Done(Err(error))
            &&& target matches Ok(TargetView::File(file)) ==> if seen.files.len() == 0 {
                step == ProviderStepView::Read(file)
            } else {
                match seen.files[0] {
                    Ok(content) => step == ProviderStepView::Done(Ok(AnswerView::Content(content))),
                    Err(failure) => step == ProviderStepView::Done(
                        Err(ErrorView::Unreadable { path: failure.path, cause: failure.cause }),
                    ),
                }
            }
            &&& target == Ok::<TargetView, ErrorView>(TargetView::Status) ==> match status_step(
                profile,
                seen.before,
            ) {
                StepView::Run(arguments) => step == ProviderStepView::Ask(arguments),
                StepView::Done(Ok(status)) => step == ProviderStepView::Done(
                    Ok(AnswerView::Content(markdown(status))),
                ),
                StepView::Done(Err(error)) => step == ProviderStepView::Done(Err(error)),
            }
        }),
{
    lemma_operations();
}

/// Requests that lack what their operation needs, or name no operation, are refused,
/// and the refusal says why. A request in another protocol, or for another Library, is
/// refused for that, whatever else it holds.
pub proof fn law_refusals_say_why(
    profile: ProfileView,
    request: RequestView,
    seen: SeenView,
)
    ensures
        ({
            let step = provider_step(profile, request, seen);
            let ours = request.protocol == "okf-provider/1"@ && request.library
                == profile.library_id;
            &&& request.protocol != "okf-provider/1"@ ==> step == ProviderStepView::Done(
                Err(ErrorView::UnsupportedProtocol { protocol: request.protocol }),
            )
            &&& request.protocol == "okf-provider/1"@ && request.library != profile.library_id
                ==> step == ProviderStepView::Done(
                Err(
                    ErrorView::WrongLibrary {
                        provider: profile.library_id,
                        target: request.library,
                    },
                ),
            )
            &&& addressed(request, profile, "read"@) && request.uri is None ==> step
                == ProviderStepView::Done(Err(ErrorView::MissingUri))
            &&& addressed(request, profile, "query"@) && request.query is None ==> step
                == ProviderStepView::Done(Err(ErrorView::MissingQuery))
            &&& ours && request.operation != "catalog"@ && request.operation != "list"@
                && request.operation != "read"@ && request.operation != "query"@
                && request.operation != "refresh"@ ==> step == ProviderStepView::Done(
                Err(ErrorView::UnsupportedOperation { operation: request.operation }),
            )
        }),
{
    lemma_operations();
}

/// The catalog, a list and a refresh are answered as what they are: the catalog of the
/// Library, the nodes below the path that is asked for or below the root, and nothing
/// once the status could be told.
pub proof fn law_catalog_list_and_refresh(
    profile: ProfileView,
    request: RequestView,
    seen: SeenView,
)
    ensures
        ({
            let step = provider_step(profile, request, seen);
            &&& addressed(request, profile, "catalog"@) ==> step == ProviderStepView::Done(
                Ok(AnswerView::Catalog(catalog(profile.library_id))),
            )
            &&& addressed(request, profile, "list"@) ==> {
                let path = match request.path {
                    Some(path) => path,
                    None => ""@,
                };
                match knowledge_path(path) {
                    Err(error) => step == ProviderStepView::Done(Err(error)),
                    Ok(node) => step == ProviderStepView::Done(
                        Ok(AnswerView::Nodes(nodes_below(profile.library_id, node))),
                    ),
                }
            }
            &&& addressed(request, profile, "refresh"@) ==> match status_step(
                profile,
                seen.before,
            ) {
                StepView::Run(arguments) => step == ProviderStepView::Ask(arguments),
                StepView::Done(Ok(_)) => step == ProviderStepView::Done(Ok(AnswerView::Nothing)),
                StepView::Done(Err(error)) => step == ProviderStepView::Done(Err(error)),
            }
        }),
{
    lemma_operations();
}

/// What reading the node in place `k` gives, with the status and the files that were
/// seen.
pub open spec fn content_read(seen: SeenView, status: StatusView, k: int) -> Text {
    if k == 0 {
        markdown(status)
    } else {
        seen.files[k - 1]->Ok_0
    }
}

proof fn lemma_contents_read(seen: SeenView)
    requires
        seen.files.len() >= 5,
        forall|k: int| 0 <= k < 5 ==> (#[trigger] seen.files[k]) is Ok,
    ensures
        candidate_contents(seen.files, 1) == Ok::<Seq<Text>, ProviderStepView>(
            Seq::new(5, |k: int| seen.files[k]->Ok_0),
        ),
{
    reveal_with_fuel(candidate_contents, 6);
    let files = seen.files;
    assert(files[0] is Ok && files[1] is Ok && files[2] is Ok && files[3] is Ok && files[4] is Ok);
    let all = Seq::new(5, |k: int| files[k]->Ok_0);
    assert(seq![files[0]->Ok_0] + (seq![files[1]->Ok_0] + (seq![files[2]->Ok_0] + (seq![
        files[3]->Ok_0,
    ] + (seq![files[4]->Ok_0] + Seq::empty())))) =~= all);
    assert(candidate_contents(files, 6) == Ok::<Seq<Text>, ProviderStepView>(Seq::empty()));
    assert(candidate_contents(files, 5)->Ok_0 =~= seq![files[4]->Ok_0] + Seq::empty());
    assert(candidate_contents(files, 1)->Ok_0 =~= all);
}

/// What a query shows under a URI is what reading that URI gives: every hit is one of a
/// node whose URI it has, with the beginning of the content that reading this URI
/// answers, scored by that content. With room for all, every node that matches is
/// among the hits. The freshness is that of the second look at Git.
pub proof fn law_queries_show_what_reading_gives(
    profile: ProfileView,
    request: RequestView,
    query: QueryView,
    seen: SeenView,
    status: StatusView,
    now: StatusView,
)
    requires
        addressed(request, profile, "query"@),
        request.query == Some(query),
        status_step(profile, seen.before) == StepView::<StatusView>::Done(Ok(status)),
        status_step(profile, seen.after) == StepView::<StatusView>::Done(Ok(now)),
        seen.files.len() >= 5,
        forall|k: int| 0 <= k < 5 ==> (#[trigger] seen.files[k]) is Ok,
    ensures
        provider_step(profile, request, seen) matches ProviderStepView::Done(
            Ok(AnswerView::Hits(result)),
        ) && {
            let contents = contents_read(seen, status);
            &&& hits_match(result.hits, profile.library_id, query.text, contents)
            &&& query.limit >= 6 ==> matches_hit(
                result.hits,
                profile.library_id,
                query.text,
                contents,
            )
            &&& result.provenance == seq![("freshness"@, state_name(now.state))]
            &&& result.hits.len() <= query.limit
        },
{
    lemma_query_answered(profile, request, query, seen, status, now);
    law_hits_show_their_own_content(
        profile.library_id,
        query,
        contents_read(seen, status),
        now.state,
    );
}

/// What reading each of the nodes that can be found gives.
pub open spec fn contents_read(seen: SeenView, status: StatusView) -> Seq<Text> {
    Seq::new(6, |k: int| content_read(seen, status, k))
}

proof fn lemma_query_answered(
    profile: ProfileView,
    request: RequestView,
    query: QueryView,
    seen: SeenView,
    status: StatusView,
    now: StatusView,
)
    requires
        addressed(request, profile, "query"@),
        request.query == Some(query),
        status_step(profile, seen.before) == StepView::<StatusView>::Done(Ok(status)),
        status_step(profile, seen.after) == StepView::<StatusView>::Done(Ok(now)),
        seen.files.len() >= 5,
        forall|k: int| 0 <= k < 5 ==> (#[trigger] seen.files[k]) is Ok,
    ensures
        provider_step(profile, request, seen) == ProviderStepView::Done(
            Ok(
                AnswerView::Hits(
                    answered(profile.library_id, query, contents_read(seen, status), now.state),
                ),
            ),
        ),
{
    lemma_operations();
    lemma_contents_read(seen);
    let rest = Seq::new(5, |k: int| seen.files[k]->Ok_0);
    let contents = seq![markdown(status)] + rest;
    assert forall|k: int| 0 <= k < 6 implies #[trigger] contents[k] == content_read(
        seen,
        status,
        k,
    ) by {
        if k > 0 {
            assert(contents[k] == rest[k - 1]);
        }
    }
    assert(contents =~= contents_read(seen, status));
}

/// The content that a query looks at under a URI is the one that reading this URI
/// answers, from the same status and the same file.
pub proof fn law_found_content_is_what_reading_gives(
    profile: ProfileView,
    request: RequestView,
    seen: SeenView,
    status: StatusView,
    k: int,
)
    requires
        addressed(request, profile, "query"@),
        status_step(profile, seen.before) == StepView::<StatusView>::Done(Ok(status)),
        seen.files.len() >= 5,
        forall|k: int| 0 <= k < 5 ==> (#[trigger] seen.files[k]) is Ok,
        0 <= k < 6,
    ensures
        provider_step(
            profile,
            read_request(request, profile.library_id, searched(k).0),
            seen_from(seen, k),
        ) == ProviderStepView::Done(Ok(AnswerView::Content(content_read(seen, status, k)))),
{
    lemma_reading_searched(profile, request, seen, status, k);
}

/// What was seen, from the file of the node in place `k` on.
pub open spec fn seen_from(seen: SeenView, k: int) -> SeenView {
    if k == 0 {
        seen
    } else {
        SeenView { files: seen.files.skip(k - 1), ..seen }
    }
}

/// The request to read the node at `path`.
pub open spec fn read_request(request: RequestView, library: Text, path: Text) -> RequestView {
    RequestView {
        operation: "read"@,
        uri: Some("okf://"@ + library + "/"@ + path),
        ..request
    }
}

proof fn lemma_reading_searched(
    profile: ProfileView,
    request: RequestView,
    seen: SeenView,
    status: StatusView,
    k: int,
)
    requires
        addressed(request, profile, "query"@),
        status_step(profile, seen.before) == StepView::<StatusView>::Done(Ok(status)),
        seen.files.len() >= 5,
        forall|k: int| 0 <= k < 5 ==> (#[trigger] seen.files[k]) is Ok,
        0 <= k < 6,
    ensures
        provider_step(
            profile,
            read_request(request, profile.library_id, searched(k).0),
            seen_from(seen, k),
        ) == ProviderStepView::Done(Ok(AnswerView::Content(content_read(seen, status, k)))),
{
    let path = searched(k).0;
    let library = profile.library_id;
    let uri = "okf://"@ + library + "/"@ + path;
    let reading = read_request(request, library, path);
    let then = seen_from(seen, k);
    law_reading_answers_the_content(profile, reading, uri, then);
    if k == 0 {
        law_uris_lead_to_their_files(library, "index"@);
    } else {
        lemma_searched_stored(k);
        law_uris_lead_to_their_files(library, path);
        assert(then.files[0] == seen.files[k - 1]);
        assert(seen.files[k - 1] is Ok);
    }
}

proof fn lemma_searched_stored(k: int)
    requires
        1 <= k < 6,
    ensures
        file_of(searched(k).0) is Some,
{
    lemma_file_of(searched(k).0);
    assert(stored(searched(k).0));
}

/// A query looks at Git, reads the files of the nodes that can be found, one after the
/// other, and looks at Git again. It fails at the first file that cannot be read.
pub proof fn law_queries_read_every_node(
    profile: ProfileView,
    request: RequestView,
    query: QueryView,
    seen: SeenView,
)
    requires
        addressed(request, profile, "query"@),
        request.query == Some(query),
    ensures
        ({
            let step = provider_step(profile, request, seen);
            match status_step(profile, seen.before) {
                StepView::Run(arguments) => step == ProviderStepView::Ask(arguments),
                StepView::Done(Err(error)) => step == ProviderStepView::Done(Err(error)),
                StepView::Done(Ok(_)) => {
                    &&& forall|k: int|
                        0 <= k < 5 && k <= seen.files.len() && (forall|j: int|
                            0 <= j < k ==> (#[trigger] seen.files[j]) is Ok) ==> {
                            &&& k == seen.files.len() ==> step == ProviderStepView::Read(
                                (#[trigger] file_of(searched(k + 1).0))->Some_0,
                            )
                            &&& k < seen.files.len() && seen.files[k] is Err ==> step
                                == ProviderStepView::Done(
                                Err(
                                    ErrorView::Unreadable {
                                        path: seen.files[k]->Err_0.path,
                                        cause: seen.files[k]->Err_0.cause,
                                    },
                                ),
                            )
                        }
                    &&& seen.files.len() >= 5 && (forall|j: int|
                        0 <= j < 5 ==> (#[trigger] seen.files[j]) is Ok) ==> match status_step(
                        profile,
                        seen.after,
                    ) {
                        StepView::Run(arguments) => step == ProviderStepView::AskAgain(arguments),
                        StepView::Done(Err(error)) => step == ProviderStepView::Done(Err(error)),
                        StepView::Done(Ok(_)) => step matches ProviderStepView::Done(
                            Ok(AnswerView::Hits(_)),
                        ),
                    }
                },
            }
        }),
{
    lemma_operations();
    let files = seen.files;
    if status_step(profile, seen.before) matches StepView::Done(Ok(_)) {
        reveal_with_fuel(candidate_contents, 6);
        assert forall|k: int|
            0 <= k < 5 && k <= files.len() && (forall|j: int|
                0 <= j < k ==> (#[trigger] files[j]) is Ok) implies {
            &&& k == files.len() ==> provider_step(profile, request, seen)
                == ProviderStepView::Read((#[trigger] file_of(searched(k + 1).0))->Some_0)
            &&& k < files.len() && files[k] is Err ==> provider_step(profile, request, seen)
                == ProviderStepView::Done(
                Err(
                    ErrorView::Unreadable {
                        path: files[k]->Err_0.path,
                        cause: files[k]->Err_0.cause,
                    },
                ),
            )
        } by {
            lemma_searched_stored(k + 1);
            lemma_file_of(searched(k + 1).0);
            assert(candidates()[k + 1] == searched(k + 1));
            if k > 0 {
                assert(files[0] is Ok);
            }
            if k > 1 {
                assert(files[1] is Ok);
            }
            if k > 2 {
                assert(files[2] is Ok);
            }
            if k > 3 {
                assert(files[3] is Ok);
            }
        }
        if files.len() >= 5 && (forall|j: int| 0 <= j < 5 ==> (#[trigger] files[j]) is Ok) {
            lemma_contents_read(seen);
        }
    }
}

/// Every node that can be read is listed below its directory, and every directory
/// below the root.
pub proof fn law_every_node_is_listed(library: Text)
    ensures
        nodes_below(library, ""@).len() == 4,
        nodes_below(library, "current"@).len() == 4,
        nodes_below(library, "history"@).len() == 1,
        listed_at(library, ""@, "index"@),
        listed_at(library, ""@, "status"@),
        listed_at(library, ""@, "current"@),
        listed_at(library, ""@, "history"@),
        listed_at(library, "current"@, "current/architecture"@),
        listed_at(library, "current"@, "current/constraints"@),
        listed_at(library, "current"@, "current/decisions"@),
        listed_at(library, "current"@, "current/components"@),
        listed_at(library, "history"@, "history/log"@),
        forall|path: Text|
            path != ""@ && path != "current"@ && path != "history"@ ==> (#[trigger] nodes_below(
                library,
                path,
            )).len() == 0,
{
    reveal_strlit("");
    reveal_strlit("current");
    reveal_strlit("history");
    assert("current"@[0] != "history"@[0]);
    let (root, current, history) = (
        nodes_below(library, ""@),
        nodes_below(library, "current"@),
        nodes_below(library, "history"@),
    );
    assert(root[0].uri == "okf://"@ + library + "/"@ + "index"@);
    assert(root[1].uri == "okf://"@ + library + "/"@ + "status"@);
    assert(root[2].uri == "okf://"@ + library + "/"@ + "current"@);
    assert(root[3].uri == "okf://"@ + library + "/"@ + "history"@);
    assert(current[0].uri == "okf://"@ + library + "/"@ + "current/architecture"@);
    assert(current[1].uri == "okf://"@ + library + "/"@ + "current/constraints"@);
    assert(current[2].uri == "okf://"@ + library + "/"@ + "current/decisions"@);
    assert(current[3].uri == "okf://"@ + library + "/"@ + "current/components"@);
    assert(history[0].uri == "okf://"@ + library + "/"@ + "history/log"@);
}

/// The node at `path` is listed below `directory`.
pub open spec fn listed_at(library: Text, directory: Text, path: Text) -> bool {
    exists|i: int|
        0 <= i < nodes_below(library, directory).len() && (#[trigger] nodes_below(
            library,
            directory,
        )[i]).uri == "okf://"@ + library + "/"@ + path
}

/// Two Libraries have the same catalog and the same nodes, but for the URIs, which
/// begin with the Library and go on the same way.
pub proof fn law_libraries_differ_in_their_uris(a: Text, b: Text, directory: Text, k: int)
    ensures
        catalog(a).library == a,
        catalog(a).entries.len() == 6,
        catalog(b).entries.len() == 6,
        0 <= k < 6 ==> {
            let (x, y) = (catalog(a).entries[k], catalog(b).entries[k]);
            &&& x == EntryView { uri: x.uri, ..y }
            &&& exists|path: Text|
                x.uri == #[trigger] ("okf://"@ + a + "/"@ + path) && y.uri == "okf://"@ + b + "/"@
                    + path
        },
        nodes_below(a, directory).len() == nodes_below(b, directory).len(),
        0 <= k < nodes_below(a, directory).len() ==> {
            let (x, y) = (nodes_below(a, directory)[k], nodes_below(b, directory)[k]);
            &&& x == NodeView { uri: x.uri, ..y }
            &&& exists|path: Text|
                x.uri == #[trigger] ("okf://"@ + a + "/"@ + path) && y.uri == "okf://"@ + b + "/"@
                    + path
        },
{
    if 0 <= k < 6 {
        let path = if k == 0 {
            "current/architecture"@
        } else if k == 1 {
            "current/components"@
        } else if k == 2 {
            "current/constraints"@
        } else if k == 3 {
            "current/decisions"@
        } else if k == 4 {
            "history/log"@
        } else {
            "status"@
        };
        assert(catalog(a).entries[k].uri == "okf://"@ + a + "/"@ + path);
        assert(catalog(b).entries[k].uri == "okf://"@ + b + "/"@ + path);
    }
    if 0 <= k < nodes_below(a, directory).len() {
        let path = if directory == ""@ {
            if k == 0 {
                "index"@
            } else if k == 1 {
                "status"@
            } else if k == 2 {
                "current"@
            } else {
                "history"@
            }
        } else if directory == "current"@ {
            if k == 0 {
                "current/architecture"@
            } else if k == 1 {
                "current/constraints"@
            } else if k == 2 {
                "current/decisions"@
            } else {
                "current/components"@
            }
        } else {
            "history/log"@
        };
        assert(nodes_below(a, directory)[k].uri == "okf://"@ + a + "/"@ + path);
        assert(nodes_below(b, directory)[k].uri == "okf://"@ + b + "/"@ + path);
    }
}

/// The id and the description under which the searched node `k` is catalogued.
pub open spec fn described(k: int) -> (Text, Text) {
    if k == 0 {
        ("status"@, "Current Git revision, working-tree freshness, and impacted topics."@)
    } else if k == 1 {
        ("architecture"@, "Current architecture, boundaries, dependencies, and major flows."@)
    } else if k == 2 {
        ("constraints"@, "Durable product and technical constraints."@)
    } else if k == 3 {
        ("decisions"@, "Active decisions, rationale, and supersession notes."@)
    } else if k == 4 {
        ("components"@, "Current component responsibilities and ownership boundaries."@)
    } else {
        ("history"@, "Append-only material context changes and validated checkpoints."@)
    }
}

/// Every node that a query searches is catalogued and listed under the title that its
/// hits have, and catalogued with a description.
pub proof fn law_titles_agree(library: Text, k: int)
    requires
        0 <= k < 6,
    ensures
        catalog(library).entries.len() == 6,
        exists|i: int|
            0 <= i < 6 && (#[trigger] catalog(library).entries[i]).uri == "okf://"@ + library
                + "/"@ + searched(k).0 && catalog(library).entries[i].title == searched(k).1
                && catalog(library).entries[i].id == described(k).0 && catalog(
                library,
            ).entries[i].description == Some(described(k).1),
        exists|directory: Text, i: int|
            0 <= i < nodes_below(library, directory).len() && (#[trigger] nodes_below(
                library,
                directory,
            )[i]).uri == "okf://"@ + library + "/"@ + searched(k).0 && nodes_below(
                library,
                directory,
            )[i].title == Some(searched(k).1),
{
    reveal_strlit("");
    reveal_strlit("current");
    reveal_strlit("history");
    assert("current"@[0] != "history"@[0]);
    let entries = catalog(library).entries;
    if k == 0 {
        assert(entries[5].title == searched(k).1);
        assert(nodes_below(library, ""@)[1].title == Some(searched(k).1));
    } else if k == 1 {
        assert(entries[0].title == searched(k).1);
        assert(nodes_below(library, "current"@)[0].title == Some(searched(k).1));
    } else if k == 2 {
        assert(entries[2].title == searched(k).1);
        assert(nodes_below(library, "current"@)[1].title == Some(searched(k).1));
    } else if k == 3 {
        assert(entries[3].title == searched(k).1);
        assert(nodes_below(library, "current"@)[2].title == Some(searched(k).1));
    } else if k == 4 {
        assert(entries[1].title == searched(k).1);
        assert(nodes_below(library, "current"@)[3].title == Some(searched(k).1));
    } else {
        assert(entries[4].title == searched(k).1);
        assert(nodes_below(library, "history"@)[0].title == Some(searched(k).1));
    }
}

} // verus!
