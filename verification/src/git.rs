//! What Git is asked, and what its answers mean.
//!
//! Git itself runs elsewhere. Where a decision needs several answers, it is a
//! function of the replies so far that either asks for the next command or is
//! done.

use vstd::prelude::*;
use vstd::utf8::{decode_utf8, valid_utf8};
use crate::error::{
    error_text, law_messages_hold_every_detail, list_outcome, outcome, verdict, ContextError,
    ErrorView,
};
use crate::order::{ascending, ascending_list, law_ascending_list_exists};
use crate::outside::{lossy_text, text_from_utf8, text_from_utf8_lossy, utf8_complaint};
use crate::paths::{
    extend, filter_paths, kept, law_kept_paths_match_no_prefix, law_listed_paths_are_named,
    lemma_concat_set, lemma_kept_list, line_names, lines, listed_paths, normalized_repo_path,
    path_matches,
};
use crate::profile::copy_list;
use crate::text::{
    chars_of, contains_text, law_trimmed_text_is_the_core, law_trimming_leaves_the_core,
    lemma_part_of_contained, lemma_pieces_concat, lemma_pieces_single, lemma_pieces_some, on_edge,
    optional_text, pieces, same_text, string_of, texts, trim, trimmed, white_space, Edge, Text,
};

verus! {

/// How a program that was to be run answered.
#[derive(Debug)]
pub enum Reply {
    /// It ran, and this is what it left.
    Finished { success: bool, stdout: Vec<u8>, stderr: Vec<u8> },
    /// It could not be started.
    NotStarted { cause: String },
}

/// The mathematical value of a [`Reply`].
pub enum ReplyView {
    Finished { success: bool, stdout: Seq<u8>, stderr: Seq<u8> },
    NotStarted { cause: Text },
}

impl View for Reply {
    type V = ReplyView;

    open spec fn view(&self) -> ReplyView {
        match self {
            Reply::Finished { success, stdout, stderr } => ReplyView::Finished {
                success: *success,
                stdout: stdout@,
                stderr: stderr@,
            },
            Reply::NotStarted { cause } => ReplyView::NotStarted { cause: cause@ },
        }
    }
}

/// The views of a list of replies.
pub open spec fn replies_view(list: Seq<Reply>) -> Seq<ReplyView> {
    Seq::new(list.len(), |i: int| list[i]@)
}

/// Where a decision stands after the replies so far.
#[derive(Debug)]
pub enum Step<T> {
    /// Git is to be run with these arguments next.
    Run(Vec<String>),
    /// The decision has been taken.
    Done(Result<T, ContextError>),
}

/// The mathematical value of a [`Step`].
pub enum StepView<V> {
    Run(Seq<Text>),
    Done(Result<V, ErrorView>),
}

/// The view of a step.
pub open spec fn step_view<T: View>(step: Step<T>) -> StepView<T::V> {
    match step {
        Step::Run(arguments) => StepView::Run(texts(arguments@)),
        Step::Done(result) => StepView::Done(outcome(result)),
    }
}

/// The view of a step towards a list of strings.
pub open spec fn list_step_view(step: Step<Vec<String>>) -> StepView<Seq<Text>> {
    match step {
        Step::Run(arguments) => StepView::Run(texts(arguments@)),
        Step::Done(result) => StepView::Done(list_outcome(result)),
    }
}

/// What every Git command begins with, before the repository that it is run in and
/// the arguments of its own: paths are printed as they are, without quotes.
pub fn leading_arguments() -> (r: Vec<String>)
    ensures
        texts(r@) == seq!["-c"@, "core.quotepath=false"@, "-C"@],
{
    let r = vec!["-c".to_owned(), "core.quotepath=false".to_owned(), "-C".to_owned()];
    assert(texts(r@) =~= seq!["-c"@, "core.quotepath=false"@, "-C"@]);
    r
}

/// What asks for the root of the working tree.
pub open spec fn toplevel_command() -> Seq<Text> {
    seq!["rev-parse"@, "--show-toplevel"@]
}

/// What asks whether there is a working tree.
pub open spec fn inside_command() -> Seq<Text> {
    seq!["rev-parse"@, "--is-inside-work-tree"@]
}

/// What asks for the current revision.
pub open spec fn head_command() -> Seq<Text> {
    seq!["rev-parse"@, "--verify"@, "--quiet"@, "HEAD"@]
}

/// What asks for the current branch.
pub open spec fn branch_command() -> Seq<Text> {
    seq!["symbolic-ref"@, "--short"@, "-q"@, "HEAD"@]
}

/// What asks for the commit that `revision` names.
pub open spec fn resolve_command(revision: Text) -> Seq<Text> {
    seq!["rev-parse"@, "--verify"@, revision + "^{commit}"@]
}

/// What asks for the paths that differ between two revisions.
pub open spec fn diff_command(from: Text, to: Text) -> Seq<Text> {
    seq!["diff"@, "--find-renames"@, "--name-only"@, from + ".."@ + to, "--"@]
}

/// What asks for the paths with uncommitted changes: the unstaged ones, then the
/// staged ones, then the untracked ones.
pub open spec fn working_command(k: int) -> Seq<Text> {
    if k == 0 {
        seq!["diff"@, "--name-only"@]
    } else if k == 1 {
        seq!["diff"@, "--cached"@, "--name-only"@]
    } else {
        seq!["ls-files"@, "--others"@, "--exclude-standard"@]
    }
}

/// The text that Git printed, without white space around it, or why there is
/// none.
pub open spec fn git_text(arguments: Seq<Text>, reply: ReplyView) -> Result<Text, ErrorView> {
    match reply {
        ReplyView::NotStarted { cause } => Err(
            ErrorView::NotStarted { program: "git"@, arguments, cause },
        ),
        ReplyView::Finished { success, stdout, stderr } => if !success {
            Err(
                ErrorView::ProgramFailed {
                    program: "git"@,
                    arguments,
                    message: trimmed(lossy_text(stderr)),
                },
            )
        } else if valid_utf8(stdout) {
            Ok(trimmed(decode_utf8(stdout)))
        } else {
            Err(ErrorView::NotUtf8 { cause: utf8_complaint(stdout) })
        },
    }
}

/// The root of the working tree that `path` lies in.
pub open spec fn toplevel(path: Text, reply: ReplyView) -> Result<Text, ErrorView> {
    match git_text(toplevel_command(), reply) {
        Ok(root) => Ok(root),
        Err(error) => Err(ErrorView::NotInWorkingTree { path, cause: error_text(error) }),
    }
}

/// Whether Git takes the repository for a working tree.
pub open spec fn working_tree_verdict(repository: Text, reply: ReplyView) -> Result<(), ErrorView> {
    match git_text(inside_command(), reply) {
        Err(error) => Err(error),
        Ok(answer) => if answer == "true"@ {
            Ok(())
        } else {
            Err(ErrorView::NotWorkingTree { repository })
        },
    }
}

/// The current revision; a repository without a commit has none.
pub open spec fn head_revision(reply: ReplyView) -> Result<Option<Text>, ErrorView> {
    if reply matches ReplyView::Finished { success, stderr, .. } && !success && stderr.len() == 0 {
        Ok(None)
    } else {
        match git_text(head_command(), reply) {
            Err(error) => Err(error),
            Ok(revision) => if revision.len() == 0 {
                Ok(None)
            } else {
                Ok(Some(revision))
            },
        }
    }
}

/// The current revision of a repository that must have one.
pub open spec fn required_revision(repository: Text, reply: ReplyView) -> Result<Text, ErrorView> {
    match head_revision(reply) {
        Err(error) => Err(error),
        Ok(None) => Err(ErrorView::NoCommit { repository }),
        Ok(Some(revision)) => Ok(revision),
    }
}

/// The current branch, where there is one.
pub open spec fn branch_name(reply: ReplyView) -> Option<Text> {
    match git_text(branch_command(), reply) {
        Ok(name) if name.len() > 0 => Some(name),
        _ => None,
    }
}

/// The paths that an answer of Git lists.
pub open spec fn answered_paths(arguments: Seq<Text>, reply: ReplyView) -> Result<
    Seq<Text>,
    ErrorView,
> {
    match git_text(arguments, reply) {
        Err(error) => Err(error),
        Ok(text) => Ok(listed_paths(pieces(text, '\n'))),
    }
}

/// Where the listing of the working tree stands after some replies.
pub enum Listing {
    /// Git is to be run with these arguments next.
    Pending(Seq<Text>),
    /// The listing failed; `rest` are the replies that follow.
    Failed { error: ErrorView, rest: Seq<ReplyView> },
    /// These paths have uncommitted changes; `rest` are the replies that follow.
    Listed { paths: Set<Text>, rest: Seq<ReplyView> },
}

/// The listing of the working tree from its command `k` on, where `found` are
/// the paths so far.
pub open spec fn listing(k: int, replies: Seq<ReplyView>, found: Set<Text>) -> Listing
    decreases 3 - k,
{
    if k >= 3 {
        Listing::Listed { paths: found, rest: replies }
    } else if replies.len() == 0 {
        Listing::Pending(working_command(k))
    } else {
        match answered_paths(working_command(k), replies[0]) {
            Err(error) => Listing::Failed { error, rest: replies.skip(1) },
            Ok(paths) => listing(k + 1, replies.skip(1), found + paths.to_set()),
        }
    }
}

/// The listing of the working tree from the replies to its commands.
pub open spec fn working_listing(replies: Seq<ReplyView>) -> Listing {
    listing(0, replies, Set::empty())
}

/// The uncommitted changes that count, as a step.
pub open spec fn working_step(replies: Seq<ReplyView>, excluded: Seq<Text>) -> StepView<Seq<Text>> {
    match working_listing(replies) {
        Listing::Pending(arguments) => StepView::Run(arguments),
        Listing::Failed { error, rest } => StepView::Done(Err(error)),
        Listing::Listed { paths, rest } => StepView::Done(
            Ok(ascending_list(kept(paths, excluded))),
        ),
    }
}

/// What asks for the root of the working tree.
pub fn toplevel_arguments() -> (r: Vec<String>)
    ensures
        texts(r@) == toplevel_command(),
{
    let r = vec!["rev-parse".to_owned(), "--show-toplevel".to_owned()];
    assert(texts(r@) =~= toplevel_command());
    r
}

/// What asks whether there is a working tree.
pub fn inside_arguments() -> (r: Vec<String>)
    ensures
        texts(r@) == inside_command(),
{
    let r = vec!["rev-parse".to_owned(), "--is-inside-work-tree".to_owned()];
    assert(texts(r@) =~= inside_command());
    r
}

/// What asks for the current revision.
pub fn head_arguments() -> (r: Vec<String>)
    ensures
        texts(r@) == head_command(),
{
    let r = vec![
        "rev-parse".to_owned(),
        "--verify".to_owned(),
        "--quiet".to_owned(),
        "HEAD".to_owned(),
    ];
    assert(texts(r@) =~= head_command());
    r
}

/// What asks for the current branch.
pub fn branch_arguments() -> (r: Vec<String>)
    ensures
        texts(r@) == branch_command(),
{
    let r = vec![
        "symbolic-ref".to_owned(),
        "--short".to_owned(),
        "-q".to_owned(),
        "HEAD".to_owned(),
    ];
    assert(texts(r@) =~= branch_command());
    r
}

/// What asks for the commit that `revision` names.
pub fn resolve_arguments(revision: &str) -> (r: Vec<String>)
    ensures
        texts(r@) == resolve_command(revision@),
{
    let r = vec![
        "rev-parse".to_owned(),
        "--verify".to_owned(),
        revision.to_owned().concat("^{commit}"),
    ];
    assert(texts(r@) =~= resolve_command(revision@));
    r
}

/// What asks for the paths that differ between two revisions.
pub fn diff_arguments(from: &str, to: &str) -> (r: Vec<String>)
    ensures
        texts(r@) == diff_command(from@, to@),
{
    let r = vec![
        "diff".to_owned(),
        "--find-renames".to_owned(),
        "--name-only".to_owned(),
        from.to_owned().concat("..").concat(to),
        "--".to_owned(),
    ];
    assert(texts(r@) =~= diff_command(from@, to@));
    r
}

/// What asks for the paths with uncommitted changes.
pub fn working_arguments(k: usize) -> (r: Vec<String>)
    ensures
        texts(r@) == working_command(k as int),
{
    let r = if k == 0 {
        vec!["diff".to_owned(), "--name-only".to_owned()]
    } else if k == 1 {
        vec!["diff".to_owned(), "--cached".to_owned(), "--name-only".to_owned()]
    } else {
        vec!["ls-files".to_owned(), "--others".to_owned(), "--exclude-standard".to_owned()]
    };
    assert(texts(r@) =~= working_command(k as int));
    r
}

/// What a program wrote about its failure, without white space around it.
pub fn failure_message(stderr: &Vec<u8>) -> (r: String)
    ensures
        r@ == trimmed(lossy_text(stderr@)),
{
    let text = text_from_utf8_lossy(stderr.as_slice());
    let chars = chars_of(text.as_str());
    string_of(trim(chars.as_slice()))
}

/// The text that Git printed, without white space around it.
pub fn git_output(arguments: &Vec<String>, reply: &Reply) -> (r: Result<String, ContextError>)
    ensures
        outcome(r) == git_text(texts(arguments@), reply@),
{
    match reply {
        Reply::NotStarted { cause } => Err(
            ContextError::NotStarted {
                program: "git".to_owned(),
                arguments: copy_list(arguments),
                cause: cause.clone(),
            },
        ),
        Reply::Finished { success, stdout, stderr } => {
            if !*success {
                return Err(
                    ContextError::ProgramFailed {
                        program: "git".to_owned(),
                        arguments: copy_list(arguments),
                        message: failure_message(stderr),
                    },
                );
            }
            match text_from_utf8(stdout.clone()) {
                Err(complaint) => Err(ContextError::NotUtf8 { cause: complaint }),
                Ok(text) => {
                    let chars = chars_of(text.as_str());
                    Ok(string_of(trim(chars.as_slice())))
                },
            }
        },
    }
}

/// The root of the working tree that `path` lies in.
pub fn canonical_repository(path: &str, reply: &Reply) -> (r: Result<String, ContextError>)
    ensures
        outcome(r) == toplevel(path@, reply@),
{
    match git_output(&toplevel_arguments(), reply) {
        Ok(root) => Ok(root),
        Err(error) => Err(
            ContextError::NotInWorkingTree { path: path.to_owned(), cause: error.message() },
        ),
    }
}

/// Accepts repositories that Git takes for a working tree.
pub fn ensure_git_repository(repository: &str, reply: &Reply) -> (r: Result<(), ContextError>)
    ensures
        verdict(r) == working_tree_verdict(repository@, reply@),
{
    match git_output(&inside_arguments(), reply) {
        Err(error) => Err(error),
        Ok(answer) => if same_text(answer.as_str(), "true") {
            Ok(())
        } else {
            Err(ContextError::NotWorkingTree { repository: repository.to_owned() })
        },
    }
}

/// What a fallible function that may find nothing gave.
pub open spec fn optional_outcome(result: Result<Option<String>, ContextError>) -> Result<
    Option<Text>,
    ErrorView,
> {
    match result {
        Ok(item) => Ok(optional_text(item)),
        Err(error) => Err(error@),
    }
}

/// The current revision; a repository without a commit has none.
pub fn current_revision_optional(reply: &Reply) -> (r: Result<Option<String>, ContextError>)
    ensures
        optional_outcome(r) == head_revision(reply@),
{
    match reply {
        Reply::Finished { success, stdout, stderr } => {
            if !*success && stderr.len() == 0 {
                return Ok(None);
            }
        },
        Reply::NotStarted { cause } => {},
    }
    match git_output(&head_arguments(), reply) {
        Err(error) => Err(error),
        Ok(revision) => if revision.as_str().is_empty() {
            Ok(None)
        } else {
            Ok(Some(revision))
        },
    }
}

/// The current revision of a repository that must have one.
pub fn current_revision(repository: &str, reply: &Reply) -> (r: Result<String, ContextError>)
    ensures
        outcome(r) == required_revision(repository@, reply@),
{
    match current_revision_optional(reply) {
        Err(error) => Err(error),
        Ok(None) => Err(ContextError::NoCommit { repository: repository.to_owned() }),
        Ok(Some(revision)) => Ok(revision),
    }
}

/// The current branch, where there is one.
pub fn current_branch(reply: &Reply) -> (r: Option<String>)
    ensures
        optional_text(r) == branch_name(reply@),
{
    match git_output(&branch_arguments(), reply) {
        Err(_) => None,
        Ok(name) => if name.as_str().is_empty() {
            None
        } else {
            Some(name)
        },
    }
}

/// The commit that `revision` names.
pub fn resolve_revision(revision: &str, reply: &Reply) -> (r: Result<String, ContextError>)
    ensures
        outcome(r) == git_text(resolve_command(revision@), reply@),
{
    git_output(&resolve_arguments(revision), reply)
}

/// The paths that an answer of Git lists.
fn answer_lines(arguments: &Vec<String>, reply: &Reply) -> (r: Result<Vec<String>, ContextError>)
    ensures
        list_outcome(r) == answered_paths(texts(arguments@), reply@),
{
    match git_output(arguments, reply) {
        Err(error) => Err(error),
        Ok(text) => Ok(lines(text.as_str())),
    }
}

/// The paths that differ between two revisions.
pub fn changed_paths(from: &str, to: &str, reply: &Reply) -> (r: Result<Vec<String>, ContextError>)
    ensures
        list_outcome(r) == answered_paths(diff_command(from@, to@), reply@),
{
    answer_lines(&diff_arguments(from, to), reply)
}

/// Where the listing of the working tree stands after some replies.
pub(crate) enum WorkingTree {
    Pending(Vec<String>),
    Failed { error: ContextError, used: usize },
    Listed { paths: Vec<String>, used: usize },
}

/// Whether `tree` is the listing that the replies from `start` on give.
pub(crate) open spec fn tree_matches(
    tree: WorkingTree,
    replies: Seq<ReplyView>,
    start: int,
) -> bool {
    match (tree, working_listing(replies.skip(start))) {
        (WorkingTree::Pending(arguments), Listing::Pending(expected)) => texts(arguments@)
            == expected,
        (
            WorkingTree::Failed { error, used },
            Listing::Failed { error: expected, rest },
        ) => error@ == expected && start < used <= replies.len() && rest == replies.skip(
            used as int,
        ),
        (WorkingTree::Listed { paths, used }, Listing::Listed { paths: expected, rest }) => {
            &&& ascending(texts(paths@))
            &&& texts(paths@).to_set() == expected
            &&& start < used <= replies.len()
            &&& rest == replies.skip(used as int)
        },
        _ => false,
    }
}

/// The listing that the replies from `start` on give.
pub(crate) fn list_working_tree(replies: &[Reply], start: usize) -> (r: WorkingTree)
    requires
        start <= replies@.len(),
    ensures
        tree_matches(r, replies_view(replies@), start as int),
{
    let ghost all = replies_view(replies@);
    let total = replies.len();
    let mut found: Vec<String> = Vec::new();
    let mut used: usize = start;
    let mut k: usize = 0;
    assert(texts(found@).to_set() =~= Set::empty());
    while k < 3
        invariant
            k <= 3,
            total == replies@.len(),
            all == replies_view(replies@),
            start + k == used,
            used <= total,
            ascending(texts(found@)),
            working_listing(all.skip(start as int)) == listing(
                k as int,
                all.skip(used as int),
                texts(found@).to_set(),
            ),
        decreases 3 - k,
    {
        let arguments = working_arguments(k);
        if used >= total {
            return WorkingTree::Pending(arguments);
        }
        assert(all.skip(used as int)[0] == replies@[used as int]@);
        assert(all.skip(used as int).skip(1) =~= all.skip(used + 1));
        match answer_lines(&arguments, &replies[used]) {
            Err(error) => {
                return WorkingTree::Failed { error, used: used + 1 };
            },
            Ok(paths) => {
                extend(&mut found, paths.as_slice());
            },
        }
        used += 1;
        k += 1;
    }
    WorkingTree::Listed { paths: found, used }
}

/// The uncommitted changes that count, as far as the replies tell.
pub fn working_tree_paths(replies: &[Reply], excluded: &[String]) -> (r: Step<Vec<String>>)
    ensures
        list_step_view(r) == working_step(replies_view(replies@), texts(excluded@)),
{
    assert(replies_view(replies@).skip(0) =~= replies_view(replies@));
    match list_working_tree(replies, 0) {
        WorkingTree::Pending(arguments) => Step::Run(arguments),
        WorkingTree::Failed { error, used } => Step::Done(Err(error)),
        WorkingTree::Listed { paths, used } => Step::Done(
            Ok(filter_paths(paths.as_slice(), excluded)),
        ),
    }
}

/// The text that a program printed, where it ran, succeeded and printed text.
pub open spec fn told(reply: ReplyView) -> Option<Text> {
    match reply {
        ReplyView::Finished { success: true, stdout, .. } => if valid_utf8(stdout) {
            Some(decode_utf8(stdout))
        } else {
            None
        },
        _ => None,
    }
}

/// One of the lines of the text says this path.
pub open spec fn text_names(text: Text, path: Text) -> bool {
    line_names(pieces(text, '\n'), path)
}

/// A program that told nothing is an error; what it told is taken without the white
/// space around it.
pub proof fn law_answers_are_what_git_told(arguments: Seq<Text>, reply: ReplyView)
    ensures
        told(reply) is None <==> git_text(arguments, reply) is Err,
        told(reply) matches Some(text) ==> git_text(arguments, reply) == Ok::<Text, ErrorView>(
            trimmed(text),
        ),
{
}

/// The current revision and branch are what Git told, without white space around it
/// and where it is not empty. Only a failure without a word means that there is no
/// commit; every other is an error.
pub proof fn law_revision_and_branch_are_what_git_told(repository: Text, reply: ReplyView)
    ensures
        told(reply) matches Some(text) ==> {
            let name = trimmed(text);
            &&& name.len() > 0 ==> head_revision(reply) == Ok::<Option<Text>, ErrorView>(Some(name))
                && required_revision(repository, reply) == Ok::<Text, ErrorView>(name)
                && branch_name(reply) == Some(name)
            &&& name.len() == 0 ==> head_revision(reply) == Ok::<Option<Text>, ErrorView>(None)
                && required_revision(repository, reply) == Err::<Text, ErrorView>(
                ErrorView::NoCommit { repository },
            ) && branch_name(reply) == None::<Text>
        },
        told(reply) is None ==> {
            &&& branch_name(reply) == None::<Text>
            &&& required_revision(repository, reply) is Err
            &&& head_revision(reply) is Ok <==> (reply is Finished && !reply->success
                && reply->stderr.len() == 0)
            &&& head_revision(reply) is Ok ==> head_revision(reply)->Ok_0 is None
        },
{
}

/// A repository is found, and is a working tree, exactly where Git says so.
pub proof fn law_repositories_are_what_git_told(path: Text, reply: ReplyView)
    ensures
        told(reply) matches Some(text) ==> {
            &&& toplevel(path, reply) == Ok::<Text, ErrorView>(trimmed(text))
            &&& working_tree_verdict(path, reply) is Ok <==> trimmed(text) == "true"@
        },
        told(reply) is None ==> toplevel(path, reply) is Err && working_tree_verdict(
            path,
            reply,
        ) is Err,
{
}

/// A character in front of a text that is no separator goes to the first piece.
proof fn lemma_pieces_prepend(c: char, s: Text, separator: char)
    requires
        c != separator,
    ensures
        pieces(seq![c] + s, separator) == seq![seq![c] + pieces(s, separator)[0]] + pieces(
            s,
            separator,
        ).drop_first(),
    decreases s.len(),
{
    lemma_pieces_some(s, separator);
    let whole = seq![c] + s;
    if s.len() == 0 {
        assert(whole =~= seq![c]);
        assert(!seq![c].contains(separator));
        lemma_pieces_single(seq![c], separator);
        assert(seq![c] + pieces(s, separator)[0] =~= seq![c]);
        assert(pieces(whole, separator) =~= seq![seq![c] + pieces(s, separator)[0]] + pieces(
            s,
            separator,
        ).drop_first());
    } else {
        let front = s.drop_last();
        lemma_pieces_prepend(c, front, separator);
        lemma_pieces_some(front, separator);
        assert(whole.drop_last() =~= seq![c] + front);
        assert(whole.last() == s.last());
        let before = pieces(front, separator);
        if s.last() != separator && before.len() == 1 {
            assert((seq![c] + before[0]).push(s.last()) =~= seq![c] + before[0].push(s.last()));
        }
        assert(pieces(whole, separator) =~= seq![seq![c] + pieces(s, separator)[0]] + pieces(
            s,
            separator,
        ).drop_first());
    }
}

/// White space around a line does not change what it says.
proof fn lemma_white_line(c: char, line: Text)
    requires
        white_space(c),
    ensures
        trimmed(seq![c] + line) == trimmed(line),
        trimmed(line.push(c)) == trimmed(line),
{
    let core = trimmed(line);
    let (front, back) = law_trimmed_text_is_the_core(line, Edge::White);
    assert(trimmed(seq![c] + line) == core) by {
        let longer = seq![c] + front;
        assert forall|i: int| 0 <= i < longer.len() implies on_edge(
            Edge::White,
            #[trigger] longer[i],
        ) by {
            if i > 0 {
                assert(longer[i] == front[i - 1]);
            }
        }
        law_trimming_leaves_the_core(longer, core, back, Edge::White);
        assert(longer + core + back =~= seq![c] + line);
    }
    assert(trimmed(line.push(c)) == core) by {
        let longer = back.push(c);
        assert forall|i: int| 0 <= i < longer.len() implies on_edge(
            Edge::White,
            #[trigger] longer[i],
        ) by {
            if i < back.len() {
                assert(longer[i] == back[i]);
            }
        }
        law_trimming_leaves_the_core(front, core, longer, Edge::White);
        assert(front + core + longer =~= line.push(c));
    }
}

proof fn lemma_white_in_front(c: char, s: Text, path: Text)
    requires
        white_space(c),
    ensures
        text_names(seq![c] + s, path) == text_names(s, path),
{
    lemma_pieces_some(s, '\n');
    let lines = pieces(s, '\n');
    let more = pieces(seq![c] + s, '\n');
    let none = Seq::<char>::empty();
    if c == '\n' {
        assert(seq![c] + s =~= none.push('\n') + s);
        lemma_pieces_concat(none, s, '\n');
        assert(trimmed(none).len() == 0);
        assert forall|i: int| 0 <= i < lines.len() implies more[i + 1] == #[trigger] lines[i] by {}
        if text_names(s, path) {
            let i = choose|i: int|
                0 <= i < lines.len() && trimmed(#[trigger] lines[i]).len() > 0
                    && normalized_repo_path(lines[i]) == path;
            assert(more[i + 1] == lines[i]);
        }
        if text_names(seq![c] + s, path) {
            let i = choose|i: int|
                0 <= i < more.len() && trimmed(#[trigger] more[i]).len() > 0
                    && normalized_repo_path(more[i]) == path;
            assert(i > 0);
            assert(lines[i - 1] == more[i]);
        }
    } else {
        lemma_pieces_prepend(c, s, '\n');
        lemma_white_line(c, lines[0]);
        assert(more.len() == lines.len());
        assert forall|i: int| 0 < i < lines.len() implies more[i] == #[trigger] lines[i] by {}
        if text_names(s, path) {
            let i = choose|i: int|
                0 <= i < lines.len() && trimmed(#[trigger] lines[i]).len() > 0
                    && normalized_repo_path(lines[i]) == path;
            assert(trimmed(more[i]) == trimmed(lines[i]));
        }
        if text_names(seq![c] + s, path) {
            let i = choose|i: int|
                0 <= i < more.len() && trimmed(#[trigger] more[i]).len() > 0
                    && normalized_repo_path(more[i]) == path;
            assert(trimmed(more[i]) == trimmed(lines[i]));
        }
    }
}

proof fn lemma_white_behind(c: char, s: Text, path: Text)
    requires
        white_space(c),
    ensures
        text_names(s.push(c), path) == text_names(s, path),
{
    lemma_pieces_some(s, '\n');
    let lines = pieces(s, '\n');
    let more = pieces(s.push(c), '\n');
    let none = Seq::<char>::empty();
    assert(s.push(c).drop_last() =~= s);
    assert(trimmed(none).len() == 0);
    lemma_white_line(c, lines[lines.len() - 1]);
    assert forall|i: int| 0 <= i < lines.len() implies trimmed(more[i]) == trimmed(
        #[trigger] lines[i],
    ) by {
        if c != '\n' && i == lines.len() - 1 {
            assert(more[i] == lines[i].push(c));
        }
    }
    if text_names(s, path) {
        let i = choose|i: int|
            0 <= i < lines.len() && trimmed(#[trigger] lines[i]).len() > 0 && normalized_repo_path(
                lines[i],
            ) == path;
        assert(trimmed(more[i]) == trimmed(lines[i]));
    }
    if text_names(s.push(c), path) {
        let i = choose|i: int|
            0 <= i < more.len() && trimmed(#[trigger] more[i]).len() > 0 && normalized_repo_path(
                more[i],
            ) == path;
        assert(i < lines.len());
        assert(trimmed(more[i]) == trimmed(lines[i]));
    }
}

proof fn lemma_white_fronts(front: Text, s: Text, path: Text)
    requires
        forall|i: int| 0 <= i < front.len() ==> white_space(#[trigger] front[i]),
    ensures
        text_names(front + s, path) == text_names(s, path),
    decreases front.len(),
{
    if front.len() == 0 {
        assert(front + s =~= s);
    } else {
        let rest = front.drop_first();
        assert forall|i: int| 0 <= i < rest.len() implies white_space(#[trigger] rest[i]) by {
            assert(rest[i] == front[i + 1]);
        }
        lemma_white_fronts(rest, s, path);
        lemma_white_in_front(front[0], rest + s, path);
        assert(front + s =~= seq![front[0]] + (rest + s));
    }
}

proof fn lemma_white_ends(s: Text, back: Text, path: Text)
    requires
        forall|i: int| 0 <= i < back.len() ==> white_space(#[trigger] back[i]),
    ensures
        text_names(s + back, path) == text_names(s, path),
    decreases back.len(),
{
    if back.len() == 0 {
        assert(s + back =~= s);
    } else {
        let rest = back.drop_last();
        assert forall|i: int| 0 <= i < rest.len() implies white_space(#[trigger] rest[i]) by {
            assert(rest[i] == back[i]);
        }
        lemma_white_ends(s, rest, path);
        lemma_white_behind(back[back.len() - 1], s + rest, path);
        assert(s + back =~= (s + rest).push(back[back.len() - 1]));
    }
}

/// The paths of an answer are exactly those that a line of what Git told says.
pub proof fn law_answered_paths_are_lines(arguments: Seq<Text>, reply: ReplyView, path: Text)
    ensures
        told(reply) is None <==> answered_paths(arguments, reply) is Err,
        told(reply) matches Some(text) ==> (answered_paths(arguments, reply)->Ok_0.contains(path)
            <==> text_names(text, path)),
{
    if let Some(text) = told(reply) {
        let core = trimmed(text);
        let (front, back) = law_trimmed_text_is_the_core(text, Edge::White);
        assert forall|i: int| 0 <= i < back.len() implies white_space(#[trigger] back[i]) by {
            assert(on_edge(Edge::White, back[i]));
        }
        assert forall|i: int| 0 <= i < front.len() implies white_space(#[trigger] front[i]) by {
            assert(on_edge(Edge::White, front[i]));
        }
        lemma_white_ends(core, back, path);
        lemma_white_fronts(front, core + back, path);
        assert(text =~= front + (core + back));
        law_listed_paths_are_named(pieces(core, '\n'), path);
    }
}

/// One of the three answers about the working tree names this path, and no excluded
/// prefix matches it.
pub open spec fn uncommitted(
    replies: Seq<ReplyView>,
    start: int,
    excluded: Seq<Text>,
    path: Text,
) -> bool {
    &&& exists|k: int|
        0 <= k < 3 && told(#[trigger] replies[start + k]) is Some && text_names(
            told(replies[start + k])->Some_0,
            path,
        )
    &&& forall|i: int| 0 <= i < excluded.len() ==> !path_matches(path, #[trigger] excluded[i])
}

/// All three questions about the working tree were answered.
pub open spec fn tree_told(replies: Seq<ReplyView>, start: int) -> bool {
    &&& replies.len() >= start + 3
    &&& told(replies[start]) is Some
    &&& told(replies[start + 1]) is Some
    &&& told(replies[start + 2]) is Some
}

/// How the listing of the working tree goes on after each answer.
pub proof fn lemma_listing_told(replies: Seq<ReplyView>)
    ensures
        tree_told(replies, 0) ==> {
            &&& working_listing(replies) is Listed
            &&& working_listing(replies)->Listed_rest == replies.skip(3)
            &&& forall|path: Text| #[trigger]
                working_listing(replies)->Listed_paths.contains(path) <==> exists|k: int|
                    0 <= k < 3 && text_names(told(#[trigger] replies[k])->Some_0, path)
        },
        replies.len() >= 3 && !tree_told(replies, 0) ==> working_listing(replies) is Failed,
        replies.len() == 0 ==> working_listing(replies) == Listing::Pending(working_command(0)),
        replies.len() == 1 && told(replies[0]) is Some ==> working_listing(replies)
            == Listing::Pending(working_command(1)),
        replies.len() == 2 && told(replies[0]) is Some && told(replies[1]) is Some
            ==> working_listing(replies) == Listing::Pending(working_command(2)),
        replies.len() >= 1 && told(replies[0]) is None ==> working_listing(replies) is Failed,
        replies.len() >= 2 && told(replies[0]) is Some && told(replies[1]) is None
            ==> working_listing(replies) is Failed,
{
    reveal_with_fuel(listing, 4);
    let (b, c) = (replies.skip(1), replies.skip(1).skip(1));
    if replies.len() >= 1 {
        law_answered_paths_are_lines(working_command(0), replies[0], Seq::empty());
    }
    if replies.len() >= 2 {
        assert(b[0] == replies[1]);
        law_answered_paths_are_lines(working_command(1), replies[1], Seq::empty());
    }
    if replies.len() >= 3 {
        assert(c[0] == replies[2]);
        law_answered_paths_are_lines(working_command(2), replies[2], Seq::empty());
    }
    if tree_told(replies, 0) {
        assert(c.skip(1) =~= replies.skip(3));
        let x = answered_paths(working_command(0), replies[0])->Ok_0;
        let y = answered_paths(working_command(1), replies[1])->Ok_0;
        let z = answered_paths(working_command(2), replies[2])->Ok_0;
        let paths = working_listing(replies)->Listed_paths;
        assert(paths == Set::<Text>::empty() + x.to_set() + y.to_set() + z.to_set());
        assert forall|path: Text| #[trigger] paths.contains(path) <==> exists|k: int|
            0 <= k < 3 && text_names(told(#[trigger] replies[k])->Some_0, path) by {
            law_answered_paths_are_lines(working_command(0), replies[0], path);
            law_answered_paths_are_lines(working_command(1), replies[1], path);
            law_answered_paths_are_lines(working_command(2), replies[2], path);
            assert(paths.contains(path) <==> x.contains(path) || y.contains(path) || z.contains(
                path,
            ));
            if x.contains(path) {
                assert(text_names(told(replies[0])->Some_0, path));
            }
            if y.contains(path) {
                assert(text_names(told(replies[1])->Some_0, path));
            }
            if z.contains(path) {
                assert(text_names(told(replies[2])->Some_0, path));
            }
        }
    }
}

/// The paths of a complete listing form a list.
pub proof fn lemma_listed_list(replies: Seq<ReplyView>) -> (members: Seq<Text>)
    requires
        tree_told(replies, 0),
    ensures
        members.to_set() == working_listing(replies)->Listed_paths,
{
    reveal_with_fuel(listing, 4);
    lemma_listing_told(replies);
    assert(replies.skip(1)[0] == replies[1]);
    assert(replies.skip(1).skip(1)[0] == replies[2]);
    let x = answered_paths(working_command(0), replies[0])->Ok_0;
    let y = answered_paths(working_command(1), replies[1])->Ok_0;
    let z = answered_paths(working_command(2), replies[2])->Ok_0;
    lemma_concat_set(x, y);
    lemma_concat_set(x + y, z);
    let members = x + y + z;
    assert(members.to_set() =~= working_listing(replies)->Listed_paths);
    members
}

/// The uncommitted changes are exactly the paths that one of the three answers names
/// and no excluded prefix matches, in ascending order. Git is asked for the
/// unstaged, the staged and the untracked ones, in this order, and every question
/// must be answered.
pub proof fn law_working_tree_is_what_git_told(replies: Seq<ReplyView>, excluded: Seq<Text>)
    ensures
        working_step(Seq::empty(), excluded) == StepView::<Seq<Text>>::Run(
            seq!["diff"@, "--name-only"@],
        ),
        replies.len() >= 1 && told(replies[0]) is Some ==> working_step(replies.take(1), excluded)
            == StepView::<Seq<Text>>::Run(seq!["diff"@, "--cached"@, "--name-only"@]),
        replies.len() >= 2 && told(replies[0]) is Some && told(replies[1]) is Some ==> working_step(
            replies.take(2),
            excluded,
        ) == StepView::<Seq<Text>>::Run(seq!["ls-files"@, "--others"@, "--exclude-standard"@]),
        replies.len() >= 3 && !tree_told(replies, 0) ==> working_step(replies, excluded) matches
            StepView::Done(Err(_)),
        tree_told(replies, 0) ==> {
            &&& working_step(replies, excluded) matches StepView::Done(Ok(_))
            &&& ascending(working_step(replies, excluded)->Done_0->Ok_0)
            &&& forall|path: Text| #[trigger]
                working_step(replies, excluded)->Done_0->Ok_0.contains(path) <==> uncommitted(
                    replies,
                    0,
                    excluded,
                    path,
                )
        },
{
    lemma_listing_told(Seq::empty());
    lemma_listing_told(replies.take(1));
    lemma_listing_told(replies.take(2));
    lemma_listing_told(replies);
    if tree_told(replies, 0) {
        lemma_uncommitted(replies, excluded);
    }
}

/// What counts of a complete listing.
pub proof fn lemma_uncommitted(replies: Seq<ReplyView>, excluded: Seq<Text>)
    requires
        tree_told(replies, 0),
    ensures
        ({
            let list = ascending_list(kept(working_listing(replies)->Listed_paths, excluded));
            &&& ascending(list)
            &&& forall|path: Text| #[trigger]
                list.contains(path) <==> uncommitted(replies, 0, excluded, path)
            &&& list.to_set() == kept(working_listing(replies)->Listed_paths, excluded)
        }),
{
    let paths = working_listing(replies)->Listed_paths;
    let list = ascending_list(kept(paths, excluded));
    lemma_listing_told(replies);
    let members = lemma_listed_list(replies);
    let counted = lemma_kept_list(members, excluded);
    law_ascending_list_exists(counted);
    assert forall|path: Text| #[trigger] list.contains(path) <==> uncommitted(
        replies,
        0,
        excluded,
        path,
    ) by {
        assert(list.contains(path) <==> list.to_set().contains(path));
        law_kept_paths_match_no_prefix(paths, excluded, path);
        if paths.contains(path) {
            let k = choose|k: int|
                0 <= k < 3 && text_names(told(#[trigger] replies[k])->Some_0, path);
            assert(told(replies[0 + k]) is Some && text_names(told(replies[0 + k])->Some_0, path));
        }
        if uncommitted(replies, 0, excluded, path) {
            let k = choose|k: int|
                0 <= k < 3 && told(#[trigger] replies[0 + k]) is Some && text_names(
                    told(replies[0 + k])->Some_0,
                    path,
                );
            assert(text_names(told(replies[k])->Some_0, path));
        }
    }
}

/// What Git told, without white space around it, where that is not empty.
pub open spec fn named(reply: ReplyView) -> Option<Text> {
    match told(reply) {
        Some(text) => if trimmed(text).len() > 0 {
            Some(trimmed(text))
        } else {
            None
        },
        None => None,
    }
}

/// Where the answers about the working tree stand among the replies does not matter.
pub proof fn lemma_uncommitted_shift(
    replies: Seq<ReplyView>,
    start: int,
    excluded: Seq<Text>,
    path: Text,
)
    requires
        0 <= start,
        replies.len() >= start + 3,
    ensures
        uncommitted(replies.skip(start), 0, excluded, path) == uncommitted(
            replies,
            start,
            excluded,
            path,
        ),
        tree_told(replies.skip(start), 0) == tree_told(replies, start),
{
    let rest = replies.skip(start);
    assert(rest[0] == replies[start]);
    assert(rest[1] == replies[start + 1]);
    assert(rest[2] == replies[start + 2]);
    if uncommitted(replies, start, excluded, path) {
        let k = choose|k: int|
            0 <= k < 3 && told(#[trigger] replies[start + k]) is Some && text_names(
                told(replies[start + k])->Some_0,
                path,
            );
        assert(told(rest[0 + k]) is Some && text_names(told(rest[0 + k])->Some_0, path));
    }
    if uncommitted(rest, 0, excluded, path) {
        let k = choose|k: int|
            0 <= k < 3 && told(#[trigger] rest[0 + k]) is Some && text_names(
                told(rest[0 + k])->Some_0,
                path,
            );
        assert(told(replies[start + k]) is Some && text_names(
            told(replies[start + k])->Some_0,
            path,
        ));
    }
}

/// Git is asked what a revision is as a commit, which paths lie between two revisions,
/// the older first, on which branch the work is, and where the working tree begins.
pub proof fn law_questions_put_to_git(from: Text, to: Text)
    ensures
        resolve_command(from) == seq!["rev-parse"@, "--verify"@, from + "^{commit}"@],
        diff_command(from, to) == seq![
            "diff"@,
            "--find-renames"@,
            "--name-only"@,
            from + ".."@ + to,
            "--"@,
        ],
        head_command() == seq!["rev-parse"@, "--verify"@, "--quiet"@, "HEAD"@],
        branch_command() == seq!["symbolic-ref"@, "--short"@, "-q"@, "HEAD"@],
        toplevel_command() == seq!["rev-parse"@, "--show-toplevel"@],
        inside_command() == seq!["rev-parse"@, "--is-inside-work-tree"@],
{
}

/// Where no repository is found, the answer names the directory and passes on what
/// kept Git from running, or what it wrote.
pub proof fn law_missing_repositories_are_explained(path: Text, reply: ReplyView)
    requires
        told(reply) is None,
    ensures
        toplevel(path, reply) matches Err(ErrorView::NotInWorkingTree { path: named, cause })
            && named == path && match reply {
            ReplyView::NotStarted { cause: reason } => contains_text(cause, reason),
            ReplyView::Finished { success: false, stderr, .. } => contains_text(
                cause,
                trimmed(lossy_text(stderr)),
            ),
            ReplyView::Finished { success: true, stdout, .. } => contains_text(
                cause,
                utf8_complaint(stdout),
            ),
        },
{
    let error = git_text(toplevel_command(), reply)->Err_0;
    law_messages_hold_every_detail(error);
    let shown = error_text(error);
    match error {
        ErrorView::NotStarted { program, arguments, cause } => {
            lemma_part_of_contained(shown, ": "@, cause);
        },
        ErrorView::ProgramFailed { program, arguments, message } => {
            lemma_part_of_contained(shown, " failed: "@, message);
        },
        _ => {},
    }
}

} // verus!
