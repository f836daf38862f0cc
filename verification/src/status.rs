//! How fresh the knowledge of a project is, and when it may be declared valid.

use vstd::prelude::*;
use crate::error::{error_text, list_outcome, ContextError, ErrorView};
use crate::git::{
    answered_paths, branch_arguments, branch_command, branch_name, changed_paths, current_branch,
    current_revision, current_revision_optional, diff_arguments, diff_command, git_text,
    head_arguments, head_command, head_revision, law_answered_paths_are_lines,
    law_revision_and_branch_are_what_git_told, lemma_listing_told, lemma_uncommitted,
    lemma_uncommitted_shift, list_working_tree, listing, named, optional_outcome, replies_view,
    required_revision, resolve_arguments, resolve_command, resolve_revision, step_view, text_names,
    told, tree_told, uncommitted, working_command, working_listing, Listing, Reply, ReplyView, Step,
    StepView, WorkingTree,
};
use crate::order::{
    ascending, ascending_list, law_ascending_list, law_ascending_list_exists, law_ascending_unique,
};
use crate::paths::{
    filter_paths, kept, law_kept_paths_match_no_prefix, lemma_concat_set, lemma_kept_list,
    matches_any, merge_paths, path_matches,
};
use crate::profile::{
    affected_topics, all_current_topics, bound, copy_optional, current_topics, default_excluded,
    default_excluded_prefixes, impacted_topics, law_changes_concern_some_topic,
    law_profiles_are_kept_whole, load_profile_for_repository, loaded, new_profile_view,
    profile_verdict, saved, validate_profile, Profile, ProfileView, DEFAULT_LIBRARY_ID,
};
use crate::text::{
    contains_text, join, joined, lemma_contained, optional_text, same_text, starts_with, texts,
    trimmed, Text,
};

verus! {

/// How fresh the knowledge of a project is.
#[derive(Clone, Copy, Debug, PartialEq, Eq, Structural)]
pub enum ContextState {
    /// No revision has been validated yet.
    Uninitialized,
    /// The knowledge describes the current revision.
    Valid,
    /// The project has changed since the validated revision.
    Dirty,
    /// Git could not tell.
    Unknown,
}

/// The name of a state.
pub open spec fn state_name(state: ContextState) -> Text {
    match state {
        ContextState::Uninitialized => "UNINITIALIZED"@,
        ContextState::Valid => "VALID"@,
        ContextState::Dirty => "DIRTY"@,
        ContextState::Unknown => "UNKNOWN"@,
    }
}

impl ContextState {
    /// The name of the state.
    pub fn name(&self) -> (r: &'static str)
        ensures
            r@ == state_name(*self),
    {
        match self {
            ContextState::Uninitialized => "UNINITIALIZED",
            ContextState::Valid => "VALID",
            ContextState::Dirty => "DIRTY",
            ContextState::Unknown => "UNKNOWN",
        }
    }
}

/// What is known of the freshness of a project's knowledge.
#[derive(Debug)]
pub struct ContextStatus {
    pub state: ContextState,
    pub project: String,
    pub library_id: String,
    pub repository: String,
    pub validated_revision: Option<String>,
    pub current_revision: Option<String>,
    pub branch: Option<String>,
    pub changed_paths: Vec<String>,
    pub impacted_topics: Vec<String>,
    pub diagnostics: Vec<String>,
}

/// The mathematical value of a [`ContextStatus`].
pub struct StatusView {
    pub state: ContextState,
    pub project: Text,
    pub library_id: Text,
    pub repository: Text,
    pub validated_revision: Option<Text>,
    pub current_revision: Option<Text>,
    pub branch: Option<Text>,
    pub changed_paths: Seq<Text>,
    pub impacted_topics: Seq<Text>,
    pub diagnostics: Seq<Text>,
}

impl View for ContextStatus {
    type V = StatusView;

    open spec fn view(&self) -> StatusView {
        StatusView {
            state: self.state,
            project: self.project@,
            library_id: self.library_id@,
            repository: self.repository@,
            validated_revision: optional_text(self.validated_revision),
            current_revision: optional_text(self.current_revision),
            branch: optional_text(self.branch),
            changed_paths: texts(self.changed_paths@),
            impacted_topics: texts(self.impacted_topics@),
            diagnostics: texts(self.diagnostics@),
        }
    }
}

/// The sentence about a failed observation, where it failed.
pub open spec fn complaint<V>(what: Text, observed: Result<V, ErrorView>) -> Seq<Text> {
    match observed {
        Ok(_) => Seq::empty(),
        Err(error) => seq![what + error_text(error)],
    }
}

/// What an observation found, where it did not fail.
pub open spec fn observed_revision(head: Result<Option<Text>, ErrorView>) -> Option<Text> {
    match head {
        Ok(revision) => revision,
        Err(_) => None,
    }
}

/// What an observation found, where it did not fail.
pub open spec fn observed_paths(working: Result<Seq<Text>, ErrorView>) -> Seq<Text> {
    match working {
        Ok(paths) => paths,
        Err(_) => Seq::empty(),
    }
}

/// The validated and the current revision, where both are known and differ.
pub open spec fn revisions_to_compare(
    validated: Option<Text>,
    head: Result<Option<Text>, ErrorView>,
) -> Option<(Text, Text)> {
    match (validated, observed_revision(head)) {
        (Some(from), Some(to)) if from != to => Some((from, to)),
        _ => None,
    }
}

/// The paths that changed since the validated revision, as far as is known:
/// those of `working`, and where the revisions differ also those of `committed`
/// that are not excluded.
pub open spec fn changes_since(
    profile: ProfileView,
    head: Result<Option<Text>, ErrorView>,
    working: Result<Seq<Text>, ErrorView>,
    committed: Result<Seq<Text>, ErrorView>,
) -> Seq<Text> {
    match (revisions_to_compare(profile.validated_revision, head), committed) {
        (Some(_), Ok(paths)) => ascending_list(
            kept(paths.to_set(), profile.excluded_prefixes) + observed_paths(working).to_set(),
        ),
        _ => observed_paths(working),
    }
}

/// How fresh the knowledge is. Without a validated revision there is none to be
/// fresh. Where Git fails to tell the current revision, the working tree or what
/// lies between the revisions, nothing is known. Otherwise the knowledge is
/// valid exactly when nothing that counts has changed.
pub open spec fn freshness(
    profile: ProfileView,
    head: Result<Option<Text>, ErrorView>,
    working: Result<Seq<Text>, ErrorView>,
    committed: Result<Seq<Text>, ErrorView>,
) -> ContextState {
    if profile.validated_revision is None {
        ContextState::Uninitialized
    } else if observed_revision(head) is None || working is Err {
        ContextState::Unknown
    } else if revisions_to_compare(profile.validated_revision, head) is Some && committed is Err {
        ContextState::Unknown
    } else if changes_since(profile, head, working, committed).len() == 0 {
        ContextState::Valid
    } else {
        ContextState::Dirty
    }
}

/// The status of a project from what was observed of it. What was observed of
/// the commits between the revisions is ignored where they are not compared.
pub open spec fn assessed(
    profile: ProfileView,
    head: Result<Option<Text>, ErrorView>,
    branch: Option<Text>,
    working: Result<Seq<Text>, ErrorView>,
    committed: Result<Seq<Text>, ErrorView>,
) -> StatusView {
    let state = freshness(profile, head, working, committed);
    let changed = changes_since(profile, head, working, committed);
    let topics = affected_topics(changed, profile.impact_rules, profile.library_id);
    StatusView {
        state,
        project: profile.project,
        library_id: profile.library_id,
        repository: profile.repository,
        validated_revision: profile.validated_revision,
        current_revision: observed_revision(head),
        branch,
        changed_paths: changed,
        impacted_topics: if topics.len() == 0 && (state == ContextState::Uninitialized || state
            == ContextState::Unknown) {
            current_topics(profile.library_id)
        } else {
            topics
        },
        diagnostics: complaint("failed to resolve current revision: "@, head) + complaint(
            "failed to inspect working tree: "@,
            working,
        ) + (if revisions_to_compare(profile.validated_revision, head) is Some {
            complaint("failed to compare validated and current revisions: "@, committed)
        } else {
            Seq::empty()
        }),
    }
}

/// Adds the sentence about a failed observation.
fn complain(diagnostics: &mut Vec<String>, what: &str, error: &ContextError)
    ensures
        texts(final(diagnostics)@) == texts(old(diagnostics)@).push(what@ + error_text(error@)),
{
    let ghost before = texts(diagnostics@);
    let sentence = what.to_owned().concat(error.message().as_str());
    diagnostics.push(sentence);
    assert(texts(diagnostics@) =~= before.push(sentence@));
}

/// The status of a project from what was observed of it.
pub fn assess(
    profile: &Profile,
    head: Result<Option<String>, ContextError>,
    branch: Option<String>,
    working: Result<Vec<String>, ContextError>,
    committed: Result<Vec<String>, ContextError>,
) -> (r: ContextStatus)
    ensures
        r@ == assessed(
            profile@,
            optional_outcome(head),
            optional_text(branch),
            list_outcome(working),
            list_outcome(committed),
        ),
{
    let ghost observed_head = optional_outcome(head);
    let ghost observed_working = list_outcome(working);
    let ghost observed_committed = list_outcome(committed);
    let mut diagnostics: Vec<String> = Vec::new();
    assert(texts(diagnostics@) =~= Seq::empty());
    let current = match head {
        Ok(revision) => revision,
        Err(error) => {
            complain(&mut diagnostics, "failed to resolve current revision: ", &error);
            None
        },
    };
    assert(texts(diagnostics@) =~= complaint(
        "failed to resolve current revision: "@,
        observed_head,
    ));
    let ghost so_far = texts(diagnostics@);
    let (working, known) = match working {
        Ok(paths) => (paths, true),
        Err(error) => {
            complain(&mut diagnostics, "failed to inspect working tree: ", &error);
            (Vec::new(), false)
        },
    };
    assert(texts(working@) =~= observed_paths(observed_working));
    assert(texts(diagnostics@) =~= so_far + complaint(
        "failed to inspect working tree: "@,
        observed_working,
    ));
    let ghost so_far = texts(diagnostics@);
    let differ = match (&profile.validated_revision, &current) {
        (Some(from), Some(to)) => !same_text(from.as_str(), to.as_str()),
        _ => false,
    };
    let mut compared = true;
    let changed = if differ {
        match committed {
            Ok(paths) => {
                let counted = filter_paths(
                    paths.as_slice(),
                    profile.excluded_prefixes.as_slice(),
                );
                merge_paths(counted.as_slice(), working.as_slice())
            },
            Err(error) => {
                complain(
                    &mut diagnostics,
                    "failed to compare validated and current revisions: ",
                    &error,
                );
                compared = false;
                working
            },
        }
    } else {
        working
    };
    assert(texts(diagnostics@) =~= so_far + (if differ {
        complaint("failed to compare validated and current revisions: "@, observed_committed)
    } else {
        Seq::empty()
    }));
    let state = if profile.validated_revision.is_none() {
        ContextState::Uninitialized
    } else if current.is_none() || !known || !compared {
        ContextState::Unknown
    } else if changed.len() == 0 {
        ContextState::Valid
    } else {
        ContextState::Dirty
    };
    let mut topics = impacted_topics(
        changed.as_slice(),
        profile.impact_rules.as_slice(),
        profile.library_id.as_str(),
    );
    if topics.len() == 0 && (state == ContextState::Uninitialized || state
        == ContextState::Unknown) {
        topics = all_current_topics(profile.library_id.as_str());
    }
    ContextStatus {
        state,
        project: profile.project.clone(),
        library_id: profile.library_id.clone(),
        repository: profile.repository.clone(),
        validated_revision: copy_optional(&profile.validated_revision),
        current_revision: current,
        branch,
        changed_paths: changed,
        impacted_topics: topics,
        diagnostics,
    }
}

/// The status once all but the comparison of revisions has been observed. Git is
/// asked to compare them only where both are known and differ.
pub open spec fn compared_step(
    profile: ProfileView,
    head: Result<Option<Text>, ErrorView>,
    branch: Option<Text>,
    working: Result<Seq<Text>, ErrorView>,
    rest: Seq<ReplyView>,
) -> StepView<StatusView> {
    match revisions_to_compare(profile.validated_revision, head) {
        None => StepView::Done(Ok(assessed(profile, head, branch, working, Ok(Seq::empty())))),
        Some((from, to)) => if rest.len() == 0 {
            StepView::Run(diff_command(from, to))
        } else {
            StepView::Done(
                Ok(
                    assessed(
                        profile,
                        head,
                        branch,
                        working,
                        answered_paths(diff_command(from, to), rest[0]),
                    ),
                ),
            )
        },
    }
}

/// The status of the project that a profile describes. Git is asked for the
/// current revision, the branch, the working tree, and what lies between the
/// validated and the current revision.
pub open spec fn status_step(profile: ProfileView, replies: Seq<ReplyView>) -> StepView<StatusView> {
    match profile_verdict(profile) {
        Err(error) => StepView::Done(Err(error)),
        Ok(_) => if replies.len() == 0 {
            StepView::Run(head_command())
        } else if replies.len() == 1 {
            StepView::Run(branch_command())
        } else {
            match working_listing(replies.skip(2)) {
                Listing::Pending(arguments) => StepView::Run(arguments),
                Listing::Failed { error, rest } => compared_step(
                    profile,
                    head_revision(replies[0]),
                    branch_name(replies[1]),
                    Err(error),
                    rest,
                ),
                Listing::Listed { paths, rest } => compared_step(
                    profile,
                    head_revision(replies[0]),
                    branch_name(replies[1]),
                    Ok(ascending_list(kept(paths, profile.excluded_prefixes))),
                    rest,
                ),
            }
        },
    }
}

/// The status of a repository without a Library.
pub open spec fn uninitialized(
    repository: Text,
    directory: Option<Text>,
    head: Result<Option<Text>, ErrorView>,
    branch: Option<Text>,
    working: Result<Seq<Text>, ErrorView>,
) -> StatusView {
    StatusView {
        state: ContextState::Uninitialized,
        project: match directory {
            Some(name) => name,
            None => "project"@,
        },
        library_id: "project-context"@,
        repository,
        validated_revision: None,
        current_revision: observed_revision(head),
        branch,
        changed_paths: observed_paths(working),
        impacted_topics: current_topics("project-context"@),
        diagnostics: complaint("failed to resolve current revision: "@, head) + complaint(
            "failed to inspect working tree: "@,
            working,
        ),
    }
}

/// The status of a repository without a Library. Git is asked for the current
/// revision, the working tree and the branch.
pub open spec fn uninitialized_step(
    repository: Text,
    directory: Option<Text>,
    replies: Seq<ReplyView>,
) -> StepView<StatusView> {
    if replies.len() == 0 {
        StepView::Run(head_command())
    } else {
        let head = head_revision(replies[0]);
        match working_listing(replies.skip(1)) {
            Listing::Pending(arguments) => StepView::Run(arguments),
            Listing::Failed { error, rest } => if rest.len() == 0 {
                StepView::Run(branch_command())
            } else {
                StepView::Done(
                    Ok(
                        uninitialized(
                            repository,
                            directory,
                            head,
                            branch_name(rest[0]),
                            Err(error),
                        ),
                    ),
                )
            },
            Listing::Listed { paths, rest } => if rest.len() == 0 {
                StepView::Run(branch_command())
            } else {
                StepView::Done(
                    Ok(
                        uninitialized(
                            repository,
                            directory,
                            head,
                            branch_name(rest[0]),
                            Ok(ascending_list(kept(paths, default_excluded()))),
                        ),
                    ),
                )
            },
        }
    }
}

/// The status of a repository, with the profile that was found in it.
pub open spec fn repository_step(
    repository: Text,
    directory: Option<Text>,
    stored: Option<ProfileView>,
    replies: Seq<ReplyView>,
) -> StepView<StatusView> {
    match stored {
        None => uninitialized_step(repository, directory, replies),
        Some(profile) => match loaded(profile, repository) {
            Err(error) => StepView::Done(Err(error)),
            Ok(profile) => status_step(profile, replies),
        },
    }
}

/// The profile after a checkpoint of `revision`.
pub open spec fn validated_at(profile: ProfileView, revision: Text) -> ProfileView {
    ProfileView { validated_revision: Some(revision), ..profile }
}

/// The profile after a checkpoint. The working tree must hold no change that
/// counts, and the requested revision must be the current one.
pub open spec fn checkpoint_step(
    profile: ProfileView,
    requested: Option<Text>,
    replies: Seq<ReplyView>,
) -> StepView<ProfileView> {
    match working_listing(replies) {
        Listing::Pending(arguments) => StepView::Run(arguments),
        Listing::Failed { error, rest } => StepView::Done(Err(error)),
        Listing::Listed { paths, rest } => {
            let changed = ascending_list(kept(paths, profile.excluded_prefixes));
            if changed.len() > 0 {
                StepView::Done(Err(ErrorView::DirtyWorkingTree { paths: changed }))
            } else if rest.len() == 0 {
                StepView::Run(head_command())
            } else {
                match required_revision(profile.repository, rest[0]) {
                    Err(error) => StepView::Done(Err(error)),
                    Ok(current) => {
                        let wanted = match requested {
                            Some(revision) => revision,
                            None => current,
                        };
                        if rest.len() == 1 {
                            StepView::Run(resolve_command(wanted))
                        } else {
                            match git_text(resolve_command(wanted), rest[1]) {
                                Err(error) => StepView::Done(Err(error)),
                                Ok(resolved) => if resolved == current {
                                    StepView::Done(Ok(validated_at(profile, current)))
                                } else {
                                    StepView::Done(
                                        Err(
                                            ErrorView::RevisionMismatch {
                                                requested: wanted,
                                                resolved,
                                                current,
                                            },
                                        ),
                                    )
                                },
                            }
                        }
                    },
                }
            }
        },
    }
}

/// `list`, or `none` where it is empty.
pub open spec fn listed(list: Seq<Text>, separator: Text) -> Text {
    if list.len() == 0 {
        "none"@
    } else {
        joined(list, separator)
    }
}

/// `item`, or a substitute where it is missing.
pub open spec fn or_else(item: Option<Text>, substitute: Text) -> Text {
    match item {
        Some(value) => value,
        None => substitute,
    }
}

/// The status as a Markdown document.
pub open spec fn markdown(status: StatusView) -> Text {
    "# Project Context Status\n\n- state: "@ + state_name(status.state) + "\n- project: "@
        + status.project + "\n- repository: "@ + status.repository + "\n- branch: "@ + or_else(
        status.branch,
        "<detached-or-unknown>"@,
    ) + "\n- validated revision: "@ + or_else(status.validated_revision, "<none>"@)
        + "\n- current revision: "@ + or_else(status.current_revision, "<none>"@)
        + "\n- changed paths: "@ + listed(status.changed_paths, ", "@) + "\n- impacted topics: "@
        + listed(status.impacted_topics, ", "@) + "\n- diagnostics: "@ + listed(
        status.diagnostics,
        " | "@,
    ) + "\n"@
}

/// The status once all but the comparison of revisions has been observed.
fn compare(
    profile: &Profile,
    head: Result<Option<String>, ContextError>,
    branch: Option<String>,
    working: Result<Vec<String>, ContextError>,
    rest: &[Reply],
) -> (r: Step<ContextStatus>)
    ensures
        step_view(r) == compared_step(
            profile@,
            optional_outcome(head),
            optional_text(branch),
            list_outcome(working),
            replies_view(rest@),
        ),
{
    match (&profile.validated_revision, &head) {
        (Some(from), Ok(Some(to))) => {
            if !same_text(from.as_str(), to.as_str()) {
                if rest.len() == 0 {
                    return Step::Run(diff_arguments(from.as_str(), to.as_str()));
                }
                let committed = changed_paths(from.as_str(), to.as_str(), &rest[0]);
                return Step::Done(Ok(assess(profile, head, branch, working, committed)));
            }
        },
        _ => {},
    }
    let nothing: Vec<String> = Vec::new();
    assert(texts(nothing@) =~= Seq::empty());
    Step::Done(Ok(assess(profile, head, branch, working, Ok(nothing))))
}

/// The replies from `start` on.
fn rest_of(replies: &[Reply], start: usize) -> (r: &[Reply])
    requires
        start <= replies@.len(),
    ensures
        replies_view(r@) == replies_view(replies@).skip(start as int),
{
    let total = replies.len();
    let r = vstd::slice::slice_subrange(replies, start, total);
    assert(replies_view(r@) =~= replies_view(replies@).skip(start as int));
    r
}

/// The status of the project that a profile describes, as far as the replies
/// tell.
pub fn compute_status(profile: &Profile, replies: &[Reply]) -> (r: Step<ContextStatus>)
    ensures
        step_view(r) == status_step(profile@, replies_view(replies@)),
{
    match validate_profile(profile) {
        Err(error) => {
            return Step::Done(Err(error));
        },
        Ok(_) => {},
    }
    if replies.len() == 0 {
        return Step::Run(head_arguments());
    }
    if replies.len() == 1 {
        return Step::Run(branch_arguments());
    }
    let head = current_revision_optional(&replies[0]);
    let branch = current_branch(&replies[1]);
    match list_working_tree(replies, 2) {
        WorkingTree::Pending(arguments) => Step::Run(arguments),
        WorkingTree::Failed { error, used } => compare(
            profile,
            head,
            branch,
            Err(error),
            rest_of(replies, used),
        ),
        WorkingTree::Listed { paths, used } => {
            let working = filter_paths(paths.as_slice(), profile.excluded_prefixes.as_slice());
            compare(profile, head, branch, Ok(working), rest_of(replies, used))
        },
    }
}

/// The view of an optional borrowed string.
pub open spec fn optional_str(item: Option<&str>) -> Option<Text> {
    match item {
        Some(value) => Some(value@),
        None => None,
    }
}

/// The status of a repository without a Library, as far as the replies tell.
pub fn uninitialized_status(
    repository: &str,
    directory: Option<&str>,
    replies: &[Reply],
) -> (r: Step<ContextStatus>)
    ensures
        step_view(r) == uninitialized_step(
            repository@,
            optional_str(directory),
            replies_view(replies@),
        ),
{
    if replies.len() == 0 {
        return Step::Run(head_arguments());
    }
    let mut diagnostics: Vec<String> = Vec::new();
    assert(texts(diagnostics@) =~= Seq::empty());
    let head = current_revision_optional(&replies[0]);
    let ghost observed_head = optional_outcome(head);
    let current = match head {
        Ok(revision) => revision,
        Err(error) => {
            complain(&mut diagnostics, "failed to resolve current revision: ", &error);
            None
        },
    };
    assert(texts(diagnostics@) =~= complaint(
        "failed to resolve current revision: "@,
        observed_head,
    ));
    let ghost so_far = texts(diagnostics@);
    let ghost mut observed_working: Result<Seq<Text>, ErrorView> = Ok(Seq::empty());
    let (changed, used) = match list_working_tree(replies, 1) {
        WorkingTree::Pending(arguments) => {
            return Step::Run(arguments);
        },
        WorkingTree::Failed { error, used } => {
            complain(&mut diagnostics, "failed to inspect working tree: ", &error);
            proof {
                observed_working = Err(error@);
            }
            (Vec::new(), used)
        },
        WorkingTree::Listed { paths, used } => {
            let excluded = default_excluded_prefixes();
            let changed = filter_paths(paths.as_slice(), excluded.as_slice());
            proof {
                observed_working = Ok(texts(changed@));
            }
            (changed, used)
        },
    };
    assert(texts(changed@) =~= observed_paths(observed_working));
    assert(texts(diagnostics@) =~= so_far + complaint(
        "failed to inspect working tree: "@,
        observed_working,
    ));
    if used >= replies.len() {
        return Step::Run(branch_arguments());
    }
    let branch = current_branch(&replies[used]);
    assert(replies_view(replies@).skip(used as int)[0] == replies@[used as int]@);
    let project = match directory {
        Some(name) => name.to_owned(),
        None => "project".to_owned(),
    };
    Step::Done(
        Ok(
            ContextStatus {
                state: ContextState::Uninitialized,
                project,
                library_id: DEFAULT_LIBRARY_ID.to_owned(),
                repository: repository.to_owned(),
                validated_revision: None,
                current_revision: current,
                branch,
                changed_paths: changed,
                impacted_topics: all_current_topics(DEFAULT_LIBRARY_ID),
                diagnostics,
            },
        ),
    )
}

/// The status of a repository, with the profile that was found in it, as far as
/// the replies tell.
pub fn status_for_repository(
    repository: &str,
    directory: Option<&str>,
    stored: Option<&Profile>,
    replies: &[Reply],
) -> (r: Step<ContextStatus>)
    ensures
        step_view(r) == repository_step(
            repository@,
            optional_str(directory),
            match stored {
                Some(profile) => Some(profile@),
                None => None,
            },
            replies_view(replies@),
        ),
{
    match stored {
        None => uninitialized_status(repository, directory, replies),
        Some(profile) => match load_profile_for_repository(profile.clone(), repository) {
            Err(error) => Step::Done(Err(error)),
            Ok(profile) => compute_status(&profile, replies),
        },
    }
}

/// The profile after a checkpoint, as far as the replies tell.
pub fn checkpoint(profile: &Profile, revision: Option<&str>, replies: &[Reply]) -> (r: Step<Profile>)
    ensures
        step_view(r) == checkpoint_step(
            profile@,
            optional_str(revision),
            replies_view(replies@),
        ),
{
    assert(replies_view(replies@).skip(0) =~= replies_view(replies@));
    let (paths, used) = match list_working_tree(replies, 0) {
        WorkingTree::Pending(arguments) => {
            return Step::Run(arguments);
        },
        WorkingTree::Failed { error, used } => {
            return Step::Done(Err(error));
        },
        WorkingTree::Listed { paths, used } => (paths, used),
    };
    let changed = filter_paths(paths.as_slice(), profile.excluded_prefixes.as_slice());
    if changed.len() > 0 {
        return Step::Done(Err(ContextError::DirtyWorkingTree { paths: changed }));
    }
    let rest = rest_of(replies, used);
    if rest.len() == 0 {
        return Step::Run(head_arguments());
    }
    assert(replies_view(rest@)[0] == rest@[0]@);
    let current = match current_revision(profile.repository.as_str(), &rest[0]) {
        Err(error) => {
            return Step::Done(Err(error));
        },
        Ok(current) => current,
    };
    let wanted = match revision {
        Some(revision) => revision.to_owned(),
        None => current.clone(),
    };
    if rest.len() == 1 {
        return Step::Run(resolve_arguments(wanted.as_str()));
    }
    assert(replies_view(rest@)[1] == rest@[1]@);
    match resolve_revision(wanted.as_str(), &rest[1]) {
        Err(error) => Step::Done(Err(error)),
        Ok(resolved) => {
            if !same_text(resolved.as_str(), current.as_str()) {
                return Step::Done(
                    Err(ContextError::RevisionMismatch { requested: wanted, resolved, current }),
                );
            }
            let mut profile = profile.clone();
            profile.validated_revision = Some(current);
            Step::Done(Ok(profile))
        },
    }
}

/// `list`, or `none` where it is empty.
fn list_or_none(list: &Vec<String>, separator: &str) -> (r: String)
    ensures
        r@ == listed(texts(list@), separator@),
{
    if list.len() == 0 {
        "none".to_owned()
    } else {
        join(list, separator)
    }
}

/// `item`, or a substitute where it is missing.
fn text_or<'a>(item: &'a Option<String>, substitute: &'a str) -> (r: &'a str)
    ensures
        r@ == or_else(optional_text(*item), substitute@),
{
    match item {
        Some(value) => value.as_str(),
        None => substitute,
    }
}

/// The status as a Markdown document.
pub fn status_markdown(status: &ContextStatus) -> (r: String)
    ensures
        r@ == markdown(status@),
{
    let changed = list_or_none(&status.changed_paths, ", ");
    let impacted = list_or_none(&status.impacted_topics, ", ");
    let diagnostics = list_or_none(&status.diagnostics, " | ");
    let mut r = "# Project Context Status\n\n- state: ".to_owned();
    r.append(status.state.name());
    r.append("\n- project: ");
    r.append(status.project.as_str());
    r.append("\n- repository: ");
    r.append(status.repository.as_str());
    r.append("\n- branch: ");
    r.append(text_or(&status.branch, "<detached-or-unknown>"));
    r.append("\n- validated revision: ");
    r.append(text_or(&status.validated_revision, "<none>"));
    r.append("\n- current revision: ");
    r.append(text_or(&status.current_revision, "<none>"));
    r.append("\n- changed paths: ");
    r.append(changed.as_str());
    r.append("\n- impacted topics: ");
    r.append(impacted.as_str());
    r.append("\n- diagnostics: ");
    r.append(diagnostics.as_str());
    r.append("\n");
    r
}

proof fn lemma_nothing_kept(paths: Set<Text>, excluded: Seq<Text>)
    requires
        forall|path: Text| #[trigger] paths.contains(path) ==> matches_any(path, excluded),
    ensures
        kept(paths, excluded) == Set::<Text>::empty(),
        ascending_list(kept(paths, excluded)).len() == 0,
{
    assert(kept(paths, excluded) =~= Set::empty());
    let none = Seq::<Text>::empty();
    assert(none.to_set() =~= Set::empty());
    law_ascending_list(none);
}

/// Changes to excluded paths alone, committed or not, leave the knowledge valid:
/// no changed path and no topic is reported.
pub proof fn law_excluded_changes_do_not_count(
    profile: ProfileView,
    head: Text,
    branch: Option<Text>,
    uncommitted: Set<Text>,
    committed: Seq<Text>,
)
    requires
        profile.validated_revision is Some,
        forall|path: Text| #[trigger] uncommitted.contains(path) ==> matches_any(
            path,
            profile.excluded_prefixes,
        ),
        forall|path: Text| #[trigger] committed.contains(path) ==> matches_any(
            path,
            profile.excluded_prefixes,
        ),
    ensures
        ({
            let working = ascending_list(kept(uncommitted, profile.excluded_prefixes));
            let status = assessed(profile, Ok(Some(head)), branch, Ok(working), Ok(committed));
            &&& status.state == ContextState::Valid
            &&& status.changed_paths.len() == 0
            &&& status.impacted_topics.len() == 0
            &&& status.diagnostics.len() == 0
        }),
{
    let excluded = profile.excluded_prefixes;
    let working = ascending_list(kept(uncommitted, excluded));
    lemma_nothing_kept(uncommitted, excluded);
    assert forall|path: Text| #[trigger] committed.to_set().contains(path) implies matches_any(
        path,
        excluded,
    ) by {
        assert(committed.contains(path));
    }
    lemma_nothing_kept(committed.to_set(), excluded);
    let none = Seq::<Text>::empty();
    assert(working =~= none);
    assert(none.to_set() =~= Set::empty());
    law_ascending_list(none);
    assert(kept(committed.to_set(), excluded) + working.to_set() =~= none.to_set());
}

proof fn lemma_changes(
    profile: ProfileView,
    working: Seq<Text>,
    committed: Seq<Text>,
)
    ensures
        ({
            let all = kept(committed.to_set(), profile.excluded_prefixes) + working.to_set();
            ascending(ascending_list(all)) && ascending_list(all).to_set() == all
        }),
{
    let counted = lemma_kept_list(committed, profile.excluded_prefixes);
    lemma_concat_set(counted, working);
    law_ascending_list_exists(counted + working);
}

/// A change that counts, uncommitted or committed since the validated revision,
/// makes the knowledge dirty and is reported.
pub proof fn law_counted_changes_make_dirty(
    profile: ProfileView,
    head: Text,
    branch: Option<Text>,
    working: Seq<Text>,
    committed: Seq<Text>,
    path: Text,
)
    requires
        profile.validated_revision is Some,
        ({
            ||| working.contains(path)
            ||| profile.validated_revision != Some(head) && committed.contains(path)
                && !matches_any(path, profile.excluded_prefixes)
        }),
    ensures
        ({
            let status = assessed(profile, Ok(Some(head)), branch, Ok(working), Ok(committed));
            &&& status.state == ContextState::Dirty
            &&& status.changed_paths.contains(path)
            &&& status.impacted_topics.len() > 0
        }),
{
    let changed = changes_since(profile, Ok(Some(head)), Ok(working), Ok(committed));
    let all = kept(committed.to_set(), profile.excluded_prefixes) + working.to_set();
    lemma_changes(profile, working, committed);
    if profile.validated_revision == Some(head) {
        assert(changed == working);
    } else {
        assert(all.contains(path));
        assert(changed.to_set().contains(path));
    }
    assert(changed.contains(path));
    law_changes_concern_some_topic(changed, profile.impact_rules, profile.library_id);
}

/// Where Git cannot tell the current revision, the working tree or the
/// difference between the revisions, the knowledge of a checkpointed project is
/// of unknown freshness, whatever else was observed.
pub proof fn law_git_failures_are_unknown(
    profile: ProfileView,
    head: Result<Option<Text>, ErrorView>,
    branch: Option<Text>,
    working: Result<Seq<Text>, ErrorView>,
    committed: Result<Seq<Text>, ErrorView>,
)
    requires
        profile.validated_revision is Some,
        ({
            ||| head is Err
            ||| working is Err
            ||| revisions_to_compare(profile.validated_revision, head) is Some && committed is Err
        }),
    ensures
        ({
            let status = assessed(profile, head, branch, working, committed);
            &&& status.state == ContextState::Unknown
            &&& status.impacted_topics.len() > 0
            &&& status.diagnostics.len() > 0
        }),
{
}

/// Topics are reported exactly where the knowledge is not valid, and a valid
/// project has no changed paths.
pub proof fn law_topics_unless_valid(
    profile: ProfileView,
    head: Result<Option<Text>, ErrorView>,
    branch: Option<Text>,
    working: Result<Seq<Text>, ErrorView>,
    committed: Result<Seq<Text>, ErrorView>,
)
    ensures
        ({
            let status = assessed(profile, head, branch, working, committed);
            &&& status.state == ContextState::Valid <==> status.impacted_topics.len() == 0
            &&& status.state == ContextState::Valid ==> status.changed_paths.len() == 0
        }),
{
    let changed = changes_since(profile, head, working, committed);
    if changed.len() > 0 {
        law_changes_concern_some_topic(changed, profile.impact_rules, profile.library_id);
    }
}

/// A listing takes one reply for each of its commands.
proof fn lemma_listing_rest(k: int, replies: Seq<ReplyView>, found: Set<Text>)
    requires
        0 <= k <= 3,
    ensures
        match listing(k, replies, found) {
            Listing::Pending(_) => replies.len() < 3 - k,
            Listing::Failed { error, rest } => exists|n: int|
                0 < n <= 3 - k && n <= replies.len() && rest == #[trigger] replies.skip(n),
            Listing::Listed { paths, rest } => replies.len() >= 3 - k && rest == replies.skip(
                3 - k,
            ),
        },
    decreases 3 - k,
{
    if k < 3 && replies.len() > 0 {
        let tail = replies.skip(1);
        match answered_paths(working_command(k), replies[0]) {
            Err(error) => {
                assert(listing(k, replies, found) == Listing::Failed { error, rest: tail });
            },
            Ok(paths) => {
                let more = found + paths.to_set();
                lemma_listing_rest(k + 1, tail, more);
                assert(listing(k, replies, found) == listing(k + 1, tail, more));
                if let Listing::Failed { error, rest } = listing(k + 1, tail, more) {
                    let n = choose|n: int|
                        0 < n <= 2 - k && n <= tail.len() && rest == #[trigger] tail.skip(n);
                    assert(tail.skip(n) =~= replies.skip(n + 1));
                }
                if let Listing::Listed { paths, rest } = listing(k + 1, tail, more) {
                    assert(tail.skip(2 - k) =~= replies.skip(3 - k));
                }
            },
        }
    } else if k == 3 {
        assert(replies.skip(0) =~= replies);
    }
}

/// A successful checkpoint records the current revision and changes nothing else
/// of the profile; with that revision and no change that counts, the knowledge
/// is then valid.
pub proof fn law_checkpoint_makes_valid(
    profile: ProfileView,
    requested: Option<Text>,
    replies: Seq<ReplyView>,
    branch: Option<Text>,
    committed: Result<Seq<Text>, ErrorView>,
)
    requires
        checkpoint_step(profile, requested, replies) matches StepView::Done(Ok(_)),
    ensures
        ({
            let head = head_revision(replies[3]);
            &&& head matches Ok(Some(revision)) && checkpoint_step(profile, requested, replies)
                == StepView::<ProfileView>::Done(Ok(validated_at(profile, revision)))
            &&& assessed(
                validated_at(profile, head->Ok_0->Some_0),
                head,
                branch,
                Ok(Seq::empty()),
                committed,
            ).state == ContextState::Valid
        }),
{
    lemma_listing_rest(0, replies, Set::empty());
}

/// A checkpoint is refused where the working tree holds a change that counts,
/// and the refusal names it.
pub proof fn law_checkpoint_refuses_changes(
    profile: ProfileView,
    requested: Option<Text>,
    replies: Seq<ReplyView>,
    path: Text,
)
    requires
        working_listing(replies) matches Listing::Listed { paths, rest } && paths.contains(path),
        !matches_any(path, profile.excluded_prefixes),
    ensures
        checkpoint_step(profile, requested, replies) matches StepView::Done(
            Err(ErrorView::DirtyWorkingTree { paths }),
        ) && paths.contains(path),
{
    let paths = working_listing(replies)->Listed_paths;
    let members = lemma_listing_members(0, replies, Seq::empty());
    let counted = lemma_kept_list(members, profile.excluded_prefixes);
    law_ascending_list_exists(counted);
    let changed = ascending_list(kept(paths, profile.excluded_prefixes));
    assert(changed.to_set().contains(path));
}

/// The paths of a listing form a list.
proof fn lemma_listing_members(k: int, replies: Seq<ReplyView>, found: Seq<Text>) -> (members: Seq<
    Text,
>)
    requires
        0 <= k <= 3,
    ensures
        listing(k, replies, found.to_set()) matches Listing::Listed { paths, rest }
            ==> members.to_set() == paths,
        k == 0 && found.len() == 0 ==> listing(k, replies, found.to_set()) == working_listing(
            replies,
        ),
    decreases 3 - k,
{
    if found.len() == 0 {
        assert(found.to_set() =~= Set::empty());
    }
    if k < 3 && replies.len() > 0 {
        match answered_paths(working_command(k), replies[0]) {
            Err(error) => found,
            Ok(paths) => {
                lemma_concat_set(found, paths);
                lemma_listing_members(k + 1, replies.skip(1), found + paths)
            },
        }
    } else {
        found
    }
}

/// Six replies are always enough to know the status, five to decide on a
/// checkpoint.
pub proof fn law_conversations_end(
    profile: ProfileView,
    requested: Option<Text>,
    repository: Text,
    directory: Option<Text>,
    replies: Seq<ReplyView>,
)
    ensures
        replies.len() >= 6 ==> status_step(profile, replies) is Done,
        replies.len() >= 5 ==> uninitialized_step(repository, directory, replies) is Done,
        replies.len() >= 5 ==> checkpoint_step(profile, requested, replies) is Done,
{
    lemma_listing_rest(0, replies, Set::empty());
    if replies.len() >= 1 {
        lemma_listing_rest(0, replies.skip(1), Set::empty());
    }
    if replies.len() >= 2 {
        lemma_listing_rest(0, replies.skip(2), Set::empty());
    }
}

/// A new Library describes a project that was never checkpointed, whatever Git
/// says, and all that concerns it is to be established.
pub proof fn law_new_library_is_uninitialized(
    project: Option<Text>,
    directory: Option<Text>,
    id: Text,
    repository: Text,
    head: Result<Option<Text>, ErrorView>,
    branch: Option<Text>,
    working: Result<Seq<Text>, ErrorView>,
    committed: Result<Seq<Text>, ErrorView>,
)
    ensures
        ({
            let profile = bound(new_profile_view(project, directory, id), repository);
            let status = assessed(profile, head, branch, working, committed);
            &&& status.state == ContextState::Uninitialized
            &&& status.impacted_topics.len() > 0
        }),
{
    let profile = bound(new_profile_view(project, directory, id), repository);
    law_topics_unless_valid(profile, head, branch, working, committed);
}

/// What a checkpoint stores of a valid profile is valid, and is loaded again as
/// the same profile wherever the repository is found.
pub proof fn law_checkpoint_can_be_stored(profile: ProfileView, revision: Text, repository: Text)
    requires
        profile_verdict(profile) is Ok,
    ensures
        saved(validated_at(profile, revision)) matches Ok(stored) && loaded(stored, repository)
            == Ok::<ProfileView, ErrorView>(bound(validated_at(profile, revision), repository)),
{
}

/// The answer about the commits between two revisions names this path, and no
/// excluded prefix matches it.
pub open spec fn committed_since(reply: ReplyView, excluded: Seq<Text>, path: Text) -> bool {
    &&& told(reply) matches Some(text) && text_names(text, path)
    &&& forall|i: int| 0 <= i < excluded.len() ==> !path_matches(path, #[trigger] excluded[i])
}

/// What is taken over from the profile and from Git into every status.
pub open spec fn faithful(status: StatusView, profile: ProfileView, replies: Seq<ReplyView>) -> bool {
    &&& status.project == profile.project
    &&& status.library_id == profile.library_id
    &&& status.repository == profile.repository
    &&& status.validated_revision == profile.validated_revision
    &&& status.current_revision == named(replies[0])
    &&& status.branch == named(replies[1])
}

proof fn lemma_listed_step(profile: ProfileView, replies: Seq<ReplyView>)
    requires
        profile_verdict(profile) is Ok,
        tree_told(replies, 2),
    ensures
        ({
            let list = ascending_list(
                kept(
                    working_listing(replies.skip(2))->Listed_paths,
                    profile.excluded_prefixes,
                ),
            );
            &&& status_step(profile, replies) == compared_step(
                profile,
                head_revision(replies[0]),
                branch_name(replies[1]),
                Ok(list),
                replies.skip(5),
            )
            &&& ascending(list)
            &&& forall|path: Text| #[trigger]
                list.contains(path) <==> uncommitted(
                    replies,
                    2,
                    profile.excluded_prefixes,
                    path,
                )
        }),
{
    let rest = replies.skip(2);
    let excluded = profile.excluded_prefixes;
    lemma_uncommitted_shift(replies, 2, excluded, Seq::empty());
    lemma_listing_told(rest);
    lemma_uncommitted(rest, excluded);
    assert(rest.skip(3) =~= replies.skip(5));
    let list = ascending_list(kept(working_listing(rest)->Listed_paths, excluded));
    assert forall|path: Text| #[trigger] list.contains(path) <==> uncommitted(
        replies,
        2,
        excluded,
        path,
    ) by {
        lemma_uncommitted_shift(replies, 2, excluded, path);
    }
}

proof fn lemma_compared_paths(
    profile: ProfileView,
    working: Seq<Text>,
    reply: ReplyView,
    arguments: Seq<Text>,
)
    requires
        told(reply) is Some,
    ensures
        ({
            let committed = answered_paths(arguments, reply)->Ok_0;
            let all = ascending_list(
                kept(committed.to_set(), profile.excluded_prefixes) + working.to_set(),
            );
            &&& answered_paths(arguments, reply) is Ok
            &&& ascending(all)
            &&& forall|path: Text| #[trigger]
                all.contains(path) <==> working.contains(path) || committed_since(
                    reply,
                    profile.excluded_prefixes,
                    path,
                )
        }),
{
    let committed = answered_paths(arguments, reply)->Ok_0;
    law_answered_paths_are_lines(arguments, reply, Seq::empty());
    lemma_changes(profile, working, committed);
    let set = kept(committed.to_set(), profile.excluded_prefixes) + working.to_set();
    let all = ascending_list(set);
    assert forall|path: Text| #[trigger] all.contains(path) <==> working.contains(path)
        || committed_since(reply, profile.excluded_prefixes, path) by {
        law_answered_paths_are_lines(arguments, reply, path);
        law_kept_paths_match_no_prefix(committed.to_set(), profile.excluded_prefixes, path);
        assert(all.contains(path) <==> all.to_set().contains(path));
        assert(committed.to_set().contains(path) <==> committed.contains(path));
        assert(working.to_set().contains(path) <==> working.contains(path));
    }
}

/// Where Git answers every question, the status reports exactly what changed: the
/// paths that are unstaged, staged or untracked, and those committed since the
/// validated revision where that is not the current one, but none that an excluded
/// prefix matches. The knowledge is dirty where there is such a path and valid where
/// there is none; a project that was never validated is uninitialized.
pub proof fn law_status_reports_exactly_what_changed(
    profile: ProfileView,
    replies: Seq<ReplyView>,
)
    requires
        profile_verdict(profile) is Ok,
        named(replies[0]) is Some,
        tree_told(replies, 2),
        profile.validated_revision is Some && profile.validated_revision != named(replies[0])
            ==> replies.len() >= 6 && told(replies[5]) is Some,
    ensures
        ({
            let validated = profile.validated_revision;
            let excluded = profile.excluded_prefixes;
            let compared = validated is Some && validated != named(replies[0]);
            &&& status_step(profile, replies) matches StepView::Done(Ok(status)) && {
                &&& faithful(status, profile, replies)
                &&& status.diagnostics.len() == 0
                &&& ascending(status.changed_paths)
                &&& forall|path: Text| #[trigger]
                    status.changed_paths.contains(path) <==> uncommitted(replies, 2, excluded, path)
                        || (compared && committed_since(replies[5], excluded, path))
                &&& validated is None ==> status.state == ContextState::Uninitialized
                &&& validated is Some && status.changed_paths.len() > 0 ==> status.state
                    == ContextState::Dirty
                &&& validated is Some && status.changed_paths.len() == 0 ==> status.state
                    == ContextState::Valid
                &&& status.state == ContextState::Uninitialized && status.changed_paths.len() == 0
                    ==> status.impacted_topics == current_topics(profile.library_id)
                &&& status.state != ContextState::Uninitialized || status.changed_paths.len() > 0
                    ==> status.impacted_topics == affected_topics(
                    status.changed_paths,
                    profile.impact_rules,
                    profile.library_id,
                )
            }
        }),
{
    lemma_listed_step(profile, replies);
    law_revision_and_branch_are_what_git_told(Seq::empty(), replies[0]);
    law_revision_and_branch_are_what_git_told(Seq::empty(), replies[1]);
    let list = ascending_list(
        kept(working_listing(replies.skip(2))->Listed_paths, profile.excluded_prefixes),
    );
    let head = head_revision(replies[0]);
    if let Some((from, to)) = revisions_to_compare(profile.validated_revision, head) {
        assert(replies.skip(5)[0] == replies[5]);
        lemma_compared_paths(profile, list, replies[5], diff_command(from, to));
    }
    let status = status_step(profile, replies)->Done_0->Ok_0;
    if status.changed_paths.len() > 0 {
        law_changes_concern_some_topic(
            status.changed_paths,
            profile.impact_rules,
            profile.library_id,
        );
    }
}

/// A change in the working tree that counts is in the status of a validated project,
/// whatever else Git says: the knowledge is dirty, or of unknown freshness where the
/// current revision or the commits since the validated one cannot be told.
pub proof fn law_uncommitted_changes_are_reported(
    profile: ProfileView,
    replies: Seq<ReplyView>,
    path: Text,
)
    requires
        profile_verdict(profile) is Ok,
        profile.validated_revision is Some,
        tree_told(replies, 2),
        uncommitted(replies, 2, profile.excluded_prefixes, path),
        status_step(profile, replies) is Done,
    ensures
        status_step(profile, replies) matches StepView::Done(Ok(status)) && {
            &&& status.changed_paths.contains(path)
            &&& status.impacted_topics.len() > 0
            &&& status.state == ContextState::Dirty || status.state == ContextState::Unknown
            &&& status.state == ContextState::Unknown <==> named(replies[0]) is None || (
            profile.validated_revision != named(replies[0]) && told(replies[5]) is None)
        },
{
    lemma_listed_step(profile, replies);
    law_revision_and_branch_are_what_git_told(Seq::empty(), replies[0]);
    let list = ascending_list(
        kept(working_listing(replies.skip(2))->Listed_paths, profile.excluded_prefixes),
    );
    assert(list.contains(path));
    let head = head_revision(replies[0]);
    if let Some((from, to)) = revisions_to_compare(profile.validated_revision, head) {
        assert(replies.skip(5)[0] == replies[5]);
        law_answered_paths_are_lines(diff_command(from, to), replies[5], path);
        if told(replies[5]) is Some {
            lemma_compared_paths(profile, list, replies[5], diff_command(from, to));
        }
    }
    let status = status_step(profile, replies)->Done_0->Ok_0;
    assert(status.changed_paths.contains(path));
    law_changes_concern_some_topic(status.changed_paths, profile.impact_rules, profile.library_id);
}

/// Where Git does not tell the current revision, or the working tree, or what was
/// committed since the validated revision, the knowledge of a validated project is of
/// unknown freshness, and there are topics to look at. What could be observed of the
/// working tree is reported.
pub proof fn law_silence_leaves_the_freshness_unknown(
    profile: ProfileView,
    replies: Seq<ReplyView>,
)
    requires
        profile_verdict(profile) is Ok,
        profile.validated_revision is Some,
        replies.len() >= 6,
        ({
            ||| named(replies[0]) is None
            ||| !tree_told(replies, 2)
            ||| profile.validated_revision != named(replies[0]) && told(replies[5]) is None
        }),
    ensures
        status_step(profile, replies) matches StepView::Done(Ok(status)) && {
            &&& status.state == ContextState::Unknown
            &&& status.impacted_topics.len() > 0
            &&& faithful(status, profile, replies)
            &&& tree_told(replies, 2) ==> forall|path: Text| #[trigger]
                status.changed_paths.contains(path) <==> uncommitted(
                    replies,
                    2,
                    profile.excluded_prefixes,
                    path,
                ) || (named(replies[0]) is Some && profile.validated_revision != named(replies[0])
                    && committed_since(replies[5], profile.excluded_prefixes, path))
        },
{
    law_conversations_end(profile, None, profile.repository, None, replies);
    law_revision_and_branch_are_what_git_told(Seq::empty(), replies[0]);
    law_revision_and_branch_are_what_git_told(Seq::empty(), replies[1]);
    lemma_uncommitted_shift(replies, 2, profile.excluded_prefixes, Seq::empty());
    lemma_listing_told(replies.skip(2));
    let head = head_revision(replies[0]);
    if tree_told(replies, 2) {
        lemma_listed_step(profile, replies);
        if let Some((from, to)) = revisions_to_compare(profile.validated_revision, head) {
            assert(replies.skip(5)[0] == replies[5]);
            law_answered_paths_are_lines(diff_command(from, to), replies[5], Seq::empty());
        }
    }
    let status = status_step(profile, replies)->Done_0->Ok_0;
    assert(status.state == ContextState::Unknown);
    if status.changed_paths.len() > 0 {
        law_changes_concern_some_topic(
            status.changed_paths,
            profile.impact_rules,
            profile.library_id,
        );
    }
}

/// A project that was never validated is uninitialized, whatever Git says, and has
/// topics to establish. An invalid profile has no status at all.
pub proof fn law_status_without_a_checkpoint(profile: ProfileView, replies: Seq<ReplyView>)
    ensures
        profile_verdict(profile) matches Err(error) ==> status_step(profile, replies)
            == StepView::<StatusView>::Done(Err(error)),
        profile_verdict(profile) is Ok && status_step(profile, replies) is Done ==> status_step(
            profile,
            replies,
        )->Done_0 is Ok,
        profile_verdict(profile) is Ok && profile.validated_revision is None && replies.len() >= 5
            ==> (status_step(profile, replies) matches StepView::Done(Ok(status)) && {
            &&& status.state == ContextState::Uninitialized
            &&& status.impacted_topics.len() > 0
            &&& faithful(status, profile, replies)
            &&& tree_told(replies, 2) ==> forall|path: Text| #[trigger]
                status.changed_paths.contains(path) <==> uncommitted(
                    replies,
                    2,
                    profile.excluded_prefixes,
                    path,
                )
        }),
{
    if profile_verdict(profile) is Ok && profile.validated_revision is None && replies.len() >= 5 {
        law_revision_and_branch_are_what_git_told(Seq::empty(), replies[0]);
        law_revision_and_branch_are_what_git_told(Seq::empty(), replies[1]);
        lemma_uncommitted_shift(replies, 2, profile.excluded_prefixes, Seq::empty());
        lemma_listing_told(replies.skip(2));
        if tree_told(replies, 2) {
            lemma_listed_step(profile, replies);
        }
        let status = status_step(profile, replies)->Done_0->Ok_0;
        if status.changed_paths.len() > 0 {
            law_changes_concern_some_topic(
                status.changed_paths,
                profile.impact_rules,
                profile.library_id,
            );
        }
    }
}

/// What Git is asked for the status, in this order: the current revision, the branch,
/// the unstaged, the staged and the untracked paths, and what was committed between
/// the validated and the current revision, where these differ.
pub proof fn law_status_asks_git(profile: ProfileView, replies: Seq<ReplyView>)
    requires
        profile_verdict(profile) is Ok,
        tree_told(replies, 2),
    ensures
        status_step(profile, Seq::empty()) == StepView::<StatusView>::Run(
            seq!["rev-parse"@, "--verify"@, "--quiet"@, "HEAD"@],
        ),
        status_step(profile, replies.take(1)) == StepView::<StatusView>::Run(
            seq!["symbolic-ref"@, "--short"@, "-q"@, "HEAD"@],
        ),
        status_step(profile, replies.take(2)) == StepView::<StatusView>::Run(
            seq!["diff"@, "--name-only"@],
        ),
        status_step(profile, replies.take(3)) == StepView::<StatusView>::Run(
            seq!["diff"@, "--cached"@, "--name-only"@],
        ),
        status_step(profile, replies.take(4)) == StepView::<StatusView>::Run(
            seq!["ls-files"@, "--others"@, "--exclude-standard"@],
        ),
        status_step(profile, replies.take(5)) == (match (
            profile.validated_revision,
            named(replies[0]),
        ) {
            (Some(from), Some(to)) if from != to => StepView::<StatusView>::Run(
                seq!["diff"@, "--find-renames"@, "--name-only"@, from + ".."@ + to, "--"@],
            ),
            _ => status_step(profile, replies),
        }),
{
    law_revision_and_branch_are_what_git_told(Seq::empty(), replies[0]);
    let (two, three, four, five) = (
        replies.take(2),
        replies.take(3),
        replies.take(4),
        replies.take(5),
    );
    assert(two.skip(2) =~= Seq::<ReplyView>::empty());
    assert(three.skip(2)[0] == replies[2]);
    assert(four.skip(2)[0] == replies[2] && four.skip(2)[1] == replies[3]);
    lemma_listing_told(two.skip(2));
    lemma_listing_told(three.skip(2));
    lemma_listing_told(four.skip(2));
    assert(five[0] == replies[0] && five[1] == replies[1]);
    assert(five[2] == replies[2] && five[3] == replies[3] && five[4] == replies[4]);
    lemma_listed_step(profile, replies);
    lemma_listed_step(profile, five);
    assert(five.skip(5) =~= Seq::<ReplyView>::empty());
    let excluded = profile.excluded_prefixes;
    let a = ascending_list(kept(working_listing(replies.skip(2))->Listed_paths, excluded));
    let b = ascending_list(kept(working_listing(five.skip(2))->Listed_paths, excluded));
    assert forall|path: Text| a.to_set().contains(path) <==> b.to_set().contains(path) by {
        assert(a.contains(path) <==> uncommitted(replies, 2, excluded, path));
        assert(b.contains(path) <==> uncommitted(five, 2, excluded, path));
        lemma_same_uncommitted(replies, five, 2, excluded, path);
    }
    assert(a.to_set() =~= b.to_set());
    law_ascending_unique(a, b);
}

proof fn lemma_same_uncommitted(
    a: Seq<ReplyView>,
    b: Seq<ReplyView>,
    start: int,
    excluded: Seq<Text>,
    path: Text,
)
    requires
        a[start] == b[start],
        a[start + 1] == b[start + 1],
        a[start + 2] == b[start + 2],
    ensures
        uncommitted(a, start, excluded, path) == uncommitted(b, start, excluded, path),
{
    assert(a[start + 0] == b[start + 0]);
    if uncommitted(a, start, excluded, path) {
        let k = choose|k: int|
            0 <= k < 3 && told(#[trigger] a[start + k]) is Some && text_names(
                told(a[start + k])->Some_0,
                path,
            );
        assert(told(b[start + k]) is Some && text_names(told(b[start + k])->Some_0, path));
    }
    if uncommitted(b, start, excluded, path) {
        let k = choose|k: int|
            0 <= k < 3 && told(#[trigger] b[start + k]) is Some && text_names(
                told(b[start + k])->Some_0,
                path,
            );
        assert(told(a[start + k]) is Some && text_names(told(a[start + k])->Some_0, path));
    }
}

/// A checkpoint succeeds exactly where it should: no uncommitted path counts, Git
/// names the current revision, and the revision that is asked for, or else the
/// current one, resolves to it. The profile is then the same but for its validated
/// revision, whatever that was before.
pub proof fn law_checkpoint_succeeds_exactly_when_clean_and_current(
    profile: ProfileView,
    requested: Option<Text>,
    replies: Seq<ReplyView>,
)
    requires
        replies.len() >= 5,
        tree_told(replies, 0),
    ensures
        ({
            let excluded = profile.excluded_prefixes;
            let clean = forall|path: Text| !#[trigger] uncommitted(replies, 0, excluded, path);
            let step = checkpoint_step(profile, requested, replies);
            &&& !clean ==> (step matches StepView::Done(
                Err(ErrorView::DirtyWorkingTree { paths }),
            ) && ascending(paths) && forall|path: Text| #[trigger]
                paths.contains(path) <==> uncommitted(replies, 0, excluded, path))
            &&& clean && named(replies[3]) is None ==> step is Done && step->Done_0 is Err
            &&& clean && named(replies[3]) is Some ==> ({
                let current = named(replies[3])->Some_0;
                match told(replies[4]) {
                    None => step is Done && step->Done_0 is Err,
                    Some(text) => if trimmed(text) == current {
                        step == StepView::<ProfileView>::Done(
                            Ok(ProfileView { validated_revision: Some(current), ..profile }),
                        )
                    } else {
                        step == StepView::<ProfileView>::Done(
                            Err(
                                ErrorView::RevisionMismatch {
                                    requested: match requested {
                                        Some(revision) => revision,
                                        None => current,
                                    },
                                    resolved: trimmed(text),
                                    current,
                                },
                            ),
                        )
                    },
                }
            })
        }),
{
    let excluded = profile.excluded_prefixes;
    lemma_listing_told(replies);
    lemma_uncommitted(replies, excluded);
    let changed = ascending_list(kept(working_listing(replies)->Listed_paths, excluded));
    let rest = replies.skip(3);
    assert(rest[0] == replies[3] && rest[1] == replies[4]);
    law_revision_and_branch_are_what_git_told(profile.repository, replies[3]);
    if changed.len() > 0 {
        assert(changed.contains(changed[0]));
        assert(uncommitted(replies, 0, excluded, changed[0]));
    } else {
        assert forall|path: Text| !#[trigger] uncommitted(replies, 0, excluded, path) by {
            assert(!changed.contains(path));
        }
    }
}

/// What Git is asked for a checkpoint: the working tree, the current revision, and
/// what the revision that is asked for, or else the current one, resolves to. Where
/// the working tree cannot be told, there is no checkpoint.
pub proof fn law_checkpoint_asks_git(
    profile: ProfileView,
    requested: Option<Text>,
    replies: Seq<ReplyView>,
)
    ensures
        replies.len() >= 3 && !tree_told(replies, 0) ==> checkpoint_step(
            profile,
            requested,
            replies,
        ) matches StepView::Done(Err(_)),
        checkpoint_step(profile, requested, Seq::empty()) == StepView::<ProfileView>::Run(
            seq!["diff"@, "--name-only"@],
        ),
        replies.len() == 1 && told(replies[0]) is Some ==> checkpoint_step(
            profile,
            requested,
            replies,
        ) == StepView::<ProfileView>::Run(seq!["diff"@, "--cached"@, "--name-only"@]),
        replies.len() == 2 && told(replies[0]) is Some && told(replies[1]) is Some
            ==> checkpoint_step(profile, requested, replies) == StepView::<ProfileView>::Run(
            seq!["ls-files"@, "--others"@, "--exclude-standard"@],
        ),
        tree_told(replies, 0) && (forall|path: Text|
            !#[trigger] uncommitted(replies, 0, profile.excluded_prefixes, path)) ==> {
            &&& replies.len() == 3 ==> checkpoint_step(profile, requested, replies) == StepView::<
                ProfileView,
            >::Run(seq!["rev-parse"@, "--verify"@, "--quiet"@, "HEAD"@])
            &&& replies.len() == 4 && named(replies[3]) is Some && requested is None
                ==> checkpoint_step(profile, requested, replies) == StepView::<ProfileView>::Run(
                seq!["rev-parse"@, "--verify"@, named(replies[3])->Some_0 + "^{commit}"@],
            )
            &&& replies.len() == 4 && named(replies[3]) is Some && requested is Some
                ==> checkpoint_step(profile, requested, replies) == StepView::<ProfileView>::Run(
                seq!["rev-parse"@, "--verify"@, requested->Some_0 + "^{commit}"@],
            )
        },
{
    lemma_listing_told(Seq::empty());
    lemma_listing_told(replies);
    if tree_told(replies, 0) {
        let excluded = profile.excluded_prefixes;
        lemma_uncommitted(replies, excluded);
        let changed = ascending_list(kept(working_listing(replies)->Listed_paths, excluded));
        if changed.len() > 0 {
            assert(changed.contains(changed[0]));
            assert(uncommitted(replies, 0, excluded, changed[0]));
        }
        let rest = replies.skip(3);
        if replies.len() == 4 && changed.len() == 0 && named(replies[3]) is Some {
            let current = named(replies[3])->Some_0;
            let wanted = match requested {
                Some(revision) => revision,
                None => current,
            };
            assert(rest.len() == 1 && rest[0] == replies[3]);
            law_revision_and_branch_are_what_git_told(profile.repository, replies[3]);
            assert(required_revision(profile.repository, rest[0]) == Ok::<Text, ErrorView>(
                current,
            ));
            assert(checkpoint_step(profile, requested, replies) == StepView::<ProfileView>::Run(
                resolve_command(wanted),
            ));
        }
    }
}

/// A repository without a Library is uninitialized, whatever Git says: all current
/// topics are to be established, and the uncommitted paths that do not belong to a
/// Library are reported, as far as they can be told.
pub proof fn law_repositories_without_a_library(
    repository: Text,
    directory: Option<Text>,
    replies: Seq<ReplyView>,
)
    requires
        replies.len() >= 5,
    ensures
        uninitialized_step(repository, directory, replies) matches StepView::Done(Ok(status)) && {
            &&& status.state == ContextState::Uninitialized
            &&& status.repository == repository
            &&& directory matches Some(name) ==> status.project == name
            &&& directory is None ==> status.project == "project"@
            &&& status.library_id == "project-context"@
            &&& status.validated_revision is None
            &&& status.current_revision == named(replies[0])
            &&& status.impacted_topics == current_topics("project-context"@)
            &&& tree_told(replies, 1) ==> {
                &&& status.branch == named(replies[4])
                &&& ascending(status.changed_paths)
                &&& forall|path: Text| #[trigger]
                    status.changed_paths.contains(path) <==> uncommitted(
                        replies,
                        1,
                        default_excluded(),
                        path,
                    )
            }
            &&& !tree_told(replies, 1) ==> status.changed_paths.len() == 0
                && status.diagnostics.len() > 0
        },
{
    let rest = replies.skip(1);
    let excluded = default_excluded();
    law_conversations_end(
        new_profile_view(None, None, repository),
        None,
        repository, directory, replies);
    law_revision_and_branch_are_what_git_told(Seq::empty(), replies[0]);
    lemma_uncommitted_shift(replies, 1, excluded, Seq::empty());
    lemma_listing_told(rest);
    lemma_listing_rest(0, rest, Set::empty());
    if tree_told(replies, 1) {
        lemma_uncommitted(rest, excluded);
        assert(rest.skip(3)[0] == replies[4]);
        law_revision_and_branch_are_what_git_told(Seq::empty(), replies[4]);
        let list = ascending_list(kept(working_listing(rest)->Listed_paths, excluded));
        assert forall|path: Text| #[trigger] list.contains(path) <==> uncommitted(
            replies,
            1,
            excluded,
            path,
        ) by {
            lemma_uncommitted_shift(replies, 1, excluded, path);
        }
    }
}

/// The status of a repository is that of the profile that was found in it, for this
/// repository; without one it is that of a repository without a Library.
pub proof fn law_status_of_a_repository(
    repository: Text,
    directory: Option<Text>,
    profile: ProfileView,
    replies: Seq<ReplyView>,
)
    ensures
        profile_verdict(profile) is Ok ==> repository_step(
            repository,
            directory,
            Some(profile),
            replies,
        ) == status_step(ProfileView { repository, ..profile }, replies),
        profile_verdict(profile) matches Err(error) ==> repository_step(
            repository,
            directory,
            Some(profile),
            replies,
        ) == StepView::<StatusView>::Done(Err(error)),
        replies.len() >= 5 ==> (repository_step(repository, directory, None, replies) matches
            StepView::Done(Ok(status)) && status.state == ContextState::Uninitialized
            && status.repository == repository),
{
    law_profiles_are_kept_whole(profile, repository);
    if replies.len() >= 5 {
        law_repositories_without_a_library(repository, directory, replies);
    }
}

/// The status document shows every part of the status on a line of its own: the state
/// by its name, what is missing by a substitute, and lists by their items.
pub proof fn law_status_document_shows_every_part(status: StatusView)
    ensures
        ({
            let shown = markdown(status);
            &&& contains_text(shown, "\n- state: "@ + state_name(status.state) + "\n"@)
            &&& contains_text(shown, "\n- project: "@ + status.project + "\n"@)
            &&& contains_text(shown, "\n- repository: "@ + status.repository + "\n"@)
            &&& status.branch matches Some(name) ==> contains_text(
                shown,
                "\n- branch: "@ + name + "\n"@,
            )
            &&& status.branch is None ==> contains_text(
                shown,
                "\n- branch: "@ + "<detached-or-unknown>"@ + "\n"@,
            )
            &&& status.validated_revision matches Some(revision) ==> contains_text(
                shown,
                "\n- validated revision: "@ + revision + "\n"@,
            )
            &&& status.validated_revision is None ==> contains_text(
                shown,
                "\n- validated revision: "@ + "<none>"@ + "\n"@,
            )
            &&& status.current_revision matches Some(revision) ==> contains_text(
                shown,
                "\n- current revision: "@ + revision + "\n"@,
            )
            &&& status.current_revision is None ==> contains_text(
                shown,
                "\n- current revision: "@ + "<none>"@ + "\n"@,
            )
            &&& contains_text(
                shown,
                "\n- changed paths: "@ + shown_list(status.changed_paths, ", "@) + "\n"@,
            )
            &&& contains_text(
                shown,
                "\n- impacted topics: "@ + shown_list(status.impacted_topics, ", "@) + "\n"@,
            )
            &&& contains_text(
                shown,
                "\n- diagnostics: "@ + shown_list(status.diagnostics, " | "@) + "\n"@,
            )
        }),
{
    reveal_strlit("\n");
    reveal_strlit("# Project Context Status\n\n- state: ");
    reveal_strlit("\n- state: ");
    reveal_strlit("\n- project: ");
    reveal_strlit("\n- repository: ");
    reveal_strlit("\n- branch: ");
    reveal_strlit("\n- validated revision: ");
    reveal_strlit("\n- current revision: ");
    reveal_strlit("\n- changed paths: ");
    reveal_strlit("\n- impacted topics: ");
    reveal_strlit("\n- diagnostics: ");
    let shown = markdown(status);
    let first = "# Project Context Status\n\n- state: "@;
    let title = first.take(first.len() - "\n- state: "@.len());
    assert(first =~= title + "\n- state: "@);
    let branch = or_else(status.branch, "<detached-or-unknown>"@);
    let validated = or_else(status.validated_revision, "<none>"@);
    let current = or_else(status.current_revision, "<none>"@);
    let state = first + state_name(status.state);
    let project = state + "\n- project: "@ + status.project;
    let repository = project + "\n- repository: "@ + status.repository;
    let on_branch = repository + "\n- branch: "@ + branch;
    let from = on_branch + "\n- validated revision: "@ + validated;
    let to = from + "\n- current revision: "@ + current;
    let changed = to + "\n- changed paths: "@ + shown_list(status.changed_paths, ", "@);
    let topics = changed + "\n- impacted topics: "@ + shown_list(status.impacted_topics, ", "@);
    let diagnostics = shown_list(status.diagnostics, " | "@);
    assert(shown == topics + "\n- diagnostics: "@ + diagnostics + "\n"@);
    assert(shown.subrange(0, shown.len() as int) =~= shown);
    lemma_shown_line(shown, topics, "\n- diagnostics: "@, diagnostics);
    lemma_shown_line(
        shown,
        changed,
        "\n- impacted topics: "@,
        shown_list(status.impacted_topics, ", "@),
    );
    lemma_shown_line(
        shown,
        to,
        "\n- changed paths: "@,
        shown_list(status.changed_paths, ", "@),
    );
    lemma_shown_line(shown, from, "\n- current revision: "@, current);
    lemma_shown_line(shown, on_branch, "\n- validated revision: "@, validated);
    lemma_shown_line(shown, repository, "\n- branch: "@, branch);
    lemma_shown_line(shown, project, "\n- repository: "@, status.repository);
    lemma_shown_line(shown, state, "\n- project: "@, status.project);
    lemma_shown_line(shown, title, "\n- state: "@, state_name(status.state));
}

/// A list as it is shown: its items, or that there are none.
pub open spec fn shown_list(list: Seq<Text>, separator: Text) -> Text {
    if list.len() == 0 {
        "none"@
    } else {
        joined(list, separator)
    }
}

/// Where a label begins a line, the line before it ends.
proof fn lemma_shown_line(whole: Text, before: Text, label: Text, value: Text)
    requires
        label.len() > 0,
        label[0] == '\n',
        starts_with(whole, before + label + value + "\n"@),
    ensures
        contains_text(whole, label + value + "\n"@),
        starts_with(whole, before + "\n"@),
{
    reveal_strlit("\n");
    let front = before + label + value + "\n"@;
    let rest = whole.skip(front.len() as int);
    assert(whole =~= front + rest);
    assert(whole =~= before + (label + value + "\n"@) + rest);
    lemma_contained(whole, before, label + value + "\n"@, rest);
    assert(whole.subrange(0, before.len() as int + 1) =~= before + "\n"@);
}

/// Where the working tree cannot be told, what was committed since the validated
/// revision is still reported, and the failure is told.
pub proof fn law_status_without_a_working_tree(
    profile: ProfileView,
    replies: Seq<ReplyView>,
    k: int,
)
    requires
        profile_verdict(profile) is Ok,
        profile.validated_revision is Some,
        named(replies[0]) is Some,
        0 <= k < 3,
        replies.len() > 3 + k,
        forall|j: int| 0 <= j < k ==> told(#[trigger] replies[2 + j]) is Some,
        told(replies[2 + k]) is None,
    ensures
        status_step(profile, replies) matches StepView::Done(Ok(status)) && {
            &&& status.state == ContextState::Unknown
            &&& faithful(status, profile, replies)
            &&& status.diagnostics.len() > 0
            &&& starts_with(status.diagnostics[0], "failed to inspect working tree: "@)
            &&& profile.validated_revision == named(replies[0]) ==> status.changed_paths.len() == 0
            &&& profile.validated_revision != named(replies[0]) ==> forall|path: Text| #[trigger]
                status.changed_paths.contains(path) <==> committed_since(
                    replies[3 + k],
                    profile.excluded_prefixes,
                    path,
                )
        },
{
    law_revision_and_branch_are_what_git_told(Seq::empty(), replies[0]);
    law_revision_and_branch_are_what_git_told(Seq::empty(), replies[1]);
    let tail = replies.skip(2);
    reveal_with_fuel(listing, 4);
    assert(tail[0] == replies[2]);
    law_answered_paths_are_lines(working_command(0), replies[2], Seq::empty());
    if k >= 1 {
        assert(told(replies[2 + 0int]) is Some);
        assert(tail.skip(1)[0] == replies[3]);
        law_answered_paths_are_lines(working_command(1), replies[3], Seq::empty());
    }
    if k >= 2 {
        assert(told(replies[2 + 1int]) is Some);
        assert(tail.skip(1).skip(1)[0] == replies[4]);
        law_answered_paths_are_lines(working_command(2), replies[4], Seq::empty());
    }
    assert(working_listing(tail) is Failed);
    let error = working_listing(tail)->error;
    assert(working_listing(tail)->Failed_rest =~= replies.skip(3 + k));
    let rest = replies.skip(3 + k);
    assert(rest[0] == replies[3 + k]);
    let none = Seq::<Text>::empty();
    let head = head_revision(replies[0]);
    let status = status_step(profile, replies)->Done_0->Ok_0;
    let said = "failed to inspect working tree: "@;
    assert(status.diagnostics[0] == said + error_text(error));
    assert((said + error_text(error)).subrange(0, said.len() as int) =~= said);
    if let Some((from, to)) = revisions_to_compare(profile.validated_revision, head) {
        law_answered_paths_are_lines(diff_command(from, to), replies[3 + k], Seq::empty());
        if told(replies[3 + k]) is Some {
            lemma_compared_paths(profile, none, replies[3 + k], diff_command(from, to));
        }
    }
}

/// Every failure to observe something is told in a sentence of its own, with its
/// cause: first that of the current revision, then that of the working tree, and last
/// that of the commits between the revisions, where those are looked at.
pub proof fn law_diagnostics_tell_each_failure(
    profile: ProfileView,
    head: Result<Option<Text>, ErrorView>,
    branch: Option<Text>,
    working: Result<Seq<Text>, ErrorView>,
    committed: Result<Seq<Text>, ErrorView>,
)
    ensures
        ({
            let told = assessed(profile, head, branch, working, committed).diagnostics;
            let differ = profile.validated_revision is Some && head is Ok && head->Ok_0 is Some
                && head->Ok_0 != profile.validated_revision;
            let first = if head is Err {
                1int
            } else {
                0
            };
            let second = if working is Err {
                1int
            } else {
                0
            };
            let third = if differ && committed is Err {
                1int
            } else {
                0
            };
            &&& told.len() == first + second + third
            &&& head matches Err(error) ==> told[0] == "failed to resolve current revision: "@
                + error_text(error)
            &&& working matches Err(error) ==> told[first] == "failed to inspect working tree: "@
                + error_text(error)
            &&& differ ==> (committed matches Err(error) ==> told.last()
                == "failed to compare validated and current revisions: "@ + error_text(error))
        }),
{
}

/// So it is in a repository without a Library, where no commits are looked at.
pub proof fn law_diagnostics_without_a_library(
    repository: Text,
    directory: Option<Text>,
    head: Result<Option<Text>, ErrorView>,
    branch: Option<Text>,
    working: Result<Seq<Text>, ErrorView>,
)
    ensures
        ({
            let told = uninitialized(repository, directory, head, branch, working).diagnostics;
            &&& head is Ok && working is Ok <==> told.len() == 0
            &&& head is Err && working is Err <==> told.len() == 2
            &&& head matches Err(error) ==> told[0] == "failed to resolve current revision: "@
                + error_text(error)
            &&& working matches Err(error) ==> told.last() == "failed to inspect working tree: "@
                + error_text(error)
            &&& told.len() <= 2
        }),
{
}

/// Every state has its name, in capitals.
pub proof fn law_states_by_name()
    ensures
        state_name(ContextState::Uninitialized) == "UNINITIALIZED"@,
        state_name(ContextState::Valid) == "VALID"@,
        state_name(ContextState::Dirty) == "DIRTY"@,
        state_name(ContextState::Unknown) == "UNKNOWN"@,
{
}

/// Of a repository without a Library, Git is asked for the current revision, for the
/// three lists of the working tree until one of them fails, and then for the branch.
/// Where a list fails, no change is reported, and the failure is told.
pub proof fn law_repositories_without_a_library_ask_git(
    repository: Text,
    directory: Option<Text>,
    replies: Seq<ReplyView>,
    k: int,
)
    requires
        0 <= k <= 3,
        forall|j: int| 0 <= j < k ==> told(#[trigger] replies[1 + j]) is Some,
    ensures
        ({
            let step = uninitialized_step(repository, directory, replies);
            let failed = k < 3 && replies.len() > 1 + k && told(replies[1 + k]) is None;
            let branch = seq!["symbolic-ref"@, "--short"@, "-q"@, "HEAD"@];
            &&& replies.len() == 0 ==> step == StepView::<StatusView>::Run(
                seq!["rev-parse"@, "--verify"@, "--quiet"@, "HEAD"@],
            )
            &&& replies.len() == 1 + k && k == 0 ==> step == StepView::<StatusView>::Run(
                seq!["diff"@, "--name-only"@],
            )
            &&& replies.len() == 1 + k && k == 1 ==> step == StepView::<StatusView>::Run(
                seq!["diff"@, "--cached"@, "--name-only"@],
            )
            &&& replies.len() == 1 + k && k == 2 ==> step == StepView::<StatusView>::Run(
                seq!["ls-files"@, "--others"@, "--exclude-standard"@],
            )
            &&& replies.len() == 1 + k && k == 3 ==> step == StepView::<StatusView>::Run(branch)
            &&& failed && replies.len() == 2 + k ==> step == StepView::<StatusView>::Run(branch)
            &&& failed && replies.len() > 2 + k ==> {
                &&& step is Done && step->Done_0 is Ok
                &&& step->Done_0->Ok_0.state == ContextState::Uninitialized
                &&& step->Done_0->Ok_0.current_revision == named(replies[0])
                &&& step->Done_0->Ok_0.branch == named(replies[2 + k])
                &&& step->Done_0->Ok_0.changed_paths.len() == 0
                &&& step->Done_0->Ok_0.diagnostics.len() > 0
                &&& starts_with(
                    step->Done_0->Ok_0.diagnostics.last(),
                    "failed to inspect working tree: "@,
                )
            }
        }),
{
    reveal_with_fuel(listing, 4);
    if replies.len() > 0 {
        law_revision_and_branch_are_what_git_told(Seq::empty(), replies[0]);
        let tail = replies.skip(1);
        if replies.len() > 1 {
            assert(tail[0] == replies[1]);
            law_answered_paths_are_lines(working_command(0), replies[1], Seq::empty());
            assert(k >= 1 ==> told(replies[1 + 0int]) is Some);
        }
        if replies.len() > 2 {
            assert(tail.skip(1)[0] == replies[2]);
            law_answered_paths_are_lines(working_command(1), replies[2], Seq::empty());
            assert(k >= 2 ==> told(replies[1 + 1int]) is Some);
        }
        if replies.len() > 3 {
            assert(tail.skip(1).skip(1)[0] == replies[3]);
            law_answered_paths_are_lines(working_command(2), replies[3], Seq::empty());
            assert(k >= 3 ==> told(replies[1 + 2int]) is Some);
        }
        if k < 3 && replies.len() > 1 + k && told(replies[1 + k]) is None {
            assert(working_listing(tail) is Failed);
            let error = working_listing(tail)->error;
            let rest = working_listing(tail)->Failed_rest;
            assert(rest =~= replies.skip(2 + k));
            if replies.len() > 2 + k {
                assert(rest[0] == replies[2 + k]);
                law_revision_and_branch_are_what_git_told(Seq::empty(), replies[2 + k]);
                let said = "failed to inspect working tree: "@;
                assert((said + error_text(error)).subrange(0, said.len() as int) =~= said);
            }
        }
    }
}

} // verus!
