//! The profile of a Library: what it describes, which paths concern which
//! topics, and which paths do not count.

use vstd::prelude::*;
use crate::error::{error_text, outcome, verdict, ContextError, ErrorView};
use crate::knowledge::{
    id_char, law_uri_names_its_path, lemma_two_words, library_id_verdict, node_uri, path_of_uri,
    prefixes_verdict, uri_of, uri_path, uri_prefix, valid_library_id, valid_prefix,
    validate_library_id, validate_repo_prefixes,
};
use crate::order::{
    ascending, ascending_list, before, insert, law_ascending_list, law_ascending_list_exists,
};
use crate::paths::{
    matches_any, matches_some, normalized_repo_path, path_matches, slashed, without_dot_slashes,
};
use crate::text::{
    chars_of, joined, law_split_undoes_join, law_trimmed_text_is_the_core, lemma_pieces_single,
    on_edge, optional_text, same_text, texts, trim, trimmed, white_space, Edge, Text,
};

verus! {

/// The version of the profile format that this library reads and writes.
pub const PROFILE_SCHEMA_VERSION: &'static str = "1";

/// The id of a Library that was given no other.
pub const DEFAULT_LIBRARY_ID: &'static str = "project-context";

/// Where a Library lies in its repository.
pub const LIBRARY_DIR: &'static str = ".okf/project-context";

/// A topic, and the path prefixes whose changes concern it.
#[derive(Debug)]
pub struct ImpactRule {
    pub topic: String,
    pub path_prefixes: Vec<String>,
}

/// The mathematical value of an [`ImpactRule`].
pub struct RuleView {
    pub topic: Text,
    pub path_prefixes: Seq<Text>,
}

impl View for ImpactRule {
    type V = RuleView;

    open spec fn view(&self) -> RuleView {
        RuleView { topic: self.topic@, path_prefixes: texts(self.path_prefixes@) }
    }
}

/// The views of a list of rules.
pub open spec fn rules(list: Seq<ImpactRule>) -> Seq<RuleView> {
    Seq::new(list.len(), |i: int| list[i]@)
}

/// What a Library knows of the project that it describes.
#[derive(Debug)]
pub struct Profile {
    pub schema_version: String,
    pub project: String,
    pub library_id: String,
    pub repository: String,
    pub validated_revision: Option<String>,
    pub impact_rules: Vec<ImpactRule>,
    pub excluded_prefixes: Vec<String>,
}

/// The mathematical value of a [`Profile`].
pub struct ProfileView {
    pub schema_version: Text,
    pub project: Text,
    pub library_id: Text,
    pub repository: Text,
    pub validated_revision: Option<Text>,
    pub impact_rules: Seq<RuleView>,
    pub excluded_prefixes: Seq<Text>,
}

impl View for Profile {
    type V = ProfileView;

    open spec fn view(&self) -> ProfileView {
        ProfileView {
            schema_version: self.schema_version@,
            project: self.project@,
            library_id: self.library_id@,
            repository: self.repository@,
            validated_revision: optional_text(self.validated_revision),
            impact_rules: rules(self.impact_rules@),
            excluded_prefixes: texts(self.excluded_prefixes@),
        }
    }
}

/// A copy of a list of strings.
pub fn copy_list(list: &Vec<String>) -> (r: Vec<String>)
    ensures
        texts(r@) == texts(list@),
{
    let mut r: Vec<String> = Vec::new();
    let mut i: usize = 0;
    while i < list.len()
        invariant
            i <= list@.len(),
            r@.len() == i,
            forall|j: int| 0 <= j < i ==> (#[trigger] r@[j])@ == list@[j]@,
        decreases list@.len() - i,
    {
        r.push(list[i].clone());
        i += 1;
    }
    assert(texts(r@) =~= texts(list@));
    r
}

/// A copy of an optional string.
pub fn copy_optional(item: &Option<String>) -> (r: Option<String>)
    ensures
        optional_text(r) == optional_text(*item),
{
    match item {
        Some(value) => Some(value.clone()),
        None => None,
    }
}

impl Clone for ImpactRule {
    fn clone(&self) -> (r: ImpactRule)
        ensures
            r@ == self@,
    {
        ImpactRule { topic: self.topic.clone(), path_prefixes: copy_list(&self.path_prefixes) }
    }
}

impl Clone for Profile {
    fn clone(&self) -> (r: Profile)
        ensures
            r@ == self@,
    {
        let mut impact_rules: Vec<ImpactRule> = Vec::new();
        let mut i: usize = 0;
        while i < self.impact_rules.len()
            invariant
                i <= self.impact_rules@.len(),
                impact_rules@.len() == i,
                forall|j: int|
                    0 <= j < i ==> (#[trigger] impact_rules@[j])@ == self.impact_rules@[j]@,
            decreases self.impact_rules@.len() - i,
        {
            impact_rules.push(self.impact_rules[i].clone());
            i += 1;
        }
        assert(rules(impact_rules@) =~= rules(self.impact_rules@));
        Profile {
            schema_version: self.schema_version.clone(),
            project: self.project.clone(),
            library_id: self.library_id.clone(),
            repository: self.repository.clone(),
            validated_revision: copy_optional(&self.validated_revision),
            impact_rules,
            excluded_prefixes: copy_list(&self.excluded_prefixes),
        }
    }
}

/// What checking the impact rules of a Library gives: the first bad topic or
/// prefix is refused.
pub open spec fn rules_verdict(list: Seq<RuleView>, library: Text) -> Result<(), ErrorView>
    decreases list.len(),
{
    if list.len() == 0 {
        Ok(())
    } else {
        match path_of_uri(list[0].topic, library) {
            Err(error) => Err(
                ErrorView::InvalidTopic { topic: list[0].topic, cause: error_text(error) },
            ),
            Ok(_) => match prefixes_verdict(list[0].path_prefixes) {
                Err(error) => Err(error),
                Ok(_) => rules_verdict(list.drop_first(), library),
            },
        }
    }
}

/// What checking a profile gives.
pub open spec fn profile_verdict(profile: ProfileView) -> Result<(), ErrorView> {
    if profile.schema_version != "1"@ {
        Err(ErrorView::UnsupportedSchema { version: profile.schema_version })
    } else if trimmed(profile.project).len() == 0 {
        Err(ErrorView::EmptyProject)
    } else {
        match library_id_verdict(profile.library_id) {
            Err(error) => Err(error),
            Ok(_) => match rules_verdict(profile.impact_rules, profile.library_id) {
                Err(error) => Err(error),
                Ok(_) => prefixes_verdict(profile.excluded_prefixes),
            },
        }
    }
}

/// `profile` for the repository at `repository`.
pub open spec fn bound(profile: ProfileView, repository: Text) -> ProfileView {
    ProfileView { repository, ..profile }
}

/// What loading a profile for a repository gives.
pub open spec fn loaded(profile: ProfileView, repository: Text) -> Result<ProfileView, ErrorView> {
    match profile_verdict(profile) {
        Err(error) => Err(error),
        Ok(_) => Ok(bound(profile, repository)),
    }
}

/// What saving a profile stores: one that names no place outside itself.
pub open spec fn saved(profile: ProfileView) -> Result<ProfileView, ErrorView> {
    loaded(bound(profile, "."@), "."@)
}

/// The topics of the present state of a project.
pub open spec fn current_topics(id: Text) -> Seq<Text> {
    seq![
        node_uri(id, "current/architecture"@),
        node_uri(id, "current/components"@),
        node_uri(id, "current/constraints"@),
        node_uri(id, "current/decisions"@),
    ]
}

/// The rules of a Library that was given no others.
pub open spec fn default_rules(id: Text) -> Seq<RuleView> {
    seq![
        RuleView {
            topic: node_uri(id, "current/architecture"@),
            path_prefixes: seq![
                "src"@,
                "app"@,
                "apps"@,
                "packages"@,
                "crates"@,
                "services"@,
                "modules"@,
                "docs"@,
                "api"@,
                "proto"@,
            ],
        },
        RuleView {
            topic: node_uri(id, "current/components"@),
            path_prefixes: seq![
                "src"@,
                "app"@,
                "apps"@,
                "packages"@,
                "crates"@,
                "services"@,
                "modules"@,
            ],
        },
        RuleView {
            topic: node_uri(id, "current/constraints"@),
            path_prefixes: seq![
                ".github"@,
                "Cargo.toml"@,
                "Cargo.lock"@,
                "package.json"@,
                "package-lock.json"@,
                "pnpm-lock.yaml"@,
                "yarn.lock"@,
                "pom.xml"@,
                "build.gradle"@,
                "go.mod"@,
                "pyproject.toml"@,
                "Dockerfile"@,
                "docker-compose.yml"@,
                "Makefile"@,
                "justfile"@,
                "infra"@,
                "deploy"@,
            ],
        },
        RuleView {
            topic: node_uri(id, "current/decisions"@),
            path_prefixes: seq!["docs"@, "adr"@, "decisions"@, "rfcs"@],
        },
    ]
}

/// The prefixes of the paths that do not count: what the Library and its
/// runtime write themselves.
pub open spec fn default_excluded() -> Seq<Text> {
    seq![
        ".okf/project-context"@,
        ".okf/.gitignore"@,
        ".okf/cache"@,
        ".okf/libraries.json"@,
        ".okf/state"@,
    ]
}

/// The profile of a new Library.
pub open spec fn new_profile_view(
    project: Option<Text>,
    directory: Option<Text>,
    id: Text,
) -> ProfileView {
    ProfileView {
        schema_version: "1"@,
        project: match (project, directory) {
            (Some(name), _) => name,
            (None, Some(name)) => name,
            (None, None) => id,
        },
        library_id: id,
        repository: "."@,
        validated_revision: None,
        impact_rules: default_rules(id),
        excluded_prefixes: default_excluded(),
    }
}

/// A change at one of `changed` concerns the rule's topic.
pub open spec fn touched(rule: RuleView, changed: Seq<Text>) -> bool {
    exists|i: int| 0 <= i < changed.len() && matches_any(#[trigger] changed[i], rule.path_prefixes)
}

/// The topics of the rules that a change at `changed` concerns.
pub open spec fn touched_topics(changed: Seq<Text>, list: Seq<RuleView>) -> Set<Text>
    decreases list.len(),
{
    if list.len() == 0 {
        Set::empty()
    } else if touched(list.last(), changed) {
        touched_topics(changed, list.drop_last()).insert(list.last().topic)
    } else {
        touched_topics(changed, list.drop_last())
    }
}

/// The topics to revalidate after a change: those of the rules that it concerns,
/// in ascending order, and all current topics where no rule knows the paths.
pub open spec fn affected_topics(
    changed: Seq<Text>,
    list: Seq<RuleView>,
    library: Text,
) -> Seq<Text> {
    if changed.len() == 0 {
        Seq::empty()
    } else if touched_topics(changed, list) == Set::<Text>::empty() {
        current_topics(library)
    } else {
        ascending_list(touched_topics(changed, list))
    }
}

/// The topics of the present state of a project.
pub fn all_current_topics(id: &str) -> (r: Vec<String>)
    ensures
        texts(r@) == current_topics(id@),
{
    let r = vec![
        uri_of(id, "current/architecture"),
        uri_of(id, "current/components"),
        uri_of(id, "current/constraints"),
        uri_of(id, "current/decisions"),
    ];
    assert(texts(r@) =~= current_topics(id@));
    r
}

/// The prefixes of the paths that do not count.
pub fn default_excluded_prefixes() -> (r: Vec<String>)
    ensures
        texts(r@) == default_excluded(),
{
    let r = vec![
        LIBRARY_DIR.to_owned(),
        ".okf/.gitignore".to_owned(),
        ".okf/cache".to_owned(),
        ".okf/libraries.json".to_owned(),
        ".okf/state".to_owned(),
    ];
    assert(texts(r@) =~= default_excluded());
    r
}

/// The rules of a Library that was given no others.
pub fn default_impact_rules(id: &str) -> (r: Vec<ImpactRule>)
    ensures
        rules(r@) == default_rules(id@),
{
    let architecture = ImpactRule {
        topic: uri_of(id, "current/architecture"),
        path_prefixes: vec![
            "src".to_owned(),
            "app".to_owned(),
            "apps".to_owned(),
            "packages".to_owned(),
            "crates".to_owned(),
            "services".to_owned(),
            "modules".to_owned(),
            "docs".to_owned(),
            "api".to_owned(),
            "proto".to_owned(),
        ],
    };
    let components = ImpactRule {
        topic: uri_of(id, "current/components"),
        path_prefixes: vec![
            "src".to_owned(),
            "app".to_owned(),
            "apps".to_owned(),
            "packages".to_owned(),
            "crates".to_owned(),
            "services".to_owned(),
            "modules".to_owned(),
        ],
    };
    let constraints = ImpactRule {
        topic: uri_of(id, "current/constraints"),
        path_prefixes: vec![
            ".github".to_owned(),
            "Cargo.toml".to_owned(),
            "Cargo.lock".to_owned(),
            "package.json".to_owned(),
            "package-lock.json".to_owned(),
            "pnpm-lock.yaml".to_owned(),
            "yarn.lock".to_owned(),
            "pom.xml".to_owned(),
            "build.gradle".to_owned(),
            "go.mod".to_owned(),
            "pyproject.toml".to_owned(),
            "Dockerfile".to_owned(),
            "docker-compose.yml".to_owned(),
            "Makefile".to_owned(),
            "justfile".to_owned(),
            "infra".to_owned(),
            "deploy".to_owned(),
        ],
    };
    let decisions = ImpactRule {
        topic: uri_of(id, "current/decisions"),
        path_prefixes: vec![
            "docs".to_owned(),
            "adr".to_owned(),
            "decisions".to_owned(),
            "rfcs".to_owned(),
        ],
    };
    let ghost expected = default_rules(id@);
    assert(texts(architecture.path_prefixes@) =~= expected[0].path_prefixes);
    assert(texts(components.path_prefixes@) =~= expected[1].path_prefixes);
    assert(texts(constraints.path_prefixes@) =~= expected[2].path_prefixes);
    assert(texts(decisions.path_prefixes@) =~= expected[3].path_prefixes);
    let r = vec![architecture, components, constraints, decisions];
    assert(rules(r@) =~= expected);
    r
}

/// The profile of a new Library: named after the project, else after the
/// directory that the repository lies in, else after the Library.
pub fn new_profile(project: Option<&str>, directory: Option<&str>, id: &str) -> (r: Profile)
    ensures
        r@ == new_profile_view(
            match project {
                Some(name) => Some(name@),
                None => None,
            },
            match directory {
                Some(name) => Some(name@),
                None => None,
            },
            id@,
        ),
{
    let project = match (project, directory) {
        (Some(name), _) => name,
        (None, Some(name)) => name,
        (None, None) => id,
    };
    Profile {
        schema_version: PROFILE_SCHEMA_VERSION.to_owned(),
        project: project.to_owned(),
        library_id: id.to_owned(),
        repository: ".".to_owned(),
        validated_revision: None,
        impact_rules: default_impact_rules(id),
        excluded_prefixes: default_excluded_prefixes(),
    }
}

fn validate_rules(list: &[ImpactRule], library: &str) -> (r: Result<(), ContextError>)
    ensures
        verdict(r) == rules_verdict(rules(list@), library@),
{
    let ghost all = rules(list@);
    let mut i: usize = 0;
    assert(all.skip(0) =~= all);
    while i < list.len()
        invariant
            i <= list@.len(),
            all == rules(list@),
            rules_verdict(all, library@) == rules_verdict(all.skip(i as int), library@),
        decreases list@.len() - i,
    {
        let rule = &list[i];
        assert(all.skip(i as int)[0] == rule@);
        match uri_path(rule.topic.as_str(), library) {
            Err(error) => {
                return Err(
                    ContextError::InvalidTopic { topic: rule.topic.clone(), cause: error.message() },
                );
            },
            Ok(_) => {},
        }
        match validate_repo_prefixes(rule.path_prefixes.as_slice()) {
            Err(error) => {
                return Err(error);
            },
            Ok(_) => {},
        }
        assert(all.skip(i as int).drop_first() =~= all.skip(i + 1));
        i += 1;
    }
    Ok(())
}

/// Accepts profiles of this format with a project name, a portable Library id,
/// topics of that Library and prefixes inside the repository.
pub fn validate_profile(profile: &Profile) -> (r: Result<(), ContextError>)
    ensures
        verdict(r) == profile_verdict(profile@),
{
    if !same_text(profile.schema_version.as_str(), PROFILE_SCHEMA_VERSION) {
        return Err(ContextError::UnsupportedSchema { version: profile.schema_version.clone() });
    }
    let name = chars_of(profile.project.as_str());
    if trim(name.as_slice()).len() == 0 {
        return Err(ContextError::EmptyProject);
    }
    match validate_library_id(profile.library_id.as_str()) {
        Err(error) => {
            return Err(error);
        },
        Ok(_) => {},
    }
    match validate_rules(profile.impact_rules.as_slice(), profile.library_id.as_str()) {
        Err(error) => {
            return Err(error);
        },
        Ok(_) => {},
    }
    validate_repo_prefixes(profile.excluded_prefixes.as_slice())
}

/// `profile` for the repository at `repository`.
pub fn bind_profile_repository(profile: Profile, repository: &str) -> (r: Profile)
    ensures
        r@ == bound(profile@, repository@),
{
    let mut profile = profile;
    profile.repository = repository.to_owned();
    profile
}

/// A profile that was read, once it is known to be valid.
pub fn load_profile(profile: Profile) -> (r: Result<Profile, ContextError>)
    ensures
        outcome(r) == (match profile_verdict(profile@) {
            Err(error) => Err(error),
            Ok(_) => Ok(profile@),
        }),
{
    match validate_profile(&profile) {
        Err(error) => Err(error),
        Ok(_) => Ok(profile),
    }
}

/// A profile that was read, for the repository that it was found in.
pub fn load_profile_for_repository(profile: Profile, repository: &str) -> (r: Result<
    Profile,
    ContextError,
>)
    ensures
        outcome(r) == loaded(profile@, repository@),
{
    match load_profile(profile) {
        Err(error) => Err(error),
        Ok(profile) => Ok(bind_profile_repository(profile, repository)),
    }
}

/// The profile to store: one that names no place outside itself.
pub fn save_profile(profile: &Profile) -> (r: Result<Profile, ContextError>)
    ensures
        outcome(r) == saved(profile@),
{
    let portable = bind_profile_repository(profile.clone(), ".");
    load_profile(portable)
}

fn is_touched(rule: &ImpactRule, changed: &[String]) -> (r: bool)
    ensures
        r == touched(rule@, texts(changed@)),
{
    let ghost all = texts(changed@);
    let mut i: usize = 0;
    while i < changed.len()
        invariant
            i <= changed@.len(),
            all == texts(changed@),
            forall|j: int| 0 <= j < i ==> !matches_any(#[trigger] all[j], rule@.path_prefixes),
        decreases changed@.len() - i,
    {
        assert(all[i as int] == changed@[i as int]@);
        if matches_some(changed[i].as_str(), rule.path_prefixes.as_slice()) {
            return true;
        }
        i += 1;
    }
    false
}

/// The topics to revalidate after a change at `changed`.
pub fn impacted_topics(changed: &[String], list: &[ImpactRule], library_id: &str) -> (r: Vec<String>)
    ensures
        texts(r@) == affected_topics(texts(changed@), rules(list@), library_id@),
{
    if changed.len() == 0 {
        let r: Vec<String> = Vec::new();
        assert(texts(r@) =~= Seq::empty());
        return r;
    }
    let ghost all = rules(list@);
    let ghost paths = texts(changed@);
    let mut topics: Vec<String> = Vec::new();
    let mut i: usize = 0;
    assert(texts(topics@).to_set() =~= touched_topics(paths, all.take(0)));
    while i < list.len()
        invariant
            i <= list@.len(),
            all == rules(list@),
            paths == texts(changed@),
            ascending(texts(topics@)),
            texts(topics@).to_set() == touched_topics(paths, all.take(i as int)),
        decreases list@.len() - i,
    {
        assert(all.take(i + 1).drop_last() =~= all.take(i as int));
        assert(all.take(i + 1).last() == list@[i as int]@);
        if is_touched(&list[i], changed) {
            insert(&mut topics, list[i].topic.clone());
        }
        i += 1;
    }
    assert(all.take(i as int) =~= all);
    if topics.len() == 0 {
        assert(texts(topics@).to_set() =~= Set::empty());
        return all_current_topics(library_id);
    }
    proof {
        assert(texts(topics@).to_set().contains(texts(topics@)[0]));
        law_ascending_list(texts(topics@));
    }
    topics
}

/// What comes before what does not depend on a common beginning.
proof fn lemma_before_common(start: Text, a: Text, b: Text)
    ensures
        before(start + a, start + b) == before(a, b),
    decreases start.len(),
{
    if start.len() == 0 {
        assert(start + a =~= a);
        assert(start + b =~= b);
    } else {
        let rest = start.drop_first();
        assert((start + a).drop_first() =~= rest + a);
        assert((start + b).drop_first() =~= rest + b);
        lemma_before_common(rest, a, b);
    }
}

/// The current topics stand in ascending order.
pub proof fn law_current_topics_ascending(id: Text)
    ensures
        ascending(current_topics(id)),
{
    let a = "current/architecture"@;
    let b = "current/components"@;
    let c = "current/constraints"@;
    let d = "current/decisions"@;
    reveal_strlit("current/architecture");
    reveal_strlit("current/components");
    reveal_strlit("current/constraints");
    reveal_strlit("current/decisions");
    reveal_strlit("current/");
    let start = "current/"@;
    let (a1, b1, c1, d1) = (a.skip(8), b.skip(8), c.skip(8), d.skip(8));
    assert(a =~= start + a1);
    assert(b =~= start + b1);
    assert(c =~= start + c1);
    assert(d =~= start + d1);
    reveal_with_fuel(before, 4);
    assert(before(a1, b1) && before(a1, c1) && before(a1, d1));
    assert(before(b1, c1));
    assert(before(b1, d1) && before(c1, d1));
    lemma_before_common(start, a1, b1);
    lemma_before_common(start, a1, c1);
    lemma_before_common(start, a1, d1);
    lemma_before_common(start, b1, c1);
    lemma_before_common(start, b1, d1);
    lemma_before_common(start, c1, d1);
    lemma_before_common(uri_prefix(id), a, b);
    lemma_before_common(uri_prefix(id), a, c);
    lemma_before_common(uri_prefix(id), a, d);
    lemma_before_common(uri_prefix(id), b, c);
    lemma_before_common(uri_prefix(id), b, d);
    lemma_before_common(uri_prefix(id), c, d);
}

/// A list of the topics that a change concerns.
proof fn lemma_touched_list(changed: Seq<Text>, list: Seq<RuleView>) -> (topics: Seq<Text>)
    ensures
        topics.to_set() == touched_topics(changed, list),
    decreases list.len(),
{
    if list.len() == 0 {
        assert(Seq::<Text>::empty().to_set() =~= Set::empty());
        Seq::empty()
    } else {
        let front = lemma_touched_list(changed, list.drop_last());
        if touched(list.last(), changed) {
            let topics = front.push(list.last().topic);
            assert forall|t: Text| topics.to_set().contains(t) <==> front.to_set().insert(
                list.last().topic,
            ).contains(t) by {
                if front.contains(t) {
                    let i = choose|i: int| 0 <= i < front.len() && front[i] == t;
                    assert(topics[i] == t);
                }
                assert(topics[front.len() as int] == list.last().topic);
            }
            assert(topics.to_set() =~= front.to_set().insert(list.last().topic));
            topics
        } else {
            front
        }
    }
}

proof fn lemma_touched_topic(changed: Seq<Text>, list: Seq<RuleView>, k: int)
    requires
        0 <= k < list.len(),
        touched(list[k], changed),
    ensures
        touched_topics(changed, list).contains(list[k].topic),
    decreases list.len(),
{
    if k < list.len() - 1 {
        assert(list.drop_last()[k] == list[k]);
        lemma_touched_topic(changed, list.drop_last(), k);
    }
}

/// Every change concerns at least one topic.
pub proof fn law_changes_concern_some_topic(changed: Seq<Text>, list: Seq<RuleView>, library: Text)
    requires
        changed.len() > 0,
    ensures
        affected_topics(changed, list, library).len() > 0,
{
    let topics = touched_topics(changed, list);
    if topics != Set::<Text>::empty() {
        let members = lemma_touched_list(changed, list);
        law_ascending_list_exists(members);
        if ascending_list(topics).len() == 0 {
            assert(ascending_list(topics).to_set() =~= Set::empty());
        }
    }
}

/// A change that no rule knows concerns all current topics.
pub proof fn law_unknown_changes_concern_all_topics(
    changed: Seq<Text>,
    list: Seq<RuleView>,
    library: Text,
)
    requires
        changed.len() > 0,
        forall|k: int| 0 <= k < list.len() ==> !touched(#[trigger] list[k], changed),
    ensures
        affected_topics(changed, list, library) == current_topics(library),
{
    lemma_none_touched(changed, list);
}

proof fn lemma_none_touched(changed: Seq<Text>, list: Seq<RuleView>)
    requires
        forall|k: int| 0 <= k < list.len() ==> !touched(#[trigger] list[k], changed),
    ensures
        touched_topics(changed, list) == Set::<Text>::empty(),
    decreases list.len(),
{
    if list.len() > 0 {
        let front = list.drop_last();
        assert forall|k: int| 0 <= k < front.len() implies !touched(#[trigger] front[k], changed) by {
            assert(front[k] == list[k]);
        }
        assert(!touched(list[list.len() - 1], changed));
        lemma_none_touched(changed, front);
    }
}

/// The topic of every rule that a change concerns is reported.
pub proof fn law_touched_topics_are_reported(
    changed: Seq<Text>,
    list: Seq<RuleView>,
    library: Text,
    k: int,
)
    requires
        changed.len() > 0,
        0 <= k < list.len(),
        touched(list[k], changed),
    ensures
        affected_topics(changed, list, library).contains(list[k].topic),
{
    lemma_touched_topic(changed, list, k);
    let members = lemma_touched_list(changed, list);
    law_ascending_list_exists(members);
    let topics = affected_topics(changed, list, library);
    assert(topics.to_set().contains(list[k].topic));
}

/// A saved profile, loaded wherever its repository is found, is the profile
/// that was saved, for that place.
pub proof fn law_saved_profile_survives_moves(profile: ProfileView, repository: Text)
    ensures
        saved(profile) matches Ok(stored) ==> {
            &&& stored.repository == "."@
            &&& loaded(stored, repository) == Ok::<ProfileView, ErrorView>(
                bound(profile, repository),
            )
        },
{
}

/// A prefix of one segment made of the characters of ids.
proof fn lemma_one_segment_prefix(s: Text)
    requires
        valid_library_id(s),
        s != seq!['.', '.'],
    ensures
        valid_prefix(s),
{
    assert(id_char(s[0]) && id_char(s[s.len() - 1]));
    assert(trimmed(s) == s);
    assert(slashed(s) =~= s) by {
        assert forall|i: int| 0 <= i < s.len() implies s[i] != '\\' by {
            assert(id_char(s[i]));
        }
    }
    if s.len() >= 2 {
        assert(id_char(s[1]));
    }
    assert(without_dot_slashes(s) == s);
    assert(normalized_repo_path(s) == s);
    if s.contains('/') {
        let i = choose|i: int| 0 <= i < s.len() && s[i] == '/';
        assert(id_char(s[i]));
    }
    lemma_pieces_single(s, '/');
}

/// A prefix of two segments made of the characters of ids.
proof fn lemma_two_segment_prefix(a: Text, b: Text)
    requires
        valid_library_id(a),
        valid_library_id(b),
        a != seq!['.'],
        a != seq!['.', '.'],
        b != seq!['.', '.'],
    ensures
        valid_prefix(a.push('/') + b),
{
    let s = a.push('/') + b;
    let n = a.len() as int;
    assert forall|i: int| 0 <= i < s.len() && i != n implies id_char(#[trigger] s[i]) by {
        if i < n {
            assert(id_char(a[i]));
        } else {
            assert(id_char(b[i - n - 1]));
        }
    }
    assert(id_char(s[0]) && id_char(s[s.len() - 1]));
    assert(trimmed(s) == s);
    assert(slashed(s) =~= s);
    if s[0] == '.' && s[1] == '/' {
        if n > 1 {
            assert(id_char(s[1]));
        }
        assert(a =~= seq!['.']);
    }
    assert(without_dot_slashes(s) == s);
    assert(normalized_repo_path(s) == s);
    if a.contains('/') {
        let i = choose|i: int| 0 <= i < a.len() && a[i] == '/';
        assert(id_char(a[i]));
    }
    if b.contains('/') {
        let i = choose|i: int| 0 <= i < b.len() && b[i] == '/';
        assert(id_char(b[i]));
    }
    let segments = seq![a, b];
    assert(segments.drop_last() =~= seq![a]);
    assert(joined(seq![a], seq!['/']) == a);
    assert(joined(segments, seq!['/']) =~= s);
    law_split_undoes_join(segments, '/');
}

proof fn lemma_prefixes_valid(prefixes: Seq<Text>)
    requires
        forall|i: int| 0 <= i < prefixes.len() ==> valid_prefix(#[trigger] prefixes[i]),
    ensures
        prefixes_verdict(prefixes) is Ok,
    decreases prefixes.len(),
{
    if prefixes.len() > 0 {
        assert(valid_prefix(prefixes[0]));
        let rest = prefixes.drop_first();
        assert forall|i: int| 0 <= i < rest.len() implies valid_prefix(#[trigger] rest[i]) by {
            assert(rest[i] == prefixes[i + 1]);
        }
        lemma_prefixes_valid(rest);
    }
}

proof fn lemma_default_topics(id: Text)
    ensures
        path_of_uri(node_uri(id, "current/architecture"@), id) == Ok::<Text, ErrorView>(
            "current/architecture"@,
        ),
        path_of_uri(node_uri(id, "current/components"@), id) == Ok::<Text, ErrorView>(
            "current/components"@,
        ),
        path_of_uri(node_uri(id, "current/constraints"@), id) == Ok::<Text, ErrorView>(
            "current/constraints"@,
        ),
        path_of_uri(node_uri(id, "current/decisions"@), id) == Ok::<Text, ErrorView>(
            "current/decisions"@,
        ),
{
    reveal_strlit("current");
    reveal_strlit("architecture");
    reveal_strlit("components");
    reveal_strlit("constraints");
    reveal_strlit("decisions");
    reveal_strlit("current/architecture");
    reveal_strlit("current/components");
    reveal_strlit("current/constraints");
    reveal_strlit("current/decisions");
    let start = "current"@;
    assert("current/architecture"@ =~= start.push('/') + "architecture"@);
    assert("current/components"@ =~= start.push('/') + "components"@);
    assert("current/constraints"@ =~= start.push('/') + "constraints"@);
    assert("current/decisions"@ =~= start.push('/') + "decisions"@);
    lemma_two_words(start, "architecture"@);
    lemma_two_words(start, "components"@);
    lemma_two_words(start, "constraints"@);
    lemma_two_words(start, "decisions"@);
    law_uri_names_its_path(id, "current/architecture"@);
    law_uri_names_its_path(id, "current/components"@);
    law_uri_names_its_path(id, "current/constraints"@);
    law_uri_names_its_path(id, "current/decisions"@);
}

proof fn lemma_default_rule_prefixes(id: Text)
    ensures
        forall|k: int|
            0 <= k < default_rules(id).len() ==> prefixes_verdict(
                (#[trigger] default_rules(id)[k]).path_prefixes,
            ) is Ok,
{
    reveal_strlit("src");
    reveal_strlit("app");
    reveal_strlit("apps");
    reveal_strlit("packages");
    reveal_strlit("crates");
    reveal_strlit("services");
    reveal_strlit("modules");
    reveal_strlit("docs");
    reveal_strlit("api");
    reveal_strlit("proto");
    reveal_strlit("adr");
    reveal_strlit("decisions");
    reveal_strlit("rfcs");
    lemma_one_segment_prefix("src"@);
    lemma_one_segment_prefix("app"@);
    lemma_one_segment_prefix("apps"@);
    lemma_one_segment_prefix("packages"@);
    lemma_one_segment_prefix("crates"@);
    lemma_one_segment_prefix("services"@);
    lemma_one_segment_prefix("modules"@);
    lemma_one_segment_prefix("docs"@);
    lemma_one_segment_prefix("api"@);
    lemma_one_segment_prefix("proto"@);
    lemma_one_segment_prefix("adr"@);
    lemma_one_segment_prefix("decisions"@);
    lemma_one_segment_prefix("rfcs"@);
    lemma_prefixes_valid(default_rules(id)[0].path_prefixes);
    lemma_prefixes_valid(default_rules(id)[1].path_prefixes);
    lemma_constraint_prefixes(id);
    lemma_prefixes_valid(default_rules(id)[3].path_prefixes);
}

proof fn lemma_constraint_prefixes(id: Text)
    ensures
        prefixes_verdict(default_rules(id)[2].path_prefixes) is Ok,
{
    reveal_strlit(".github");
    reveal_strlit("Cargo.toml");
    reveal_strlit("Cargo.lock");
    reveal_strlit("package.json");
    reveal_strlit("package-lock.json");
    reveal_strlit("pnpm-lock.yaml");
    reveal_strlit("yarn.lock");
    reveal_strlit("pom.xml");
    reveal_strlit("build.gradle");
    reveal_strlit("go.mod");
    reveal_strlit("pyproject.toml");
    reveal_strlit("Dockerfile");
    reveal_strlit("docker-compose.yml");
    reveal_strlit("Makefile");
    reveal_strlit("justfile");
    reveal_strlit("infra");
    reveal_strlit("deploy");
    lemma_one_segment_prefix(".github"@);
    lemma_one_segment_prefix("Cargo.toml"@);
    lemma_one_segment_prefix("Cargo.lock"@);
    lemma_one_segment_prefix("package.json"@);
    lemma_one_segment_prefix("package-lock.json"@);
    lemma_one_segment_prefix("pnpm-lock.yaml"@);
    lemma_one_segment_prefix("yarn.lock"@);
    lemma_one_segment_prefix("pom.xml"@);
    lemma_one_segment_prefix("build.gradle"@);
    lemma_one_segment_prefix("go.mod"@);
    lemma_one_segment_prefix("pyproject.toml"@);
    lemma_one_segment_prefix("Dockerfile"@);
    lemma_one_segment_prefix("docker-compose.yml"@);
    lemma_one_segment_prefix("Makefile"@);
    lemma_one_segment_prefix("justfile"@);
    lemma_one_segment_prefix("infra"@);
    lemma_one_segment_prefix("deploy"@);
    lemma_prefixes_valid(default_rules(id)[2].path_prefixes);
}

proof fn lemma_default_excluded()
    ensures
        prefixes_verdict(default_excluded()) is Ok,
{
    reveal_strlit(".okf");
    reveal_strlit("project-context");
    reveal_strlit(".gitignore");
    reveal_strlit("cache");
    reveal_strlit("libraries.json");
    reveal_strlit("state");
    reveal_strlit(".okf/project-context");
    reveal_strlit(".okf/.gitignore");
    reveal_strlit(".okf/cache");
    reveal_strlit(".okf/libraries.json");
    reveal_strlit(".okf/state");
    let dir = ".okf"@;
    lemma_two_segment_prefix(dir, "project-context"@);
    lemma_two_segment_prefix(dir, ".gitignore"@);
    lemma_two_segment_prefix(dir, "cache"@);
    lemma_two_segment_prefix(dir, "libraries.json"@);
    lemma_two_segment_prefix(dir, "state"@);
    assert(".okf/project-context"@ =~= dir.push('/') + "project-context"@);
    assert(".okf/.gitignore"@ =~= dir.push('/') + ".gitignore"@);
    assert(".okf/cache"@ =~= dir.push('/') + "cache"@);
    assert(".okf/libraries.json"@ =~= dir.push('/') + "libraries.json"@);
    assert(".okf/state"@ =~= dir.push('/') + "state"@);
    lemma_prefixes_valid(default_excluded());
}

/// What lies in the directory of the Library, or is kept by the runtime beside it,
/// does not count in a Library that was given no other rules.
pub proof fn law_context_files_are_excluded(path: Text)
    requires
        path_matches(path, ".okf/project-context"@) || path_matches(path, ".okf/.gitignore"@)
            || path_matches(path, ".okf/cache"@) || path_matches(path, ".okf/libraries.json"@)
            || path_matches(path, ".okf/state"@),
    ensures
        matches_any(path, default_excluded()),
{
    let list = default_excluded();
    assert(list[0] == ".okf/project-context"@);
    assert(list[1] == ".okf/.gitignore"@);
    assert(list[2] == ".okf/cache"@);
    assert(list[3] == ".okf/libraries.json"@);
    assert(list[4] == ".okf/state"@);
}

/// The profile of a new Library is valid, where its id is portable and its
/// project has a name.
pub proof fn law_new_profile_is_valid(project: Option<Text>, directory: Option<Text>, id: Text)
    requires
        valid_library_id(id),
        trimmed(new_profile_view(project, directory, id).project).len() > 0,
    ensures
        profile_verdict(new_profile_view(project, directory, id)) is Ok,
        saved(new_profile_view(project, directory, id)) is Ok,
{
    let list = default_rules(id);
    lemma_default_topics(id);
    lemma_default_rule_prefixes(id);
    lemma_default_excluded();
    let third = list.drop_first().drop_first().drop_first();
    assert(list.drop_first()[0] == list[1]);
    assert(list.drop_first().drop_first()[0] == list[2]);
    assert(third[0] == list[3]);
    assert(rules_verdict(third.drop_first(), id) is Ok);
    assert(rules_verdict(third, id) is Ok);
    assert(rules_verdict(list.drop_first().drop_first(), id) is Ok);
    assert(rules_verdict(list.drop_first(), id) is Ok);
    assert(rules_verdict(list, id) is Ok);
}

/// One of the changed paths lies below one of the prefixes of the rule.
pub open spec fn concerned(rule: RuleView, changed: Seq<Text>) -> bool {
    exists|i: int, j: int|
        0 <= i < changed.len() && 0 <= j < rule.path_prefixes.len() && #[trigger] path_matches(
            changed[i],
            rule.path_prefixes[j],
        )
}

proof fn lemma_touched_is_concerned(rule: RuleView, changed: Seq<Text>)
    ensures
        touched(rule, changed) <==> concerned(rule, changed),
{
    if touched(rule, changed) {
        let i = choose|i: int|
            0 <= i < changed.len() && matches_any(#[trigger] changed[i], rule.path_prefixes);
        let j = choose|j: int|
            0 <= j < rule.path_prefixes.len() && path_matches(
                changed[i],
                #[trigger] rule.path_prefixes[j],
            );
        assert(path_matches(changed[i], rule.path_prefixes[j]));
    }
    if concerned(rule, changed) {
        let (i, j) = choose|i: int, j: int|
            0 <= i < changed.len() && 0 <= j < rule.path_prefixes.len() && #[trigger] path_matches(
                changed[i],
                rule.path_prefixes[j],
            );
        assert(matches_any(changed[i], rule.path_prefixes));
    }
}

proof fn lemma_touched_member(changed: Seq<Text>, list: Seq<RuleView>, topic: Text)
    ensures
        touched_topics(changed, list).contains(topic) <==> exists|k: int|
            0 <= k < list.len() && concerned(#[trigger] list[k], changed) && list[k].topic == topic,
    decreases list.len(),
{
    if list.len() > 0 {
        let front = list.drop_last();
        let n = list.len() - 1;
        lemma_touched_member(changed, front, topic);
        lemma_touched_is_concerned(list[n], changed);
        if exists|k: int|
            0 <= k < front.len() && concerned(#[trigger] front[k], changed) && front[k].topic
                == topic {
            let k = choose|k: int|
                0 <= k < front.len() && concerned(#[trigger] front[k], changed) && front[k].topic
                    == topic;
            assert(concerned(list[k], changed) && list[k].topic == topic);
        }
        if exists|k: int|
            0 <= k < list.len() && concerned(#[trigger] list[k], changed) && list[k].topic
                == topic {
            let k = choose|k: int|
                0 <= k < list.len() && concerned(#[trigger] list[k], changed) && list[k].topic
                    == topic;
            if k < n {
                assert(front[k] == list[k]);
            }
        }
    }
}

/// The topics to revalidate are exactly those of the rules that a changed path
/// concerns; where no rule knows any of the paths, they are all current topics. They
/// ascend, and without a change there are none.
pub proof fn law_topics_follow_the_changed_paths(
    changed: Seq<Text>,
    list: Seq<RuleView>,
    library: Text,
    topic: Text,
)
    ensures
        changed.len() == 0 ==> affected_topics(changed, list, library).len() == 0,
        ascending(affected_topics(changed, list, library)),
        (exists|k: int| 0 <= k < list.len() && concerned(#[trigger] list[k], changed)) ==> (
        affected_topics(changed, list, library).contains(topic) <==> exists|k: int|
            0 <= k < list.len() && concerned(#[trigger] list[k], changed) && list[k].topic
                == topic),
        changed.len() > 0 && (forall|k: int|
            0 <= k < list.len() ==> !concerned(#[trigger] list[k], changed)) ==> affected_topics(
            changed,
            list,
            library,
        ) == current_topics(library),
{
    let topics = touched_topics(changed, list);
    let members = lemma_touched_list(changed, list);
    law_ascending_list_exists(members);
    law_current_topics_ascending(library);
    lemma_touched_member(changed, list, topic);
    if exists|k: int| 0 <= k < list.len() && concerned(#[trigger] list[k], changed) {
        let k = choose|k: int| 0 <= k < list.len() && concerned(#[trigger] list[k], changed);
        lemma_touched_member(changed, list, list[k].topic);
        assert(topics.contains(list[k].topic));
        assert(changed.len() > 0);
        let found = affected_topics(changed, list, library);
        assert(found.contains(topic) <==> found.to_set().contains(topic));
    }
    if forall|k: int| 0 <= k < list.len() ==> !concerned(#[trigger] list[k], changed) {
        assert forall|t: Text| !topics.contains(t) by {
            lemma_touched_member(changed, list, t);
        }
        assert(topics =~= Set::empty());
    }
}

/// A changed path that lies below a prefix of a rule makes the topic of that rule
/// one to revalidate, whatever else changed.
pub proof fn law_every_changed_path_counts(
    changed: Seq<Text>,
    list: Seq<RuleView>,
    library: Text,
    i: int,
    k: int,
    j: int,
)
    requires
        0 <= i < changed.len(),
        0 <= k < list.len(),
        0 <= j < list[k].path_prefixes.len(),
        path_matches(changed[i], list[k].path_prefixes[j]),
    ensures
        affected_topics(changed, list, library).contains(list[k].topic),
{
    assert(concerned(list[k], changed));
    law_topics_follow_the_changed_paths(changed, list, library, list[k].topic);
}

/// The current topics are the four of the Library, whatever its id.
pub proof fn law_current_topics_name_their_library(id: Text)
    ensures
        current_topics(id) == seq![
            "okf://"@ + id + "/"@ + "current/architecture"@,
            "okf://"@ + id + "/"@ + "current/components"@,
            "okf://"@ + id + "/"@ + "current/constraints"@,
            "okf://"@ + id + "/"@ + "current/decisions"@,
        ],
{
}

/// Impact rules are accepted exactly where each is: its topic must be a URI of the
/// Library, and its prefixes must be accepted. The first fault is told.
pub proof fn law_rules_are_accepted_one_by_one(
    before: Seq<RuleView>,
    rule: RuleView,
    rest: Seq<RuleView>,
    library: Text,
)
    requires
        rules_verdict(before, library) is Ok,
    ensures
        rules_verdict(before + seq![rule] + rest, library) == (match path_of_uri(
            rule.topic,
            library,
        ) {
            Err(error) => Err::<(), ErrorView>(
                ErrorView::InvalidTopic { topic: rule.topic, cause: error_text(error) },
            ),
            Ok(_) => match prefixes_verdict(rule.path_prefixes) {
                Err(error) => Err(error),
                Ok(_) => rules_verdict(rest, library),
            },
        }),
        rules_verdict(Seq::empty(), library) is Ok,
    decreases before.len(),
{
    let all = before + seq![rule] + rest;
    if before.len() > 0 {
        let front = before.drop_first();
        law_rules_are_accepted_one_by_one(front, rule, rest, library);
        assert(all[0] == before[0]);
        assert(all.drop_first() =~= front + seq![rule] + rest);
    } else {
        assert(all[0] == rule);
        assert(all.drop_first() =~= rest);
    }
}

/// A profile is valid exactly where its version is known, its project has a name that
/// is not blank, its id is portable, and its rules and excluded prefixes are
/// accepted. Neither its repository nor its validated revision is looked at.
pub proof fn law_valid_profiles(profile: ProfileView, repository: Text, revision: Option<Text>)
    ensures
        profile_verdict(profile) is Ok <==> {
            &&& profile.schema_version == "1"@
            &&& exists|i: int|
                0 <= i < profile.project.len() && !white_space(#[trigger] profile.project[i])
            &&& library_id_verdict(profile.library_id) is Ok
            &&& rules_verdict(profile.impact_rules, profile.library_id) is Ok
            &&& prefixes_verdict(profile.excluded_prefixes) is Ok
        },
        profile_verdict(
            ProfileView { repository, validated_revision: revision, ..profile },
        ) == profile_verdict(profile),
        profile.schema_version != "1"@ ==> profile_verdict(profile) == Err::<(), ErrorView>(
            ErrorView::UnsupportedSchema { version: profile.schema_version },
        ),
{
    let project = profile.project;
    let (front, back) = law_trimmed_text_is_the_core(project, Edge::White);
    if trimmed(project).len() > 0 {
        assert(project[front.len() as int] == trimmed(project)[0]);
        assert(!white_space(project[front.len() as int]));
    } else {
        assert forall|i: int| 0 <= i < project.len() implies white_space(
            #[trigger] project[i],
        ) by {
            if i < front.len() {
                assert(on_edge(Edge::White, front[i]));
            } else {
                assert(on_edge(Edge::White, back[i - front.len()]));
            }
        }
    }
}

/// Binding a profile to a repository, saving it and loading it change its repository
/// and nothing else; only valid profiles are saved and loaded.
pub proof fn law_profiles_are_kept_whole(profile: ProfileView, repository: Text)
    ensures
        bound(profile, repository) == (ProfileView { repository, ..profile }),
        loaded(profile, repository) is Ok <==> profile_verdict(profile) is Ok,
        saved(profile) is Ok <==> profile_verdict(profile) is Ok,
        profile_verdict(profile) is Ok ==> {
            &&& loaded(profile, repository) == Ok::<ProfileView, ErrorView>(
                ProfileView { repository, ..profile },
            )
            &&& saved(profile) == Ok::<ProfileView, ErrorView>(
                ProfileView { repository: "."@, ..profile },
            )
        },
        profile_verdict(profile) matches Err(error) ==> loaded(profile, repository) == Err::<
            ProfileView,
            ErrorView,
        >(error) && saved(profile) == Err::<ProfileView, ErrorView>(error),
{
    law_valid_profiles(profile, "."@, profile.validated_revision);
}

/// A new profile has the name that it was given, or else that of the directory, or
/// else its id; it was never validated, and nothing else depends on the name.
pub proof fn law_new_profiles(name: Text, directory: Text, id: Text, given: Option<Text>)
    ensures
        new_profile_view(Some(name), given, id).project == name,
        new_profile_view(None, Some(directory), id).project == directory,
        new_profile_view(None, None, id).project == id,
        new_profile_view(Some(name), given, id).library_id == id,
        new_profile_view(Some(name), given, id).validated_revision is None,
        new_profile_view(Some(name), given, id).repository == "."@,
        new_profile_view(given, Some(directory), id) == (ProfileView {
            project: new_profile_view(given, Some(directory), id).project,
            ..new_profile_view(Some(name), None, id)
        }),
        new_profile_view(None, None, id) == (ProfileView {
            project: id,
            ..new_profile_view(Some(name), None, id)
        }),
{
}

/// With the rules of a new profile, every change below `prefix` concerns the topic at
/// `topic`, alone or among other changes.
pub open spec fn knows(id: Text, topic: Text, prefix: Text) -> bool {
    forall|changed: Seq<Text>, i: int|
        0 <= i < changed.len() && path_matches(#[trigger] changed[i], prefix) ==> affected_topics(
            changed,
            default_rules(id),
            id,
        ).contains("okf://"@ + id + "/"@ + topic)
}

proof fn lemma_knows(id: Text, k: int, j: int, topic: Text, prefix: Text)
    requires
        0 <= k < default_rules(id).len(),
        0 <= j < default_rules(id)[k].path_prefixes.len(),
        default_rules(id)[k].path_prefixes[j] == prefix,
        default_rules(id)[k].topic == "okf://"@ + id + "/"@ + topic,
    ensures
        knows(id, topic, prefix),
{
    assert forall|changed: Seq<Text>, i: int|
        0 <= i < changed.len() && path_matches(
            #[trigger] changed[i],
            prefix,
        ) implies affected_topics(changed, default_rules(id), id).contains(
        "okf://"@ + id + "/"@ + topic,
    ) by {
        let rule = default_rules(id)[k];
        assert(path_matches(changed[i], rule.path_prefixes[j]));
        assert(concerned(rule, changed));
        law_topics_follow_the_changed_paths(changed, default_rules(id), id, rule.topic);
    }
}

/// A new profile knows where sources, manifests and documents of a project usually
/// are, and which topics they concern; it knows nothing else.
#[verifier::rlimit(60)]
pub proof fn law_new_profiles_know_the_usual_places(id: Text)
    ensures
        knows(id, "current/architecture"@, "src"@),
        knows(id, "current/architecture"@, "app"@),
        knows(id, "current/architecture"@, "apps"@),
        knows(id, "current/architecture"@, "packages"@),
        knows(id, "current/architecture"@, "crates"@),
        knows(id, "current/architecture"@, "services"@),
        knows(id, "current/architecture"@, "modules"@),
        knows(id, "current/architecture"@, "docs"@),
        knows(id, "current/architecture"@, "api"@),
        knows(id, "current/architecture"@, "proto"@),
        knows(id, "current/components"@, "src"@),
        knows(id, "current/components"@, "app"@),
        knows(id, "current/components"@, "apps"@),
        knows(id, "current/components"@, "packages"@),
        knows(id, "current/components"@, "crates"@),
        knows(id, "current/components"@, "services"@),
        knows(id, "current/components"@, "modules"@),
        knows(id, "current/constraints"@, ".github"@),
        knows(id, "current/constraints"@, "Cargo.toml"@),
        knows(id, "current/constraints"@, "Cargo.lock"@),
        knows(id, "current/constraints"@, "package.json"@),
        knows(id, "current/constraints"@, "package-lock.json"@),
        knows(id, "current/constraints"@, "pnpm-lock.yaml"@),
        knows(id, "current/constraints"@, "yarn.lock"@),
        knows(id, "current/constraints"@, "pom.xml"@),
        knows(id, "current/constraints"@, "build.gradle"@),
        knows(id, "current/constraints"@, "go.mod"@),
        knows(id, "current/constraints"@, "pyproject.toml"@),
        knows(id, "current/constraints"@, "Dockerfile"@),
        knows(id, "current/constraints"@, "docker-compose.yml"@),
        knows(id, "current/constraints"@, "Makefile"@),
        knows(id, "current/constraints"@, "justfile"@),
        knows(id, "current/constraints"@, "infra"@),
        knows(id, "current/constraints"@, "deploy"@),
        knows(id, "current/decisions"@, "docs"@),
        knows(id, "current/decisions"@, "adr"@),
        knows(id, "current/decisions"@, "decisions"@),
        knows(id, "current/decisions"@, "rfcs"@),
        default_rules(id).len() == 4,
        default_rules(id)[0].path_prefixes.len() == 10,
        default_rules(id)[1].path_prefixes.len() == 7,
        default_rules(id)[2].path_prefixes.len() == 17,
        default_rules(id)[3].path_prefixes.len() == 4,
{
    lemma_knows(id, 0, 0, "current/architecture"@, "src"@);
    lemma_knows(id, 0, 1, "current/architecture"@, "app"@);
    lemma_knows(id, 0, 2, "current/architecture"@, "apps"@);
    lemma_knows(id, 0, 3, "current/architecture"@, "packages"@);
    lemma_knows(id, 0, 4, "current/architecture"@, "crates"@);
    lemma_knows(id, 0, 5, "current/architecture"@, "services"@);
    lemma_knows(id, 0, 6, "current/architecture"@, "modules"@);
    lemma_knows(id, 0, 7, "current/architecture"@, "docs"@);
    lemma_knows(id, 0, 8, "current/architecture"@, "api"@);
    lemma_knows(id, 0, 9, "current/architecture"@, "proto"@);
    lemma_knows(id, 1, 0, "current/components"@, "src"@);
    lemma_knows(id, 1, 1, "current/components"@, "app"@);
    lemma_knows(id, 1, 2, "current/components"@, "apps"@);
    lemma_knows(id, 1, 3, "current/components"@, "packages"@);
    lemma_knows(id, 1, 4, "current/components"@, "crates"@);
    lemma_knows(id, 1, 5, "current/components"@, "services"@);
    lemma_knows(id, 1, 6, "current/components"@, "modules"@);
    lemma_knows(id, 2, 0, "current/constraints"@, ".github"@);
    lemma_knows(id, 2, 1, "current/constraints"@, "Cargo.toml"@);
    lemma_knows(id, 2, 2, "current/constraints"@, "Cargo.lock"@);
    lemma_knows(id, 2, 3, "current/constraints"@, "package.json"@);
    lemma_knows(id, 2, 4, "current/constraints"@, "package-lock.json"@);
    lemma_knows(id, 2, 5, "current/constraints"@, "pnpm-lock.yaml"@);
    lemma_knows(id, 2, 6, "current/constraints"@, "yarn.lock"@);
    lemma_knows(id, 2, 7, "current/constraints"@, "pom.xml"@);
    lemma_knows(id, 2, 8, "current/constraints"@, "build.gradle"@);
    lemma_knows(id, 2, 9, "current/constraints"@, "go.mod"@);
    lemma_knows(id, 2, 10, "current/constraints"@, "pyproject.toml"@);
    lemma_knows(id, 2, 11, "current/constraints"@, "Dockerfile"@);
    lemma_knows(id, 2, 12, "current/constraints"@, "docker-compose.yml"@);
    lemma_knows(id, 2, 13, "current/constraints"@, "Makefile"@);
    lemma_knows(id, 2, 14, "current/constraints"@, "justfile"@);
    lemma_knows(id, 2, 15, "current/constraints"@, "infra"@);
    lemma_knows(id, 2, 16, "current/constraints"@, "deploy"@);
    lemma_knows(id, 3, 0, "current/decisions"@, "docs"@);
    lemma_knows(id, 3, 1, "current/decisions"@, "adr"@);
    lemma_knows(id, 3, 2, "current/decisions"@, "decisions"@);
    lemma_knows(id, 3, 3, "current/decisions"@, "rfcs"@);
}

} // verus!
