//! The lexical search through a Library: which nodes a query finds, and in what
//! order.

use vstd::prelude::*;
use crate::knowledge::{
    lemma_joined_chars, lemma_nonempty, lemma_nonempty_identity, node_uri, nonempty, uri_of,
};
use crate::order::{
    ascending, ascending_list, before, comes_before, insert, law_ascending_list,
    law_ascending_list_exists, law_before_irreflexive, law_before_total, law_before_transitive,
};
use crate::outside::{alphanumeric, lowercase};
use crate::paths::lemma_take_set;
use crate::profile::Profile;
use crate::status::{state_name, ContextState};
use crate::text::{
    char_lists, chars_of, contains_text, decimal, decimal_string, has_part, joined,
    law_split_undoes_join, optional_text, pieces, string_of, texts, trim, trimmed, white_space,
    Text,
};

verus! {

/// What a query asks for.
#[derive(Debug)]
pub struct ProviderQuery {
    pub text: String,
    pub limit: usize,
}

/// The mathematical value of a [`ProviderQuery`].
pub struct QueryView {
    pub text: Text,
    pub limit: nat,
}

impl View for ProviderQuery {
    type V = QueryView;

    open spec fn view(&self) -> QueryView {
        QueryView { text: self.text@, limit: self.limit as nat }
    }
}

/// How many hits a query without a limit gets at most.
pub fn default_query_limit() -> (r: usize)
    ensures
        r == 20,
{
    20
}

/// How well a node matches: `points`, and the share `matched / terms` of the
/// query's terms that occur in it.
#[derive(Clone, Copy, Debug, PartialEq, Eq, Structural)]
pub struct Score {
    pub points: u128,
    pub matched: usize,
    pub terms: usize,
}

/// The mathematical value of a [`Score`].
pub struct ScoreView {
    pub points: nat,
    pub matched: nat,
    pub terms: nat,
}

impl View for Score {
    type V = ScoreView;

    open spec fn view(&self) -> ScoreView {
        ScoreView {
            points: self.points as nat,
            matched: self.matched as nat,
            terms: self.terms as nat,
        }
    }
}

/// A score in units of `1 / terms`: `points + matched / terms`, times `terms`.
/// Without terms the share is zero, and the unit is one.
pub open spec fn weight(score: ScoreView) -> nat {
    if score.terms == 0 {
        score.points
    } else {
        score.points * score.terms + score.matched
    }
}

/// A node that a query found.
#[derive(Debug)]
pub struct QueryHit {
    pub uri: String,
    pub title: Option<String>,
    pub snippet: Option<String>,
    pub score: Score,
    pub metadata: Vec<(String, String)>,
}

/// The mathematical value of a [`QueryHit`].
pub struct HitView {
    pub uri: Text,
    pub title: Option<Text>,
    pub snippet: Option<Text>,
    pub score: ScoreView,
    pub metadata: Seq<(Text, Text)>,
}

/// The views of a list of named values.
pub open spec fn pairs(list: Seq<(String, String)>) -> Seq<(Text, Text)> {
    Seq::new(list.len(), |i: int| (list[i].0@, list[i].1@))
}

impl View for QueryHit {
    type V = HitView;

    open spec fn view(&self) -> HitView {
        HitView {
            uri: self.uri@,
            title: optional_text(self.title),
            snippet: optional_text(self.snippet),
            score: self.score@,
            metadata: pairs(self.metadata@),
        }
    }
}

/// The views of a list of hits.
pub open spec fn hits_view(list: Seq<QueryHit>) -> Seq<HitView> {
    Seq::new(list.len(), |i: int| list[i]@)
}

/// What a query gives.
#[derive(Debug)]
pub struct QueryResult {
    pub answer: Option<String>,
    pub hits: Vec<QueryHit>,
    pub provider: String,
    pub strategy: String,
    pub provenance: Vec<(String, String)>,
}

/// The mathematical value of a [`QueryResult`].
pub struct ResultView {
    pub answer: Option<Text>,
    pub hits: Seq<HitView>,
    pub provider: Text,
    pub strategy: Text,
    pub provenance: Seq<(Text, Text)>,
}

impl View for QueryResult {
    type V = ResultView;

    open spec fn view(&self) -> ResultView {
        ResultView {
            answer: optional_text(self.answer),
            hits: hits_view(self.hits@),
            provider: self.provider@,
            strategy: self.strategy@,
            provenance: pairs(self.provenance@),
        }
    }
}

/// The runs of `s` between the characters that are not marked as part of a
/// word, in order.
pub open spec fn word_runs(s: Text, word: Seq<bool>) -> Seq<Text>
    decreases s.len(),
{
    if s.len() == 0 {
        seq![Seq::empty()]
    } else {
        let before = word_runs(s.drop_last(), word);
        if word[s.len() - 1] {
            before.drop_last().push(before.last().push(s.last()))
        } else {
            before.push(Seq::empty())
        }
    }
}

/// Each item of `list` without white space at either end.
pub open spec fn all_trimmed(list: Seq<Text>) -> Seq<Text> {
    Seq::new(list.len(), |i: int| trimmed(list[i]))
}

/// The words of `s`, where `word` marks the characters that words are made of:
/// ascending and without repetitions.
pub open spec fn words(s: Text, word: Seq<bool>) -> Seq<Text> {
    ascending_list(nonempty(all_trimmed(word_runs(s, word))).to_set())
}

/// A character that terms are made of: a letter, a digit, `_` or `-`. White space
/// is none of these.
pub open spec fn term_char(c: char) -> bool {
    (alphanumeric(c) && !white_space(c)) || c == '_' || c == '-'
}

/// Which characters of `s` a term is made of.
pub open spec fn term_chars(s: Text) -> Seq<bool> {
    Seq::new(s.len(), |i: int| term_char(s[i]))
}

/// The terms of a query: the runs of term characters, ascending and without
/// repetitions.
pub open spec fn terms_of(s: Text) -> Seq<Text> {
    ascending_list(nonempty(word_runs(s, term_chars(s))).to_set())
}

/// `s` has a run of term characters from `i` to `j` that cannot be made longer.
pub open spec fn maximal_run(s: Text, i: int, j: int) -> bool {
    &&& 0 <= i < j <= s.len()
    &&& forall|k: int| i <= k < j ==> term_char(#[trigger] s[k])
    &&& i > 0 ==> !term_char(s[i - 1])
    &&& j < s.len() ==> !term_char(s[j])
}

/// What the whole phrase is worth, by the best place that it occurs in.
pub open spec fn phrase_points(path: Text, title: Text, content: Text, phrase: Text) -> nat {
    if contains_text(path, phrase) {
        20
    } else if contains_text(title, phrase) {
        12
    } else if contains_text(content, phrase) {
        6
    } else {
        0
    }
}

/// What one term is worth, by the best place that it occurs in.
pub open spec fn term_points(path: Text, title: Text, content: Text, term: Text) -> nat {
    if contains_text(path, term) {
        5
    } else if contains_text(title, term) {
        3
    } else if contains_text(content, term) {
        1
    } else {
        0
    }
}

/// What all terms are worth together.
pub open spec fn terms_points(path: Text, title: Text, content: Text, terms: Seq<Text>) -> nat
    decreases terms.len(),
{
    if terms.len() == 0 {
        0
    } else {
        terms_points(path, title, content, terms.drop_last()) + term_points(
            path,
            title,
            content,
            terms.last(),
        )
    }
}

/// How many of the terms occur.
pub open spec fn terms_matched(path: Text, title: Text, content: Text, terms: Seq<Text>) -> nat
    decreases terms.len(),
{
    if terms.len() == 0 {
        0
    } else {
        terms_matched(path, title, content, terms.drop_last()) + (if term_points(
            path,
            title,
            content,
            terms.last(),
        ) > 0 {
            1nat
        } else {
            0nat
        })
    }
}

/// How well a node matches a phrase and its terms, all in lower case. The empty
/// phrase matches every node without a point; a phrase that occurs nowhere, in
/// whole or in part, does not match.
pub open spec fn lowered_score(
    path: Text,
    title: Text,
    content: Text,
    phrase: Text,
    terms: Seq<Text>,
) -> Option<ScoreView> {
    if phrase.len() == 0 {
        Some(ScoreView { points: 0, matched: 0, terms: terms.len() })
    } else {
        let points = phrase_points(path, title, content, phrase) + terms_points(
            path,
            title,
            content,
            terms,
        );
        let matched = terms_matched(path, title, content, terms);
        if points == 0 && matched == 0 {
            None
        } else {
            Some(ScoreView { points, matched, terms: terms.len() })
        }
    }
}

/// How well a node matches a phrase and its terms, whatever the case of the
/// node's own texts.
pub open spec fn node_score(
    path: Text,
    title: Text,
    content: Text,
    phrase: Text,
    terms: Seq<Text>,
) -> Option<ScoreView> {
    lowered_score(lowercase(path), lowercase(title), lowercase(content), phrase, terms)
}

/// The first `max` characters of `s`, and an ellipsis where that is not all.
pub open spec fn truncated(s: Text, max: nat) -> Text {
    if s.len() <= max {
        s
    } else {
        s.take(max as int).push('\u{2026}')
    }
}

/// The view of an optional score.
pub open spec fn optional_score(score: Option<Score>) -> Option<ScoreView> {
    match score {
        Some(value) => Some(value@),
        None => None,
    }
}

/// The words of `s`, where `word` marks the characters that words are made of.
pub fn words_between(s: &[char], word: &[bool]) -> (r: Vec<String>)
    requires
        word@.len() == s@.len(),
    ensures
        texts(r@) == words(s@, word@),
        ascending(texts(r@)),
{
    let mut runs: Vec<Vec<char>> = Vec::new();
    let mut current: Vec<char> = Vec::new();
    let mut i: usize = 0;
    assert(s@.take(0) =~= Seq::<char>::empty());
    assert(char_lists(runs@).push(current@) =~= word_runs(s@.take(0), word@));
    while i < s.len()
        invariant
            i <= s@.len(),
            word@.len() == s@.len(),
            char_lists(runs@).push(current@) == word_runs(s@.take(i as int), word@),
        decreases s@.len() - i,
    {
        let ghost before = char_lists(runs@);
        let ghost run = current@;
        assert(s@.take(i + 1).drop_last() =~= s@.take(i as int));
        assert(s@.take(i + 1).last() == s@[i as int]);
        if word[i] {
            current.push(s[i]);
            assert(before.push(run).drop_last() =~= before);
        } else {
            runs.push(current);
            current = Vec::new();
            assert(char_lists(runs@) =~= before.push(run));
        }
        i += 1;
    }
    assert(s@.take(i as int) =~= s@);
    let ghost before = char_lists(runs@);
    let ghost run = current@;
    runs.push(current);
    assert(char_lists(runs@) =~= before.push(run));
    let ghost list = all_trimmed(char_lists(runs@));
    let mut r: Vec<String> = Vec::new();
    let mut k: usize = 0;
    assert(texts(r@).to_set() =~= nonempty(list.take(0)).to_set());
    while k < runs.len()
        invariant
            k <= runs@.len(),
            list == all_trimmed(char_lists(runs@)),
            ascending(texts(r@)),
            texts(r@).to_set() == nonempty(list.take(k as int)).to_set(),
        decreases runs@.len() - k,
    {
        let ghost counted = nonempty(list.take(k as int));
        assert(list.take(k + 1).drop_last() =~= list.take(k as int));
        assert(list.take(k + 1).last() == trimmed(runs@[k as int]@));
        let term = trim(runs[k].as_slice());
        if term.len() > 0 {
            insert(&mut r, string_of(term));
            proof {
                let longer = counted.push(term@);
                lemma_take_set(longer, counted.len() as int);
                assert(longer.take(counted.len() as int) =~= counted);
                assert(longer.take(counted.len() as int + 1) =~= longer);
            }
        }
        k += 1;
    }
    assert(list.take(k as int) =~= list);
    proof {
        law_ascending_list(texts(r@));
    }
    r
}

/// The terms of a query, ascending and without repetitions.
pub fn query_terms(value: &str) -> (r: Vec<String>)
    ensures
        texts(r@) == terms_of(value@),
        ascending(texts(r@)),
        forall|i: int|
            0 <= i < value@.len() ==> term_char(#[trigger] value@[i]) == (alphanumeric(value@[i])
                || value@[i] == '_' || value@[i] == '-'),
{
    let chars = chars_of(value);
    let mut word: Vec<bool> = Vec::new();
    let mut i: usize = 0;
    while i < chars.len()
        invariant
            i <= chars@.len(),
            word@ == term_chars(chars@).take(i as int),
            forall|j: int|
                0 <= j < i ==> term_char(#[trigger] chars@[j]) == (alphanumeric(chars@[j])
                    || chars@[j] == '_' || chars@[j] == '-'),
        decreases chars@.len() - i,
    {
        let c = chars[i];
        let letter = c.is_alphanumeric();
        word.push(letter || c == '_' || c == '-');
        i += 1;
        assert(term_chars(chars@).take(i as int) =~= term_chars(chars@).take(i - 1).push(
            term_chars(chars@)[i - 1],
        ));
    }
    assert(term_chars(chars@).take(i as int) =~= term_chars(chars@));
    proof {
        lemma_runs_untrimmed(chars@, word@);
    }
    words_between(chars.as_slice(), word.as_slice())
}

/// Counting terms cannot give more than there are.
pub proof fn law_matched_terms_bounded(path: Text, title: Text, content: Text, terms: Seq<Text>)
    ensures
        terms_matched(path, title, content, terms) <= terms.len(),
        terms_points(path, title, content, terms) <= 5 * terms.len(),
        terms_matched(path, title, content, terms) <= terms_points(path, title, content, terms),
    decreases terms.len(),
{
    if terms.len() > 0 {
        law_matched_terms_bounded(path, title, content, terms.drop_last());
    }
}

/// How well a node matches a phrase and its terms, all in lower case.
pub fn score_lowered(
    path: &str,
    title: &str,
    content: &str,
    phrase: &str,
    terms: &[String],
) -> (r: Option<Score>)
    ensures
        optional_score(r) == lowered_score(path@, title@, content@, phrase@, texts(terms@)),
{
    let path = chars_of(path);
    let title = chars_of(title);
    let content = chars_of(content);
    let phrase = chars_of(phrase);
    let count = terms.len();
    if phrase.len() == 0 {
        return Some(Score { points: 0, matched: 0, terms: count });
    }
    let mut points: u128 = if has_part(path.as_slice(), phrase.as_slice()) {
        20
    } else if has_part(title.as_slice(), phrase.as_slice()) {
        12
    } else if has_part(content.as_slice(), phrase.as_slice()) {
        6
    } else {
        0
    };
    let ghost all = texts(terms@);
    let ghost base = points as nat;
    let mut matched: usize = 0;
    let mut i: usize = 0;
    while i < count
        invariant
            i <= count,
            count == terms@.len(),
            all == texts(terms@),
            base <= 20,
            points == base + terms_points(path@, title@, content@, all.take(i as int)),
            matched == terms_matched(path@, title@, content@, all.take(i as int)),
        decreases count - i,
    {
        let term = chars_of(terms[i].as_str());
        proof {
            assert(all.take(i + 1).drop_last() =~= all.take(i as int));
            assert(all.take(i + 1).last() == term@);
            law_matched_terms_bounded(path@, title@, content@, all.take(i as int));
        }
        if has_part(path.as_slice(), term.as_slice()) {
            points += 5;
            matched += 1;
        } else if has_part(title.as_slice(), term.as_slice()) {
            points += 3;
            matched += 1;
        } else if has_part(content.as_slice(), term.as_slice()) {
            points += 1;
            matched += 1;
        }
        i += 1;
    }
    assert(all.take(i as int) =~= all);
    if points == 0 && matched == 0 {
        None
    } else {
        Some(Score { points, matched, terms: count })
    }
}

/// How well a node matches a phrase and its terms.
pub fn lexical_score(
    path: &str,
    title: &str,
    content: &str,
    phrase: &str,
    terms: &[String],
) -> (r: Option<Score>)
    ensures
        optional_score(r) == node_score(path@, title@, content@, phrase@, texts(terms@)),
{
    let path = path.to_lowercase();
    let title = title.to_lowercase();
    let content = content.to_lowercase();
    score_lowered(path.as_str(), title.as_str(), content.as_str(), phrase, terms)
}

/// The first `max_chars` characters of `value`, and an ellipsis where that is not
/// all.
pub fn truncate(value: &str, max_chars: usize) -> (r: String)
    ensures
        r@ == truncated(value@, max_chars as nat),
{
    let chars = chars_of(value);
    if chars.len() <= max_chars {
        return value.to_owned();
    }
    let mut r = string_of(vstd::slice::slice_subrange(chars.as_slice(), 0, max_chars));
    assert(r@ =~= value@.take(max_chars as int));
    r.push('\u{2026}');
    r
}

/// `a` is listed before `b`: it has the greater score, or the same score and the
/// URI that comes first.
pub open spec fn better(a: HitView, b: HitView) -> bool {
    ||| weight(a.score) > weight(b.score)
    ||| weight(a.score) == weight(b.score) && before(a.uri, b.uri)
}

/// Every hit is better than all later ones.
pub open spec fn in_rank_order(list: Seq<HitView>) -> bool {
    forall|i: int, j: int|
        0 <= i < j < list.len() ==> better(#[trigger] list[i], #[trigger] list[j])
}

/// The hits of `list`, the best first.
pub open spec fn ranked(list: Seq<HitView>) -> Seq<HitView> {
    choose|order: Seq<HitView>| #[trigger]
        in_rank_order(order) && order.to_multiset() == list.to_multiset()
}

/// The path and the title of each node that a query looks at.
pub open spec fn candidates() -> Seq<(Text, Text)> {
    seq![
        ("status"@, "Live project freshness"@),
        ("current/architecture"@, "Architecture"@),
        ("current/constraints"@, "Constraints"@),
        ("current/decisions"@, "Decisions"@),
        ("current/components"@, "Components"@),
        ("history/log"@, "Project history"@),
    ]
}

/// The hit that a node with this score is.
pub open spec fn hit_of(
    library: Text,
    path: Text,
    title: Text,
    content: Text,
    score: ScoreView,
) -> HitView {
    HitView {
        uri: node_uri(library, path),
        title: Some(title),
        snippet: Some(truncated(content, 240)),
        score,
        metadata: seq![("matched_terms"@, decimal(score.matched))],
    }
}

/// The hits among the first candidates, where `scores` holds the score of each
/// that matches.
pub open spec fn hits_among(
    library: Text,
    contents: Seq<Text>,
    scores: Seq<Option<ScoreView>>,
) -> Seq<HitView>
    decreases scores.len(),
{
    if scores.len() == 0 {
        Seq::empty()
    } else {
        let k = scores.len() - 1;
        let before = hits_among(library, contents, scores.drop_last());
        match scores[k] {
            None => before,
            Some(score) => before.push(
                hit_of(library, candidates()[k].0, candidates()[k].1, contents[k], score),
            ),
        }
    }
}

/// What a query gives, where `scores` holds the score of each candidate that
/// matches: the best hits, as many as are wanted and at most a thousand.
pub open spec fn result_of(
    library: Text,
    limit: nat,
    contents: Seq<Text>,
    scores: Seq<Option<ScoreView>>,
    state: ContextState,
) -> ResultView {
    let all = ranked(hits_among(library, contents, scores));
    let most = if limit < 1000 {
        limit
    } else {
        1000
    };
    ResultView {
        answer: None,
        hits: if all.len() <= most {
            all
        } else {
            all.take(most as int)
        },
        provider: "project-context"@,
        strategy: "lexical"@,
        provenance: seq![("freshness"@, state_name(state))],
    }
}

/// The scores of the candidates.
pub open spec fn candidate_scores(phrase: Text, contents: Seq<Text>) -> Seq<Option<ScoreView>> {
    Seq::new(
        6,
        |k: int|
            node_score(
                candidates()[k].0,
                candidates()[k].1,
                contents[k],
                phrase,
                terms_of(phrase),
            ),
    )
}

/// What a query gives, with the contents of the candidates and the freshness of
/// the project.
pub open spec fn answered(
    library: Text,
    query: QueryView,
    contents: Seq<Text>,
    state: ContextState,
) -> ResultView {
    let phrase = lowercase(trimmed(query.text));
    result_of(library, query.limit, contents, candidate_scores(phrase, contents), state)
}

/// No hit is better than itself, and better is transitive.
pub proof fn law_better_is_an_order(a: HitView, b: HitView, c: HitView)
    ensures
        !better(a, a),
        better(a, b) && better(b, c) ==> better(a, c),
        a.uri != b.uri ==> better(a, b) || better(b, a),
{
    law_before_irreflexive(a.uri);
    law_before_total(a.uri, b.uri);
    if before(a.uri, b.uri) && before(b.uri, c.uri) {
        law_before_transitive(a.uri, b.uri, c.uri);
    }
}

proof fn lemma_same_best(a: Seq<HitView>, b: Seq<HitView>)
    requires
        in_rank_order(a),
        in_rank_order(b),
        a.to_multiset() == b.to_multiset(),
        a.len() > 0,
        b.len() > 0,
    ensures
        a[0] == b[0],
{
    broadcast use vstd::seq_lib::group_to_multiset_ensures;

    assert(a.contains(a[0]));
    assert(b.contains(b[0]));
    assert(a.to_multiset().count(a[0]) > 0);
    assert(b.to_multiset().count(b[0]) > 0);
    assert(b.contains(a[0]));
    assert(a.contains(b[0]));
    let i = choose|i: int| 0 <= i < b.len() && b[i] == a[0];
    let j = choose|j: int| 0 <= j < a.len() && a[j] == b[0];
    if i > 0 && j > 0 {
        assert(better(b[0], b[i]));
        assert(better(a[0], a[j]));
        law_better_is_an_order(a[0], b[0], a[0]);
    }
}

/// There is only one way to list hits, the best first.
pub proof fn law_rank_order_unique(a: Seq<HitView>, b: Seq<HitView>)
    requires
        in_rank_order(a),
        in_rank_order(b),
        a.to_multiset() == b.to_multiset(),
    ensures
        a == b,
    decreases a.len(),
{
    broadcast use vstd::seq_lib::group_to_multiset_ensures;

    assert(a.to_multiset().len() == a.len());
    assert(b.to_multiset().len() == b.len());
    if a.len() == 0 {
        assert(a =~= b);
    } else {
        lemma_same_best(a, b);
        let ra = a.drop_first();
        let rb = b.drop_first();
        assert forall|i: int, j: int| 0 <= i < j < ra.len() implies better(
            #[trigger] ra[i],
            #[trigger] ra[j],
        ) by {
            assert(better(a[i + 1], a[j + 1]));
        }
        assert forall|i: int, j: int| 0 <= i < j < rb.len() implies better(
            #[trigger] rb[i],
            #[trigger] rb[j],
        ) by {
            assert(better(b[i + 1], b[j + 1]));
        }
        assert(a.remove(0) =~= ra);
        assert(b.remove(0) =~= rb);
        assert(ra.to_multiset() =~= a.to_multiset().remove(a[0]));
        assert(rb.to_multiset() =~= b.to_multiset().remove(b[0]));
        law_rank_order_unique(ra, rb);
        assert(a =~= seq![a[0]] + ra);
        assert(b =~= seq![b[0]] + rb);
    }
}

/// Whether `a` has the greater score, and whether both have the same, for scores
/// of one query.
fn compare_scores(a: Score, b: Score) -> (r: (bool, bool))
    requires
        a.terms == b.terms,
        a.matched <= a.terms,
        b.matched <= b.terms,
    ensures
        r.0 == (weight(a@) > weight(b@)),
        r.1 == (weight(a@) == weight(b@)),
{
    let n = a.terms;
    if n == 0 {
        return (a.points > b.points, a.points == b.points);
    }
    if a.points == b.points {
        return (a.matched > b.matched, a.matched == b.matched);
    }
    if a.points > b.points {
        let same = a.points - b.points == 1 && a.matched == 0 && b.matched == n;
        proof {
            lemma_weights(
                a.points as int,
                b.points as int,
                a.matched as int,
                b.matched as int,
                n as int,
            );
        }
        return (!same, same);
    }
    let same = b.points - a.points == 1 && b.matched == 0 && a.matched == n;
    proof {
        lemma_weights(
            b.points as int,
            a.points as int,
            b.matched as int,
            a.matched as int,
            n as int,
        );
    }
    (false, same)
}

/// A whole point outweighs every share, except that the full share is worth a
/// point.
proof fn lemma_weights(p: int, q: int, m: int, k: int, n: int)
    requires
        p > q,
        0 <= m <= n,
        0 <= k <= n,
        n > 0,
    ensures
        p * n + m >= q * n + k,
        (p * n + m == q * n + k) == (p - q == 1 && m == 0 && k == n),
{
    assert(p * n - q * n == (p - q) * n) by (nonlinear_arith);
    if p - q == 1 {
        assert((p - q) * n == n) by (nonlinear_arith)
            requires
                p - q == 1,
        ;
    } else {
        assert((p - q) * n >= 2 * n) by (nonlinear_arith)
            requires
                p - q >= 2,
                n > 0,
        ;
    }
}

/// Puts a hit into its place among better and worse ones.
fn place(hits: &mut Vec<QueryHit>, hit: QueryHit, terms: usize)
    requires
        in_rank_order(hits_view(old(hits)@)),
        hit.score.terms == terms,
        hit.score.matched <= terms,
        forall|i: int|
            0 <= i < old(hits)@.len() ==> (#[trigger] old(hits)@[i]).score.terms == terms
                && old(hits)@[i].score.matched <= terms && old(hits)@[i].uri@ != hit.uri@,
    ensures
        in_rank_order(hits_view(final(hits)@)),
        hits_view(final(hits)@).to_multiset() == hits_view(old(hits)@).to_multiset().insert(hit@),
        forall|i: int|
            0 <= i < final(hits)@.len() ==> (#[trigger] final(hits)@[i]).score.terms == terms
                && final(hits)@[i].score.matched <= terms && (old(hits)@.contains(final(hits)@[i])
                || final(hits)@[i] == hit),
{
    let ghost list = hits_view(hits@);
    let ghost held = hits@;
    let mut at: usize = 0;
    while at < hits.len()
        invariant
            at <= hits@.len(),
            hits@ == held,
            list == hits_view(held),
            in_rank_order(list),
            hit.score.terms == terms,
            hit.score.matched <= terms,
            forall|i: int|
                0 <= i < held.len() ==> (#[trigger] held[i]).score.terms == terms
                    && held[i].score.matched <= terms && held[i].uri@ != hit.uri@,
            forall|i: int| 0 <= i < at ==> better(#[trigger] list[i], hit@),
        ensures
            at <= held.len(),
            hits@ == held,
            forall|i: int| 0 <= i < at ==> better(#[trigger] list[i], hit@),
            forall|i: int| at <= i < list.len() ==> better(hit@, #[trigger] list[i]),
        decreases hits@.len() - at,
    {
        assert(list[at as int] == held[at as int]@);
        assert(held[at as int].score.terms == terms);
        let (greater, same) = compare_scores(hits[at].score, hit.score);
        if greater || (same && comes_before(hits[at].uri.as_str(), hit.uri.as_str())) {
            at += 1;
        } else {
            proof {
                law_better_is_an_order(list[at as int], hit@, hit@);
                assert(better(hit@, list[at as int]));
                assert forall|i: int| at <= i < list.len() implies better(
                    hit@,
                    #[trigger] list[i],
                ) by {
                    if i > at {
                        law_better_is_an_order(hit@, list[at as int], list[i]);
                    }
                }
            }
            break;
        }
    }
    let ghost value = hit@;
    let ghost new_hit = hit;
    hits.insert(at, hit);
    proof {
        let longer = list.insert(at as int, value);
        assert(hits_view(hits@) =~= longer);
        assert forall|i: int, j: int| 0 <= i < j < longer.len() implies better(
            #[trigger] longer[i],
            #[trigger] longer[j],
        ) by {
            if i < at {
                assert(longer[i] == list[i]);
                if j < at {
                    assert(longer[j] == list[j]);
                } else if j > at {
                    assert(longer[j] == list[j - 1]);
                }
            } else {
                assert(longer[j] == list[j - 1]);
                if i > at {
                    assert(longer[i] == list[i - 1]);
                }
            }
        }
        broadcast use vstd::seq_lib::group_to_multiset_ensures;

        assert(longer.to_multiset() =~= list.to_multiset().insert(value));
        assert forall|i: int| 0 <= i < hits@.len() implies (#[trigger] hits@[i]).score.terms == terms
            && hits@[i].score.matched <= terms && (held.contains(hits@[i]) || hits@[i]
            == new_hit) by {
            if i < at {
                assert(hits@[i] == held[i]);
            } else if i > at {
                assert(hits@[i] == held[i - 1]);
            }
        }
    }
}

/// The path and the title of the node that a query looks at in place `k`.
pub fn candidate(k: usize) -> (r: (&'static str, &'static str))
    requires
        k < 6,
    ensures
        (r.0@, r.1@) == candidates()[k as int],
{
    if k == 0 {
        ("status", "Live project freshness")
    } else if k == 1 {
        ("current/architecture", "Architecture")
    } else if k == 2 {
        ("current/constraints", "Constraints")
    } else if k == 3 {
        ("current/decisions", "Decisions")
    } else if k == 4 {
        ("current/components", "Components")
    } else {
        ("history/log", "Project history")
    }
}

/// The URIs of different candidates differ.
proof fn lemma_candidates_differ(library: Text, i: int, j: int)
    requires
        0 <= i < j < 6,
    ensures
        node_uri(library, candidates()[i].0) != node_uri(library, candidates()[j].0),
{
    reveal_strlit("status");
    reveal_strlit("current/architecture");
    reveal_strlit("current/constraints");
    reveal_strlit("current/decisions");
    reveal_strlit("current/components");
    reveal_strlit("history/log");
    assert(candidates()[i].0.len() != candidates()[j].0.len());
    assert(node_uri(library, candidates()[i].0).len() != node_uri(
        library,
        candidates()[j].0,
    ).len());
}

/// The views of a list of optional scores.
pub open spec fn scores_view(list: Seq<Option<Score>>) -> Seq<Option<ScoreView>> {
    Seq::new(list.len(), |i: int| optional_score(list[i]))
}

/// A score of a query with `terms` terms.
pub open spec fn score_of_query(score: Option<Score>, terms: usize) -> bool {
    score matches Some(s) ==> s.terms == terms && s.matched <= terms
}

/// What a query with `terms` terms gives, where `scores` holds the score of each
/// candidate that matches.
pub fn query_result(
    library: &str,
    limit: usize,
    contents: &[String; 6],
    scores: &[Option<Score>; 6],
    terms: usize,
    state: ContextState,
) -> (r: QueryResult)
    requires
        forall|k: int| 0 <= k < 6 ==> score_of_query(#[trigger] scores@[k], terms),
    ensures
        r@ == result_of(library@, limit as nat, texts(contents@), scores_view(scores@), state),
        in_rank_order(r@.hits),
        r@.hits.len() <= limit,
{
    let ghost all = scores_view(scores@);
    let ghost given = texts(contents@);
    let mut hits: Vec<QueryHit> = Vec::new();
    let mut k: usize = 0;
    assert(hits_view(hits@) =~= hits_among(library@, given, all.take(0)));
    while k < 6
        invariant
            k <= 6,
            all == scores_view(scores@),
            given == texts(contents@),
            forall|j: int| 0 <= j < 6 ==> score_of_query(#[trigger] scores@[j], terms),
            in_rank_order(hits_view(hits@)),
            hits_view(hits@).to_multiset() == hits_among(
                library@,
                given,
                all.take(k as int),
            ).to_multiset(),
            forall|i: int|
                0 <= i < hits@.len() ==> (#[trigger] hits@[i]).score.terms == terms
                    && hits@[i].score.matched <= terms,
            forall|i: int|
                0 <= i < hits@.len() ==> exists|j: int|
                    0 <= j < k && (#[trigger] hits@[i]).uri@ == node_uri(
                        library@,
                        (#[trigger] candidates()[j]).0,
                    ),
        decreases 6 - k,
    {
        let (path, title) = candidate(k);
        assert(all.take(k + 1).drop_last() =~= all.take(k as int));
        assert(all.take(k + 1)[k as int] == optional_score(scores@[k as int]));
        match scores[k] {
            None => {
                proof {
                    assert forall|i: int| 0 <= i < hits@.len() implies exists|j: int|
                        0 <= j < k + 1 && (#[trigger] hits@[i]).uri@ == node_uri(
                            library@,
                            (#[trigger] candidates()[j]).0,
                        ) by {
                        let j = choose|j: int|
                            0 <= j < k && hits@[i].uri@ == node_uri(
                                library@,
                                (#[trigger] candidates()[j]).0,
                            );
                        assert(candidates()[j] == candidates()[j]);
                    }
                }
            },
            Some(score) => {
                assert(score_of_query(scores@[k as int], terms));
                let metadata = vec![
                    ("matched_terms".to_owned(), decimal_string(score.matched as u128)),
                ];
                let hit = QueryHit {
                    uri: uri_of(library, path),
                    title: Some(title.to_owned()),
                    snippet: Some(truncate(contents[k].as_str(), 240)),
                    score,
                    metadata,
                };
                assert(pairs(metadata@) =~= seq![
                    ("matched_terms"@, decimal(score.matched as nat)),
                ]);
                let ghost value = hit@;
                let ghost new_hit = hit;
                let ghost held = hits@;
                let ghost so_far = hits_among(library@, given, all.take(k as int));
                assert(value == hit_of(library@, path@, title@, given[k as int], score@));
                proof {
                    assert forall|i: int| 0 <= i < held.len() implies (#[trigger] held[i]).uri@
                        != hit.uri@ by {
                        let j = choose|j: int|
                            0 <= j < k && held[i].uri@ == node_uri(
                                library@,
                                (#[trigger] candidates()[j]).0,
                            );
                        lemma_candidates_differ(library@, j, k as int);
                    }
                }
                place(&mut hits, hit, terms);
                proof {
                    broadcast use vstd::seq_lib::group_to_multiset_ensures;

                    assert(so_far.push(value).to_multiset() =~= so_far.to_multiset().insert(value));
                    assert forall|i: int| 0 <= i < hits@.len() implies exists|j: int|
                        0 <= j < k + 1 && (#[trigger] hits@[i]).uri@ == node_uri(
                            library@,
                            (#[trigger] candidates()[j]).0,
                        ) by {
                        if held.contains(hits@[i]) {
                            let h = choose|h: int| 0 <= h < held.len() && held[h] == hits@[i];
                            let j = choose|j: int|
                                0 <= j < k && held[h].uri@ == node_uri(
                                    library@,
                                    (#[trigger] candidates()[j]).0,
                                );
                            assert(candidates()[j] == candidates()[j]);
                        } else {
                            assert(candidates()[k as int].0 == path@);
                        }
                    }
                }
            },
        }
        k += 1;
    }
    assert(all.take(6) =~= all);
    proof {
        let found = hits_among(library@, given, all);
        assert(in_rank_order(hits_view(hits@)) && hits_view(hits@).to_multiset()
            == found.to_multiset());
        law_rank_order_unique(ranked(found), hits_view(hits@));
    }
    let most: usize = if limit < 1000 {
        limit
    } else {
        1000
    };
    let ghost whole = hits_view(hits@);
    hits.truncate(most);
    assert(hits_view(hits@) =~= (if whole.len() <= most {
        whole
    } else {
        whole.take(most as int)
    }));
    let provenance = vec![("freshness".to_owned(), state.name().to_owned())];
    assert(pairs(provenance@) =~= seq![("freshness"@, state_name(state))]);
    QueryResult {
        answer: None,
        hits,
        provider: "project-context".to_owned(),
        strategy: "lexical".to_owned(),
        provenance,
    }
}

/// How well the candidate in place `k` matches.
fn candidate_score(k: usize, content: &str, phrase: &str, terms: &[String]) -> (r: Option<Score>)
    requires
        k < 6,
    ensures
        optional_score(r) == node_score(
            candidates()[k as int].0,
            candidates()[k as int].1,
            content@,
            phrase@,
            texts(terms@),
        ),
        score_of_query(r, terms@.len() as usize),
{
    let (path, title) = candidate(k);
    proof {
        law_matched_terms_bounded(
            lowercase(path@),
            lowercase(title@),
            lowercase(content@),
            texts(terms@),
        );
    }
    lexical_score(path, title, content, phrase, terms)
}

/// What a query gives, with the contents of the candidates, in their order, and
/// the freshness of the project.
pub fn query_library(
    profile: &Profile,
    query: &ProviderQuery,
    contents: &[String; 6],
    state: ContextState,
) -> (r: QueryResult)
    ensures
        r@ == answered(profile.library_id@, query@, texts(contents@), state),
        in_rank_order(r@.hits),
        r@.hits.len() <= query.limit,
        trimmed(query.text@).len() == 0 ==> r@ == result_of(
            profile.library_id@,
            query.limit as nat,
            texts(contents@),
            blank_scores(),
            state,
        ),
{
    let text = chars_of(query.text.as_str());
    let phrase = string_of(trim(text.as_slice())).as_str().to_lowercase();
    let phrase = phrase.as_str();
    let terms = query_terms(phrase);
    let list = terms.as_slice();
    let scores = [
        candidate_score(0, contents[0].as_str(), phrase, list),
        candidate_score(1, contents[1].as_str(), phrase, list),
        candidate_score(2, contents[2].as_str(), phrase, list),
        candidate_score(3, contents[3].as_str(), phrase, list),
        candidate_score(4, contents[4].as_str(), phrase, list),
        candidate_score(5, contents[5].as_str(), phrase, list),
    ];
    assert(scores_view(scores@) =~= candidate_scores(phrase@, texts(contents@)));
    proof {
        if trimmed(query.text@).len() == 0 {
            lemma_blank_scores(phrase@, texts(contents@));
        }
    }
    query_result(profile.library_id.as_str(), query.limit, contents, &scores, terms.len(), state)
}

/// A node fails to match exactly where the phrase is not empty and neither it nor
/// any of its terms occurs in the node.
pub proof fn law_match_needs_one_occurrence(
    path: Text,
    title: Text,
    content: Text,
    phrase: Text,
    terms: Seq<Text>,
)
    ensures
        lowered_score(path, title, content, phrase, terms) is None <==> {
            &&& phrase.len() > 0
            &&& phrase_points(path, title, content, phrase) == 0
            &&& forall|i: int|
                0 <= i < terms.len() ==> term_points(path, title, content, #[trigger] terms[i]) == 0
        },
{
    law_matched_terms_bounded(path, title, content, terms);
    lemma_no_points(path, title, content, terms);
}

proof fn lemma_no_points(path: Text, title: Text, content: Text, terms: Seq<Text>)
    ensures
        terms_points(path, title, content, terms) == 0 <==> forall|i: int|
            0 <= i < terms.len() ==> term_points(path, title, content, #[trigger] terms[i]) == 0,
    decreases terms.len(),
{
    if terms.len() > 0 {
        let front = terms.drop_last();
        lemma_no_points(path, title, content, front);
        if terms_points(path, title, content, terms) == 0 {
            assert forall|i: int| 0 <= i < terms.len() implies term_points(
                path,
                title,
                content,
                #[trigger] terms[i],
            ) == 0 by {
                if i < front.len() {
                    assert(front[i] == terms[i]);
                }
            }
        }
        if forall|i: int|
            0 <= i < terms.len() ==> term_points(path, title, content, #[trigger] terms[i]) == 0 {
            assert(terms[terms.len() - 1] == terms.last());
            assert forall|i: int| 0 <= i < front.len() implies term_points(
                path,
                title,
                content,
                #[trigger] front[i],
            ) == 0 by {
                assert(front[i] == terms[i]);
            }
        }
    }
}

/// The scores of the candidates of a blank query: all match, without a point.
pub open spec fn blank_scores() -> Seq<Option<ScoreView>> {
    Seq::new(6, |k: int| Some(ScoreView { points: 0, matched: 0, terms: 0 }))
}

proof fn lemma_blank_scores(phrase: Text, contents: Seq<Text>)
    requires
        phrase.len() == 0,
    ensures
        candidate_scores(phrase, contents) == blank_scores(),
{
    let runs = word_runs(phrase, term_chars(phrase));
    assert(runs =~= seq![Seq::<char>::empty()]);
    assert(runs.drop_last() =~= Seq::empty());
    assert(nonempty(Seq::empty()) =~= Seq::empty());
    assert(nonempty(runs) =~= Seq::empty());
    law_ascending_list(Seq::empty());
    assert(candidate_scores(phrase, contents) =~= blank_scores());
}

/// A blank query finds every node, each once, in the order of the URIs.
pub proof fn law_blank_query_finds_everything(library: Text, contents: Seq<Text>)
    ensures
        ({
            let all = ranked(hits_among(library, contents, blank_scores()));
            &&& all.len() == 6
            &&& forall|k: int|
                0 <= k < 6 ==> all.contains(
                    hit_of(
                        library,
                        (#[trigger] candidates()[k]).0,
                        candidates()[k].1,
                        contents[k],
                        ScoreView { points: 0, matched: 0, terms: 0 },
                    ),
                )
            &&& forall|i: int, j: int|
                0 <= i < j < all.len() ==> before(
                    (#[trigger] all[i]).uri,
                    (#[trigger] all[j]).uri,
                )
        }),
{
    broadcast use vstd::seq_lib::group_to_multiset_ensures;

    let zero = ScoreView { points: 0, matched: 0, terms: 0 };
    let scores = blank_scores();
    let found = hits_among(library, contents, scores);
    let all = ranked(found);
    law_ranking_exists(library, contents, scores);
    lemma_all_hits(library, contents, scores);
    assert forall|k: int| 0 <= k < 6 implies all.contains(
        hit_of(library, (#[trigger] candidates()[k]).0, candidates()[k].1, contents[k], zero),
    ) by {
        assert(found[k] == hit_of(
            library,
            candidates()[k].0,
            candidates()[k].1,
            contents[k],
            zero,
        ));
        assert(found.contains(found[k]));
    }
    assert forall|i: int, j: int| 0 <= i < j < all.len() implies before(
        (#[trigger] all[i]).uri,
        (#[trigger] all[j]).uri,
    ) by {
        assert(all.contains(all[i]) && all.contains(all[j]));
        assert(found.contains(all[i]) && found.contains(all[j]));
        assert(better(all[i], all[j]));
    }
}

/// Where every candidate matches, every candidate is a hit.
proof fn lemma_all_hits(library: Text, contents: Seq<Text>, scores: Seq<Option<ScoreView>>)
    requires
        forall|k: int| 0 <= k < scores.len() ==> (#[trigger] scores[k]) is Some,
    ensures
        hits_among(library, contents, scores).len() == scores.len(),
        forall|k: int|
            0 <= k < scores.len() ==> (#[trigger] hits_among(library, contents, scores)[k])
                == hit_of(
                library,
                candidates()[k].0,
                candidates()[k].1,
                contents[k],
                scores[k]->Some_0,
            ),
    decreases scores.len(),
{
    if scores.len() > 0 {
        let front = scores.drop_last();
        assert forall|k: int| 0 <= k < front.len() implies (#[trigger] front[k]) is Some by {
            assert(front[k] == scores[k]);
        }
        lemma_all_hits(library, contents, front);
        assert(scores[scores.len() - 1] is Some);
        let all = hits_among(library, contents, scores);
        let before_last = hits_among(library, contents, front);
        assert forall|k: int| 0 <= k < scores.len() implies (#[trigger] all[k]) == hit_of(
            library,
            candidates()[k].0,
            candidates()[k].1,
            contents[k],
            scores[k]->Some_0,
        ) by {
            if k < front.len() {
                assert(all[k] == before_last[k]);
                assert(front[k] == scores[k]);
            }
        }
    }
}

/// A hit finds its place among others with other URIs.
proof fn lemma_rank_insert(list: Seq<HitView>, hit: HitView) -> (longer: Seq<HitView>)
    requires
        in_rank_order(list),
        forall|i: int| 0 <= i < list.len() ==> (#[trigger] list[i]).uri != hit.uri,
    ensures
        in_rank_order(longer),
        longer.to_multiset() == list.to_multiset().insert(hit),
        forall|i: int|
            0 <= i < longer.len() ==> (#[trigger] longer[i]) == hit || list.contains(longer[i]),
    decreases list.len(),
{
    broadcast use vstd::seq_lib::group_to_multiset_ensures;

    if list.len() == 0 {
        let longer = list.push(hit);
        assert(longer.to_multiset() =~= list.to_multiset().insert(hit));
        longer
    } else {
        let last = list[list.len() - 1];
        let front = list.drop_last();
        assert(list =~= front.push(last));
        assert(last.uri != hit.uri);
        if better(last, hit) {
            let longer = list.push(hit);
            assert forall|i: int, j: int| 0 <= i < j < longer.len() implies better(
                #[trigger] longer[i],
                #[trigger] longer[j],
            ) by {
                if j < list.len() {
                    assert(better(list[i], list[j]));
                } else if i < front.len() {
                    assert(better(list[i], list[list.len() - 1]));
                    law_better_is_an_order(list[i], last, hit);
                }
            }
            assert(longer.to_multiset() =~= list.to_multiset().insert(hit));
            assert forall|i: int| 0 <= i < longer.len() implies (#[trigger] longer[i]) == hit
                || list.contains(longer[i]) by {
                if i < list.len() {
                    assert(longer[i] == list[i]);
                }
            }
            longer
        } else {
            law_better_is_an_order(hit, last, last);
            assert forall|i: int, j: int| 0 <= i < j < front.len() implies better(
                #[trigger] front[i],
                #[trigger] front[j],
            ) by {
                assert(better(list[i], list[j]));
            }
            assert forall|i: int| 0 <= i < front.len() implies (#[trigger] front[i]).uri
                != hit.uri by {
                assert(list[i].uri != hit.uri);
            }
            let inner = lemma_rank_insert(front, hit);
            let longer = inner.push(last);
            assert forall|i: int, j: int| 0 <= i < j < longer.len() implies better(
                #[trigger] longer[i],
                #[trigger] longer[j],
            ) by {
                if j < inner.len() {
                    assert(better(inner[i], inner[j]));
                } else if inner[i] != hit {
                    assert(front.contains(inner[i]));
                    let k = choose|k: int| 0 <= k < front.len() && front[k] == inner[i];
                    assert(better(list[k], list[list.len() - 1]));
                }
            }
            assert(longer.to_multiset() =~= list.to_multiset().insert(hit));
            assert forall|i: int| 0 <= i < longer.len() implies (#[trigger] longer[i]) == hit
                || list.contains(longer[i]) by {
                if i < inner.len() && inner[i] != hit {
                    assert(front.contains(inner[i]));
                    let k = choose|k: int| 0 <= k < front.len() && front[k] == inner[i];
                    assert(list[k] == longer[i]);
                } else if i == inner.len() {
                    assert(list[list.len() - 1] == longer[i]);
                }
            }
            longer
        }
    }
}

/// Hits with different URIs can be put into rank order.
proof fn lemma_rank_sorted(list: Seq<HitView>) -> (sorted: Seq<HitView>)
    requires
        forall|i: int, j: int|
            0 <= i < j < list.len() ==> (#[trigger] list[i]).uri != (#[trigger] list[j]).uri,
    ensures
        in_rank_order(sorted),
        sorted.to_multiset() == list.to_multiset(),
    decreases list.len(),
{
    broadcast use vstd::seq_lib::group_to_multiset_ensures;

    if list.len() == 0 {
        list
    } else {
        let front = list.drop_last();
        let last = list[list.len() - 1];
        assert(list =~= front.push(last));
        assert forall|i: int, j: int| 0 <= i < j < front.len() implies (#[trigger] front[i]).uri
            != (#[trigger] front[j]).uri by {
            assert(list[i].uri != list[j].uri);
        }
        let inner = lemma_rank_sorted(front);
        assert forall|i: int| 0 <= i < inner.len() implies (#[trigger] inner[i]).uri != last.uri by {
            assert(inner.contains(inner[i]));
            assert(inner.to_multiset().count(inner[i]) > 0);
            assert(front.contains(inner[i]));
            let k = choose|k: int| 0 <= k < front.len() && front[k] == inner[i];
            assert(list[k].uri != list[list.len() - 1].uri);
        }
        let sorted = lemma_rank_insert(inner, last);
        assert(sorted.to_multiset() =~= list.to_multiset());
        sorted
    }
}

/// Every hit is one of a candidate, and no two are of the same.
proof fn lemma_hits_differ(library: Text, contents: Seq<Text>, scores: Seq<Option<ScoreView>>)
    requires
        scores.len() <= 6,
    ensures
        forall|i: int|
            0 <= i < hits_among(library, contents, scores).len() ==> exists|k: int|
                0 <= k < scores.len() && (#[trigger] hits_among(library, contents, scores)[i]).uri
                    == node_uri(library, (#[trigger] candidates()[k]).0),
        forall|i: int, j: int|
            0 <= i < j < hits_among(library, contents, scores).len() ==> (#[trigger] hits_among(
                library,
                contents,
                scores,
            )[i]).uri != (#[trigger] hits_among(library, contents, scores)[j]).uri,
    decreases scores.len(),
{
    if scores.len() > 0 {
        let n = scores.len() - 1;
        let front = hits_among(library, contents, scores.drop_last());
        let all = hits_among(library, contents, scores);
        lemma_hits_differ(library, contents, scores.drop_last());
        assert forall|i: int| 0 <= i < all.len() implies exists|k: int|
            0 <= k < scores.len() && (#[trigger] all[i]).uri == node_uri(
                library,
                (#[trigger] candidates()[k]).0,
            ) by {
            if i < front.len() {
                assert(all[i] == front[i]);
                let k = choose|k: int|
                    0 <= k < n && front[i].uri == node_uri(library, (#[trigger] candidates()[k]).0);
                assert(all[i].uri == node_uri(library, candidates()[k].0));
            } else {
                assert(all[i].uri == node_uri(library, candidates()[n].0));
            }
        }
        assert forall|i: int, j: int| 0 <= i < j < all.len() implies (#[trigger] all[i]).uri != (
        #[trigger] all[j]).uri by {
            assert(all[i] == front[i]);
            if j < front.len() {
                assert(all[j] == front[j]);
            } else {
                let k = choose|k: int|
                    0 <= k < n && front[i].uri == node_uri(library, (#[trigger] candidates()[k]).0);
                lemma_candidates_differ(library, k, n);
            }
        }
    }
}

/// The hits of a query can be ranked: the ranking lists each matching node exactly
/// once, the best first, and no two hits share a URI.
pub proof fn law_ranking_exists(
    library: Text,
    contents: Seq<Text>,
    scores: Seq<Option<ScoreView>>,
)
    requires
        scores.len() <= 6,
    ensures
        ({
            let found = hits_among(library, contents, scores);
            let all = ranked(found);
            &&& in_rank_order(all)
            &&& all.to_multiset() == found.to_multiset()
            &&& all.len() == found.len()
            &&& forall|hit: HitView| #[trigger] all.contains(hit) <==> found.contains(hit)
            &&& forall|i: int, j: int|
                0 <= i < j < found.len() ==> (#[trigger] found[i]).uri != (#[trigger] found[j]).uri
        }),
{
    broadcast use vstd::seq_lib::group_to_multiset_ensures;

    let found = hits_among(library, contents, scores);
    lemma_hits_differ(library, contents, scores);
    let sorted = lemma_rank_sorted(found);
    assert(in_rank_order(sorted) && sorted.to_multiset() == found.to_multiset());
    let all = ranked(found);
    assert(all.to_multiset().len() == all.len());
    assert(found.to_multiset().len() == found.len());
    assert forall|hit: HitView| #[trigger] all.contains(hit) <==> found.contains(hit) by {
        assert(all.contains(hit) <==> all.to_multiset().count(hit) > 0);
        assert(found.contains(hit) <==> found.to_multiset().count(hit) > 0);
    }
}

/// Every character of a run is one that is marked.
proof fn lemma_run_chars(s: Text, word: Seq<bool>)
    requires
        s.len() <= word.len(),
        forall|i: int| 0 <= i < s.len() && #[trigger] word[i] ==> !white_space(s[i]),
    ensures
        word_runs(s, word).len() >= 1,
        forall|k: int, i: int|
            0 <= k < word_runs(s, word).len() && 0 <= i < word_runs(s, word)[k].len()
                ==> !white_space(#[trigger] word_runs(s, word)[k][i]),
    decreases s.len(),
{
    if s.len() > 0 {
        let front = s.drop_last();
        assert forall|i: int| 0 <= i < front.len() && #[trigger] word[i] implies !white_space(
            front[i],
        ) by {
            assert(front[i] == s[i]);
        }
        lemma_run_chars(front, word);
        let start = word_runs(front, word);
        let runs = word_runs(s, word);
        assert forall|k: int, i: int| 0 <= k < runs.len() && 0 <= i < runs[k].len() implies !white_space(
            #[trigger] runs[k][i],
        ) by {
            if word[s.len() - 1] && k == runs.len() - 1 {
                let last = start[start.len() - 1];
                if i < last.len() {
                    assert(runs[k][i] == last[i]);
                } else {
                    assert(word[s.len() - 1]);
                }
            } else if k < start.len() {
                assert(runs[k] == start[k]);
                assert(!white_space(start[k][i]));
            }
        }
    }
}

/// Where no white space is marked, there is nothing to cut off the runs.
proof fn lemma_runs_untrimmed(s: Text, word: Seq<bool>)
    requires
        s.len() == word.len(),
        forall|i: int| 0 <= i < s.len() && #[trigger] word[i] ==> !white_space(s[i]),
    ensures
        words(s, word) == ascending_list(nonempty(word_runs(s, word)).to_set()),
{
    lemma_run_chars(s, word);
    let runs = word_runs(s, word);
    assert forall|k: int| 0 <= k < runs.len() implies trimmed(#[trigger] runs[k]) == runs[k] by {
        let run = runs[k];
        if run.len() > 0 {
            assert(!white_space(runs[k][0]));
            assert(!white_space(runs[k][run.len() - 1]));
        }
    }
    assert(all_trimmed(runs) =~= runs);
}

/// Every run that is not empty is a maximal one that ends before `n`.
#[verifier::opaque]
spec fn runs_are_maximal(s: Text, n: int, runs: Seq<Text>) -> bool {
    forall|m: int|
        0 <= m < runs.len() && (#[trigger] runs[m]).len() > 0 ==> exists|i: int, j: int|
            j < n && #[trigger] maximal_run(s, i, j) && s.subrange(i, j) == runs[m]
}

/// Every maximal run that ends before `n` is among the runs.
#[verifier::opaque]
spec fn maximal_are_runs(s: Text, n: int, runs: Seq<Text>) -> bool {
    forall|i: int, j: int| #[trigger]
        maximal_run(s, i, j) && j < n ==> exists|m: int|
            0 <= m < runs.len() && #[trigger] runs[m] == s.subrange(i, j)
}

/// The runs of a text: the last one reaches to its end, and the others are the
/// maximal runs before it, or empty.
proof fn lemma_runs(s: Text, n: int) -> (from: int)
    requires
        0 <= n <= s.len(),
    ensures
        ({
            let runs = word_runs(s.take(n), term_chars(s));
            &&& runs.len() >= 1
            &&& 0 <= from <= n
            &&& runs[runs.len() - 1] == s.subrange(from, n)
            &&& forall|k: int| from <= k < n ==> term_char(#[trigger] s[k])
            &&& from > 0 ==> !term_char(s[from - 1])
            &&& runs_are_maximal(s, n, runs.drop_last())
            &&& maximal_are_runs(s, n, runs.drop_last())
        }),
    decreases n,
{
    let word = term_chars(s);
    let runs = word_runs(s.take(n), word);
    if n == 0 {
        reveal(runs_are_maximal);
        reveal(maximal_are_runs);
        assert(s.take(0) =~= Seq::<char>::empty());
        assert(s.subrange(0, 0) =~= Seq::<char>::empty());
        0
    } else {
        let before_from = lemma_runs(s, n - 1);
        let start = word_runs(s.take(n - 1), word);
        assert(s.take(n).drop_last() =~= s.take(n - 1));
        assert(s.take(n).last() == s[n - 1]);
        assert(word[n - 1] == term_char(s[n - 1]));
        let from = if term_char(s[n - 1]) {
            before_from
        } else {
            n
        };
        if term_char(s[n - 1]) {
            assert(runs =~= start.drop_last().push(start.last().push(s[n - 1])));
            assert(start.last().push(s[n - 1]) =~= s.subrange(from, n));
        } else {
            assert(runs =~= start.push(Seq::empty()));
            assert(s.subrange(n, n) =~= Seq::<char>::empty());
        }
        let done = runs.drop_last();
        assert(done =~= if term_char(s[n - 1]) {
            start.drop_last()
        } else {
            start
        });
        assert(runs_are_maximal(s, n, done)) by {
            reveal(runs_are_maximal);
            assert forall|m: int| 0 <= m < done.len() && (#[trigger] done[m]).len() > 0 implies exists|
                i: int,
                j: int,
            |
                j < n && #[trigger] maximal_run(s, i, j) && s.subrange(i, j) == done[m] by {
                if m < start.len() - 1 {
                    assert(start.drop_last()[m] == done[m]);
                } else {
                    assert(maximal_run(s, before_from, n - 1));
                }
            }
        }
        assert(maximal_are_runs(s, n, done)) by {
            reveal(maximal_are_runs);
            assert forall|i: int, j: int| #[trigger]
                maximal_run(s, i, j) && j < n implies exists|m: int|
                0 <= m < done.len() && #[trigger] done[m] == s.subrange(i, j) by {
                if j < n - 1 {
                    let m = choose|m: int|
                        0 <= m < start.drop_last().len() && #[trigger] start.drop_last()[m]
                            == s.subrange(i, j);
                    assert(done[m] == start.drop_last()[m]);
                } else {
                    assert(!term_char(s[n - 1]));
                    if i < before_from {
                        assert(term_char(s[before_from - 1]));
                    } else if i > before_from {
                        assert(term_char(s[i - 1]));
                    }
                    assert(done[start.len() - 1] == s.subrange(i, j));
                }
            }
        }
        from
    }
}

/// Every run that is not empty is a maximal one.
proof fn lemma_run_is_maximal(s: Text, m: int)
    requires
        0 <= m < word_runs(s, term_chars(s)).len(),
        word_runs(s, term_chars(s))[m].len() > 0,
    ensures
        exists|i: int, j: int| #[trigger]
            maximal_run(s, i, j) && s.subrange(i, j) == word_runs(s, term_chars(s))[m],
{
    let n = s.len() as int;
    let from = lemma_runs(s, n);
    assert(s.take(n) =~= s);
    let runs = word_runs(s, term_chars(s));
    if m == runs.len() - 1 {
        assert(maximal_run(s, from, n));
    } else {
        reveal(runs_are_maximal);
        assert(runs.drop_last()[m] == runs[m]);
    }
}

/// Every maximal run is among the runs.
proof fn lemma_maximal_is_run(s: Text, i: int, j: int)
    requires
        maximal_run(s, i, j),
    ensures
        word_runs(s, term_chars(s)).contains(s.subrange(i, j)),
{
    let n = s.len() as int;
    let from = lemma_runs(s, n);
    assert(s.take(n) =~= s);
    let runs = word_runs(s, term_chars(s));
    if j < n {
        reveal(maximal_are_runs);
        let m = choose|m: int|
            0 <= m < runs.drop_last().len() && #[trigger] runs.drop_last()[m] == s.subrange(i, j);
        assert(runs[m] == s.subrange(i, j));
    } else {
        if i < from {
            assert(term_char(s[from - 1]));
        } else if i > from {
            assert(term_char(s[i - 1]));
        }
        assert(runs[runs.len() - 1] == s.subrange(i, j));
    }
}

/// The terms of a text ascend, and are exactly its maximal runs of term characters.
pub proof fn law_terms_are_maximal_runs(s: Text, term: Text)
    ensures
        ascending(terms_of(s)),
        terms_of(s).contains(term) <==> exists|i: int, j: int| #[trigger]
            maximal_run(s, i, j) && s.subrange(i, j) == term,
{
    let runs = word_runs(s, term_chars(s));
    let list = nonempty(runs);
    lemma_nonempty(runs);
    law_ascending_list_exists(list);
    let terms = terms_of(s);
    assert(terms.contains(term) <==> list.contains(term)) by {
        assert(terms.to_set().contains(term) <==> list.to_set().contains(term));
    }
    if list.contains(term) {
        let k = choose|k: int| 0 <= k < list.len() && list[k] == term;
        assert(list[k].len() > 0);
        assert(runs.contains(list[k]));
        let m = choose|m: int| 0 <= m < runs.len() && runs[m] == term;
        lemma_run_is_maximal(s, m);
    }
    if exists|i: int, j: int| #[trigger] maximal_run(s, i, j) && s.subrange(i, j) == term {
        let (i, j) = choose|i: int, j: int| #[trigger]
            maximal_run(s, i, j) && s.subrange(i, j) == term;
        lemma_maximal_is_run(s, i, j);
        assert(term.len() > 0);
    }
}

/// Where exactly the blanks are not marked, the runs are the pieces between them.
proof fn lemma_runs_are_pieces(s: Text, word: Seq<bool>)
    requires
        s.len() <= word.len(),
        forall|i: int| 0 <= i < s.len() ==> #[trigger] word[i] == (s[i] != ' '),
    ensures
        word_runs(s, word) == pieces(s, ' '),
    decreases s.len(),
{
    if s.len() > 0 {
        let front = s.drop_last();
        assert forall|i: int| 0 <= i < front.len() implies #[trigger] word[i] == (front[i]
            != ' ') by {
            assert(front[i] == s[i]);
        }
        lemma_runs_are_pieces(front, word);
        assert(word[s.len() - 1] == (s.last() != ' '));
    }
}

/// The terms of terms with blanks between them are these terms.
pub proof fn law_terms_survive_joining(s: Text)
    ensures
        terms_of(joined(terms_of(s), " "@)) == terms_of(s),
{
    reveal_strlit(" ");
    assert(" "@ =~= seq![' ']);
    let list = terms_of(s);
    let whole = joined(list, seq![' ']);
    law_terms_are_maximal_runs(s, Seq::empty());
    assert forall|k: int| 0 <= k < list.len() implies (#[trigger] list[k]).len() > 0 && forall|
        i: int,
    |
        0 <= i < list[k].len() ==> term_char(#[trigger] list[k][i]) by {
        law_terms_are_maximal_runs(s, list[k]);
        assert(list.contains(list[k]));
        let (i, j) = choose|i: int, j: int| #[trigger]
            maximal_run(s, i, j) && s.subrange(i, j) == list[k];
        assert forall|x: int| 0 <= x < list[k].len() implies term_char(#[trigger] list[k][x]) by {
            assert(list[k][x] == s[i + x]);
        }
    }
    if list.len() == 0 {
        assert(whole =~= Seq::<char>::empty());
        let runs = word_runs(whole, term_chars(whole));
        assert(runs =~= seq![Seq::<char>::empty()]);
        assert(runs.drop_last() =~= Seq::empty());
        assert(nonempty(Seq::empty()) =~= Seq::empty());
        assert(nonempty(runs) =~= list);
    } else {
        let word = term_chars(whole);
        assert forall|i: int| 0 <= i < whole.len() implies #[trigger] word[i] == (whole[i]
            != ' ') by {
            if whole[i] != ' ' {
                assert(whole.contains(whole[i]));
                lemma_joined_chars(list, seq![' '], whole[i]);
                let k = choose|k: int|
                    0 <= k < list.len() && (#[trigger] list[k]).contains(whole[i]);
                let x = choose|x: int| 0 <= x < list[k].len() && list[k][x] == whole[i];
                assert(term_char(list[k][x]));
            }
        }
        lemma_runs_are_pieces(whole, word);
        assert forall|k: int| 0 <= k < list.len() implies !(#[trigger] list[k]).contains(' ') by {
            if list[k].contains(' ') {
                let x = choose|x: int| 0 <= x < list[k].len() && list[k][x] == ' ';
                assert(term_char(list[k][x]));
            }
        }
        law_split_undoes_join(list, ' ');
        lemma_nonempty_identity(list);
    }
    law_ascending_list(list);
}

/// A snippet is never longer than asked for, but for the ellipsis, and begins
/// like the text.
pub proof fn law_truncated_is_a_prefix(s: Text, max: nat)
    ensures
        truncated(s, max).len() <= max + 1,
        s.len() <= max ==> truncated(s, max) == s,
        s.len() > max ==> truncated(s, max).take(max as int) == s.take(max as int),
{
    if s.len() > max {
        assert(truncated(s, max).take(max as int) =~= s.take(max as int));
    }
}

/// What a cut text is: itself where it is short enough, and otherwise its first
/// characters and an ellipsis.
pub proof fn law_cut_texts(head: Text, rest: Text)
    ensures
        truncated(head, head.len()) == head,
        rest.len() > 0 ==> truncated(head + rest, head.len()) == head + seq!['\u{2026}'],
{
    if rest.len() > 0 {
        assert((head + rest).take(head.len() as int) =~= head);
        assert(truncated(head + rest, head.len()) =~= head + seq!['\u{2026}']);
    }
}

/// The points of terms are those of each term, whatever their order: five where it
/// occurs in the path, else three where it occurs in the title, else one where it
/// occurs in the content. The matched ones are those with points.
pub proof fn law_terms_score_one_by_one(
    path: Text,
    title: Text,
    content: Text,
    a: Seq<Text>,
    b: Seq<Text>,
    term: Text,
)
    ensures
        terms_points(path, title, content, a + b) == terms_points(path, title, content, a)
            + terms_points(path, title, content, b),
        terms_matched(path, title, content, a + b) == terms_matched(path, title, content, a)
            + terms_matched(path, title, content, b),
        contains_text(path, term) ==> terms_points(path, title, content, seq![term]) == 5,
        !contains_text(path, term) && contains_text(title, term) ==> terms_points(
            path,
            title,
            content,
            seq![term],
        ) == 3,
        !contains_text(path, term) && !contains_text(title, term) && contains_text(content, term)
            ==> terms_points(path, title, content, seq![term]) == 1,
        !contains_text(path, term) && !contains_text(title, term) && !contains_text(content, term)
            ==> terms_points(path, title, content, seq![term]) == 0,
        terms_matched(path, title, content, seq![term]) == (if contains_text(path, term)
            || contains_text(title, term) || contains_text(content, term) {
            1nat
        } else {
            0nat
        }),
    decreases b.len(),
{
    assert(seq![term].drop_last() =~= Seq::<Text>::empty());
    assert(terms_points(path, title, content, Seq::empty()) == 0);
    assert(terms_matched(path, title, content, Seq::empty()) == 0);
    if b.len() == 0 {
        assert(a + b =~= a);
    } else {
        law_terms_score_one_by_one(path, title, content, a, b.drop_last(), term);
        assert((a + b).drop_last() =~= a + b.drop_last());
        assert((a + b).last() == b.last());
    }
}

/// A node matches a phrase where the phrase is empty, or where it or one of the terms
/// occurs in the node. Its points are those of the terms, and for the whole phrase
/// twenty where it occurs in the path, else twelve where it occurs in the title, else
/// six where it occurs in the content. The node's own texts count in lower case.
pub proof fn law_scores_go_by_the_best_place(
    path: Text,
    title: Text,
    content: Text,
    phrase: Text,
    terms: Seq<Text>,
)
    ensures
        ({
            let (p, t, c) = (lowercase(path), lowercase(title), lowercase(content));
            let whole: nat = if contains_text(p, phrase) {
                20
            } else if contains_text(t, phrase) {
                12
            } else if contains_text(c, phrase) {
                6
            } else {
                0
            };
            let points = whole + terms_points(p, t, c, terms);
            &&& phrase.len() == 0 ==> node_score(path, title, content, phrase, terms) == Some(
                ScoreView { points: 0, matched: 0, terms: terms.len() },
            )
            &&& phrase.len() > 0 && points == 0 ==> node_score(
                path,
                title,
                content,
                phrase,
                terms,
            ) is None
            &&& phrase.len() > 0 && points > 0 ==> node_score(path, title, content, phrase, terms)
                == Some(
                ScoreView { points, matched: terms_matched(p, t, c, terms), terms: terms.len() },
            )
        }),
{
    let (p, t, c) = (lowercase(path), lowercase(title), lowercase(content));
    law_matched_terms_bounded(p, t, c, terms);
}

/// The path and the title of each node that can be found.
pub open spec fn searched(k: int) -> (Text, Text) {
    if k == 0 {
        ("status"@, "Live project freshness"@)
    } else if k == 1 {
        ("current/architecture"@, "Architecture"@)
    } else if k == 2 {
        ("current/constraints"@, "Constraints"@)
    } else if k == 3 {
        ("current/decisions"@, "Decisions"@)
    } else if k == 4 {
        ("current/components"@, "Components"@)
    } else {
        ("history/log"@, "Project history"@)
    }
}

/// The hit is that of node `k` with this content: its URI, its title, the beginning of
/// the content, and the score of this content for the query.
pub open spec fn hit_shows(
    hit: HitView,
    library: Text,
    text: Text,
    k: int,
    content: Text,
) -> bool {
    let phrase = lowercase(trimmed(text));
    &&& hit.uri == "okf://"@ + library + "/"@ + searched(k).0
    &&& hit.title == Some(searched(k).1)
    &&& hit.snippet == Some(truncated(content, 240))
    &&& node_score(searched(k).0, searched(k).1, content, phrase, terms_of(phrase)) == Some(
        hit.score,
    )
    &&& hit.metadata == seq![("matched_terms"@, decimal(hit.score.matched))]
}

/// Every hit is one of a node that matches, and shows the content of that node.
#[verifier::opaque]
pub open spec fn hits_match(
    hits: Seq<HitView>,
    library: Text,
    text: Text,
    contents: Seq<Text>,
) -> bool {
    forall|i: int|
        0 <= i < hits.len() ==> exists|k: int|
            0 <= k < 6 && hit_shows(#[trigger] hits[i], library, text, k, #[trigger] contents[k])
}

/// Every node that matches has a hit, which shows its content.
#[verifier::opaque]
pub open spec fn matches_hit(
    hits: Seq<HitView>,
    library: Text,
    text: Text,
    contents: Seq<Text>,
) -> bool {
    let phrase = lowercase(trimmed(text));
    forall|k: int|
        0 <= k < 6 && node_score(
            searched(k).0,
            searched(k).1,
            #[trigger] contents[k],
            phrase,
            terms_of(phrase),
        ) is Some ==> exists|i: int|
            0 <= i < hits.len() && hit_shows(#[trigger] hits[i], library, text, k, contents[k])
}

/// Every hit is that of a candidate that matches.
proof fn lemma_hits_show(
    library: Text,
    contents: Seq<Text>,
    scores: Seq<Option<ScoreView>>,
)
    requires
        scores.len() <= 6,
    ensures
        forall|hit: HitView| #[trigger]
            hits_among(library, contents, scores).contains(hit) <==> exists|k: int|
                0 <= k < scores.len() && (#[trigger] scores[k]) is Some && hit == hit_of(
                    library,
                    candidates()[k].0,
                    candidates()[k].1,
                    contents[k],
                    scores[k]->Some_0,
                ),
    decreases scores.len(),
{
    let all = hits_among(library, contents, scores);
    if scores.len() > 0 {
        let n = scores.len() - 1;
        let rest = scores.drop_last();
        let front = hits_among(library, contents, rest);
        lemma_hits_show(library, contents, rest);
        assert forall|hit: HitView| #[trigger] all.contains(hit) <==> exists|k: int|
            0 <= k < scores.len() && (#[trigger] scores[k]) is Some && hit == hit_of(
                library,
                candidates()[k].0,
                candidates()[k].1,
                contents[k],
                scores[k]->Some_0,
            ) by {
            if all.contains(hit) {
                let i = choose|i: int| 0 <= i < all.len() && all[i] == hit;
                if i < front.len() {
                    assert(front[i] == hit);
                    assert(front.contains(hit));
                    let k = choose|k: int|
                        0 <= k < rest.len() && (#[trigger] rest[k]) is Some && hit == hit_of(
                            library,
                            candidates()[k].0,
                            candidates()[k].1,
                            contents[k],
                            rest[k]->Some_0,
                        );
                    assert(scores[k] == rest[k]);
                } else {
                    assert(scores[n] is Some);
                }
            }
            if exists|k: int|
                0 <= k < scores.len() && (#[trigger] scores[k]) is Some && hit == hit_of(
                    library,
                    candidates()[k].0,
                    candidates()[k].1,
                    contents[k],
                    scores[k]->Some_0,
                ) {
                let k = choose|k: int|
                    0 <= k < scores.len() && (#[trigger] scores[k]) is Some && hit == hit_of(
                        library,
                        candidates()[k].0,
                        candidates()[k].1,
                        contents[k],
                        scores[k]->Some_0,
                    );
                if k < n {
                    assert(rest[k] == scores[k]);
                    assert(front.contains(hit));
                    let i = choose|i: int| 0 <= i < front.len() && front[i] == hit;
                    assert(all[i] == hit);
                } else {
                    assert(all[all.len() - 1] == hit);
                }
            }
        }
    } else {
        assert(all =~= Seq::<HitView>::empty());
    }
}

/// The candidates are the nodes that can be found.
proof fn lemma_candidates_searched(k: int)
    requires
        0 <= k < 6,
    ensures
        candidates()[k] == searched(k),
{
}

/// A query finds nothing but nodes that match, each shown with its own content and
/// scored by it; with room for all of them it finds every node that matches. The
/// better score comes first, and of equal ones the URI that comes first. There are
/// never more hits than are wanted.
pub proof fn law_hits_show_their_own_content(
    library: Text,
    query: QueryView,
    contents: Seq<Text>,
    state: ContextState,
)
    requires
        contents.len() == 6,
    ensures
        ({
            let result = answered(library, query, contents, state);
            &&& hits_match(result.hits, library, query.text, contents)
            &&& query.limit >= 6 ==> matches_hit(result.hits, library, query.text, contents)
            &&& forall|i: int, j: int|
                #![trigger result.hits[i], result.hits[j]]
                0 <= i < j < result.hits.len() ==> {
                    let (a, b) = (result.hits[i].score, result.hits[j].score);
                    &&& a.terms == b.terms
                    &&& a.points * a.terms + a.matched >= b.points * b.terms + b.matched
                        || a.terms == 0
                    &&& a.terms == 0 ==> a.points >= b.points
                    &&& a == b ==> before(result.hits[i].uri, result.hits[j].uri)
                    &&& result.hits[i].uri != result.hits[j].uri
                }
            &&& result.hits.len() <= query.limit
            &&& result.answer is None
            &&& result.provider == "project-context"@
            &&& result.strategy == "lexical"@
            &&& result.provenance == seq![("freshness"@, state_name(state))]
        }),
{
    let phrase = lowercase(trimmed(query.text));
    let scores = candidate_scores(phrase, contents);
    let found = hits_among(library, contents, scores);
    let all = ranked(found);
    let result = answered(library, query, contents, state);
    law_ranking_exists(library, contents, scores);
    lemma_hits_show(library, contents, scores);
    assert(hits_match(result.hits, library, query.text, contents)) by {
        reveal(hits_match);
        assert forall|i: int| 0 <= i < result.hits.len() implies exists|k: int|
            0 <= k < 6 && hit_shows(
                #[trigger] result.hits[i],
                library,
                query.text,
                k,
                #[trigger] contents[k],
            ) by {
            let hit = result.hits[i];
            assert(hit == all[i]);
            assert(all.contains(hit));
            assert(found.contains(hit));
            let k = choose|k: int|
                0 <= k < scores.len() && (#[trigger] scores[k]) is Some && hit == hit_of(
                    library,
                    candidates()[k].0,
                    candidates()[k].1,
                    contents[k],
                    scores[k]->Some_0,
                );
            lemma_candidates_searched(k);
            assert(hit_shows(hit, library, query.text, k, contents[k]));
        }
    }
    assert(found.len() <= 6) by {
        lemma_hits_bounded(library, contents, scores);
    }
    if query.limit >= 6 {
        assert(result.hits == all);
        reveal(matches_hit);
        assert forall|k: int|
            0 <= k < 6 && node_score(
                searched(k).0,
                searched(k).1,
                #[trigger] contents[k],
                phrase,
                terms_of(phrase),
            ) is Some implies exists|i: int|
            0 <= i < result.hits.len() && hit_shows(
                #[trigger] result.hits[i],
                library,
                query.text,
                k,
                contents[k],
            ) by {
            lemma_candidates_searched(k);
            assert(scores[k] is Some);
            let hit = hit_of(
                library,
                candidates()[k].0,
                candidates()[k].1,
                contents[k],
                scores[k]->Some_0,
            );
            assert(found.contains(hit));
            assert(all.contains(hit));
            let i = choose|i: int| 0 <= i < all.len() && all[i] == hit;
            assert(hit_shows(result.hits[i], library, query.text, k, contents[k]));
        }
    }
    assert forall|i: int, j: int|
        #![trigger result.hits[i], result.hits[j]]
        0 <= i < j < result.hits.len() implies {
        let (a, b) = (result.hits[i].score, result.hits[j].score);
        &&& a.terms == b.terms
        &&& a.points * a.terms + a.matched >= b.points * b.terms + b.matched || a.terms == 0
        &&& a.terms == 0 ==> a.points >= b.points
        &&& a == b ==> before(result.hits[i].uri, result.hits[j].uri)
        &&& result.hits[i].uri != result.hits[j].uri
    } by {
        let (x, y) = (result.hits[i], result.hits[j]);
        assert(x == all[i] && y == all[j]);
        assert(better(all[i], all[j]));
        reveal(hits_match);
        let k = choose|k: int|
            0 <= k < 6 && hit_shows(x, library, query.text, k, #[trigger] contents[k]);
        let m = choose|m: int|
            0 <= m < 6 && hit_shows(y, library, query.text, m, #[trigger] contents[m]);
        assert(x.score.terms == terms_of(phrase).len());
        assert(y.score.terms == terms_of(phrase).len());
        if x.uri == y.uri {
            assert(all.contains(x) && all.contains(y));
            lemma_same_uri_same_hit(found, x, y);
            law_better_is_an_order(x, y, x);
        }
    }
}

proof fn lemma_same_uri_same_hit(found: Seq<HitView>, a: HitView, b: HitView)
    requires
        found.contains(a),
        found.contains(b),
        a.uri == b.uri,
        forall|i: int, j: int|
            0 <= i < j < found.len() ==> (#[trigger] found[i]).uri != (#[trigger] found[j]).uri,
    ensures
        a == b,
{
    let i = choose|i: int| 0 <= i < found.len() && found[i] == a;
    let j = choose|j: int| 0 <= j < found.len() && found[j] == b;
    if i < j {
        assert(found[i].uri != found[j].uri);
    } else if j < i {
        assert(found[j].uri != found[i].uri);
    }
}

proof fn lemma_hits_bounded(library: Text, contents: Seq<Text>, scores: Seq<Option<ScoreView>>)
    ensures
        hits_among(library, contents, scores).len() <= scores.len(),
    decreases scores.len(),
{
    if scores.len() > 0 {
        lemma_hits_bounded(library, contents, scores.drop_last());
    }
}

/// A smaller limit gives the first of the same hits.
pub proof fn law_limits_keep_the_best(
    library: Text,
    query: QueryView,
    more: nat,
    contents: Seq<Text>,
    state: ContextState,
)
    requires
        contents.len() == 6,
        query.limit <= more,
    ensures
        ({
            let few = answered(library, query, contents, state).hits;
            let many = answered(
                library,
                QueryView { limit: more, ..query },
                contents,
                state,
            ).hits;
            &&& few == many.take(few.len() as int)
            &&& few.len() == query.limit || few.len() == many.len()
        }),
{
    let phrase = lowercase(trimmed(query.text));
    let scores = candidate_scores(phrase, contents);
    let found = hits_among(library, contents, scores);
    law_ranking_exists(library, contents, scores);
    lemma_hits_bounded(library, contents, scores);
    let few = answered(library, query, contents, state).hits;
    let many = answered(library, QueryView { limit: more, ..query }, contents, state).hits;
    assert(few =~= many.take(few.len() as int));
}

/// Of two scores of one query the one with more points counts more, and with equal
/// points the one that more terms matched; with more points by one, all terms of the
/// other count as much. Without terms only points count.
pub proof fn law_points_count_more_than_terms(a: ScoreView, b: ScoreView)
    requires
        a.terms == b.terms,
        a.matched <= a.terms,
        b.matched <= b.terms,
    ensures
        a.points == b.points && a.terms > 0 ==> (weight(a) > weight(b) <==> a.matched > b.matched),
        a.points > b.points ==> weight(a) >= weight(b),
        a.points > b.points ==> (weight(a) == weight(b) <==> a.points == b.points + 1 && a.terms
            > 0 && a.matched == 0 && b.matched == b.terms),
        a.terms == 0 ==> (weight(a) > weight(b) <==> a.points > b.points),
{
    if a.terms > 0 && a.points > b.points {
        let n = a.terms as int;
        let d = a.points - b.points;
        assert(a.points * n - b.points * n == d * n) by (nonlinear_arith)
            requires
                d == a.points - b.points,
        ;
        assert(d * n >= n) by (nonlinear_arith)
            requires
                d >= 1,
                n > 0,
        ;
        assert(d > 1 ==> d * n > n) by (nonlinear_arith)
            requires
                n > 0,
        ;
        assert(d == 1 ==> d * n == n) by (nonlinear_arith);
    }
}

/// Terms are made of letters, digits, `_` and `-`. A text of nothing else is one term,
/// and so is each of two such texts with any other character between them.
pub proof fn law_terms_are_made_of_word_characters(a: Text, c: char, b: Text, term: Text)
    requires
        a.len() > 0,
        b.len() > 0,
        forall|i: int|
            0 <= i < a.len() ==> alphanumeric(#[trigger] a[i]) && !white_space(a[i]) || a[i] == '_'
                || a[i] == '-',
        forall|i: int|
            0 <= i < b.len() ==> alphanumeric(#[trigger] b[i]) && !white_space(b[i]) || b[i] == '_'
                || b[i] == '-',
        !alphanumeric(c),
        c != '_',
        c != '-',
    ensures
        terms_of(a).contains(term) <==> term == a,
        terms_of(a.push(c) + b).contains(term) <==> term == a || term == b,
{
    law_terms_are_maximal_runs(a, term);
    assert(maximal_run(a, 0, a.len() as int));
    assert(a.subrange(0, a.len() as int) =~= a);
    if terms_of(a).contains(term) {
        let (i, j) = choose|i: int, j: int| #[trigger]
            maximal_run(a, i, j) && a.subrange(i, j) == term;
        if i > 0 {
            assert(term_char(a[i - 1]));
        }
        if j < a.len() {
            assert(term_char(a[j]));
        }
    }
    let s = a.push(c) + b;
    let m = a.len() as int;
    let n = s.len() as int;
    law_terms_are_maximal_runs(s, term);
    assert forall|i: int| 0 <= i < n implies term_char(#[trigger] s[i]) == (i != m) by {
        if i < m {
            assert(s[i] == a[i]);
        } else if i > m {
            assert(s[i] == b[i - m - 1]);
        }
    }
    assert(maximal_run(s, 0, m));
    assert(maximal_run(s, m + 1, n));
    assert(s.subrange(0, m) =~= a);
    assert(s.subrange(m + 1, n) =~= b);
    if terms_of(s).contains(term) {
        let (i, j) = choose|i: int, j: int| #[trigger]
            maximal_run(s, i, j) && s.subrange(i, j) == term;
        if i > 0 {
            assert(!term_char(s[i - 1]));
        }
        if j < n {
            assert(!term_char(s[j]));
        }
        if i <= m < j {
            assert(term_char(s[m]));
        }
    }
}

/// The runs of a text depend on the marks of its own characters alone.
proof fn lemma_runs_marks(s: Text, a: Seq<bool>, b: Seq<bool>)
    requires
        forall|i: int| 0 <= i < s.len() ==> #[trigger] a[i] == b[i],
    ensures
        word_runs(s, a) == word_runs(s, b),
        word_runs(s, a).len() > 0,
    decreases s.len(),
{
    if s.len() > 0 {
        lemma_runs_marks(s.drop_last(), a, b);
        assert(a[s.len() - 1] == b[s.len() - 1]);
    }
}

/// A character that is not marked ends one run and begins another; where every
/// character is marked, the whole text is one run.
pub proof fn law_unmarked_characters_part_runs(s: Text, word: Seq<bool>, m: int)
    requires
        word.len() == s.len(),
        0 <= m < s.len(),
    ensures
        !word[m] ==> word_runs(s, word) == word_runs(s.take(m), word.take(m)) + word_runs(
            s.skip(m + 1),
            word.skip(m + 1),
        ),
        (forall|i: int| 0 <= i < s.len() ==> #[trigger] word[i]) ==> word_runs(s, word) == seq![s],
    decreases s.len(),
{
    let n = s.len() - 1;
    let start = s.drop_last();
    lemma_runs_marks(start, word, word.take(n));
    if !word[m] {
        if m == n {
            lemma_runs_marks(s.take(m), word, word.take(m));
            assert(s.take(m) =~= start);
            assert(s.skip(m + 1) =~= Seq::empty());
            assert(word_runs(s, word) =~= word_runs(s.take(m), word.take(m)) + word_runs(
                s.skip(m + 1),
                word.skip(m + 1),
            ));
        } else {
            law_unmarked_characters_part_runs(start, word.take(n), m);
            assert(start.take(m) =~= s.take(m));
            assert(word.take(n).take(m) =~= word.take(m));
            let rest = s.skip(m + 1);
            assert(rest.drop_last() =~= start.skip(m + 1));
            lemma_runs_marks(rest.drop_last(), word.skip(m + 1), word.take(n).skip(m + 1));
            assert(word.skip(m + 1)[rest.len() - 1] == word[n]);
            assert(rest.last() == s.last());
            assert(word_runs(s, word) =~= word_runs(s.take(m), word.take(m)) + word_runs(
                rest,
                word.skip(m + 1),
            ));
        }
    }
    if forall|i: int| 0 <= i < s.len() ==> #[trigger] word[i] {
        if n > 0 {
            assert forall|i: int| 0 <= i < n implies #[trigger] word.take(n)[i] by {
                assert(word[i]);
            }
            law_unmarked_characters_part_runs(start, word.take(n), 0);
        } else {
            assert(start =~= Seq::empty());
        }
        assert(word[n]);
        assert(start.push(s.last()) =~= s);
        assert(word_runs(s, word) =~= seq![s]);
    }
}

/// The words of a text are its runs without the white space around them, as far as
/// anything is left of them. They ascend, so that none occurs twice.
pub proof fn law_words_are_what_is_left_of_runs(s: Text, word: Seq<bool>, item: Text)
    ensures
        words(s, word).contains(item) <==> item.len() > 0 && exists|k: int|
            0 <= k < word_runs(s, word).len() && trimmed(#[trigger] word_runs(s, word)[k]) == item,
        ascending(words(s, word)),
{
    let runs = word_runs(s, word);
    let list = all_trimmed(runs);
    lemma_nonempty(list);
    law_ascending_list_exists(nonempty(list));
    assert(words(s, word).to_set().contains(item) == nonempty(list).to_set().contains(item));
    if exists|k: int| 0 <= k < runs.len() && trimmed(#[trigger] runs[k]) == item {
        let k = choose|k: int| 0 <= k < runs.len() && trimmed(#[trigger] runs[k]) == item;
        assert(list[k] == item);
    }
    if list.contains(item) {
        let k = choose|k: int| 0 <= k < list.len() && list[k] == item;
        assert(trimmed(runs[k]) == item);
    }
}

} // verus!
