//! Library ids, knowledge paths and the URIs that name knowledge nodes.

use vstd::prelude::*;
use crate::error::{outcome, verdict, ContextError, ErrorView};
use crate::paths::{normalize_repo_path, normalized_repo_path};
use crate::text::{
    char_lists, chars_of, has_char, has_prefix, join, joined, law_split_undoes_join,
    law_trimmed_text_is_the_core, lemma_pieces_clean, lemma_pieces_concat, lemma_pieces_single,
    lemma_trimmed_by, on_edge, pieces, split, starts_with, string_of, texts, trim, trim_by, trimmed,
    trimmed_by, Edge, Text,
};

verus! {

/// A character that may stand in a Library id.
pub open spec fn id_char(c: char) -> bool {
    ||| 'a' <= c <= 'z'
    ||| 'A' <= c <= 'Z'
    ||| '0' <= c <= '9'
    ||| c == '-'
    ||| c == '_'
    ||| c == '.'
}

/// A Library id that is the same name on every file system.
pub open spec fn valid_library_id(id: Text) -> bool {
    id.len() > 0 && forall|i: int| 0 <= i < id.len() ==> id_char(#[trigger] id[i])
}

/// What checking a Library id gives.
pub open spec fn library_id_verdict(id: Text) -> Result<(), ErrorView> {
    if valid_library_id(id) {
        Ok(())
    } else {
        Err(ErrorView::InvalidLibraryId { id })
    }
}

/// The items of `list` that are not empty, in order.
pub open spec fn nonempty(list: Seq<Text>) -> Seq<Text>
    decreases list.len(),
{
    if list.len() == 0 {
        Seq::empty()
    } else if list.last().len() == 0 {
        nonempty(list.drop_last())
    } else {
        nonempty(list.drop_last()).push(list.last())
    }
}

/// The segments of a knowledge path: what stands between its slashes.
pub open spec fn knowledge_segments(value: Text) -> Seq<Text> {
    nonempty(pieces(trimmed_by(trimmed(value), Edge::Slash), '/'))
}

/// A segment that could lead out of the Library.
pub open spec fn bad_segment(segment: Text) -> bool {
    ||| segment == seq!['.']
    ||| segment == seq!['.', '.']
    ||| segment.contains(':')
}

/// The first segment that could lead out of the Library.
pub open spec fn first_bad_segment(segments: Seq<Text>) -> Option<Text>
    decreases segments.len(),
{
    if segments.len() == 0 {
        None
    } else if bad_segment(segments[0]) {
        Some(segments[0])
    } else {
        first_bad_segment(segments.drop_first())
    }
}

/// The one way in which a knowledge path is written, or why it is refused.
pub open spec fn knowledge_path(value: Text) -> Result<Text, ErrorView> {
    if value.contains('\\') || value.contains('\0') {
        Err(ErrorView::InvalidKnowledgePath)
    } else {
        match first_bad_segment(knowledge_segments(value)) {
            Some(segment) => Err(ErrorView::InvalidSegment { segment }),
            None => Ok(joined(knowledge_segments(value), seq!['/'])),
        }
    }
}

/// What the URIs of all nodes of a Library begin with.
pub open spec fn uri_prefix(library: Text) -> Text {
    "okf://"@ + library + "/"@
}

/// The URI of the node at `path`.
pub open spec fn node_uri(library: Text, path: Text) -> Text {
    uri_prefix(library) + path
}

/// The knowledge path that a URI of the Library names, or why it is refused.
pub open spec fn path_of_uri(uri: Text, library: Text) -> Result<Text, ErrorView> {
    if starts_with(uri, uri_prefix(library)) {
        knowledge_path(uri.skip(uri_prefix(library).len() as int))
    } else {
        Err(ErrorView::ForeignUri { uri, library })
    }
}

/// A path prefix that names something inside the repository.
pub open spec fn valid_prefix(prefix: Text) -> bool {
    let normalized = normalized_repo_path(prefix);
    normalized.len() > 0 && !pieces(normalized, '/').contains(seq!['.', '.'])
}

/// What checking path prefixes gives: the first bad one is refused.
pub open spec fn prefixes_verdict(prefixes: Seq<Text>) -> Result<(), ErrorView>
    decreases prefixes.len(),
{
    if prefixes.len() == 0 {
        Ok(())
    } else if !valid_prefix(prefixes[0]) {
        Err(ErrorView::InvalidPrefix { prefix: prefixes[0] })
    } else {
        prefixes_verdict(prefixes.drop_first())
    }
}

fn is_id_char(c: char) -> (r: bool)
    ensures
        r == id_char(c),
{
    ('a' <= c && c <= 'z') || ('A' <= c && c <= 'Z') || ('0' <= c && c <= '9') || c == '-' || c
        == '_' || c == '.'
}

/// Accepts Library ids of ASCII letters, digits, `-`, `_` and `.`.
pub fn validate_library_id(value: &str) -> (r: Result<(), ContextError>)
    ensures
        verdict(r) == library_id_verdict(value@),
{
    let chars = chars_of(value);
    if chars.len() == 0 {
        return Err(ContextError::InvalidLibraryId { id: value.to_owned() });
    }
    let mut i: usize = 0;
    while i < chars.len()
        invariant
            i <= chars@.len(),
            chars@ == value@,
            forall|j: int| 0 <= j < i ==> id_char(#[trigger] chars@[j]),
        decreases chars@.len() - i,
    {
        if !is_id_char(chars[i]) {
            assert(!id_char(value@[i as int]));
            return Err(ContextError::InvalidLibraryId { id: value.to_owned() });
        }
        i += 1;
    }
    Ok(())
}

fn is_bad_segment(segment: &[char]) -> (r: bool)
    ensures
        r == bad_segment(segment@),
{
    let n = segment.len();
    let dot = n == 1 && segment[0] == '.';
    let dots = n == 2 && segment[0] == '.' && segment[1] == '.';
    proof {
        if dot {
            assert(segment@ =~= seq!['.']);
        }
        if dots {
            assert(segment@ =~= seq!['.', '.']);
        }
    }
    dot || dots || has_char(segment, ':')
}

/// `value` written in the one way in which knowledge paths are written. Paths
/// that could lead out of the Library are refused.
pub fn normalize_knowledge_path(value: &str) -> (r: Result<String, ContextError>)
    ensures
        outcome(r) == knowledge_path(value@),
{
    let chars = chars_of(value);
    normalize_knowledge_chars(chars.as_slice())
}

fn normalize_knowledge_chars(chars: &[char]) -> (r: Result<String, ContextError>)
    ensures
        outcome(r) == knowledge_path(chars@),
{
    if has_char(chars, '\\') || has_char(chars, '\0') {
        return Err(ContextError::InvalidKnowledgePath);
    }
    let inner = trim_by(trim(chars), Edge::Slash);
    let parts = split(inner, '/');
    let ghost all = char_lists(parts@);
    let mut segments: Vec<String> = Vec::new();
    let mut i: usize = 0;
    assert(texts(segments@) =~= nonempty(all.take(0)));
    while i < parts.len()
        invariant
            i <= parts@.len(),
            all == char_lists(parts@),
            texts(segments@) == nonempty(all.take(i as int)),
        decreases parts@.len() - i,
    {
        assert(all.take(i + 1).drop_last() =~= all.take(i as int));
        assert(all.take(i + 1).last() == parts@[i as int]@);
        if parts[i].len() > 0 {
            let ghost so_far = texts(segments@);
            let segment = string_of(parts[i].as_slice());
            segments.push(segment);
            assert(texts(segments@) =~= so_far.push(segment@));
        }
        i += 1;
    }
    assert(all.take(i as int) =~= all);
    let ghost list = texts(segments@);
    assert(list == knowledge_segments(chars@));
    let mut k: usize = 0;
    assert(list.skip(0) =~= list);
    while k < segments.len()
        invariant
            k <= segments@.len(),
            list == texts(segments@),
            list == knowledge_segments(chars@),
            !chars@.contains('\\'),
            !chars@.contains('\0'),
            first_bad_segment(list) == first_bad_segment(list.skip(k as int)),
        decreases segments@.len() - k,
    {
        let segment = chars_of(segments[k].as_str());
        assert(list.skip(k as int)[0] == segment@);
        if is_bad_segment(segment.as_slice()) {
            return Err(ContextError::InvalidSegment { segment: segments[k].clone() });
        }
        assert(list.skip(k as int).drop_first() =~= list.skip(k + 1));
        k += 1;
    }
    proof {
        reveal_strlit("/");
        assert("/"@ =~= seq!['/']);
    }
    Ok(join(&segments, "/"))
}

/// The URI of the node at `path`.
pub fn uri_of(library: &str, path: &str) -> (r: String)
    ensures
        r@ == node_uri(library@, path@),
{
    "okf://".to_owned().concat(library).concat("/").concat(path)
}

/// The knowledge path that a URI of the Library names.
pub fn uri_path(uri: &str, library: &str) -> (r: Result<String, ContextError>)
    ensures
        outcome(r) == path_of_uri(uri@, library@),
{
    let prefix = "okf://".to_owned().concat(library).concat("/");
    let prefix = chars_of(prefix.as_str());
    let chars = chars_of(uri);
    if has_prefix(chars.as_slice(), prefix.as_slice()) {
        let total = chars.len();
        let rest = vstd::slice::slice_subrange(chars.as_slice(), prefix.len(), total);
        assert(rest@ =~= uri@.skip(uri_prefix(library@).len() as int));
        normalize_knowledge_chars(rest)
    } else {
        Err(ContextError::ForeignUri { uri: uri.to_owned(), library: library.to_owned() })
    }
}

/// Whether `prefix` names something inside the repository.
fn is_valid_prefix(prefix: &str) -> (r: bool)
    ensures
        r == valid_prefix(prefix@),
{
    let normalized = normalize_repo_path(prefix);
    let chars = chars_of(normalized.as_str());
    if chars.len() == 0 {
        return false;
    }
    let parts = split(chars.as_slice(), '/');
    let ghost all = char_lists(parts@);
    let mut i: usize = 0;
    while i < parts.len()
        invariant
            i <= parts@.len(),
            all == char_lists(parts@),
            all == pieces(normalized_repo_path(prefix@), '/'),
            forall|j: int| 0 <= j < i ==> all[j] != seq!['.', '.'],
        decreases parts@.len() - i,
    {
        let part = &parts[i];
        assert(all[i as int] == part@);
        if part.len() == 2 && part[0] == '.' && part[1] == '.' {
            assert(all[i as int] =~= seq!['.', '.']);
            return false;
        }
        i += 1;
    }
    true
}

/// Accepts path prefixes that name something inside the repository.
pub fn validate_repo_prefixes(prefixes: &[String]) -> (r: Result<(), ContextError>)
    ensures
        verdict(r) == prefixes_verdict(texts(prefixes@)),
{
    let ghost all = texts(prefixes@);
    let mut i: usize = 0;
    assert(all.skip(0) =~= all);
    while i < prefixes.len()
        invariant
            i <= prefixes@.len(),
            all == texts(prefixes@),
            prefixes_verdict(all) == prefixes_verdict(all.skip(i as int)),
        decreases prefixes@.len() - i,
    {
        assert(all.skip(i as int)[0] == prefixes@[i as int]@);
        if !is_valid_prefix(prefixes[i].as_str()) {
            return Err(ContextError::InvalidPrefix { prefix: prefixes[i].clone() });
        }
        assert(all.skip(i as int).drop_first() =~= all.skip(i + 1));
        i += 1;
    }
    Ok(())
}

/// What is left of a list without its empty items.
pub proof fn lemma_nonempty(list: Seq<Text>)
    ensures
        forall|i: int| 0 <= i < nonempty(list).len() ==> (#[trigger] nonempty(list)[i]).len() > 0,
        forall|i: int|
            0 <= i < nonempty(list).len() ==> list.contains(#[trigger] nonempty(list)[i]),
        forall|item: Text|
            item.len() > 0 && #[trigger] list.contains(item) ==> nonempty(list).contains(item),
    decreases list.len(),
{
    if list.len() > 0 {
        let front = list.drop_last();
        lemma_nonempty(front);
        let all = nonempty(list);
        assert forall|item: Text|
            item.len() > 0 && #[trigger] list.contains(item) implies all.contains(item) by {
            let k = choose|k: int| 0 <= k < list.len() && list[k] == item;
            if k < front.len() {
                assert(front[k] == item);
                assert(front.contains(item));
                let j = choose|j: int| 0 <= j < nonempty(front).len() && nonempty(front)[j] == item;
                assert(all[j] == item);
            } else {
                assert(all[all.len() - 1] == item);
            }
        }
        assert forall|i: int| 0 <= i < all.len() implies list.contains(#[trigger] all[i]) by {
            if i < nonempty(front).len() {
                assert(all[i] == nonempty(front)[i]);
                assert(front.contains(nonempty(front)[i]));
                let k = choose|k: int| 0 <= k < front.len() && front[k] == all[i];
                assert(list[k] == all[i]);
            } else {
                assert(list[list.len() - 1] == all[i]);
            }
        }
    }
}

/// A list without empty items is left as it is.
pub proof fn lemma_nonempty_identity(list: Seq<Text>)
    requires
        forall|i: int| 0 <= i < list.len() ==> (#[trigger] list[i]).len() > 0,
    ensures
        nonempty(list) == list,
    decreases list.len(),
{
    if list.len() > 0 {
        let front = list.drop_last();
        assert forall|i: int| 0 <= i < front.len() implies (#[trigger] front[i]).len() > 0 by {
            assert(front[i] == list[i]);
        }
        lemma_nonempty_identity(front);
        assert(list[list.len() - 1].len() > 0);
        assert(nonempty(list) =~= list);
    } else {
        assert(nonempty(list) =~= list);
    }
}

proof fn lemma_first_bad_segment(segments: Seq<Text>)
    ensures
        first_bad_segment(segments) is None <==> forall|i: int|
            0 <= i < segments.len() ==> !bad_segment(#[trigger] segments[i]),
    decreases segments.len(),
{
    if segments.len() > 0 {
        let rest = segments.drop_first();
        lemma_first_bad_segment(rest);
        if first_bad_segment(segments) is None {
            assert forall|i: int| 0 <= i < segments.len() implies !bad_segment(
                #[trigger] segments[i],
            ) by {
                if i > 0 {
                    assert(segments[i] == rest[i - 1]);
                }
            }
        }
        if forall|i: int| 0 <= i < segments.len() ==> !bad_segment(#[trigger] segments[i]) {
            assert forall|i: int| 0 <= i < rest.len() implies !bad_segment(#[trigger] rest[i]) by {
                assert(rest[i] == segments[i + 1]);
            }
        }
    }
}

/// Every character of a joined list is one of the separator or of an item.
pub proof fn lemma_joined_chars(list: Seq<Text>, separator: Text, c: char)
    requires
        joined(list, separator).contains(c),
        !separator.contains(c),
    ensures
        exists|i: int| 0 <= i < list.len() && (#[trigger] list[i]).contains(c),
    decreases list.len(),
{
    let whole = joined(list, separator);
    let k = choose|k: int| 0 <= k < whole.len() && whole[k] == c;
    if list.len() == 1 {
        assert(list[0].contains(c));
    } else if list.len() > 1 {
        let front = joined(list.drop_last(), separator);
        if k < front.len() {
            assert(front[k] == c);
            lemma_joined_chars(list.drop_last(), separator, c);
            let i = choose|i: int|
                0 <= i < list.drop_last().len() && (#[trigger] list.drop_last()[i]).contains(c);
            assert(list[i].contains(c));
        } else if k < front.len() + separator.len() {
            assert(separator[k - front.len()] == c);
        } else {
            assert(list.last()[k - front.len() - separator.len()] == c);
            assert(list[list.len() - 1].contains(c));
        }
    }
}

/// Every character of a piece is one of the text.
proof fn lemma_piece_chars(s: Text, separator: char, i: int, c: char)
    requires
        0 <= i < pieces(s, separator).len(),
        pieces(s, separator)[i].contains(c),
    ensures
        s.contains(c),
    decreases s.len(),
{
    let all = pieces(s, separator);
    if s.len() > 0 {
        let before = pieces(s.drop_last(), separator);
        crate::text::lemma_pieces_some(s.drop_last(), separator);
        let k = choose|k: int| 0 <= k < all[i].len() && all[i][k] == c;
        if s.last() != separator && i == all.len() - 1 {
            let piece = before.last();
            if k < piece.len() {
                assert(piece[k] == c);
                lemma_piece_chars(s.drop_last(), separator, before.len() - 1, c);
                let j = choose|j: int| 0 <= j < s.drop_last().len() && s.drop_last()[j] == c;
                assert(s[j] == c);
            } else {
                assert(s[s.len() - 1] == c);
            }
        } else {
            assert(i < before.len());
            assert(all[i] == before[i]);
            lemma_piece_chars(s.drop_last(), separator, i, c);
            let j = choose|j: int| 0 <= j < s.drop_last().len() && s.drop_last()[j] == c;
            assert(s[j] == c);
        }
    }
}

/// What a joined list begins and ends with.
proof fn lemma_joined_ends(list: Seq<Text>, separator: Text)
    requires
        list.len() > 0,
        forall|i: int| 0 <= i < list.len() ==> (#[trigger] list[i]).len() > 0,
    ensures
        joined(list, separator).len() > 0,
        joined(list, separator)[0] == list[0][0],
        joined(list, separator).last() == list.last().last(),
    decreases list.len(),
{
    assert(list[0].len() > 0);
    assert(list[list.len() - 1].len() > 0);
    if list.len() > 1 {
        let front = list.drop_last();
        assert forall|i: int| 0 <= i < front.len() implies (#[trigger] front[i]).len() > 0 by {
            assert(front[i] == list[i]);
        }
        lemma_joined_ends(front, separator);
    }
}

/// The segments of a path that is not refused, and what they are free of.
proof fn lemma_segments(value: Text)
    ensures
        forall|i: int|
            0 <= i < knowledge_segments(value).len() ==> (#[trigger] knowledge_segments(
                value,
            )[i]).len() > 0 && !knowledge_segments(value)[i].contains('/'),
        forall|i: int, c: char|
            0 <= i < knowledge_segments(value).len() && #[trigger] knowledge_segments(
                value,
            )[i].contains(c) ==> value.contains(c),
{
    let inner = trimmed(value);
    let (a, b) = lemma_trimmed_by(value, Edge::White);
    let core = trimmed_by(inner, Edge::Slash);
    let (x, y) = lemma_trimmed_by(inner, Edge::Slash);
    let all = pieces(core, '/');
    let segments = knowledge_segments(value);
    lemma_pieces_clean(core, '/');
    lemma_nonempty(all);
    assert forall|i: int| 0 <= i < segments.len() implies (#[trigger] segments[i]).len() > 0
        && !segments[i].contains('/') by {
        assert(all.contains(segments[i]));
        let k = choose|k: int| 0 <= k < all.len() && all[k] == segments[i];
        assert(!all[k].contains('/'));
    }
    assert forall|i: int, c: char|
        0 <= i < segments.len() && #[trigger] segments[i].contains(c) implies value.contains(c) by {
        assert(all.contains(segments[i]));
        let k = choose|k: int| 0 <= k < all.len() && all[k] == segments[i];
        lemma_piece_chars(core, '/', k, c);
        let j = choose|j: int| 0 <= j < core.len() && core[j] == c;
        assert(inner[x + j] == c);
        assert(value[a + (x + j)] == c);
    }
}

/// A knowledge path that is accepted stays inside the Library: it holds no
/// backslash, NUL or colon, no slash at either end, and none of its segments is
/// empty, `.` or `..`.
pub proof fn law_knowledge_path_stays_inside(value: Text)
    ensures
        knowledge_path(value) matches Ok(path) ==> {
            &&& !path.contains('\\')
            &&& !path.contains('\0')
            &&& !path.contains(':')
            &&& path.len() > 0 ==> {
                &&& path[0] != '/'
                &&& path.last() != '/'
                &&& !pieces(path, '/').contains(seq![])
                &&& !pieces(path, '/').contains(seq!['.'])
                &&& !pieces(path, '/').contains(seq!['.', '.'])
            }
        },
{
    if let Ok(path) = knowledge_path(value) {
        let segments = knowledge_segments(value);
        lemma_segments(value);
        lemma_first_bad_segment(segments);
        if path.contains('\\') {
            lemma_joined_chars(segments, seq!['/'], '\\');
        }
        if path.contains('\0') {
            lemma_joined_chars(segments, seq!['/'], '\0');
        }
        if path.contains(':') {
            lemma_joined_chars(segments, seq!['/'], ':');
        }
        if path.len() > 0 {
            assert(segments.len() > 0);
            lemma_joined_ends(segments, seq!['/']);
            assert(segments[0].contains(segments[0][0]));
            let last = segments[segments.len() - 1];
            assert(last.contains(last[last.len() - 1]));
            law_split_undoes_join(segments, '/');
            assert forall|i: int| 0 <= i < segments.len() implies segments[i] != Seq::<char>::empty()
                && !bad_segment(segments[i]) by {
                assert(segments[i].len() > 0);
            }
        }
    }
}

/// Normalizing an accepted path again gives it back, where cutting the slashes
/// off left no white space at either end.
pub proof fn law_knowledge_path_idempotent(value: Text)
    requires
        knowledge_path(value) is Ok,
        trimmed(knowledge_path(value)->Ok_0) == knowledge_path(value)->Ok_0,
    ensures
        knowledge_path(knowledge_path(value)->Ok_0) == knowledge_path(value),
{
    let path = knowledge_path(value)->Ok_0;
    let segments = knowledge_segments(value);
    law_knowledge_path_stays_inside(value);
    lemma_segments(value);
    if segments.len() == 0 {
        assert(path =~= Seq::empty());
        assert(trimmed_by(path, Edge::Slash) =~= path);
        let only = pieces(path, '/');
        assert(only =~= seq![Seq::<char>::empty()]);
        assert(only.drop_last() =~= Seq::empty());
        assert(nonempty(Seq::empty()) =~= segments);
        assert(nonempty(only) =~= segments);
    } else {
        lemma_joined_ends(segments, seq!['/']);
        assert(trimmed_by(path, Edge::Slash) == path);
        law_split_undoes_join(segments, '/');
        lemma_nonempty_identity(segments);
    }
}

/// A lower-case word.
pub open spec fn word(s: Text) -> bool {
    s.len() > 0 && forall|i: int| 0 <= i < s.len() ==> 'a' <= #[trigger] s[i] <= 'z'
}

/// Two words with a slash between them are a knowledge path as it stands.
pub proof fn lemma_two_words(a: Text, b: Text)
    requires
        word(a),
        word(b),
    ensures
        knowledge_path(a.push('/') + b) == Ok::<Text, ErrorView>(a.push('/') + b),
{
    let path = a.push('/') + b;
    let n = a.len() as int;
    assert(forall|i: int| 0 <= i < n ==> path[i] == #[trigger] a[i]);
    assert(forall|i: int| 0 <= i < b.len() ==> path[n + 1 + i] == #[trigger] b[i]);
    assert forall|i: int| 0 <= i < path.len() && i != n implies 'a' <= #[trigger] path[i] <= 'z' by {
        if i < n {
            assert('a' <= a[i]);
        } else {
            assert('a' <= b[i - n - 1]);
        }
    }
    assert(path[n] == '/');
    assert('a' <= path[0] <= 'z' && 'a' <= path[path.len() - 1] <= 'z');
    assert(trimmed(path) == path);
    assert(trimmed_by(path, Edge::Slash) == path);
    let segments = seq![a, b];
    assert(segments.drop_last() =~= seq![a]);
    assert(joined(seq![a], seq!['/']) == a);
    assert(joined(segments, seq!['/']) =~= path);
    assert(!a.contains('/') && !b.contains('/'));
    law_split_undoes_join(segments, '/');
    assert(seq![a].drop_last() =~= Seq::empty());
    assert(nonempty(Seq::empty()) =~= Seq::empty());
    assert(nonempty(seq![a]) =~= seq![a]);
    assert(nonempty(segments) =~= segments);
    assert(!bad_segment(a)) by {
        assert(a[0] != '.');
    }
    assert(!bad_segment(b)) by {
        assert(b[0] != '.');
    }
    assert(segments.drop_first() =~= seq![b]);
    assert(seq![b].drop_first() =~= Seq::empty());
    assert(first_bad_segment(Seq::empty()) is None);
    assert(first_bad_segment(seq![b]) is None);
    assert(knowledge_segments(path) == segments);
}

/// A word is a knowledge path as it stands.
pub proof fn lemma_one_word(path: Text)
    requires
        word(path),
    ensures
        knowledge_path(path) == Ok::<Text, ErrorView>(path),
{
    assert('a' <= path[0] <= 'z' && 'a' <= path[path.len() - 1] <= 'z');
    assert(trimmed(path) == path);
    assert(trimmed_by(path, Edge::Slash) == path);
    assert(!path.contains('/'));
    lemma_pieces_single(path, '/');
    let segments = seq![path];
    assert(segments.drop_last() =~= Seq::empty());
    assert(nonempty(Seq::empty()) =~= Seq::empty());
    assert(nonempty(segments) =~= segments);
    assert(segments.drop_first() =~= Seq::empty());
    assert(first_bad_segment(Seq::empty()) is None);
    assert(path[0] != '.');
    assert(knowledge_segments(path) == segments);
}

/// A node's URI names its own path in its own Library.
pub proof fn law_uri_names_its_path(library: Text, path: Text)
    ensures
        path_of_uri(node_uri(library, path), library) == knowledge_path(path),
{
    let prefix = uri_prefix(library);
    let uri = node_uri(library, path);
    assert(uri.subrange(0, prefix.len() as int) =~= prefix);
    assert(uri.skip(prefix.len() as int) =~= path);
}

/// A node's URI belongs to no other Library.
pub proof fn law_uri_belongs_to_one_library(library: Text, other: Text, path: Text)
    requires
        valid_library_id(library),
        valid_library_id(other),
        library != other,
    ensures
        path_of_uri(node_uri(library, path), other) == Err::<Text, ErrorView>(
            ErrorView::ForeignUri { uri: node_uri(library, path), library: other },
        ),
{
    reveal_strlit("/");
    let uri = node_uri(library, path);
    let prefix = uri_prefix(other);
    if starts_with(uri, prefix) {
        let start = "okf://"@;
        let n = start.len() as int;
        assert(forall|i: int| 0 <= i < prefix.len() ==> uri[i] == uri.subrange(
            0,
            prefix.len() as int,
        )[i]);
        assert(forall|i: int| 0 <= i < library.len() ==> uri[n + i] == #[trigger] library[i]);
        assert(forall|i: int| 0 <= i < other.len() ==> prefix[n + i] == #[trigger] other[i]);
        assert(uri[n + library.len()] == '/');
        assert(prefix[n + other.len()] == '/');
        if library.len() < other.len() {
            assert(id_char(other[library.len() as int]));
            assert(prefix[n + library.len()] == other[library.len() as int]);
        } else if library.len() > other.len() {
            assert(id_char(library[other.len() as int]));
            assert(uri[n + other.len()] == library[other.len() as int]);
        } else {
            assert forall|i: int| 0 <= i < library.len() implies library[i] == other[i] by {
                assert(uri[n + i] == prefix[n + i]);
            }
            assert(library =~= other);
        }
    }
}

/// An id is valid exactly where each of its characters is, and it has some: a
/// character alone where it is an ASCII letter or digit, `-`, `_` or `.`, and two
/// ids one after the other where both are.
pub proof fn law_ids_are_made_of_valid_characters(a: Text, b: Text, c: char)
    ensures
        library_id_verdict(Seq::empty()) is Err,
        library_id_verdict(seq![c]) is Ok <==> ('a' <= c <= 'z' || 'A' <= c <= 'Z' || '0' <= c
            <= '9' || c == '-' || c == '_' || c == '.'),
        a.len() > 0 && b.len() > 0 ==> (library_id_verdict(a + b) is Ok <==> library_id_verdict(
            a,
        ) is Ok && library_id_verdict(b) is Ok),
        library_id_verdict(a) is Err ==> library_id_verdict(a) == Err::<(), ErrorView>(
            ErrorView::InvalidLibraryId { id: a },
        ),
{
    let one = seq![c];
    assert(one[0] == c);
    let both = a + b;
    if a.len() > 0 && b.len() > 0 {
        if valid_library_id(both) {
            assert forall|i: int| 0 <= i < a.len() implies id_char(#[trigger] a[i]) by {
                assert(id_char(both[i]));
            }
            assert forall|i: int| 0 <= i < b.len() implies id_char(#[trigger] b[i]) by {
                assert(id_char(both[a.len() + i]));
            }
        }
        if valid_library_id(a) && valid_library_id(b) {
            assert forall|i: int| 0 <= i < both.len() implies id_char(#[trigger] both[i]) by {
                if i < a.len() {
                    assert(id_char(a[i]));
                } else {
                    assert(id_char(b[i - a.len()]));
                }
            }
        }
    }
}

/// The items that are not empty, of two lists one after the other.
proof fn lemma_nonempty_concat(a: Seq<Text>, b: Seq<Text>)
    ensures
        nonempty(a + b) == nonempty(a) + nonempty(b),
    decreases b.len(),
{
    if b.len() == 0 {
        assert(a + b =~= a);
        assert(nonempty(b) =~= Seq::<Text>::empty());
        assert(nonempty(a) + nonempty(b) =~= nonempty(a));
    } else {
        assert((a + b).drop_last() =~= a + b.drop_last());
        assert((a + b).last() == b.last());
        lemma_nonempty_concat(a, b.drop_last());
        assert(nonempty(a + b) =~= nonempty(a) + nonempty(b));
    }
}

/// Dropping empty items goes item by item and keeps the order.
pub proof fn law_nonempty_items(a: Seq<Text>, b: Seq<Text>, item: Text)
    ensures
        nonempty(a + b) == nonempty(a) + nonempty(b),
        nonempty(seq![item]) == (if item.len() == 0 {
            Seq::<Text>::empty()
        } else {
            seq![item]
        }),
{
    lemma_nonempty_concat(a, b);
    assert(seq![item].drop_last() =~= Seq::<Text>::empty());
    assert(nonempty(Seq::<Text>::empty()) =~= Seq::<Text>::empty());
    assert(nonempty(seq![item]) =~= (if item.len() == 0 {
        Seq::<Text>::empty()
    } else {
        seq![item]
    }));
}

proof fn lemma_slashes_in_front(front: Text, s: Text)
    requires
        forall|i: int| 0 <= i < front.len() ==> #[trigger] front[i] == '/',
    ensures
        nonempty(pieces(front + s, '/')) == nonempty(pieces(s, '/')),
    decreases front.len(),
{
    if front.len() == 0 {
        assert(front + s =~= s);
    } else {
        let rest = front.drop_first();
        assert forall|i: int| 0 <= i < rest.len() implies #[trigger] rest[i] == '/' by {
            assert(rest[i] == front[i + 1]);
        }
        lemma_slashes_in_front(rest, s);
        let none = Seq::<char>::empty();
        assert(front[0] == '/');
        assert(front + s =~= none.push('/') + (rest + s));
        lemma_pieces_concat(none, rest + s, '/');
        law_nonempty_items(pieces(none, '/'), pieces(rest + s, '/'), none);
        assert(pieces(none, '/') =~= seq![none]);
        assert(nonempty(pieces(front + s, '/')) =~= nonempty(pieces(s, '/')));
    }
}

proof fn lemma_slashes_behind(s: Text, back: Text)
    requires
        forall|i: int| 0 <= i < back.len() ==> #[trigger] back[i] == '/',
    ensures
        nonempty(pieces(s + back, '/')) == nonempty(pieces(s, '/')),
    decreases back.len(),
{
    if back.len() == 0 {
        assert(s + back =~= s);
    } else {
        let rest = back.drop_last();
        assert forall|i: int| 0 <= i < rest.len() implies #[trigger] rest[i] == '/' by {
            assert(rest[i] == back[i]);
        }
        lemma_slashes_behind(s, rest);
        let none = Seq::<char>::empty();
        assert(back[back.len() - 1] == '/');
        assert(s + back =~= (s + rest).push('/') + none);
        lemma_pieces_concat(s + rest, none, '/');
        law_nonempty_items(pieces(s + rest, '/'), pieces(none, '/'), none);
        assert(pieces(none, '/') =~= seq![none]);
        assert(nonempty(pieces(s + back, '/')) =~= nonempty(pieces(s, '/')));
    }
}

/// A knowledge path is what stands between its slashes, in order and without the
/// white space around the whole. It is refused exactly where it holds a backslash or
/// a NUL, or where one of its segments is `.` or `..` or holds a colon; the refusal
/// names such a segment.
pub proof fn law_knowledge_path_by_segments(value: Text)
    ensures
        ({
            let parts = pieces(trimmed(value), '/');
            let foul = value.contains('\\') || value.contains('\0');
            &&& foul ==> knowledge_path(value) == Err::<Text, ErrorView>(
                ErrorView::InvalidKnowledgePath,
            )
            &&& knowledge_path(value) is Ok <==> !foul && forall|i: int|
                0 <= i < parts.len() ==> #[trigger] parts[i] != seq!['.'] && parts[i] != seq![
                    '.',
                    '.',
                ] && !parts[i].contains(':')
            &&& knowledge_path(value) matches Ok(path) ==> if nonempty(parts).len() == 0 {
                path.len() == 0
            } else {
                pieces(path, '/') == nonempty(parts)
            }
            &&& knowledge_path(value) matches Err(error) ==> foul || (error matches
                ErrorView::InvalidSegment { segment } && parts.contains(segment) && (segment
                == seq!['.'] || segment == seq!['.', '.'] || segment.contains(':')))
        }),
{
    let core = trimmed(value);
    let inner = trimmed_by(core, Edge::Slash);
    let (front, back) = law_trimmed_text_is_the_core(core, Edge::Slash);
    assert forall|i: int| 0 <= i < front.len() implies #[trigger] front[i] == '/' by {
        assert(on_edge(Edge::Slash, front[i]));
    }
    assert forall|i: int| 0 <= i < back.len() implies #[trigger] back[i] == '/' by {
        assert(on_edge(Edge::Slash, back[i]));
    }
    lemma_slashes_behind(inner, back);
    lemma_slashes_in_front(front, inner + back);
    assert(core =~= front + (inner + back));
    let parts = pieces(core, '/');
    let segments = knowledge_segments(value);
    assert(segments == nonempty(parts));
    lemma_nonempty(parts);
    lemma_first_bad_segment(segments);
    lemma_first_bad_member(segments);
    lemma_segments(value);
    assert(first_bad_segment(segments) is None <==> forall|i: int|
        0 <= i < parts.len() ==> !bad_segment(#[trigger] parts[i])) by {
        if first_bad_segment(segments) is None {
            assert forall|i: int| 0 <= i < parts.len() implies !bad_segment(#[trigger] parts[i]) by {
                if parts[i].len() > 0 {
                    assert(parts.contains(parts[i]));
                    let k = choose|k: int| 0 <= k < segments.len() && segments[k] == parts[i];
                    assert(!bad_segment(segments[k]));
                }
            }
        }
        if forall|i: int| 0 <= i < parts.len() ==> !bad_segment(#[trigger] parts[i]) {
            assert forall|i: int| 0 <= i < segments.len() implies !bad_segment(
                #[trigger] segments[i],
            ) by {
                assert(parts.contains(segments[i]));
                let k = choose|k: int| 0 <= k < parts.len() && parts[k] == segments[i];
                assert(!bad_segment(parts[k]));
            }
        }
    }
    assert((forall|i: int| 0 <= i < parts.len() ==> !bad_segment(#[trigger] parts[i])) <==> (forall|
        i: int,
    |
        0 <= i < parts.len() ==> #[trigger] parts[i] != seq!['.'] && parts[i] != seq!['.', '.']
            && !parts[i].contains(':')));
    if segments.len() > 0 {
        law_split_undoes_join(segments, '/');
    }
}

/// The first bad segment is a bad one of them.
proof fn lemma_first_bad_member(segments: Seq<Text>)
    ensures
        first_bad_segment(segments) matches Some(segment) ==> bad_segment(segment)
            && segments.contains(segment),
    decreases segments.len(),
{
    if segments.len() > 0 {
        let rest = segments.drop_first();
        lemma_first_bad_member(rest);
        if bad_segment(segments[0]) {
        } else if let Some(segment) = first_bad_segment(rest) {
            let k = choose|k: int| 0 <= k < rest.len() && rest[k] == segment;
            assert(segments[k + 1] == segment);
        }
    }
}

/// Of several bad segments the first is named.
pub proof fn law_first_bad_segment_is_named(before: Seq<Text>, segment: Text, rest: Seq<Text>)
    requires
        forall|i: int|
            0 <= i < before.len() ==> #[trigger] before[i] != seq!['.'] && before[i] != seq![
                '.',
                '.',
            ] && !before[i].contains(':'),
        segment == seq!['.'] || segment == seq!['.', '.'] || segment.contains(':'),
    ensures
        first_bad_segment(before + seq![segment] + rest) == Some(segment),
    decreases before.len(),
{
    let all = before + seq![segment] + rest;
    if before.len() > 0 {
        let front = before.drop_first();
        assert forall|i: int| 0 <= i < front.len() implies #[trigger] front[i] != seq!['.']
            && front[i] != seq!['.', '.'] && !front[i].contains(':') by {
            assert(front[i] == before[i + 1]);
        }
        law_first_bad_segment_is_named(front, segment, rest);
        assert(all[0] == before[0]);
        assert(all.drop_first() =~= front + seq![segment] + rest);
    } else {
        assert(all[0] == segment);
    }
}

/// A URI names a node exactly where it begins with `okf://`, the Library and a slash,
/// and what follows is an accepted knowledge path.
pub proof fn law_uris_begin_with_their_library(uri: Text, library: Text, path: Text)
    ensures
        path_of_uri("okf://"@ + library + "/"@ + path, library) == knowledge_path(path),
        node_uri(library, path) == "okf://"@ + library + "/"@ + path,
        (forall|rest: Text| uri != #[trigger] ("okf://"@ + library + "/"@ + rest)) ==> path_of_uri(
            uri,
            library,
        ) == Err::<Text, ErrorView>(ErrorView::ForeignUri { uri, library }),
{
    law_uri_names_its_path(library, path);
    let prefix = "okf://"@ + library + "/"@;
    if starts_with(uri, prefix) {
        let rest = uri.skip(prefix.len() as int);
        assert(uri =~= prefix + rest) by {
            assert forall|i: int| 0 <= i < prefix.len() implies uri[i] == prefix[i] by {
                assert(uri.subrange(0, prefix.len() as int)[i] == uri[i]);
            }
        }
    }
}

/// Prefixes are accepted exactly where each is: one that is empty once normalized, or
/// that has a segment `..`, is refused, and the first such is named.
pub proof fn law_prefixes_are_accepted_one_by_one(
    before: Seq<Text>,
    prefix: Text,
    rest: Seq<Text>,
)
    requires
        prefixes_verdict(before) is Ok,
    ensures
        ({
            let parts = pieces(normalized_repo_path(prefix), '/');
            let bad = normalized_repo_path(prefix).len() == 0 || parts.contains(seq!['.', '.']);
            prefixes_verdict(before + seq![prefix] + rest) == if bad {
                Err::<(), ErrorView>(ErrorView::InvalidPrefix { prefix })
            } else {
                prefixes_verdict(rest)
            }
        }),
        prefixes_verdict(Seq::empty()) is Ok,
    decreases before.len(),
{
    let all = before + seq![prefix] + rest;
    if before.len() > 0 {
        let front = before.drop_first();
        law_prefixes_are_accepted_one_by_one(front, prefix, rest);
        assert(all[0] == before[0]);
        assert(all.drop_first() =~= front + seq![prefix] + rest);
    } else {
        assert(all[0] == prefix);
        assert(all.drop_first() =~= rest);
    }
}

} // verus!
