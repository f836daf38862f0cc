//! Repository paths: how they are written, matched against prefixes, filtered
//! and merged.

use vstd::prelude::*;
use crate::order::{ascending, ascending_list, insert, law_ascending_list};
use crate::text::{
    char_lists, chars_of, has_prefix, law_join_undoes_split, law_trimming_leaves_the_core,
    lemma_joined_concat, lemma_pieces_concat, lemma_pieces_some, lemma_trimmed_by,
    lemma_trimmed_end, lemma_trimmed_start, on_edge, pieces, split, starts_with, string_of, texts,
    trim, trim_by, trimmed, trimmed_by, white_space, Edge, Text,
};

verus! {

/// `s` with every backslash turned into a slash.
pub open spec fn slashed(s: Text) -> Text {
    Seq::new(
        s.len(),
        |i: int|
            if s[i] == '\\' {
                '/'
            } else {
                s[i]
            },
    )
}

/// `s` without the `./` that it begins with, however often.
pub open spec fn without_dot_slashes(s: Text) -> Text
    decreases s.len(),
{
    if s.len() >= 2 && s[0] == '.' && s[1] == '/' {
        without_dot_slashes(s.skip(2))
    } else {
        s
    }
}

/// The one way in which a repository path is written: no white space around it,
/// slashes only, no leading `./`, no slash at either end.
pub open spec fn normalized_repo_path(s: Text) -> Text {
    trimmed_by(without_dot_slashes(slashed(trimmed(s))), Edge::Slash)
}

/// `path` is `prefix` or lies below it, segment by segment. The empty prefix
/// matches every path.
pub open spec fn path_matches(path: Text, prefix: Text) -> bool {
    let p = normalized_repo_path(path);
    let q = normalized_repo_path(prefix);
    q.len() == 0 || p == q || starts_with(p, q.push('/'))
}

/// `path` matches one of `prefixes`.
pub open spec fn matches_any(path: Text, prefixes: Seq<Text>) -> bool {
    exists|i: int| 0 <= i < prefixes.len() && path_matches(path, #[trigger] prefixes[i])
}

/// The members of `paths` that match none of `excluded`.
pub open spec fn kept(paths: Set<Text>, excluded: Seq<Text>) -> Set<Text> {
    paths.filter(|path: Text| !matches_any(path, excluded))
}

/// The paths listed in `output`, one to a line, in order; blank lines name none.
pub open spec fn listed_paths(output: Seq<Text>) -> Seq<Text>
    decreases output.len(),
{
    if output.len() == 0 {
        Seq::empty()
    } else {
        let before = listed_paths(output.drop_last());
        if trimmed(output.last()).len() == 0 {
            before
        } else {
            before.push(normalized_repo_path(trimmed(output.last())))
        }
    }
}

/// `value` written in the one way in which repository paths are written.
pub fn normalize_repo_path(value: &str) -> (r: String)
    ensures
        r@ == normalized_repo_path(value@),
{
    let chars = chars_of(value);
    normalize_chars(chars.as_slice())
}

fn normalize_chars(chars: &[char]) -> (r: String)
    ensures
        r@ == normalized_repo_path(chars@),
{
    let inner = trim(chars);
    let mut path: Vec<char> = Vec::new();
    let mut i: usize = 0;
    while i < inner.len()
        invariant
            i <= inner@.len(),
            path@ == slashed(inner@).take(i as int),
        decreases inner@.len() - i,
    {
        path.push(
            if inner[i] == '\\' {
                '/'
            } else {
                inner[i]
            },
        );
        i += 1;
        assert(slashed(inner@).take(i as int) =~= slashed(inner@).take(i - 1).push(
            slashed(inner@)[i - 1],
        ));
    }
    assert(slashed(inner@).take(i as int) =~= slashed(inner@));
    let mut from: usize = 0;
    assert(path@.skip(0) =~= path@);
    while path.len() - from >= 2 && path[from] == '.' && path[from + 1] == '/'
        invariant
            from <= path@.len(),
            without_dot_slashes(path@) == without_dot_slashes(path@.skip(from as int)),
        decreases path@.len() - from,
    {
        assert(path@.skip(from as int).skip(2) =~= path@.skip(from + 2));
        from += 2;
    }
    let total = path.len();
    let rest = vstd::slice::slice_subrange(path.as_slice(), from, total);
    assert(rest@ =~= path@.skip(from as int));
    string_of(trim_by(rest, Edge::Slash))
}

/// Whether `path` is `prefix` or lies below it.
pub fn path_matches_prefix(path: &str, prefix: &str) -> (r: bool)
    ensures
        r == path_matches(path@, prefix@),
{
    let p = normalize_repo_path(path);
    let q = normalize_repo_path(prefix);
    let p = chars_of(p.as_str());
    let mut q = chars_of(q.as_str());
    if q.len() == 0 {
        return true;
    }
    let same = p.len() == q.len() && has_prefix(p.as_slice(), q.as_slice());
    proof {
        if same {
            assert(p@.subrange(0, q@.len() as int) =~= p@);
        }
        if p@ == q@ {
            assert(p@.subrange(0, q@.len() as int) =~= q@);
        }
    }
    q.push('/');
    same || has_prefix(p.as_slice(), q.as_slice())
}

/// Whether `path` matches one of `prefixes`.
pub fn matches_some(path: &str, prefixes: &[String]) -> (r: bool)
    ensures
        r == matches_any(path@, texts(prefixes@)),
{
    let mut i: usize = 0;
    while i < prefixes.len()
        invariant
            i <= prefixes@.len(),
            forall|j: int| 0 <= j < i ==> !path_matches(path@, #[trigger] texts(prefixes@)[j]),
        decreases prefixes@.len() - i,
    {
        assert(texts(prefixes@)[i as int] == prefixes@[i as int]@);
        if path_matches_prefix(path, prefixes[i].as_str()) {
            return true;
        }
        i += 1;
    }
    false
}

/// The paths that match no excluded prefix, ascending and without repetitions.
pub fn filter_paths(paths: &[String], excluded: &[String]) -> (r: Vec<String>)
    ensures
        texts(r@) == ascending_list(kept(texts(paths@).to_set(), texts(excluded@))),
        ascending(texts(r@)),
        texts(r@).to_set() == kept(texts(paths@).to_set(), texts(excluded@)),
{
    let mut r: Vec<String> = Vec::new();
    let ghost all = texts(paths@);
    let ghost out = texts(excluded@);
    let mut i: usize = 0;
    assert(texts(r@).to_set() =~= kept(all.take(0).to_set(), out));
    while i < paths.len()
        invariant
            i <= paths@.len(),
            all == texts(paths@),
            out == texts(excluded@),
            ascending(texts(r@)),
            texts(r@).to_set() == kept(all.take(i as int).to_set(), out),
        decreases paths@.len() - i,
    {
        let ghost so_far = texts(r@).to_set();
        proof {
            lemma_take_set(all, i as int);
        }
        if !matches_some(paths[i].as_str(), excluded) {
            insert(&mut r, paths[i].clone());
            assert(so_far.insert(all[i as int]) =~= kept(all.take(i + 1).to_set(), out));
        } else {
            assert(so_far =~= kept(all.take(i + 1).to_set(), out));
        }
        i += 1;
    }
    assert(all.take(i as int) =~= all);
    proof {
        law_ascending_list(texts(r@));
    }
    r
}

/// One more item of a list adds that item to the set of those taken.
pub proof fn lemma_take_set(list: Seq<Text>, i: int)
    requires
        0 <= i < list.len(),
    ensures
        list.take(i + 1).to_set() == list.take(i).to_set().insert(list[i]),
{
    let more = list.take(i + 1);
    assert forall|t: Text| more.to_set().contains(t) <==> list.take(i).to_set().insert(
        list[i],
    ).contains(t) by {
        if more.contains(t) {
            let k = choose|k: int| 0 <= k < more.len() && more[k] == t;
            if k < i {
                assert(list.take(i)[k] == t);
            }
        }
        if list.take(i).contains(t) {
            let k = choose|k: int| 0 <= k < i && list.take(i)[k] == t;
            assert(more[k] == t);
        }
        assert(more[i] == list[i]);
    }
    assert(more.to_set() =~= list.take(i).to_set().insert(list[i]));
}

/// The paths of both lists, ascending and without repetitions.
pub fn merge_paths(left: &[String], right: &[String]) -> (r: Vec<String>)
    ensures
        texts(r@) == ascending_list(texts(left@).to_set() + texts(right@).to_set()),
        ascending(texts(r@)),
        texts(r@).to_set() == texts(left@).to_set() + texts(right@).to_set(),
{
    let mut r: Vec<String> = Vec::new();
    assert(texts(r@).to_set() =~= Set::empty());
    extend(&mut r, left);
    extend(&mut r, right);
    proof {
        law_ascending_list(texts(r@));
    }
    assert(texts(r@).to_set() =~= texts(left@).to_set() + texts(right@).to_set());
    r
}

/// Adds `items` to the set that the ascending list `set` holds.
pub fn extend(set: &mut Vec<String>, items: &[String])
    requires
        ascending(texts(old(set)@)),
    ensures
        ascending(texts(final(set)@)),
        texts(final(set)@).to_set() == texts(old(set)@).to_set() + texts(items@).to_set(),
{
    let ghost start = texts(set@).to_set();
    let ghost all = texts(items@);
    let mut i: usize = 0;
    assert(start =~= start + all.take(0).to_set());
    while i < items.len()
        invariant
            i <= items@.len(),
            all == texts(items@),
            start == texts(old(set)@).to_set(),
            ascending(texts(set@)),
            texts(set@).to_set() == start + all.take(i as int).to_set(),
        decreases items@.len() - i,
    {
        proof {
            lemma_take_set(all, i as int);
        }
        let ghost so_far = texts(set@).to_set();
        insert(set, items[i].clone());
        assert(so_far.insert(all[i as int]) =~= start + all.take(i + 1).to_set());
        i += 1;
    }
    assert(all.take(i as int) =~= all);
}

/// The paths listed in `value`, one to a line.
pub fn lines(value: &str) -> (r: Vec<String>)
    ensures
        texts(r@) == listed_paths(pieces(value@, '\n')),
{
    let chars = chars_of(value);
    let output = split(chars.as_slice(), '\n');
    let ghost all = char_lists(output@);
    let mut r: Vec<String> = Vec::new();
    let mut i: usize = 0;
    assert(texts(r@) =~= listed_paths(all.take(0)));
    while i < output.len()
        invariant
            i <= output@.len(),
            all == char_lists(output@),
            texts(r@) == listed_paths(all.take(i as int)),
        decreases output@.len() - i,
    {
        assert(all.take(i + 1).drop_last() =~= all.take(i as int));
        assert(all.take(i + 1).last() == output@[i as int]@);
        let line = trim(output[i].as_slice());
        if line.len() > 0 {
            let ghost so_far = texts(r@);
            let path = normalize_chars(line);
            r.push(path);
            assert(texts(r@) =~= so_far.push(path@));
        }
        i += 1;
    }
    assert(all.take(i as int) =~= all);
    r
}

proof fn lemma_without_dot_slashes(s: Text) -> (k: int)
    ensures
        0 <= k <= s.len(),
        without_dot_slashes(s) == s.skip(k),
    decreases s.len(),
{
    if s.len() >= 2 && s[0] == '.' && s[1] == '/' {
        let k = lemma_without_dot_slashes(s.skip(2));
        assert(s.skip(2).skip(k) =~= s.skip(k + 2));
        k + 2
    } else {
        assert(s.skip(0) =~= s);
        0
    }
}

/// A normalized path holds no backslash and has no slash at either end.
pub proof fn law_normalized_repo_path_shape(s: Text)
    ensures
        !normalized_repo_path(s).contains('\\'),
        normalized_repo_path(s).len() > 0 ==> normalized_repo_path(s)[0] != '/'
            && normalized_repo_path(s).last() != '/',
{
    let inner = slashed(trimmed(s));
    let k = lemma_without_dot_slashes(inner);
    let rest = inner.skip(k);
    let (a, b) = lemma_trimmed_by(rest, Edge::Slash);
    let p = normalized_repo_path(s);
    assert forall|i: int| 0 <= i < p.len() implies p[i] != '\\' by {
        assert(p[i] == inner[k + a + i]);
    }
}

/// Normalizing a normalized path changes nothing, where cutting the slashes off
/// brought neither white space nor `./` to the front or white space to the end.
pub proof fn law_normalize_repo_path_idempotent(s: Text)
    requires
        trimmed(normalized_repo_path(s)) == normalized_repo_path(s),
        !starts_with(normalized_repo_path(s), seq!['.', '/']),
    ensures
        normalized_repo_path(normalized_repo_path(s)) == normalized_repo_path(s),
{
    let p = normalized_repo_path(s);
    law_normalized_repo_path_shape(s);
    assert forall|i: int| 0 <= i < p.len() implies p[i] != '\\' by {
        assert(p.contains(p[i]));
    }
    assert(slashed(p) =~= p);
    if p.len() >= 2 && p[0] == '.' && p[1] == '/' {
        assert(p.subrange(0, 2) =~= seq!['.', '/']);
    }
    lemma_trimmed_by(without_dot_slashes(slashed(trimmed(s))), Edge::Slash);
}

/// Every path matches itself as a prefix.
pub proof fn law_path_matches_itself(path: Text)
    ensures
        path_matches(path, path),
{
}

/// A path below a prefix that is itself below another prefix is below that one.
pub proof fn law_path_matches_transitive(path: Text, middle: Text, prefix: Text)
    requires
        path_matches(path, middle),
        path_matches(middle, prefix),
    ensures
        path_matches(path, prefix),
{
    let p = normalized_repo_path(path);
    let m = normalized_repo_path(middle);
    let q = normalized_repo_path(prefix);
    if q.len() > 0 && p != m && m != q {
        assert(p.subrange(0, m.len() as int + 1) == m.push('/'));
        assert(m.subrange(0, q.len() as int + 1) == q.push('/'));
        assert(p.subrange(0, q.len() as int + 1) =~= q.push('/')) by {
            assert forall|i: int| 0 <= i < q.len() + 1 implies p[i] == q.push('/')[i] by {
                assert(p[i] == p.subrange(0, m.len() as int + 1)[i]);
                assert(m[i] == m.subrange(0, q.len() as int + 1)[i]);
            }
        }
    }
}

/// A path matches a prefix exactly when the prefix is empty or its segments are
/// the first segments of the path.
pub proof fn law_path_matches_by_segments(path: Text, prefix: Text)
    ensures
        ({
            let p = pieces(normalized_repo_path(path), '/');
            let q = pieces(normalized_repo_path(prefix), '/');
            path_matches(path, prefix) <==> normalized_repo_path(prefix).len() == 0 || (q.len()
                <= p.len() && p.take(q.len() as int) == q)
        }),
{
    let path = normalized_repo_path(path);
    let prefix = normalized_repo_path(prefix);
    let p = pieces(path, '/');
    let q = pieces(prefix, '/');
    lemma_pieces_some(prefix, '/');
    law_join_undoes_split(path, '/');
    law_join_undoes_split(prefix, '/');
    if path == prefix {
        assert(p.take(q.len() as int) =~= q);
    }
    if starts_with(path, prefix.push('/')) {
        let rest = path.skip(prefix.len() as int + 1);
        assert(path =~= prefix.push('/') + rest);
        lemma_pieces_concat(prefix, rest, '/');
        assert(p.take(q.len() as int) =~= q);
    }
    if q.len() <= p.len() && p.take(q.len() as int) == q {
        if q.len() == p.len() {
            assert(p.take(q.len() as int) =~= p);
        } else {
            let rest = p.skip(q.len() as int);
            assert(p =~= q + rest);
            lemma_joined_concat(q, rest, seq!['/']);
            assert(path.subrange(0, prefix.len() as int + 1) =~= prefix.push('/'));
        }
    }
}

/// The members of a list that match no excluded prefix form a list themselves.
pub proof fn lemma_kept_list(list: Seq<Text>, excluded: Seq<Text>) -> (counted: Seq<Text>)
    ensures
        counted.to_set() == kept(list.to_set(), excluded),
    decreases list.len(),
{
    if list.len() == 0 {
        assert(list.to_set() =~= kept(list.to_set(), excluded));
        list
    } else {
        let front = list.drop_last();
        let before = lemma_kept_list(front, excluded);
        let last = list.last();
        lemma_take_set(list, list.len() - 1);
        assert(list.take(list.len() as int) =~= list);
        assert(list.take(list.len() - 1) =~= front);
        if matches_any(last, excluded) {
            assert(kept(list.to_set(), excluded) =~= kept(front.to_set(), excluded));
            before
        } else {
            let counted = before.push(last);
            lemma_take_set(counted, before.len() as int);
            assert(counted.take(before.len() as int) =~= before);
            assert(counted.take(before.len() as int + 1) =~= counted);
            assert(kept(list.to_set(), excluded) =~= kept(front.to_set(), excluded).insert(last));
            counted
        }
    }
}

/// The items of two lists form a list themselves.
pub proof fn lemma_concat_set(a: Seq<Text>, b: Seq<Text>)
    ensures
        (a + b).to_set() == a.to_set() + b.to_set(),
{
    let both = a + b;
    assert forall|t: Text| both.to_set().contains(t) <==> (a.to_set() + b.to_set()).contains(t) by {
        if both.contains(t) {
            let i = choose|i: int| 0 <= i < both.len() && both[i] == t;
            if i < a.len() {
                assert(a[i] == t);
            } else {
                assert(b[i - a.len()] == t);
            }
        }
        if a.contains(t) {
            let i = choose|i: int| 0 <= i < a.len() && a[i] == t;
            assert(both[i] == t);
        }
        if b.contains(t) {
            let i = choose|i: int| 0 <= i < b.len() && b[i] == t;
            assert(both[a.len() + i] == t);
        }
    }
    assert(both.to_set() =~= a.to_set() + b.to_set());
}

/// Filtering twice by the same prefixes is filtering once.
pub proof fn law_filter_idempotent(paths: Set<Text>, excluded: Seq<Text>)
    ensures
        kept(kept(paths, excluded), excluded) == kept(paths, excluded),
{
    assert(kept(kept(paths, excluded), excluded) =~= kept(paths, excluded));
}

/// Merging two lists and then filtering is filtering both and then merging.
pub proof fn law_filter_distributes(left: Set<Text>, right: Set<Text>, excluded: Seq<Text>)
    ensures
        kept(left + right, excluded) == kept(left, excluded) + kept(right, excluded),
{
    assert(kept(left + right, excluded) =~= kept(left, excluded) + kept(right, excluded));
}

/// Listed paths are read line by line: the lines of two outputs list the paths of
/// the first and then those of the second; a blank line lists none, and any other
/// lists the path that it says, normalized.
pub proof fn law_paths_are_listed_line_by_line(a: Seq<Text>, b: Seq<Text>, line: Text)
    ensures
        listed_paths(a + b) == listed_paths(a) + listed_paths(b),
        listed_paths(seq![line]) == (if trimmed(line).len() == 0 {
            Seq::<Text>::empty()
        } else {
            seq![normalized_repo_path(line)]
        }),
    decreases b.len(),
{
    assert(seq![line].drop_last() =~= Seq::<Text>::empty());
    assert(listed_paths(Seq::<Text>::empty()) =~= Seq::<Text>::empty());
    lemma_trimmed_by(line, Edge::White);
    assert(listed_paths(seq![line]) =~= (if trimmed(line).len() == 0 {
        Seq::<Text>::empty()
    } else {
        seq![normalized_repo_path(line)]
    }));
    if b.len() == 0 {
        assert(a + b =~= a);
        assert(listed_paths(a) + listed_paths(b) =~= listed_paths(a));
    } else {
        law_paths_are_listed_line_by_line(a, b.drop_last(), line);
        assert((a + b).drop_last() =~= a + b.drop_last());
        assert((a + b).last() == b.last());
        assert(listed_paths(a + b) =~= listed_paths(a) + listed_paths(b));
    }
}

/// A line of the output says this path.
pub open spec fn line_names(output: Seq<Text>, path: Text) -> bool {
    exists|i: int|
        0 <= i < output.len() && trimmed(#[trigger] output[i]).len() > 0 && normalized_repo_path(
            output[i],
        ) == path
}

/// The listed paths are those that some line says.
pub proof fn law_listed_paths_are_named(output: Seq<Text>, path: Text)
    ensures
        listed_paths(output).contains(path) <==> line_names(output, path),
    decreases output.len(),
{
    if output.len() > 0 {
        let front = output.drop_last();
        let last = output[output.len() - 1];
        law_listed_paths_are_named(front, path);
        law_paths_are_listed_line_by_line(front, seq![last], last);
        assert(output =~= front + seq![last]);
        let (x, y) = (listed_paths(front), listed_paths(seq![last]));
        if line_names(front, path) {
            let i = choose|i: int|
                0 <= i < front.len() && trimmed(#[trigger] front[i]).len() > 0
                    && normalized_repo_path(front[i]) == path;
            assert(output[i] == front[i]);
            let k = choose|k: int| 0 <= k < x.len() && x[k] == path;
            assert((x + y)[k] == path);
        }
        if trimmed(last).len() > 0 && normalized_repo_path(last) == path {
            assert(output[output.len() - 1] == last);
            assert(y[0] == path);
            assert((x + y)[x.len() as int] == path);
        }
        if line_names(output, path) {
            let i = choose|i: int|
                0 <= i < output.len() && trimmed(#[trigger] output[i]).len() > 0
                    && normalized_repo_path(output[i]) == path;
            if i < front.len() {
                assert(front[i] == output[i]);
            }
        }
        if (x + y).contains(path) {
            let k = choose|k: int| 0 <= k < (x + y).len() && (x + y)[k] == path;
            if k < x.len() {
                assert(x[k] == path);
            } else {
                assert(y[k - x.len()] == path);
            }
        }
    }
}

/// A path counts exactly where it is there and no excluded prefix matches it.
pub proof fn law_kept_paths_match_no_prefix(paths: Set<Text>, excluded: Seq<Text>, path: Text)
    ensures
        kept(paths, excluded).contains(path) <==> paths.contains(path) && forall|i: int|
            0 <= i < excluded.len() ==> !path_matches(path, #[trigger] excluded[i]),
{
}

/// A path as it is written after normalizing: no white space around it, no
/// backslash, no leading `./`, no slash at either end, and not the directory `.`.
pub open spec fn plain_path(s: Text) -> bool {
    &&& trimmed(s) == s
    &&& !s.contains('\\')
    &&& s.len() > 0 ==> s[0] != '/' && s.last() != '/'
    &&& s.len() >= 2 ==> !(s[0] == '.' && s[1] == '/')
    &&& s != seq!['.']
}

/// A plain path stays as it is, and comes back from every way to write it: with
/// white space around it, with `./` and slashes in front, with slashes behind.
pub proof fn law_spellings_of_a_path(path: Text, white: Text, dots: nat, front: nat, back: nat)
    requires
        plain_path(path),
        path.len() > 0,
        forall|i: int| 0 <= i < white.len() ==> white_space(#[trigger] white[i]),
    ensures
        normalized_repo_path(path) == path,
        normalized_repo_path(
            white + (dot_slashes(dots) + (slashes(front) + path + slashes(back))) + white,
        ) == path,
{
    lemma_spelling(path, Seq::empty(), 0, 0, 0);
    assert(Seq::<char>::empty() + (dot_slashes(0) + (slashes(0) + path + slashes(0)))
        + Seq::<char>::empty() =~= path);
    lemma_spelling(path, white, dots, front, back);
}

/// `./`, again and again.
pub open spec fn dot_slashes(n: nat) -> Text
    decreases n,
{
    if n == 0 {
        Seq::empty()
    } else {
        seq!['.', '/'] + dot_slashes((n - 1) as nat)
    }
}

/// So many slashes.
pub open spec fn slashes(n: nat) -> Text {
    Seq::new(n, |i: int| '/')
}

proof fn lemma_spelling(path: Text, white: Text, dots: nat, front: nat, back: nat)
    requires
        plain_path(path),
        path.len() > 0,
        forall|i: int| 0 <= i < white.len() ==> white_space(#[trigger] white[i]),
    ensures
        normalized_repo_path(
            white + (dot_slashes(dots) + (slashes(front) + path + slashes(back))) + white,
        ) == path,
{
    let inner = slashes(front) + path + slashes(back);
    let core = dot_slashes(dots) + inner;
    assert(trimmed(white + core + white) == core) by {
        lemma_spelling_ends(path, dots, front, back);
        law_trimming_leaves_the_core(white, core, white, Edge::White);
    }
    assert(slashed(core) == core) by {
        lemma_spelling_slashes(path, dots, front, back);
    }
    assert(without_dot_slashes(core) == inner) by {
        lemma_dots_cut(dots, inner, front, path);
    }
    assert(trimmed_by(inner, Edge::Slash) == path) by {
        law_trimming_leaves_the_core(slashes(front), path, slashes(back), Edge::Slash);
    }
}

proof fn lemma_spelling_ends(path: Text, dots: nat, front: nat, back: nat)
    requires
        plain_path(path),
        path.len() > 0,
    ensures
        ({
            let core = dot_slashes(dots) + (slashes(front) + path + slashes(back));
            core.len() > 0 && !white_space(core[0]) && !white_space(core.last())
        }),
{
    let core = dot_slashes(dots) + (slashes(front) + path + slashes(back));
    let (x, y) = lemma_trimmed_by(path, Edge::White);
    assert(path.subrange(x, y).len() == y - x);
    assert(x == 0 && y == path.len());
    if dots > 0 {
        assert(core[0] == '.');
    } else if front > 0 {
        assert(core[0] == '/');
    } else {
        assert(core[0] == path[0]);
    }
    if back > 0 {
        assert(core[core.len() - 1] == '/');
    } else {
        assert(core[core.len() - 1] == path[path.len() - 1]);
    }
}

proof fn lemma_spelling_slashes(path: Text, dots: nat, front: nat, back: nat)
    requires
        plain_path(path),
    ensures
        ({
            let core = dot_slashes(dots) + (slashes(front) + path + slashes(back));
            slashed(core) == core
        }),
{
    let core = dot_slashes(dots) + (slashes(front) + path + slashes(back));
    let d = dot_slashes(dots);
    lemma_dot_slashes_plain(dots);
    assert forall|i: int| 0 <= i < core.len() implies core[i] != '\\' by {
        if i < d.len() {
            assert(core[i] == d[i]);
        } else if i < d.len() + front {
            assert(core[i] == '/');
        } else if i < d.len() + front + path.len() {
            assert(core[i] == path[i - d.len() - front]);
        } else {
            assert(core[i] == '/');
        }
    }
    assert(slashed(core) =~= core);
}

proof fn lemma_dot_slashes_plain(n: nat)
    ensures
        forall|i: int| 0 <= i < dot_slashes(n).len() ==> #[trigger] dot_slashes(n)[i] != '\\',
    decreases n,
{
    if n > 0 {
        lemma_dot_slashes_plain((n - 1) as nat);
        let rest = dot_slashes((n - 1) as nat);
        assert forall|i: int| 0 <= i < dot_slashes(n).len() implies #[trigger] dot_slashes(n)[i]
            != '\\' by {
            if i >= 2 {
                assert(dot_slashes(n)[i] == rest[i - 2]);
            }
        }
    }
}

proof fn lemma_dots_cut(n: nat, inner: Text, front: nat, path: Text)
    requires
        plain_path(path),
        path.len() > 0,
        inner.len() >= front + path.len(),
        forall|i: int| 0 <= i < front ==> #[trigger] inner[i] == '/',
        forall|i: int| 0 <= i < path.len() ==> inner[front + i] == #[trigger] path[i],
        forall|i: int| front + path.len() <= i < inner.len() ==> #[trigger] inner[i] == '/',
    ensures
        without_dot_slashes(dot_slashes(n) + inner) == inner,
    decreases n,
{
    let s = dot_slashes(n) + inner;
    if n == 0 {
        assert(s =~= inner);
        if inner.len() >= 2 && inner[0] == '.' && inner[1] == '/' {
            if front == 0 {
                assert(inner[0] == path[0]);
                if path.len() >= 2 {
                    assert(inner[1] == path[1]);
                }
                assert(path =~= seq!['.']);
            }
        }
    } else {
        lemma_dots_cut((n - 1) as nat, inner, front, path);
        assert(s[0] == '.' && s[1] == '/');
        assert(s.skip(2) =~= dot_slashes((n - 1) as nat) + inner);
    }
}

/// A backslash in a path counts as a slash.
pub proof fn law_backslashes_are_slashes(a: Text, b: Text)
    requires
        a.len() == b.len(),
        forall|i: int| 0 <= i < a.len() ==> #[trigger] a[i] == b[i] || (a[i] == '\\' && b[i] == '/'),
    ensures
        normalized_repo_path(a) == normalized_repo_path(b),
{
    let from = lemma_trimmed_start(a, Edge::White);
    let from_b = lemma_trimmed_start(b, Edge::White);
    if from < from_b {
        assert(on_edge(Edge::White, b[from]));
    }
    if from_b < from {
        assert(on_edge(Edge::White, a[from_b]));
    }
    let (x, y) = (a.skip(from), b.skip(from));
    let k = lemma_trimmed_end(x, Edge::White);
    let k_b = lemma_trimmed_end(y, Edge::White);
    if k < k_b {
        assert(on_edge(Edge::White, x[k_b - 1]));
        assert(x[k_b - 1] == a[from + k_b - 1]);
    }
    if k_b < k {
        assert(on_edge(Edge::White, y[k - 1]));
        assert(x[k - 1] == a[from + k - 1]);
    }
    assert forall|i: int| 0 <= i < k implies slashed(x.take(k))[i] == slashed(y.take(k))[i] by {
        assert(x[i] == a[from + i] && y[i] == b[from + i]);
    }
    assert(slashed(trimmed(a)) =~= slashed(trimmed(b)));
}

} // verus!
