//! Texts as sequences of characters: trimming, splitting, joining, searching.

use vstd::prelude::*;
use vstd::slice::slice_subrange;

verus! {

/// The characters of a string.
pub type Text = Seq<char>;

/// The views of a list of strings.
pub open spec fn texts(items: Seq<String>) -> Seq<Text> {
    Seq::new(items.len(), |i: int| items[i]@)
}

/// The view of an optional string.
pub open spec fn optional_text(item: Option<String>) -> Option<Text> {
    match item {
        Some(value) => Some(value@),
        None => None,
    }
}

/// A kind of character that is cut off at the edges of a text.
#[derive(Clone, Copy)]
pub enum Edge {
    /// Characters with the Unicode property `White_Space`.
    White,
    /// The path separator `/`.
    Slash,
}

/// The Unicode property `White_Space`.
pub open spec fn white_space(c: char) -> bool {
    ||| '\u{9}' <= c <= '\u{d}'
    ||| c == ' '
    ||| c == '\u{85}'
    ||| c == '\u{a0}'
    ||| c == '\u{1680}'
    ||| '\u{2000}' <= c <= '\u{200a}'
    ||| c == '\u{2028}'
    ||| c == '\u{2029}'
    ||| c == '\u{202f}'
    ||| c == '\u{205f}'
    ||| c == '\u{3000}'
}

/// Whether `c` is cut off at an edge of the given kind.
pub open spec fn on_edge(edge: Edge, c: char) -> bool {
    match edge {
        Edge::White => white_space(c),
        Edge::Slash => c == '/',
    }
}

/// `s` without the longest prefix made of edge characters.
pub open spec fn trimmed_start(s: Text, edge: Edge) -> Text
    decreases s.len(),
{
    if s.len() > 0 && on_edge(edge, s[0]) {
        trimmed_start(s.drop_first(), edge)
    } else {
        s
    }
}

/// `s` without the longest suffix made of edge characters.
pub open spec fn trimmed_end(s: Text, edge: Edge) -> Text
    decreases s.len(),
{
    if s.len() > 0 && on_edge(edge, s.last()) {
        trimmed_end(s.drop_last(), edge)
    } else {
        s
    }
}

/// `s` without edge characters at either end.
pub open spec fn trimmed_by(s: Text, edge: Edge) -> Text {
    trimmed_end(trimmed_start(s, edge), edge)
}

/// `s` without white space at either end.
pub open spec fn trimmed(s: Text) -> Text {
    trimmed_by(s, Edge::White)
}

/// The pieces of `s` between the occurrences of `separator`, in order. A sequence
/// without the separator has one piece: itself.
pub open spec fn pieces<T>(s: Seq<T>, separator: T) -> Seq<Seq<T>>
    decreases s.len(),
{
    if s.len() == 0 {
        seq![Seq::empty()]
    } else {
        let before = pieces(s.drop_last(), separator);
        if s.last() == separator {
            before.push(Seq::empty())
        } else {
            before.drop_last().push(before.last().push(s.last()))
        }
    }
}

/// The items of `list` one after another, with `separator` between them.
pub open spec fn joined(list: Seq<Text>, separator: Text) -> Text
    decreases list.len(),
{
    if list.len() == 0 {
        Seq::empty()
    } else if list.len() == 1 {
        list[0]
    } else {
        joined(list.drop_last(), separator) + separator + list.last()
    }
}

/// `s` begins with `prefix`.
pub open spec fn starts_with(s: Text, prefix: Text) -> bool {
    &&& prefix.len() <= s.len()
    &&& s.subrange(0, prefix.len() as int) == prefix
}

/// `part` occurs in `s` at position `at`.
pub open spec fn occurs_at(s: Text, part: Text, at: int) -> bool {
    &&& 0 <= at
    &&& at + part.len() <= s.len()
    &&& s.subrange(at, at + part.len()) == part
}

/// `part` occurs somewhere in `s`.
pub open spec fn contains_text(s: Text, part: Text) -> bool {
    exists|at: int| #[trigger] occurs_at(s, part, at)
}

/// The decimal digit `d`.
pub open spec fn digit(d: nat) -> char {
    if d == 0 {
        '0'
    } else if d == 1 {
        '1'
    } else if d == 2 {
        '2'
    } else if d == 3 {
        '3'
    } else if d == 4 {
        '4'
    } else if d == 5 {
        '5'
    } else if d == 6 {
        '6'
    } else if d == 7 {
        '7'
    } else if d == 8 {
        '8'
    } else {
        '9'
    }
}

/// `n` in decimal notation, without leading zeros.
pub open spec fn decimal(n: nat) -> Text
    decreases n,
{
    if n < 10 {
        seq![digit(n)]
    } else {
        decimal(n / 10).push(digit(n % 10))
    }
}

/// The characters of `s`.
pub fn chars_of(s: &str) -> (r: Vec<char>)
    ensures
        r@ == s@,
{
    let mut r: Vec<char> = Vec::new();
    for c in it: s.chars()
        invariant
            r@ == it.seq().take(it.index()),
            it.seq() == s@,
    {
        proof {
            assert(it.seq().take(it.index() + 1) =~= it.seq().take(it.index()).push(c));
        }
        r.push(c);
    }
    assert(s@.take(s@.len() as int) =~= s@);
    r
}

/// The string made of `chars`.
pub fn string_of(chars: &[char]) -> (r: String)
    ensures
        r@ == chars@,
{
    let mut r = String::new();
    let mut i: usize = 0;
    while i < chars.len()
        invariant
            i <= chars@.len(),
            r@ == chars@.take(i as int),
        decreases chars@.len() - i,
    {
        r.push(chars[i]);
        i += 1;
        assert(chars@.take(i as int) =~= chars@.take(i - 1).push(chars@[i - 1]));
    }
    assert(chars@.take(i as int) =~= chars@);
    r
}

/// Whether `a` and `b` hold the same characters.
pub fn same_text(a: &str, b: &str) -> (r: bool)
    ensures
        r == (a@ == b@),
{
    a.to_owned() == b.to_owned()
}

/// Whether `c` has the Unicode property `White_Space`.
pub fn is_white_space(c: char) -> (r: bool)
    ensures
        r == white_space(c),
{
    ('\u{9}' <= c && c <= '\u{d}') || c == ' ' || c == '\u{85}' || c == '\u{a0}' || c == '\u{1680}'
        || ('\u{2000}' <= c && c <= '\u{200a}') || c == '\u{2028}' || c == '\u{2029}' || c
        == '\u{202f}' || c == '\u{205f}' || c == '\u{3000}'
}

/// Whether `c` is cut off at an edge of the given kind.
fn is_on_edge(edge: Edge, c: char) -> (r: bool)
    ensures
        r == on_edge(edge, c),
{
    match edge {
        Edge::White => is_white_space(c),
        Edge::Slash => c == '/',
    }
}

/// `s` without edge characters at either end.
pub fn trim_by(s: &[char], edge: Edge) -> (r: &[char])
    ensures
        r@ == trimmed_by(s@, edge),
{
    let mut from: usize = 0;
    assert(s@.skip(0) =~= s@);
    while from < s.len() && is_on_edge(edge, s[from])
        invariant
            from <= s@.len(),
            trimmed_start(s@, edge) == trimmed_start(s@.skip(from as int), edge),
        decreases s@.len() - from,
    {
        assert(s@.skip(from as int).drop_first() =~= s@.skip(from + 1));
        from += 1;
    }
    assert(trimmed_start(s@, edge) == s@.skip(from as int));
    let mut to: usize = s.len();
    assert(s@.subrange(from as int, to as int) =~= s@.skip(from as int));
    while from < to && is_on_edge(edge, s[to - 1])
        invariant
            from <= to <= s@.len(),
            trimmed_end(s@.skip(from as int), edge) == trimmed_end(
                s@.subrange(from as int, to as int),
                edge,
            ),
        decreases to - from,
    {
        assert(s@.subrange(from as int, to as int).drop_last() =~= s@.subrange(
            from as int,
            to - 1,
        ));
        to -= 1;
    }
    slice_subrange(s, from, to)
}

/// `s` without white space at either end.
pub fn trim(s: &[char]) -> (r: &[char])
    ensures
        r@ == trimmed(s@),
{
    trim_by(s, Edge::White)
}

/// The views of a list of character vectors.
pub open spec fn char_lists(items: Seq<Vec<char>>) -> Seq<Text> {
    Seq::new(items.len(), |i: int| items[i]@)
}

/// The pieces of `s` between the occurrences of `separator`.
pub fn split(s: &[char], separator: char) -> (r: Vec<Vec<char>>)
    ensures
        char_lists(r@) == pieces(s@, separator),
{
    let mut done: Vec<Vec<char>> = Vec::new();
    let mut current: Vec<char> = Vec::new();
    let mut i: usize = 0;
    assert(s@.take(0) =~= Seq::<char>::empty());
    assert(char_lists(done@).push(current@) =~= pieces(s@.take(0), separator));
    while i < s.len()
        invariant
            i <= s@.len(),
            char_lists(done@).push(current@) == pieces(s@.take(i as int), separator),
        decreases s@.len() - i,
    {
        let ghost before = char_lists(done@);
        let ghost piece = current@;
        assert(s@.take(i + 1).drop_last() =~= s@.take(i as int));
        assert(s@.take(i + 1).last() == s@[i as int]);
        if s[i] == separator {
            done.push(current);
            current = Vec::new();
            assert(char_lists(done@) =~= before.push(piece));
        } else {
            current.push(s[i]);
            assert(before.push(piece).drop_last() =~= before);
        }
        i += 1;
    }
    assert(s@.take(i as int) =~= s@);
    let ghost before = char_lists(done@);
    let ghost piece = current@;
    done.push(current);
    assert(char_lists(done@) =~= before.push(piece));
    done
}

/// The items of `list` one after another, with `separator` between them.
pub fn join(list: &Vec<String>, separator: &str) -> (r: String)
    ensures
        r@ == joined(texts(list@), separator@),
{
    let mut r = String::new();
    let mut i: usize = 0;
    let ghost all = texts(list@);
    while i < list.len()
        invariant
            i <= list@.len(),
            all == texts(list@),
            r@ == joined(all.take(i as int), separator@),
        decreases list@.len() - i,
    {
        assert(all.take(i + 1).drop_last() =~= all.take(i as int));
        if i > 0 {
            r.append(separator);
        }
        r.append(list[i].as_str());
        i += 1;
        if i == 1 {
            assert(r@ =~= all[0]);
        }
    }
    assert(all.take(i as int) =~= all);
    r
}

/// Whether `part` occurs in `s` at position `at`.
fn matches_at(s: &[char], part: &[char], at: usize) -> (r: bool)
    requires
        at <= s@.len(),
    ensures
        r == occurs_at(s@, part@, at as int),
{
    let total = s.len();
    if total - at < part.len() {
        return false;
    }
    let mut i: usize = 0;
    while i < part.len()
        invariant
            total == s@.len(),
            at + part@.len() <= total,
            i <= part@.len(),
            forall|j: int| 0 <= j < i ==> s@[at + j] == #[trigger] part@[j],
        decreases part@.len() - i,
    {
        if s[at + i] != part[i] {
            assert(s@.subrange(at as int, at + part@.len())[i as int] != part@[i as int]);
            return false;
        }
        i += 1;
    }
    assert(s@.subrange(at as int, at + part@.len()) =~= part@);
    true
}

/// Whether `s` begins with `prefix`.
pub fn has_prefix(s: &[char], prefix: &[char]) -> (r: bool)
    ensures
        r == starts_with(s@, prefix@),
{
    matches_at(s, prefix, 0)
}

/// Whether `part` occurs somewhere in `s`.
pub fn has_part(s: &[char], part: &[char]) -> (r: bool)
    ensures
        r == contains_text(s@, part@),
{
    let mut at: usize = 0;
    while at < s.len()
        invariant
            at <= s@.len(),
            forall|j: int| 0 <= j < at ==> !#[trigger] occurs_at(s@, part@, j),
        decreases s@.len() - at,
    {
        if matches_at(s, part, at) {
            return true;
        }
        at += 1;
    }
    matches_at(s, part, at)
}

/// Whether `c` occurs in `s`.
pub fn has_char(s: &[char], c: char) -> (r: bool)
    ensures
        r == s@.contains(c),
{
    let mut i: usize = 0;
    while i < s.len()
        invariant
            i <= s@.len(),
            forall|j: int| 0 <= j < i ==> s@[j] != c,
        decreases s@.len() - i,
    {
        if s[i] == c {
            return true;
        }
        i += 1;
    }
    false
}

/// The decimal digit `d`.
fn digit_char(d: u128) -> (r: char)
    ensures
        r == digit(d as nat),
{
    if d == 0 {
        '0'
    } else if d == 1 {
        '1'
    } else if d == 2 {
        '2'
    } else if d == 3 {
        '3'
    } else if d == 4 {
        '4'
    } else if d == 5 {
        '5'
    } else if d == 6 {
        '6'
    } else if d == 7 {
        '7'
    } else if d == 8 {
        '8'
    } else {
        '9'
    }
}

/// `n` in decimal notation.
pub fn decimal_string(n: u128) -> (r: String)
    ensures
        r@ == decimal(n as nat),
    decreases n,
{
    let mut r = if n < 10 {
        String::new()
    } else {
        decimal_string(n / 10)
    };
    r.push(digit_char(n % 10));
    assert(n < 10 ==> r@ =~= seq![digit(n as nat)]);
    r
}

/// Cutting the front off a text drops some leading edge characters and stops at
/// the first other one.
pub proof fn lemma_trimmed_start(s: Text, edge: Edge) -> (k: int)
    ensures
        0 <= k <= s.len(),
        trimmed_start(s, edge) == s.skip(k),
        forall|i: int| 0 <= i < k ==> on_edge(edge, #[trigger] s[i]),
        k < s.len() ==> !on_edge(edge, s[k]),
    decreases s.len(),
{
    if s.len() > 0 && on_edge(edge, s[0]) {
        let k = lemma_trimmed_start(s.drop_first(), edge);
        assert(s.drop_first().skip(k) =~= s.skip(k + 1));
        assert forall|i: int| 0 <= i < k + 1 implies on_edge(edge, #[trigger] s[i]) by {
            if i > 0 {
                assert(s.drop_first()[i - 1] == s[i]);
            }
        }
        k + 1
    } else {
        assert(s.skip(0) =~= s);
        0
    }
}

/// Cutting the end off a text drops some trailing edge characters and stops at
/// the last other one.
pub proof fn lemma_trimmed_end(s: Text, edge: Edge) -> (k: int)
    ensures
        0 <= k <= s.len(),
        trimmed_end(s, edge) == s.take(k),
        forall|i: int| k <= i < s.len() ==> on_edge(edge, #[trigger] s[i]),
        k > 0 ==> !on_edge(edge, s[k - 1]),
    decreases s.len(),
{
    if s.len() > 0 && on_edge(edge, s.last()) {
        let k = lemma_trimmed_end(s.drop_last(), edge);
        assert(s.drop_last().take(k) =~= s.take(k));
        assert forall|i: int| k <= i < s.len() implies on_edge(edge, #[trigger] s[i]) by {
            if i < s.len() - 1 {
                assert(s.drop_last()[i] == s[i]);
            }
        }
        k
    } else {
        assert(s.take(s.len() as int) =~= s);
        s.len() as int
    }
}

/// A trimmed text is the part of the text between its first and its last
/// character that is no edge character.
pub proof fn lemma_trimmed_by(s: Text, edge: Edge) -> (bounds: (int, int))
    ensures
        0 <= bounds.0 <= bounds.1 <= s.len(),
        trimmed_by(s, edge) == s.subrange(bounds.0, bounds.1),
        bounds.0 < bounds.1 ==> !on_edge(edge, s[bounds.0]) && !on_edge(edge, s[bounds.1 - 1]),
        trimmed_by(trimmed_by(s, edge), edge) == trimmed_by(s, edge),
{
    let from = lemma_trimmed_start(s, edge);
    let middle = s.skip(from);
    let k = lemma_trimmed_end(middle, edge);
    assert(middle.take(k) =~= s.subrange(from, from + k));
    if k > 0 {
        assert(middle[0] == s[from]);
        assert(middle[k - 1] == s[from + k - 1]);
    }
    (from, from + k)
}

/// Every sequence has at least one piece.
pub proof fn lemma_pieces_some<T>(s: Seq<T>, separator: T)
    ensures
        pieces(s, separator).len() >= 1,
    decreases s.len(),
{
    if s.len() > 0 {
        lemma_pieces_some(s.drop_last(), separator);
    }
}

/// No piece holds the separator.
pub proof fn lemma_pieces_clean<T>(s: Seq<T>, separator: T)
    ensures
        forall|i: int|
            0 <= i < pieces(s, separator).len() ==> !(#[trigger] pieces(s, separator)[i]).contains(
                separator,
            ),
    decreases s.len(),
{
    let all = pieces(s, separator);
    if s.len() > 0 {
        let before = pieces(s.drop_last(), separator);
        lemma_pieces_some(s.drop_last(), separator);
        lemma_pieces_clean(s.drop_last(), separator);
        assert forall|i: int| 0 <= i < all.len() implies !(#[trigger] all[i]).contains(
            separator,
        ) by {
            if s.last() != separator {
                if i == all.len() - 1 {
                    let piece = before.last();
                    assert(!before[before.len() - 1].contains(separator));
                    assert forall|j: int| 0 <= j < all[i].len() implies all[i][j] != separator by {
                        if j < piece.len() {
                            assert(piece[j] == all[i][j]);
                        }
                    }
                } else {
                    assert(all[i] == before[i]);
                }
            } else if i < before.len() {
                assert(all[i] == before[i]);
            }
        }
    }
}

/// A sequence without the separator is its only piece.
pub proof fn lemma_pieces_single<T>(s: Seq<T>, separator: T)
    requires
        !s.contains(separator),
    ensures
        pieces(s, separator) == seq![s],
    decreases s.len(),
{
    if s.len() == 0 {
        assert(s =~= Seq::empty());
    } else {
        assert(s[s.len() - 1] != separator);
        assert forall|j: int| 0 <= j < s.len() - 1 implies s.drop_last()[j] != separator by {
            assert(s[j] != separator);
        }
        lemma_pieces_single(s.drop_last(), separator);
        assert(s.drop_last().push(s.last()) =~= s);
        assert(pieces(s, separator) =~= seq![s]);
    }
}

/// The pieces of two sequences with the separator between them are those of the
/// first and then those of the second.
pub proof fn lemma_pieces_concat<T>(a: Seq<T>, b: Seq<T>, separator: T)
    ensures
        pieces(a.push(separator) + b, separator) == pieces(a, separator) + pieces(b, separator),
    decreases b.len(),
{
    let whole = a.push(separator) + b;
    if b.len() == 0 {
        assert(whole =~= a.push(separator));
        assert(a.push(separator).drop_last() =~= a);
        assert(pieces(whole, separator) =~= pieces(a, separator) + pieces(b, separator));
    } else {
        assert(whole.drop_last() =~= a.push(separator) + b.drop_last());
        lemma_pieces_concat(a, b.drop_last(), separator);
        lemma_pieces_some(b.drop_last(), separator);
        let before = pieces(a, separator) + pieces(b.drop_last(), separator);
        assert(before.last() == pieces(b.drop_last(), separator).last());
        assert(pieces(whole, separator) =~= pieces(a, separator) + pieces(b, separator));
    }
}

proof fn lemma_joined_grow(list: Seq<Text>, item: Text, c: char, separator: Text)
    ensures
        joined(list.push(item.push(c)), separator) == joined(list.push(item), separator).push(c),
{
    assert(list.push(item.push(c)).drop_last() =~= list);
    assert(list.push(item).drop_last() =~= list);
    assert(joined(list.push(item.push(c)), separator) =~= joined(
        list.push(item),
        separator,
    ).push(c));
}

/// Joining the pieces of a text gives the text back.
pub proof fn law_join_undoes_split(s: Text, separator: char)
    ensures
        joined(pieces(s, separator), seq![separator]) == s,
    decreases s.len(),
{
    if s.len() == 0 {
        assert(s =~= Seq::empty());
    } else {
        let before = pieces(s.drop_last(), separator);
        lemma_pieces_some(s.drop_last(), separator);
        law_join_undoes_split(s.drop_last(), separator);
        assert(s =~= s.drop_last().push(s.last()));
        if s.last() == separator {
            assert(before.push(Seq::empty()).drop_last() =~= before);
            assert(joined(before.push(Seq::empty()), seq![separator]) =~= s);
        } else {
            lemma_joined_grow(before.drop_last(), before.last(), s.last(), seq![separator]);
            assert(before.drop_last().push(before.last()) =~= before);
        }
    }
}

/// Joining two lists one after the other is joining what each gives.
pub proof fn lemma_joined_concat(a: Seq<Text>, b: Seq<Text>, separator: Text)
    requires
        a.len() > 0,
        b.len() > 0,
    ensures
        joined(a + b, separator) == joined(a, separator) + separator + joined(b, separator),
    decreases b.len(),
{
    if b.len() == 1 {
        assert((a + b).drop_last() =~= a);
    } else {
        lemma_joined_concat(a, b.drop_last(), separator);
        assert((a + b).drop_last() =~= a + b.drop_last());
        assert(joined(a + b, separator) =~= joined(a, separator) + separator + joined(
            b,
            separator,
        ));
    }
}

/// Splitting a joined list at the separator gives the list back, where it is not
/// empty and no item holds the separator.
pub proof fn law_split_undoes_join(list: Seq<Text>, separator: char)
    requires
        list.len() > 0,
        forall|i: int| 0 <= i < list.len() ==> !(#[trigger] list[i]).contains(separator),
    ensures
        pieces(joined(list, seq![separator]), separator) == list,
    decreases list.len(),
{
    let last = list.last();
    assert(last == list[list.len() - 1]);
    lemma_pieces_single(last, separator);
    if list.len() == 1 {
        assert(list =~= seq![last]);
    } else {
        let front = list.drop_last();
        assert forall|i: int| 0 <= i < front.len() implies !(#[trigger] front[i]).contains(
            separator,
        ) by {
            assert(front[i] == list[i]);
        }
        law_split_undoes_join(front, separator);
        let start = joined(front, seq![separator]);
        assert(joined(list, seq![separator]) =~= start.push(separator) + last);
        lemma_pieces_concat(start, last, separator);
        assert(front + seq![last] =~= list);
    }
}

/// Trimming cuts the edge characters off both ends of what lies between them, and
/// nothing else.
pub proof fn law_trimming_leaves_the_core(a: Text, core: Text, b: Text, edge: Edge)
    requires
        forall|i: int| 0 <= i < a.len() ==> on_edge(edge, #[trigger] a[i]),
        forall|i: int| 0 <= i < b.len() ==> on_edge(edge, #[trigger] b[i]),
        core.len() > 0 ==> !on_edge(edge, core[0]) && !on_edge(edge, core.last()),
    ensures
        trimmed_by(a + core + b, edge) == core,
{
    let s = a + core + b;
    let (x, y) = lemma_trimmed_by(s, edge);
    let from = lemma_trimmed_start(s, edge);
    let k = lemma_trimmed_end(s.skip(from), edge);
    assert(s.skip(from).take(k) =~= s.subrange(from, from + k));
    if core.len() == 0 {
        if from < s.len() {
            if from < a.len() {
                assert(s[from] == a[from]);
            } else {
                assert(s[from] == b[from - a.len()]);
            }
        }
        assert(k == 0);
        assert(trimmed_by(s, edge) =~= core);
    } else {
        if from < a.len() {
            assert(s[from] == a[from]);
        }
        if from > a.len() {
            assert(s[a.len() as int] == core[0]);
        }
        assert(from == a.len());
        let rest = s.skip(from);
        if k > core.len() {
            assert(rest[k - 1] == b[k - 1 - core.len()]);
        }
        if k < core.len() {
            assert(rest[core.len() - 1] == core[core.len() - 1]);
        }
        assert(trimmed_by(s, edge) =~= core);
    }
}

/// A text contains another exactly where it is that text with something before and
/// after it.
pub proof fn law_contained_text_is_a_part(s: Text, part: Text)
    ensures
        contains_text(s, part) <==> exists|a: Text, b: Text| s == #[trigger] (a + part + b),
{
    if contains_text(s, part) {
        let at = choose|at: int| #[trigger] occurs_at(s, part, at);
        let (a, b) = (s.take(at), s.skip(at + part.len()));
        assert(s =~= a + part + b) by {
            assert forall|i: int| 0 <= i < s.len() implies s[i] == (a + part + b)[i] by {
                if at <= i < at + part.len() {
                    assert(s.subrange(at, at + part.len())[i - at] == part[i - at]);
                }
            }
        }
    }
    if exists|a: Text, b: Text| s == #[trigger] (a + part + b) {
        let (a, b) = choose|a: Text, b: Text| s == #[trigger] (a + part + b);
        assert(s.subrange(a.len() as int, (a.len() + part.len()) as int) =~= part);
        assert(occurs_at(s, part, a.len() as int));
    }
}

/// The number that decimal digits stand for.
pub open spec fn number(digits: Text) -> int
    decreases digits.len(),
{
    if digits.len() == 0 {
        0
    } else {
        10 * number(digits.drop_last()) + (digits.last() as int - '0' as int)
    }
}

/// Decimal notation stands for its number, in digits only and without a leading
/// zero.
pub proof fn law_decimal_stands_for_its_number(n: nat)
    ensures
        number(decimal(n)) == n,
        decimal(n).len() > 0,
        n >= 10 ==> decimal(n).len() > 1,
        decimal(n).len() > 1 ==> decimal(n)[0] != '0',
        forall|i: int| 0 <= i < decimal(n).len() ==> '0' <= #[trigger] decimal(n)[i] <= '9',
    decreases n,
{
    let d = decimal(n);
    if n < 10 {
        assert(d.drop_last() =~= Seq::<char>::empty());
        assert(number(Seq::<char>::empty()) == 0);
    } else {
        law_decimal_stands_for_its_number(n / 10);
        let front = decimal(n / 10);
        assert(d.drop_last() =~= front);
        assert(d[0] == front[0]);
        if n / 10 < 10 {
            assert(front =~= seq![digit(n / 10)]);
        }
        assert forall|i: int| 0 <= i < d.len() implies '0' <= #[trigger] d[i] <= '9' by {
            if i < front.len() {
                assert(d[i] == front[i]);
            }
        }
    }
}

/// Every text is its trimmed self with edge characters before and after it.
pub proof fn law_trimmed_text_is_the_core(s: Text, edge: Edge) -> (ends: (Text, Text))
    ensures
        s == ends.0 + trimmed_by(s, edge) + ends.1,
        forall|i: int| 0 <= i < ends.0.len() ==> on_edge(edge, #[trigger] ends.0[i]),
        forall|i: int| 0 <= i < ends.1.len() ==> on_edge(edge, #[trigger] ends.1[i]),
        trimmed_by(s, edge).len() > 0 ==> !on_edge(edge, trimmed_by(s, edge)[0]) && !on_edge(
            edge,
            trimmed_by(s, edge).last(),
        ),
{
    let k = lemma_trimmed_start(s, edge);
    let rest = s.skip(k);
    let e = lemma_trimmed_end(rest, edge);
    let (front, core, back) = (s.take(k), rest.take(e), rest.skip(e));
    assert(s =~= front + core + back);
    assert forall|i: int| 0 <= i < back.len() implies on_edge(edge, #[trigger] back[i]) by {
        assert(back[i] == rest[e + i]);
    }
    if core.len() > 0 {
        assert(core[0] == s[k]);
        assert(core[core.len() - 1] == rest[e - 1]);
    }
    (front, back)
}

/// What stands between two texts is contained in the whole.
pub proof fn lemma_contained(whole: Text, a: Text, part: Text, b: Text)
    requires
        whole == a + part + b,
    ensures
        contains_text(whole, part),
{
    assert(whole.subrange(a.len() as int, (a.len() + part.len()) as int) =~= part);
    assert(occurs_at(whole, part, a.len() as int));
}

/// Every item of a list stands in the joined text, and with a separator before it
/// where it is not the first.
pub proof fn law_joined_text_holds_every_item(list: Seq<Text>, separator: Text, i: int)
    requires
        0 <= i < list.len(),
    ensures
        contains_text(joined(list, separator), list[i]),
        i > 0 ==> contains_text(joined(list, separator), separator + list[i]),
        i == 0 ==> starts_with(joined(list, separator), list[0]),
    decreases list.len(),
{
    let whole = joined(list, separator);
    let none = Seq::<char>::empty();
    if list.len() == 1 {
        assert(whole =~= none + list[0] + none);
        lemma_contained(whole, none, list[0], none);
        assert(whole.subrange(0, list[0].len() as int) =~= list[0]);
    } else {
        let before = joined(list.drop_last(), separator);
        if i == list.len() - 1 {
            assert(whole =~= (before + separator) + list[i] + none);
            lemma_contained(whole, before + separator, list[i], none);
            assert(whole =~= before + (separator + list[i]) + none);
            lemma_contained(whole, before, separator + list[i], none);
        } else {
            law_joined_text_holds_every_item(list.drop_last(), separator, i);
            assert(list.drop_last()[i] == list[i]);
            assert(whole =~= none + before + (separator + list.last()));
            lemma_contained_on(none, before, separator + list.last(), list[i]);
            if i > 0 {
                lemma_contained_on(none, before, separator + list.last(), separator + list[i]);
            } else {
                assert(whole.subrange(0, list[0].len() as int) =~= before.subrange(
                    0,
                    list[0].len() as int,
                ));
            }
        }
    }
}

/// What is contained in a part is contained in the whole.
pub proof fn lemma_contained_on(a: Text, part: Text, b: Text, inner: Text)
    requires
        contains_text(part, inner),
    ensures
        contains_text(a + part + b, inner),
{
    let at = choose|at: int| #[trigger] occurs_at(part, inner, at);
    let whole = a + part + b;
    let there = a.len() + at;
    assert(whole.subrange(there, there + inner.len()) =~= part.subrange(at, at + inner.len()));
    assert(occurs_at(whole, inner, there));
}

/// Where a text with something before it is contained, the text is.
pub proof fn lemma_part_of_contained(whole: Text, label: Text, part: Text)
    requires
        contains_text(whole, label + part),
    ensures
        contains_text(whole, part),
{
    let both = label + part;
    let at = choose|at: int| #[trigger] occurs_at(whole, both, at);
    let there = at + label.len();
    assert forall|i: int| 0 <= i < part.len() implies whole[there + i] == part[i] by {
        assert(whole.subrange(at, at + both.len())[label.len() + i] == both[label.len() + i]);
    }
    assert(whole.subrange(there, there + part.len()) =~= part);
    assert(occurs_at(whole, part, there));
}

} // verus!
