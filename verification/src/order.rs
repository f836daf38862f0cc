//! The order of texts, and sets of texts kept as ascending lists.

use vstd::prelude::*;
use crate::text::{chars_of, texts, Text};

verus! {

/// `a` comes strictly before `b`, by the code points of the first characters
/// in which they differ; a proper prefix comes before the longer text.
pub open spec fn before(a: Text, b: Text) -> bool
    decreases a.len(),
{
    if b.len() == 0 {
        false
    } else if a.len() == 0 {
        true
    } else if a[0] != b[0] {
        a[0] < b[0]
    } else {
        before(a.drop_first(), b.drop_first())
    }
}

/// Every item comes strictly before all later ones.
pub open spec fn ascending(list: Seq<Text>) -> bool {
    forall|i: int, j: int|
        0 <= i < j < list.len() ==> before(#[trigger] list[i], #[trigger] list[j])
}

/// The items of `set` as an ascending list.
pub open spec fn ascending_list(set: Set<Text>) -> Seq<Text> {
    choose|list: Seq<Text>| #[trigger] ascending(list) && list.to_set() == set
}

/// No text comes before itself.
pub proof fn law_before_irreflexive(a: Text)
    ensures
        !before(a, a),
    decreases a.len(),
{
    if a.len() > 0 {
        law_before_irreflexive(a.drop_first());
    }
}

/// The order of texts is transitive.
pub proof fn law_before_transitive(a: Text, b: Text, c: Text)
    requires
        before(a, b),
        before(b, c),
    ensures
        before(a, c),
    decreases a.len(),
{
    if a.len() > 0 && a[0] == b[0] && b[0] == c[0] {
        law_before_transitive(a.drop_first(), b.drop_first(), c.drop_first());
    }
}

/// Of two different texts one comes before the other.
pub proof fn law_before_total(a: Text, b: Text)
    ensures
        before(a, b) || before(b, a) || a == b,
    decreases a.len(),
{
    if a.len() == 0 {
        if b.len() == 0 {
            assert(a =~= b);
        }
    } else if b.len() > 0 && a[0] == b[0] {
        law_before_total(a.drop_first(), b.drop_first());
        if a.drop_first() == b.drop_first() {
            assert(a =~= seq![a[0]] + a.drop_first());
            assert(b =~= seq![b[0]] + b.drop_first());
        }
    }
}

/// An ascending list holds no item twice.
pub proof fn law_ascending_distinct(list: Seq<Text>)
    requires
        ascending(list),
    ensures
        list.no_duplicates(),
{
    assert forall|i: int, j: int| 0 <= i < list.len() && 0 <= j < list.len() && i != j implies list[i]
        != list[j] by {
        law_before_irreflexive(list[i]);
        if i < j {
            assert(before(list[i], list[j]));
        } else {
            assert(before(list[j], list[i]));
        }
    }
}

/// The first item of an ascending list is the one that comes before all others
/// of the same set.
proof fn lemma_same_first(a: Seq<Text>, b: Seq<Text>)
    requires
        ascending(a),
        ascending(b),
        a.to_set() == b.to_set(),
        a.len() > 0,
        b.len() > 0,
    ensures
        a[0] == b[0],
{
    assert(a.to_set().contains(a[0]));
    assert(b.to_set().contains(b[0]));
    assert(b.contains(a[0]));
    assert(a.contains(b[0]));
    let i = choose|i: int| 0 <= i < b.len() && b[i] == a[0];
    let j = choose|j: int| 0 <= j < a.len() && a[j] == b[0];
    if i > 0 && j > 0 {
        assert(before(b[0], b[i]));
        assert(before(a[0], a[j]));
        law_before_transitive(a[0], b[0], a[0]);
        law_before_irreflexive(a[0]);
    }
}

/// Two ascending lists of the same items are equal.
pub proof fn law_ascending_unique(a: Seq<Text>, b: Seq<Text>)
    requires
        ascending(a),
        ascending(b),
        a.to_set() == b.to_set(),
    ensures
        a == b,
    decreases a.len(),
{
    if a.len() == 0 {
        if b.len() > 0 {
            assert(b.to_set().contains(b[0]));
        }
        assert(a =~= b);
    } else if b.len() == 0 {
        assert(a.to_set().contains(a[0]));
    } else {
        lemma_same_first(a, b);
        let ra = a.drop_first();
        let rb = b.drop_first();
        assert forall|i: int, j: int| 0 <= i < j < ra.len() implies before(
            #[trigger] ra[i],
            #[trigger] ra[j],
        ) by {
            assert(before(a[i + 1], a[j + 1]));
        }
        assert forall|i: int, j: int| 0 <= i < j < rb.len() implies before(
            #[trigger] rb[i],
            #[trigger] rb[j],
        ) by {
            assert(before(b[i + 1], b[j + 1]));
        }
        law_ascending_distinct(a);
        law_ascending_distinct(b);
        lemma_rest_of_set(a);
        lemma_rest_of_set(b);
        law_ascending_unique(ra, rb);
        assert(a =~= seq![a[0]] + ra);
        assert(b =~= seq![b[0]] + rb);
    }
}

proof fn lemma_rest_of_set(list: Seq<Text>)
    requires
        list.no_duplicates(),
        list.len() > 0,
    ensures
        list.drop_first().to_set() == list.to_set().remove(list[0]),
{
    let rest = list.drop_first();
    assert forall|t: Text| rest.to_set().contains(t) <==> list.to_set().remove(
        list[0],
    ).contains(t) by {
        if rest.contains(t) {
            let i = choose|i: int| 0 <= i < rest.len() && rest[i] == t;
            assert(list[i + 1] == t);
        }
        if list.contains(t) && t != list[0] {
            let i = choose|i: int| 0 <= i < list.len() && list[i] == t;
            assert(rest[i - 1] == t);
        }
    }
    assert(rest.to_set() =~= list.to_set().remove(list[0]));
}

/// An ascending list is the ascending list of its own items.
pub proof fn law_ascending_list(list: Seq<Text>)
    requires
        ascending(list),
    ensures
        ascending_list(list.to_set()) == list,
{
    let chosen = ascending_list(list.to_set());
    assert(ascending(list) && list.to_set() == list.to_set());
    law_ascending_unique(chosen, list);
}

/// Where `item` stands in the ascending list `list` once it is inserted after
/// the first `at` items.
proof fn lemma_insert(list: Seq<Text>, at: int, item: Text)
    requires
        ascending(list),
        0 <= at <= list.len(),
        forall|i: int| 0 <= i < at ==> before(#[trigger] list[i], item),
        forall|i: int| at <= i < list.len() ==> before(item, #[trigger] list[i]),
    ensures
        ascending(list.insert(at, item)),
        list.insert(at, item).to_set() == list.to_set().insert(item),
{
    let longer = list.insert(at, item);
    assert forall|i: int, j: int| 0 <= i < j < longer.len() implies before(
        #[trigger] longer[i],
        #[trigger] longer[j],
    ) by {
        if i < at {
            assert(longer[i] == list[i]);
            if j == at {
            } else if j < at {
                assert(longer[j] == list[j]);
            } else {
                assert(longer[j] == list[j - 1]);
            }
        } else if i == at {
            assert(longer[j] == list[j - 1]);
        } else {
            assert(longer[i] == list[i - 1]);
            assert(longer[j] == list[j - 1]);
        }
    }
    assert forall|t: Text| longer.to_set().contains(t) <==> list.to_set().insert(item).contains(
        t,
    ) by {
        if longer.contains(t) {
            let i = choose|i: int| 0 <= i < longer.len() && longer[i] == t;
            if i < at {
                assert(list[i] == t);
            } else if i > at {
                assert(list[i - 1] == t);
            }
        }
        if list.contains(t) {
            let i = choose|i: int| 0 <= i < list.len() && list[i] == t;
            if i < at {
                assert(longer[i] == t);
            } else {
                assert(longer[i + 1] == t);
            }
        }
        assert(longer[at] == item);
    }
    assert(longer.to_set() =~= list.to_set().insert(item));
}

/// The items of every list can be put into one ascending list.
pub proof fn law_ascending_list_exists(list: Seq<Text>)
    ensures
        ascending(ascending_list(list.to_set())),
        ascending_list(list.to_set()).to_set() == list.to_set(),
{
    let sorted = lemma_sorted_exists(list);
    assert(ascending(sorted) && sorted.to_set() == list.to_set());
}

proof fn lemma_sorted_exists(list: Seq<Text>) -> (sorted: Seq<Text>)
    ensures
        ascending(sorted),
        sorted.to_set() == list.to_set(),
    decreases list.len(),
{
    if list.len() == 0 {
        list
    } else {
        let rest = lemma_sorted_exists(list.drop_last());
        let item = list.last();
        assert(list.to_set() =~= list.drop_last().to_set().insert(item)) by {
            assert forall|t: Text| list.to_set().contains(t) <==> list.drop_last().to_set().insert(
                item,
            ).contains(t) by {
                if list.contains(t) {
                    let i = choose|i: int| 0 <= i < list.len() && list[i] == t;
                    if i < list.len() - 1 {
                        assert(list.drop_last()[i] == t);
                    }
                }
                if list.drop_last().contains(t) {
                    let i = choose|i: int|
                        0 <= i < list.drop_last().len() && list.drop_last()[i] == t;
                    assert(list[i] == t);
                }
                assert(list[list.len() - 1] == item);
            }
        }
        if rest.contains(item) {
            assert(rest.to_set().insert(item) =~= rest.to_set());
            rest
        } else {
            let at = lemma_insertion_point(rest, item, rest.len() as int);
            lemma_insert(rest, at, item);
            rest.insert(at, item)
        }
    }
}

/// The place of a new item among the first `n` items of an ascending list.
proof fn lemma_insertion_point(list: Seq<Text>, item: Text, n: int) -> (at: int)
    requires
        ascending(list),
        !list.contains(item),
        0 <= n <= list.len(),
    ensures
        0 <= at <= n,
        forall|i: int| 0 <= i < at ==> before(#[trigger] list[i], item),
        forall|i: int| at <= i < n ==> before(item, #[trigger] list[i]),
    decreases n,
{
    if n == 0 {
        0
    } else {
        law_before_total(list[n - 1], item);
        if before(list[n - 1], item) {
            assert forall|i: int| 0 <= i < n implies before(#[trigger] list[i], item) by {
                if i < n - 1 {
                    law_before_transitive(list[i], list[n - 1], item);
                }
            }
            n
        } else {
            lemma_insertion_point(list, item, n - 1)
        }
    }
}

/// Whether `a` comes strictly before `b`.
pub fn comes_before(a: &str, b: &str) -> (r: bool)
    ensures
        r == before(a@, b@),
{
    let x = chars_of(a);
    let y = chars_of(b);
    let mut i: usize = 0;
    assert(x@.skip(0) =~= x@);
    assert(y@.skip(0) =~= y@);
    while i < x.len() && i < y.len()
        invariant
            x@ == a@,
            y@ == b@,
            i <= x@.len(),
            i <= y@.len(),
            before(x@, y@) == before(x@.skip(i as int), y@.skip(i as int)),
        decreases x@.len() - i,
    {
        if x[i] != y[i] {
            return x[i] < y[i];
        }
        assert(x@.skip(i as int).drop_first() =~= x@.skip(i + 1));
        assert(y@.skip(i as int).drop_first() =~= y@.skip(i + 1));
        i += 1;
    }
    i < y.len()
}

/// Adds `item` to the set that the ascending list `set` holds.
pub fn insert(set: &mut Vec<String>, item: String)
    requires
        ascending(texts(old(set)@)),
    ensures
        ascending(texts(final(set)@)),
        texts(final(set)@).to_set() == texts(old(set)@).to_set().insert(item@),
{
    let ghost list = texts(set@);
    let mut low: usize = 0;
    let mut high: usize = set.len();
    while low < high
        invariant
            low <= high <= set@.len(),
            list == texts(set@),
            ascending(list),
            set@ == old(set)@,
            forall|i: int| 0 <= i < low ==> before(#[trigger] list[i], item@),
            forall|i: int| high <= i < list.len() ==> before(item@, #[trigger] list[i]),
        decreases high - low,
    {
        let middle: usize = low + (high - low) / 2;
        assert(list[middle as int] == set@[middle as int]@);
        if comes_before(set[middle].as_str(), item.as_str()) {
            proof {
                assert forall|i: int| 0 <= i < middle + 1 implies before(#[trigger] list[i], item@) by {
                    if i < middle {
                        law_before_transitive(list[i], list[middle as int], item@);
                    }
                }
            }
            low = middle + 1;
        } else if comes_before(item.as_str(), set[middle].as_str()) {
            proof {
                assert forall|i: int| middle <= i < list.len() implies before(
                    item@,
                    #[trigger] list[i],
                ) by {
                    if i > middle {
                        law_before_transitive(item@, list[middle as int], list[i]);
                    }
                }
            }
            high = middle;
        } else {
            proof {
                law_before_total(list[middle as int], item@);
                assert(list.to_set().contains(item@));
                assert(list.to_set().insert(item@) =~= list.to_set());
            }
            return ;
        }
    }
    proof {
        lemma_insert(list, low as int, item@);
    }
    set.insert(low, item);
    assert(texts(set@) =~= list.insert(low as int, item@));
}

/// A text comes before every longer text that begins with it, and of two texts that
/// differ the one with the smaller character at the first difference comes first.
pub proof fn law_order_goes_by_the_first_difference(common: Text, a: Text, b: Text)
    ensures
        a.len() > 0 ==> before(common, common + a) && !before(common + a, common),
        a.len() > 0 && b.len() > 0 && a[0] != b[0] ==> (before(common + a, common + b) <==> a[0]
            < b[0]),
    decreases common.len(),
{
    if common.len() == 0 {
        assert(common + a =~= a);
        assert(common + b =~= b);
    } else {
        let rest = common.drop_first();
        law_order_goes_by_the_first_difference(rest, a, b);
        assert((common + a).drop_first() =~= rest + a);
        assert((common + b).drop_first() =~= rest + b);
    }
}

} // verus!
