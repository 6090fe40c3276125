//! Lists without repetition in ascending byte order of a textual key.

use crate::text::{before, before_irreflexive, before_total, before_transitive};
use vstd::prelude::*;

verus! {

/// Whether the items stand in strictly ascending byte order of their keys.
pub open spec fn ascending<T>(list: Seq<T>, key: spec_fn(T) -> Seq<char>) -> bool {
    forall|i: int, j: int|
        0 <= i < j < list.len() ==> before(key(#[trigger] list[i]), key(#[trigger] list[j]))
}

/// Whether two lists hold the same items, whatever their order and repetitions.
pub open spec fn same_members<T>(a: Seq<T>, b: Seq<T>) -> bool {
    forall|item: T| a.contains(item) <==> b.contains(item)
}

/// Whether items with the same key are the same item.
pub open spec fn one_item_per_key<T>(items: Seq<T>, key: spec_fn(T) -> Seq<char>) -> bool {
    forall|a: T, b: T|
        #![trigger items.contains(a), items.contains(b)]
        items.contains(a) && items.contains(b) && key(a) == key(b) ==> a == b
}

/// Whether `list` holds the items, each once, in ascending order of their keys.
pub open spec fn is_arranged<T>(
    list: Seq<T>,
    items: Seq<T>,
    key: spec_fn(T) -> Seq<char>,
) -> bool {
    &&& ascending(list, key)
    &&& same_members(list, items)
}

/// The items, each once, in ascending order of their keys.
pub open spec fn arranged<T>(items: Seq<T>, key: spec_fn(T) -> Seq<char>) -> Seq<T> {
    choose|list: Seq<T>| is_arranged(list, items, key)
}

/// Two ascending lists of the same items are the same list.
pub proof fn lemma_ascending_is_unique<T>(a: Seq<T>, b: Seq<T>, key: spec_fn(T) -> Seq<char>)
    requires
        ascending(a, key),
        ascending(b, key),
        same_members(a, b),
    ensures
        a == b,
    decreases a.len(),
{
    if a.len() == 0 {
        if b.len() > 0 {
            assert(b.contains(b[0]));
            assert(a.contains(b[0]));
        }
        assert(a == b);
    } else {
        let x = a.last();
        assert(a.contains(x));
        assert(b.contains(x));
        let y = b.last();
        assert(b.contains(y));
        assert(a.contains(y));
        let j = choose|j: int| 0 <= j < b.len() && b[j] == x;
        let i = choose|i: int| 0 <= i < a.len() && a[i] == y;
        if j < b.len() - 1 {
            assert(before(key(b[j]), key(b[b.len() - 1])));
            if i < a.len() - 1 {
                assert(before(key(a[i]), key(a[a.len() - 1])));
                before_transitive(key(x), key(y), key(x));
            }
            before_irreflexive(key(x));
            assert(false);
        }
        assert(x == y);
        let a1 = a.drop_last();
        let b1 = b.drop_last();
        assert forall|item: T| a1.contains(item) <==> b1.contains(item) by {
            lemma_drop_last_members(a, item, key);
            lemma_drop_last_members(b, item, key);
        }
        lemma_ascending_is_unique(a1, b1, key);
        assert(a == a1.push(x));
        assert(b == b1.push(x));
    }
}

proof fn lemma_drop_last_members<T>(list: Seq<T>, item: T, key: spec_fn(T) -> Seq<char>)
    requires
        ascending(list, key),
        list.len() > 0,
    ensures
        list.drop_last().contains(item) <==> list.contains(item) && item != list.last(),
{
    let front = list.drop_last();
    if front.contains(item) {
        let k = choose|k: int| 0 <= k < front.len() && front[k] == item;
        assert(list[k] == item);
        assert(before(key(list[k]), key(list[list.len() - 1])));
        before_irreflexive(key(item));
    }
    if list.contains(item) && item != list.last() {
        let k = choose|k: int| 0 <= k < list.len() && list[k] == item;
        assert(front[k] == item);
    }
}

/// An arranged list of `items` is the one that [`arranged`] names.
pub proof fn lemma_arranged_is<T>(list: Seq<T>, items: Seq<T>, key: spec_fn(T) -> Seq<char>)
    requires
        is_arranged(list, items, key),
    ensures
        arranged(items, key) == list,
{
    let named = arranged(items, key);
    assert(is_arranged(named, items, key));
    assert(same_members(named, list));
    lemma_ascending_is_unique(named, list, key);
}

/// Inserting an item where it belongs keeps the order.
pub proof fn lemma_insert_ascending<T>(
    list: Seq<T>,
    at: int,
    item: T,
    key: spec_fn(T) -> Seq<char>,
)
    requires
        ascending(list, key),
        0 <= at <= list.len(),
        forall|i: int| 0 <= i < at ==> before(key(#[trigger] list[i]), key(item)),
        at < list.len() ==> before(key(item), key(list[at])),
    ensures
        ascending(list.insert(at, item), key),
        forall|i: int| at <= i < list.len() ==> before(key(item), key(#[trigger] list[i])),
        forall|x: T| #[trigger]
            list.insert(at, item).contains(x) <==> list.contains(x) || x == item,
{
    let longer = list.insert(at, item);
    assert forall|i: int| at <= i < list.len() implies before(
        key(item),
        key(#[trigger] list[i]),
    ) by {
        if i > at {
            before_transitive(key(item), key(list[at]), key(list[i]));
        }
    }
    assert forall|i: int, j: int| 0 <= i < j < longer.len() implies before(
        key(#[trigger] longer[i]),
        key(#[trigger] longer[j]),
    ) by {
        if i < at && j < at {
            assert(before(key(list[i]), key(list[j])));
        } else if i < at && j == at {
            assert(before(key(list[i]), key(item)));
        } else if i < at {
            assert(before(key(list[i]), key(list[j - 1])));
        } else if i == at {
            assert(before(key(item), key(list[j - 1])));
        } else {
            assert(before(key(list[i - 1]), key(list[j - 1])));
        }
    }
    lemma_insert_members(list, at, item);
}

/// The members of a list into which an item was inserted.
pub proof fn lemma_insert_members<T>(list: Seq<T>, at: int, item: T)
    requires
        0 <= at <= list.len(),
    ensures
        forall|x: T| #[trigger]
            list.insert(at, item).contains(x) <==> list.contains(x) || x == item,
{
    let longer = list.insert(at, item);
    assert forall|x: T| #[trigger] longer.contains(x) implies list.contains(x) || x == item by {
        let k = choose|k: int| 0 <= k < longer.len() && longer[k] == x;
        if k < at {
            assert(list[k] == x);
        } else if k > at {
            assert(list[k - 1] == x);
        }
    }
    assert forall|x: T| list.contains(x) || x == item implies #[trigger] longer.contains(x) by {
        if x == item {
            assert(longer[at] == x);
        } else {
            let k = choose|k: int| 0 <= k < list.len() && list[k] == x;
            if k < at {
                assert(longer[k] == x);
            } else {
                assert(longer[k + 1] == x);
            }
        }
    }
}

/// The members of a list to which an item was appended.
pub proof fn lemma_push_members<T>(list: Seq<T>, item: T)
    ensures
        forall|x: T| #[trigger] list.push(item).contains(x) <==> list.contains(x) || x == item,
{
    assert(list.push(item) =~= list.insert(list.len() as int, item));
    lemma_insert_members(list, list.len() as int, item);
}

/// The members of two lists put together.
pub proof fn lemma_concat_members<T>(a: Seq<T>, b: Seq<T>)
    ensures
        forall|x: T| #[trigger] (a + b).contains(x) <==> a.contains(x) || b.contains(x),
{
    assert forall|x: T| #[trigger] (a + b).contains(x) implies a.contains(x) || b.contains(x) by {
        let k = choose|k: int| 0 <= k < (a + b).len() && (a + b)[k] == x;
        if k < a.len() {
            assert(a[k] == x);
        } else {
            assert(b[k - a.len()] == x);
        }
    }
    assert forall|x: T| a.contains(x) || b.contains(x) implies #[trigger] (a + b).contains(x) by {
        if a.contains(x) {
            let k = choose|k: int| 0 <= k < a.len() && a[k] == x;
            assert((a + b)[k] == x);
        } else {
            let k = choose|k: int| 0 <= k < b.len() && b[k] == x;
            assert((a + b)[a.len() + k] == x);
        }
    }
}

/// The members of one more item of a list.
pub proof fn lemma_take_members<T>(list: Seq<T>, i: int)
    requires
        0 <= i < list.len(),
    ensures
        forall|x: T| #[trigger]
            list.take(i + 1).contains(x) <==> list.take(i).contains(x) || x == list[i],
        forall|x: T| #[trigger]
            list.take(i).contains(x) ==> exists|j: int| 0 <= j < i && #[trigger] list[j] == x,
        forall|j: int| 0 <= j < i ==> list.take(i).contains(#[trigger] list[j]),
{
    assert(list.take(i + 1) =~= list.take(i).push(list[i]));
    lemma_push_members(list.take(i), list[i]);
    assert forall|x: T| #[trigger] list.take(i).contains(x) implies exists|j: int|
        0 <= j < i && #[trigger] list[j] == x by {
        let k = choose|k: int| 0 <= k < i && list.take(i)[k] == x;
        assert(list[k] == x);
    }
    assert forall|j: int| 0 <= j < i implies list.take(i).contains(#[trigger] list[j]) by {
        assert(list.take(i)[j] == list[j]);
    }
}

/// An ascending list has one item for each key.
pub proof fn lemma_ascending_keys<T>(list: Seq<T>, key: spec_fn(T) -> Seq<char>)
    requires
        ascending(list, key),
    ensures
        one_item_per_key(list, key),
{
    assert forall|a: T, b: T|
        #![trigger list.contains(a), list.contains(b)]
        list.contains(a) && list.contains(b) && key(a) == key(b) implies a == b by {
        let i = choose|i: int| 0 <= i < list.len() && list[i] == a;
        let j = choose|j: int| 0 <= j < list.len() && list[j] == b;
        before_irreflexive(key(a));
        if i < j {
            assert(before(key(list[i]), key(list[j])));
        } else if j < i {
            assert(before(key(list[j]), key(list[i])));
        }
    }
}

/// Items that have one item for each key can be arranged.
pub proof fn lemma_arranged_exists<T>(items: Seq<T>, key: spec_fn(T) -> Seq<char>)
    requires
        one_item_per_key(items, key),
    ensures
        is_arranged(arranged(items, key), items, key),
    decreases items.len(),
{
    if items.len() == 0 {
        assert(is_arranged(items, items, key));
    } else {
        let front = items.drop_last();
        let item = items.last();
        assert(items =~= front.push(item));
        lemma_push_members(front, item);
        assert(items.contains(item));
        assert(one_item_per_key(front, key)) by {
            assert forall|a: T, b: T|
                #![trigger front.contains(a), front.contains(b)]
                front.contains(a) && front.contains(b) && key(a) == key(b) implies a == b by {
                assert(items.contains(a));
                assert(items.contains(b));
            }
        }
        lemma_arranged_exists(front, key);
        let list = arranged(front, key);
        if list.contains(item) {
            assert(is_arranged(list, items, key));
        } else {
            let at = insertion_point(list, item, key);
            assert forall|i: int| 0 <= i < list.len() implies key(#[trigger] list[i]) != key(
                item,
            ) by {
                assert(list.contains(list[i]));
                assert(front.contains(list[i]));
                assert(items.contains(list[i]));
            }
            lemma_insertion_point(list, item, key);
            lemma_insert_ascending(list, at, item, key);
            assert(is_arranged(list.insert(at, item), items, key));
        }
    }
}

/// How many items at the front of `list` come before `item`.
spec fn insertion_point<T>(list: Seq<T>, item: T, key: spec_fn(T) -> Seq<char>) -> int
    decreases list.len(),
{
    if list.len() == 0 || !before(key(list[0]), key(item)) {
        0
    } else {
        1 + insertion_point(list.drop_first(), item, key)
    }
}

proof fn lemma_insertion_point<T>(list: Seq<T>, item: T, key: spec_fn(T) -> Seq<char>)
    requires
        forall|i: int| 0 <= i < list.len() ==> key(#[trigger] list[i]) != key(item),
    ensures
        0 <= insertion_point(list, item, key) <= list.len(),
        forall|i: int|
            0 <= i < insertion_point(list, item, key) ==> before(
                key(#[trigger] list[i]),
                key(item),
            ),
        insertion_point(list, item, key) < list.len() ==> before(
            key(item),
            key(list[insertion_point(list, item, key)]),
        ),
    decreases list.len(),
{
    if list.len() == 0 {
    } else if !before(key(list[0]), key(item)) {
        before_total(key(list[0]), key(item));
    } else {
        let rest = list.drop_first();
        assert forall|i: int| 0 <= i < rest.len() implies key(#[trigger] rest[i]) != key(item) by {
            assert(key(list[i + 1]) != key(item));
        }
        lemma_insertion_point(rest, item, key);
        let p = insertion_point(list, item, key);
        assert forall|i: int| 0 <= i < p implies before(key(#[trigger] list[i]), key(item)) by {
            if i > 0 {
                assert(before(key(rest[i - 1]), key(item)));
            }
        }
    }
}

} // verus!
