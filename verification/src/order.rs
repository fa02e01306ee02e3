//! Stable sorting under an arbitrary order.

use vstd::prelude::*;

verus! {

/// How many items at the start of `items` stay before `x`: all up to the first that `x` has to
/// come before.
pub open spec fn place_of<T>(items: Seq<T>, x: T, before: spec_fn(T, T) -> bool) -> int
    decreases items.len(),
{
    if items.len() == 0 || before(x, items.first()) {
        0
    } else {
        1 + place_of(items.drop_first(), x, before)
    }
}

/// `items` with `x` put where it belongs, behind the items that it need not come before.
pub open spec fn with_item<T>(items: Seq<T>, x: T, before: spec_fn(T, T) -> bool) -> Seq<T> {
    items.insert(place_of(items, x, before), x)
}

/// `items` sorted; items of which neither has to come before the other keep their order.
pub open spec fn stable_sorted<T>(items: Seq<T>, before: spec_fn(T, T) -> bool) -> Seq<T>
    decreases items.len(),
{
    if items.len() == 0 {
        items
    } else {
        with_item(stable_sorted(items.drop_last(), before), items.last(), before)
    }
}

/// No item has to come before one that stands ahead of it.
pub open spec fn in_order<T>(items: Seq<T>, before: spec_fn(T, T) -> bool) -> bool {
    forall|i: int, j: int| 0 <= i < j < items.len() ==> !before(items[j], items[i])
}

/// An order that sorts: no item before itself, and "not before" can be chained.
pub open spec fn sorts<T>(before: spec_fn(T, T) -> bool) -> bool {
    &&& forall|a: T| !#[trigger] before(a, a)
    &&& forall|a: T, b: T, c: T|
        #![trigger before(b, a), before(c, b)]
        !before(b, a) && !before(c, b) ==> !before(c, a)
    &&& forall|a: T, b: T| #[trigger] before(a, b) ==> !before(b, a)
}

pub(crate) proof fn place_is_inside<T>(items: Seq<T>, x: T, before: spec_fn(T, T) -> bool)
    ensures
        0 <= place_of(items, x, before) <= items.len(),
        forall|i: int| 0 <= i < place_of(items, x, before) ==> !before(x, #[trigger] items[i]),
        place_of(items, x, before) < items.len() ==> before(
            x,
            items[place_of(items, x, before)],
        ),
    decreases items.len(),
{
    if items.len() > 0 && !before(x, items.first()) {
        let rest = items.drop_first();
        place_is_inside(rest, x, before);
        assert forall|i: int| 0 <= i < place_of(items, x, before) implies !before(
            x,
            #[trigger] items[i],
        ) by {
            if i > 0 {
                assert(items[i] == rest[i - 1]);
            }
        }
    }
}

proof fn place_is_determined<T>(items: Seq<T>, x: T, before: spec_fn(T, T) -> bool, n: int)
    requires
        0 <= n <= items.len(),
        forall|i: int| 0 <= i < n ==> !before(x, #[trigger] items[i]),
        n < items.len() ==> before(x, items[n]),
    ensures
        place_of(items, x, before) == n,
{
    place_is_inside(items, x, before);
    let p = place_of(items, x, before);
    if p < n {
        assert(!before(x, items[p]));
    }
    if n < p {
        assert(!before(x, items[n]));
    }
}

/// Sorts `items` by their values, keeping the order of items of which neither comes before the
/// other.
pub(crate) fn sort_stable<T, V, F: Fn(&T, &T) -> bool>(
    items: Vec<T>,
    comes_before: F,
    Ghost(value): Ghost<spec_fn(T) -> V>,
    Ghost(before): Ghost<spec_fn(V, V) -> bool>,
) -> (sorted: Vec<T>)
    requires
        forall|a: T, b: T| #[trigger] call_requires(comes_before, (&a, &b)),
        forall|a: T, b: T, r: bool| #[trigger]
            call_ensures(comes_before, (&a, &b), r) ==> r == before(value(a), value(b)),
    ensures
        sorted@.map_values(value) == stable_sorted(items@.map_values(value), before),
        sorted@.to_multiset() == items@.to_multiset(),
{
    let ghost all = items@;
    let ghost values = all.map_values(value);
    let mut sorted: Vec<T> = Vec::new();
    proof {
        assert(all.take(0) =~= sorted@);
        assert(sorted@.map_values(value) =~= values.take(0));
    }
    for x in it: items
        invariant
            it.seq() == all,
            values == all.map_values(value),
            sorted@.map_values(value) == stable_sorted(values.take(it.index() as int), before),
            sorted@.to_multiset() == all.take(it.index() as int).to_multiset(),
            forall|a: T, b: T| #[trigger] call_requires(comes_before, (&a, &b)),
            forall|a: T, b: T, r: bool| #[trigger]
                call_ensures(comes_before, (&a, &b), r) ==> r == before(value(a), value(b)),
    {
        let ghost done = it.index() as int;
        let mut place: usize = 0;
        while place < sorted.len() && !comes_before(&x, &sorted[place])
            invariant
                place <= sorted@.len(),
                forall|a: T, b: T| #[trigger] call_requires(comes_before, (&a, &b)),
                forall|a: T, b: T, r: bool| #[trigger]
                    call_ensures(comes_before, (&a, &b), r) ==> r == before(value(a), value(b)),
                forall|i: int|
                    0 <= i < place ==> !before(
                        value(x),
                        #[trigger] sorted@.map_values(value)[i],
                    ),
            decreases sorted@.len() - place,
        {
            place = place + 1;
        }
        proof {
            place_is_determined(sorted@.map_values(value), value(x), before, place as int);
            assert(values.take(done + 1).drop_last() == values.take(done));
            assert(values.take(done + 1).last() == value(x));
            assert(sorted@.insert(place as int, x).map_values(value) == sorted@.map_values(
                value,
            ).insert(place as int, value(x)));
            vstd::seq_lib::to_multiset_insert(sorted@, place as int, x);
            assert(all.take(done + 1) == all.take(done).push(x));
            broadcast use vstd::seq_lib::group_to_multiset_ensures;

        }
        sorted.insert(place, x);
    }
    proof {
        assert(all.take(all.len() as int) == all);
        assert(values.take(values.len() as int) == values);
    }
    sorted
}

/// Sorting neither adds nor loses items.
pub proof fn sorting_keeps_the_items<T>(items: Seq<T>, before: spec_fn(T, T) -> bool)
    ensures
        stable_sorted(items, before).to_multiset() == items.to_multiset(),
        stable_sorted(items, before).len() == items.len(),
    decreases items.len(),
{
    broadcast use vstd::seq_lib::group_to_multiset_ensures;

    if items.len() > 0 {
        let front = stable_sorted(items.drop_last(), before);
        sorting_keeps_the_items(items.drop_last(), before);
        place_is_inside(front, items.last(), before);
        vstd::seq_lib::to_multiset_insert(front, place_of(front, items.last(), before), items.last());
        assert(items.drop_last().push(items.last()) == items);
    }
}

/// The sorted items are in order.
pub proof fn sorting_sorts<T>(items: Seq<T>, before: spec_fn(T, T) -> bool)
    requires
        sorts(before),
    ensures
        in_order(stable_sorted(items, before), before),
    decreases items.len(),
{
    if items.len() > 0 {
        let front = stable_sorted(items.drop_last(), before);
        let x = items.last();
        let p = place_of(front, x, before);
        sorting_sorts(items.drop_last(), before);
        place_is_inside(front, x, before);
        let r = with_item(front, x, before);
        assert forall|i: int, j: int| 0 <= i < j < r.len() implies !before(r[j], r[i]) by {
            let a = if i < p { i } else { i - 1 };
            let b = if j < p { j } else { j - 1 };
            if i != p && j != p {
                assert(!before(front[b], front[a]));
            } else if j == p {
                assert(!before(x, front[a]));
            } else {
                assert(before(x, front[p]));
                if b > p {
                    assert(!before(front[b], front[p]));
                }
                assert(!before(front[p], x));
                assert(!before(front[b], x));
            }
        }
    }
}

/// Items that need not come before each other keep the order in which they were given.
pub proof fn sorting_is_stable<T>(
    items: Seq<T>,
    before: spec_fn(T, T) -> bool,
    class: spec_fn(T) -> bool,
)
    requires
        sorts(before),
        forall|a: T, b: T| class(a) && class(b) ==> !#[trigger] before(a, b),
    ensures
        stable_sorted(items, before).filter(class) == items.filter(class),
    decreases items.len(),
{
    if items.len() > 0 {
        let front = stable_sorted(items.drop_last(), before);
        let x = items.last();
        let p = place_of(front, x, before);
        sorting_is_stable(items.drop_last(), before, class);
        sorting_sorts(items.drop_last(), before);
        place_is_inside(front, x, before);
        let head = front.take(p);
        let tail = front.skip(p);
        assert(front == head + tail);
        assert(with_item(front, x, before) == head.push(x) + tail);
        Seq::filter_distributes_over_add(head, tail, class);
        Seq::filter_distributes_over_add(head.push(x), tail, class);
        assert(items.drop_last().push(x) == items);
        items.drop_last().lemma_filter_push(x, class);
        head.lemma_filter_push(x, class);
        if class(x) {
            assert forall|i: int| 0 <= i < tail.len() implies !class(#[trigger] tail[i]) by {
                assert(tail[i] == front[p + i]);
                assert(before(x, front[p]));
                assert(!before(front[p], x));
                if i > 0 {
                    assert(!before(front[p + i], front[p]));
                }
                assert(!before(front[p + i], x));
                if class(tail[i]) {
                    assert(!before(x, front[p + i]));
                    assert(!before(x, front[p]));
                }
            }
            none_pass_the_filter(tail, class);
            assert(tail.filter(class) == Seq::<T>::empty());
        }
    }
}

proof fn none_pass_the_filter<T>(items: Seq<T>, class: spec_fn(T) -> bool)
    requires
        forall|i: int| 0 <= i < items.len() ==> !class(#[trigger] items[i]),
    ensures
        items.filter(class) == Seq::<T>::empty(),
    decreases items.len(),
{
    reveal(Seq::filter);
    if items.len() > 0 {
        none_pass_the_filter(items.drop_last(), class);
    }
}

/// Sorting keeps the number of items.
pub proof fn sorting_keeps_the_number<T>(items: Seq<T>, before: spec_fn(T, T) -> bool)
    ensures
        stable_sorted(items, before).len() == items.len(),
{
    broadcast use vstd::seq_lib::group_to_multiset_ensures;

    sorting_keeps_the_items(items, before);
    assert(stable_sorted(items, before).to_multiset().len() == items.to_multiset().len());
}

/// An item is among the sorted ones if and only if it is among the given ones.
pub proof fn sorting_keeps_each_item<T>(items: Seq<T>, before: spec_fn(T, T) -> bool, x: T)
    ensures
        stable_sorted(items, before).contains(x) == items.contains(x),
{
    broadcast use vstd::seq_lib::group_to_multiset_ensures;

    sorting_keeps_the_items(items, before);
    let sorted = stable_sorted(items, before);
    assert(sorted.contains(x) <==> sorted.to_multiset().count(x) > 0);
    assert(items.contains(x) <==> items.to_multiset().count(x) > 0);
}

/// No two items have the same key.
pub open spec fn distinct_by<T, K>(items: Seq<T>, key: spec_fn(T) -> K) -> bool {
    forall|i: int, j: int|
        0 <= i < j < items.len() ==> key(#[trigger] items[i]) != key(#[trigger] items[j])
}

/// Sorting keeps keys distinct.
pub proof fn sorting_keeps_keys_distinct<T, K>(
    items: Seq<T>,
    before: spec_fn(T, T) -> bool,
    key: spec_fn(T) -> K,
)
    requires
        distinct_by(items, key),
    ensures
        distinct_by(stable_sorted(items, before), key),
    decreases items.len(),
{
    if items.len() > 0 {
        let front = stable_sorted(items.drop_last(), before);
        let x = items.last();
        let p = place_of(front, x, before);
        sorting_keeps_keys_distinct(items.drop_last(), before, key);
        place_is_inside(front, x, before);
        assert forall|i: int| 0 <= i < front.len() implies key(#[trigger] front[i]) != key(x) by {
            assert(front.contains(front[i]));
            sorting_keeps_each_item(items.drop_last(), before, front[i]);
            let k = choose|k: int| 0 <= k < items.drop_last().len() && items.drop_last()[k]
                == front[i];
            assert(key(items[k]) != key(items[items.len() - 1]));
        }
        let r = with_item(front, x, before);
        assert forall|i: int, j: int| 0 <= i < j < r.len() implies key(#[trigger] r[i]) != key(
            #[trigger] r[j],
        ) by {
            let a = if i < p { i } else { i - 1 };
            let b = if j < p { j } else { j - 1 };
            if i != p && j != p {
                assert(key(front[a]) != key(front[b]));
            }
        }
    }
}

/// Filtering keeps keys distinct and picks items that pass.
pub proof fn filtering_keeps_keys_distinct<T, K>(
    items: Seq<T>,
    passes: spec_fn(T) -> bool,
    key: spec_fn(T) -> K,
)
    requires
        distinct_by(items, key),
    ensures
        distinct_by(items.filter(passes), key),
        forall|x: T| #[trigger]
            items.filter(passes).contains(x) <==> items.contains(x) && passes(x),
    decreases items.len(),
{
    reveal(Seq::filter);
    if items.len() > 0 {
        let front = items.drop_last();
        let last = items.last();
        filtering_keeps_keys_distinct(front, passes, key);
        let kept = front.filter(passes);
        let all = items.filter(passes);
        assert forall|i: int| 0 <= i < kept.len() implies key(#[trigger] kept[i]) != key(last) by {
            assert(kept.contains(kept[i]));
            let k = choose|k: int| 0 <= k < front.len() && front[k] == kept[i];
            assert(key(items[k]) != key(items[items.len() - 1]));
        }
        assert forall|x: T| #[trigger] all.contains(x) <==> items.contains(x) && passes(x) by {
            assert(items == front.push(last));
            if items.contains(x) {
                let k = choose|k: int| 0 <= k < items.len() && items[k] == x;
                if k < front.len() {
                    assert(front[k] == x);
                    assert(front.contains(x));
                }
            }
            if front.contains(x) {
                let k = choose|k: int| 0 <= k < front.len() && front[k] == x;
                assert(items[k] == x);
            }
            assert(items[items.len() - 1] == last);
            if passes(last) {
                assert(all == kept.push(last));
                assert(all[all.len() - 1] == last);
                if kept.contains(x) {
                    let k = choose|k: int| 0 <= k < kept.len() && kept[k] == x;
                    assert(all[k] == x);
                }
                if all.contains(x) {
                    let k = choose|k: int| 0 <= k < all.len() && all[k] == x;
                    if k < kept.len() {
                        assert(kept[k] == x);
                    }
                }
            }
        }
    }
}

} // verus!
