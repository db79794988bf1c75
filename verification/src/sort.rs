//! Stable sorting by a pair of integers, as the order in which the places of a list come.

use vstd::prelude::*;

verus! {

/// Whether one key is less than another, the first number deciding before the second.
pub open spec fn key_less(left: (i64, i64), right: (i64, i64)) -> bool {
    left.0 < right.0 || left.0 == right.0 && left.1 < right.1
}

/// Whether one place comes before another in the stable order of their keys.
pub open spec fn comes_before(keys: Seq<(i64, i64)>, left: usize, right: usize) -> bool {
    key_less(keys[left as int], keys[right as int]) || keys[left as int] == keys[right as int] && left
        < right
}

/// Whether each place of a list comes before all that follow it.
pub open spec fn ordered(keys: Seq<(i64, i64)>, order: Seq<usize>) -> bool {
    forall|i: int, j: int|
        0 <= i < j < order.len() ==> comes_before(keys, #[trigger] order[i], #[trigger] order[j])
}

/// Whether a list holds the places from `low` up to `high` and no others.
pub open spec fn covers(order: Seq<usize>, low: int, high: int) -> bool {
    forall|place: usize| #[trigger] order.contains(place) <==> low <= place < high
}

/// Whether a list holds the places of all keys in their stable order.
pub open spec fn is_stable_order(keys: Seq<(i64, i64)>, order: Seq<usize>) -> bool {
    ordered(keys, order) && covers(order, 0, keys.len() as int)
}

/// The places of all keys in their stable order.
pub open spec fn stable_order(keys: Seq<(i64, i64)>) -> Seq<usize> {
    choose|order: Seq<usize>| is_stable_order(keys, order)
}

proof fn lemma_order_unique(keys: Seq<(i64, i64)>, left: Seq<usize>, right: Seq<usize>)
    requires
        ordered(keys, left),
        ordered(keys, right),
        forall|place: usize|
            #![trigger left.contains(place)]
            #![trigger right.contains(place)]
            left.contains(place) <==> right.contains(place),
    ensures
        left == right,
    decreases left.len(),
{
    if left.len() == 0 {
        if right.len() > 0 {
            assert(right.contains(right[0]));
        }
        assert(left =~= right);
    } else {
        assert(left.contains(left[0]));
        assert(right.contains(left[0]));
        assert(right.contains(right[0]));
        assert(left.contains(right[0]));
        let i = choose|i: int| 0 <= i < left.len() && left[i] == right[0];
        let j = choose|j: int| 0 <= j < right.len() && right[j] == left[0];
        if left[0] != right[0] {
            assert(comes_before(keys, left[0], left[i]));
            assert(comes_before(keys, right[0], right[j]));
        }
        let left_rest = left.skip(1);
        let right_rest = right.skip(1);
        assert forall|place: usize|
            #![trigger left_rest.contains(place)]
            #![trigger right_rest.contains(place)]
            left_rest.contains(place) <==> right_rest.contains(place) by {
            if left_rest.contains(place) {
                let at = choose|at: int| 0 <= at < left_rest.len() && left_rest[at] == place;
                assert(left[at + 1] == place);
                assert(comes_before(keys, left[0], left[at + 1]));
                assert(left.contains(place));
                let to = choose|to: int| 0 <= to < right.len() && right[to] == place;
                assert(right_rest[to - 1] == place);
            }
            if right_rest.contains(place) {
                let at = choose|at: int| 0 <= at < right_rest.len() && right_rest[at] == place;
                assert(right[at + 1] == place);
                assert(comes_before(keys, right[0], right[at + 1]));
                assert(right.contains(place));
                let to = choose|to: int| 0 <= to < left.len() && left[to] == place;
                assert(left_rest[to - 1] == place);
            }
        }
        lemma_order_unique(keys, left_rest, right_rest);
        assert(left =~= seq![left[0]] + left_rest);
        assert(right =~= seq![right[0]] + right_rest);
    }
}

/// A list of all places in their stable order is the one that `stable_order` names.
pub proof fn lemma_stable_order(keys: Seq<(i64, i64)>, order: Seq<usize>)
    requires
        is_stable_order(keys, order),
    ensures
        stable_order(keys) == order,
{
    let other = stable_order(keys);
    assert(is_stable_order(keys, other));
    assert forall|place: usize|
        #![trigger order.contains(place)]
        #![trigger other.contains(place)]
        order.contains(place) <==> other.contains(place) by {
        assert(order.contains(place) <==> 0 <= place < keys.len());
        assert(other.contains(place) <==> 0 <= place < keys.len());
    }
    lemma_order_unique(keys, order, other);
}

/// An ordered list with a place put where it belongs.
spec fn put_in_order(keys: Seq<(i64, i64)>, order: Seq<usize>, place: usize) -> Seq<usize>
    decreases order.len(),
{
    if order.len() == 0 {
        seq![place]
    } else if comes_before(keys, place, order[0]) {
        seq![place] + order
    } else {
        seq![order[0]] + put_in_order(keys, order.skip(1), place)
    }
}

proof fn lemma_put_in_order(keys: Seq<(i64, i64)>, order: Seq<usize>, place: usize)
    requires
        ordered(keys, order),
        !order.contains(place),
    ensures
        ordered(keys, put_in_order(keys, order, place)),
        forall|other: usize| #[trigger]
            put_in_order(keys, order, place).contains(other) <==> other == place
                || order.contains(other),
    decreases order.len(),
{
    let next = put_in_order(keys, order, place);
    if order.len() == 0 {
        assert(next[0] == place);
    } else if comes_before(keys, place, order[0]) {
        assert forall|i: int, j: int| 0 <= i < j < next.len() implies comes_before(
            keys,
            #[trigger] next[i],
            #[trigger] next[j],
        ) by {
            assert(next[j] == order[j - 1]);
            if i == 0 {
                if j > 1 {
                    assert(comes_before(keys, order[0], order[j - 1]));
                }
            } else {
                assert(next[i] == order[i - 1]);
            }
        }
        assert forall|other: usize| #[trigger] next.contains(other) <==> other == place
            || order.contains(other) by {
            if next.contains(other) && other != place {
                let i = choose|i: int| 0 <= i < next.len() && next[i] == other;
                assert(order[i - 1] == other);
            }
            if order.contains(other) {
                let i = choose|i: int| 0 <= i < order.len() && order[i] == other;
                assert(next[i + 1] == other);
            }
            assert(next[0] == place);
        }
    } else {
        let rest = order.skip(1);
        let tail = put_in_order(keys, rest, place);
        assert(order.contains(order[0]));
        assert forall|i: int| 0 <= i < rest.len() implies order.contains(#[trigger] rest[i]) by {
            assert(rest[i] == order[i + 1]);
        }
        if rest.contains(place) {
            let i = choose|i: int| 0 <= i < rest.len() && rest[i] == place;
            assert(order.contains(rest[i]));
        }
        lemma_put_in_order(keys, rest, place);
        assert forall|i: int, j: int| 0 <= i < j < next.len() implies comes_before(
            keys,
            #[trigger] next[i],
            #[trigger] next[j],
        ) by {
            assert(next[j] == tail[j - 1]);
            if i == 0 {
                assert(tail.contains(tail[j - 1]));
                if tail[j - 1] != place {
                    assert(rest.contains(tail[j - 1]));
                    let k = choose|k: int| 0 <= k < rest.len() && rest[k] == tail[j - 1];
                    assert(comes_before(keys, order[0], order[k + 1]));
                }
            } else {
                assert(next[i] == tail[i - 1]);
            }
        }
        assert forall|other: usize| #[trigger] next.contains(other) <==> other == place
            || order.contains(other) by {
            if next.contains(other) {
                let i = choose|i: int| 0 <= i < next.len() && next[i] == other;
                if i > 0 {
                    assert(tail[i - 1] == other);
                    assert(tail.contains(other));
                    if other != place {
                        let k = choose|k: int| 0 <= k < rest.len() && rest[k] == other;
                        assert(order.contains(rest[k]));
                    }
                }
            }
            if other == place || order.contains(other) {
                if other == order[0] {
                    assert(next[0] == other);
                } else {
                    if other != place {
                        let i = choose|i: int| 0 <= i < order.len() && order[i] == other;
                        assert(rest[i - 1] == other);
                        assert(rest.contains(other));
                    }
                    assert(tail.contains(other));
                    let i = choose|i: int| 0 <= i < tail.len() && tail[i] == other;
                    assert(next[i + 1] == other);
                }
            }
        }
    }
}

proof fn lemma_order_of_first(keys: Seq<(i64, i64)>, count: int) -> (order: Seq<usize>)
    requires
        0 <= count <= keys.len() <= usize::MAX,
    ensures
        ordered(keys, order),
        covers(order, 0, count),
    decreases count,
{
    if count == 0 {
        seq![]
    } else {
        let before = lemma_order_of_first(keys, count - 1);
        let place = (count - 1) as usize;
        lemma_put_in_order(keys, before, place);
        let order = put_in_order(keys, before, place);
        assert forall|other: usize| #[trigger] order.contains(other) <==> 0 <= other < count by {
            assert(before.contains(other) <==> 0 <= other < count - 1);
        }
        order
    }
}

/// Every list of keys has a stable order, and it has as many places as there are keys.
pub proof fn lemma_stable_order_of(keys: Seq<(i64, i64)>)
    requires
        keys.len() <= usize::MAX,
    ensures
        is_stable_order(keys, stable_order(keys)),
        stable_order(keys).len() == keys.len(),
        forall|i: int|
            0 <= i < keys.len() ==> (#[trigger] stable_order(keys)[i]) < keys.len(),
{
    let order = lemma_order_of_first(keys, keys.len() as int);
    lemma_stable_order(keys, order);
    lemma_stable_order_len(keys, order);
    assert forall|i: int| 0 <= i < keys.len() implies (#[trigger] stable_order(keys)[i])
        < keys.len() by {
        assert(order.contains(order[i]));
    }
}

/// A stable order has as many places as there are keys.
pub proof fn lemma_stable_order_len(keys: Seq<(i64, i64)>, order: Seq<usize>)
    requires
        is_stable_order(keys, order),
        keys.len() <= usize::MAX,
    ensures
        order.len() == keys.len(),
{
    assert(order.no_duplicates()) by {
        assert forall|i: int, j: int| 0 <= i < order.len() && 0 <= j < order.len() && i != j implies order[i]
            != order[j] by {
            if i < j {
                assert(comes_before(keys, order[i], order[j]));
            } else {
                assert(comes_before(keys, order[j], order[i]));
            }
        }
    }
    order.unique_seq_to_set();
    let places = order.map_values(|place: usize| place as int);
    assert(places.no_duplicates());
    places.unique_seq_to_set();
    let all = vstd::set_lib::set_int_range(0, keys.len() as int);
    vstd::set_lib::lemma_int_range(0, keys.len() as int);
    assert(places.to_set() =~= all) by {
        assert forall|place: int| places.to_set().contains(place) <==> all.contains(place) by {
            if places.to_set().contains(place) {
                let i = choose|i: int| 0 <= i < places.len() && places[i] == place;
                assert(order.contains(order[i]));
            }
            if all.contains(place) {
                assert(order.contains(place as usize));
                let i = choose|i: int| 0 <= i < order.len() && order[i] == place as usize;
                assert(places[i] == place);
            }
        }
    }
}

fn less(left: (i64, i64), right: (i64, i64)) -> (yes: bool)
    ensures
        yes == key_less(left, right),
{
    left.0 < right.0 || left.0 == right.0 && left.1 < right.1
}

fn merge(
    keys: &Vec<(i64, i64)>,
    left: Vec<usize>,
    right: Vec<usize>,
    low: Ghost<int>,
    middle: Ghost<int>,
    high: Ghost<int>,
) -> (order: Vec<usize>)
    requires
        0 <= low@ <= middle@ <= high@ <= keys@.len(),
        ordered(keys@, left@),
        ordered(keys@, right@),
        covers(left@, low@, middle@),
        covers(right@, middle@, high@),
    ensures
        ordered(keys@, order@),
        covers(order@, low@, high@),
{
    let mut order: Vec<usize> = Vec::new();
    let mut i: usize = 0;
    let mut j: usize = 0;
    proof {
        assert forall|k: int| 0 <= k < left@.len() implies low@ <= #[trigger] left@[k] < middle@ by {
            assert(left@.contains(left@[k]));
        }
        assert forall|k: int| 0 <= k < right@.len() implies middle@ <= #[trigger] right@[k]
            < high@ by {
            assert(right@.contains(right@[k]));
        }
    }
    while i < left.len() || j < right.len()
        invariant
            i <= left@.len(),
            j <= right@.len(),
            0 <= low@ <= middle@ <= high@ <= keys@.len(),
            ordered(keys@, left@),
            ordered(keys@, right@),
            forall|k: int| 0 <= k < left@.len() ==> low@ <= #[trigger] left@[k] < middle@,
            forall|k: int| 0 <= k < right@.len() ==> middle@ <= #[trigger] right@[k] < high@,
            ordered(keys@, order@),
            forall|k: int, l: int|
                0 <= k < order@.len() && i <= l < left@.len() ==> comes_before(
                    keys@,
                    #[trigger] order@[k],
                    #[trigger] left@[l],
                ),
            forall|k: int, l: int|
                0 <= k < order@.len() && j <= l < right@.len() ==> comes_before(
                    keys@,
                    #[trigger] order@[k],
                    #[trigger] right@[l],
                ),
            forall|place: usize| #[trigger]
                order@.contains(place) <==> left@.take(i as int).contains(place) || right@.take(
                    j as int,
                ).contains(place),
        decreases left@.len() - i + right@.len() - j,
    {
        let from_right: bool = i == left.len() || j < right.len() && less(
            keys[right[j]],
            keys[left[i]],
        );
        let ghost before = order@;
        let next: usize = if from_right {
            right[j]
        } else {
            left[i]
        };
        order.push(next);
        proof {
            assert forall|place: usize| #[trigger] order@.contains(place) <==> before.contains(place)
                || place == next by {
                if before.contains(place) {
                    let k = choose|k: int| 0 <= k < before.len() && before[k] == place;
                    assert(order@[k] == place);
                }
                assert(order@[before.len() as int] == next);
            }
            if from_right {
                assert(right@.take(j + 1) =~= right@.take(j as int).push(next));
                assert forall|place: usize| #[trigger]
                    right@.take(j + 1).contains(place) <==> right@.take(j as int).contains(place)
                        || place == next by {
                    if right@.take(j as int).contains(place) {
                        let k = choose|k: int|
                            0 <= k < j && right@.take(j as int)[k] == place;
                        assert(right@.take(j + 1)[k] == place);
                    }
                    assert(right@.take(j + 1)[j as int] == next);
                }
                assert forall|l: int| i <= l < left@.len() implies comes_before(
                    keys@,
                    next,
                    #[trigger] left@[l],
                ) by {
                    if l > i {
                        assert(comes_before(keys@, left@[i as int], left@[l]));
                    }
                }
            } else {
                assert(left@.take(i + 1) =~= left@.take(i as int).push(next));
                assert forall|place: usize| #[trigger]
                    left@.take(i + 1).contains(place) <==> left@.take(i as int).contains(place)
                        || place == next by {
                    if left@.take(i as int).contains(place) {
                        let k = choose|k: int| 0 <= k < i && left@.take(i as int)[k] == place;
                        assert(left@.take(i + 1)[k] == place);
                    }
                    assert(left@.take(i + 1)[i as int] == next);
                }
                assert forall|l: int| j <= l < right@.len() implies comes_before(
                    keys@,
                    next,
                    #[trigger] right@[l],
                ) by {
                    if l > j {
                        assert(comes_before(keys@, right@[j as int], right@[l]));
                    }
                }
            }
        }
        if from_right {
            j += 1;
        } else {
            i += 1;
        }
    }
    proof {
        assert(left@.take(i as int) =~= left@);
        assert(right@.take(j as int) =~= right@);
        assert forall|place: usize| #[trigger] order@.contains(place) <==> low@ <= place
            < high@ by {
            assert(left@.contains(place) <==> low@ <= place < middle@);
            assert(right@.contains(place) <==> middle@ <= place < high@);
        }
    }
    order
}

fn sort_range(keys: &Vec<(i64, i64)>, low: usize, high: usize) -> (order: Vec<usize>)
    requires
        low <= high <= keys@.len(),
    ensures
        ordered(keys@, order@),
        covers(order@, low as int, high as int),
    decreases high - low,
{
    let mut order: Vec<usize> = Vec::new();
    if high - low == 0 {
        return order;
    }
    if high - low == 1 {
        order.push(low);
        assert(order@[0] == low);
        return order;
    }
    let middle: usize = low + (high - low) / 2;
    let left: Vec<usize> = sort_range(keys, low, middle);
    let right: Vec<usize> = sort_range(keys, middle, high);
    merge(keys, left, right, Ghost(low as int), Ghost(middle as int), Ghost(high as int))
}

/// The places of all keys in their stable order.
pub fn sort_places(keys: &Vec<(i64, i64)>) -> (order: Vec<usize>)
    ensures
        order@ == stable_order(keys@),
        is_stable_order(keys@, order@),
        order@.len() == keys@.len(),
        forall|i: int| 0 <= i < order@.len() ==> #[trigger] order@[i] < keys@.len(),
{
    let order: Vec<usize> = sort_range(keys, 0, keys.len());
    proof {
        lemma_stable_order(keys@, order@);
        lemma_stable_order_len(keys@, order@);
        assert forall|i: int| 0 <= i < order@.len() implies #[trigger] order@[i] < keys@.len() by {
            assert(order@.contains(order@[i]));
        }
    }
    order
}

/// The items of a list in the order of the given places.
pub open spec fn arranged<T>(items: Seq<T>, order: Seq<usize>) -> Seq<T> {
    order.map_values(|place: usize| items[place as int])
}

/// An arrangement in the stable order holds what it arranges, as much of it as there is.
pub proof fn lemma_arranged<T>(items: Seq<T>, keys: Seq<(i64, i64)>)
    requires
        keys.len() == items.len() <= usize::MAX,
    ensures
        arranged(items, stable_order(keys)).len() == items.len(),
        forall|item: T|
            #[trigger] arranged(items, stable_order(keys)).contains(item) <==> items.contains(item),
{
    lemma_stable_order_of(keys);
    let order = stable_order(keys);
    let sorted = arranged(items, order);
    assert forall|item: T| #[trigger] sorted.contains(item) <==> items.contains(item) by {
        if sorted.contains(item) {
            let i = choose|i: int| 0 <= i < sorted.len() && sorted[i] == item;
            assert(order[i] < keys.len());
            assert(items[order[i] as int] == item);
        }
        if items.contains(item) {
            let i = choose|i: int| 0 <= i < items.len() && items[i] == item;
            assert(order.contains(i as usize));
            let at = choose|at: int| 0 <= at < order.len() && order[at] == i as usize;
            assert(sorted[at] == item);
        }
    }
}

} // verus!
