//! Orders of first and last use, and what a least-recently-used cache keeps.

use vstd::prelude::*;

verus! {

/// A list without one value.
pub open spec fn without(list: Seq<usize>, value: usize) -> Seq<usize>
    decreases list.len(),
{
    if list.len() == 0 {
        list
    } else if list.last() == value {
        without(list.drop_last(), value)
    } else {
        without(list.drop_last(), value).push(list.last())
    }
}

/// The used values in the order of their last use, the most recent last.
pub open spec fn by_last_use(uses: Seq<usize>) -> Seq<usize>
    decreases uses.len(),
{
    if uses.len() == 0 {
        Seq::empty()
    } else {
        without(by_last_use(uses.drop_last()), uses.last()).push(uses.last())
    }
}

/// The used values in the order of their first use.
pub open spec fn by_first_use(uses: Seq<usize>) -> Seq<usize>
    decreases uses.len(),
{
    if uses.len() == 0 {
        Seq::empty()
    } else {
        let earlier = by_first_use(uses.drop_last());
        if earlier.contains(uses.last()) {
            earlier
        } else {
            earlier.push(uses.last())
        }
    }
}

/// A least-recently-used cache of `capacity` values behind one more use: the value becomes the
/// most recent; the least recent leaves where it finds no place.
pub open spec fn after_use(cache: Seq<usize>, value: usize, capacity: nat) -> Seq<usize> {
    if cache.contains(value) {
        without(cache, value).push(value)
    } else if capacity == 0 {
        cache
    } else if cache.len() < capacity {
        cache.push(value)
    } else {
        cache.skip(1).push(value)
    }
}

/// The cache behind a series of uses, from an empty one.
pub open spec fn after_uses(uses: Seq<usize>, capacity: nat) -> Seq<usize>
    decreases uses.len(),
{
    if uses.len() == 0 {
        Seq::empty()
    } else {
        after_use(after_uses(uses.drop_last(), capacity), uses.last(), capacity)
    }
}

/// The last `count` values of a list, or all of it.
pub open spec fn suffix(list: Seq<usize>, count: nat) -> Seq<usize> {
    if count >= list.len() {
        list
    } else {
        list.skip(list.len() - count)
    }
}

pub proof fn lemma_without(list: Seq<usize>, value: usize)
    ensures
        !without(list, value).contains(value),
        forall|other: usize|
            other != value ==> (#[trigger] without(list, value).contains(other) <==> list.contains(
                other,
            )),
        !list.contains(value) ==> without(list, value) == list,
        without(list, value).len() <= list.len(),
        list.no_duplicates() ==> without(list, value).no_duplicates(),
        list.no_duplicates() && list.contains(value) ==> without(list, value).len() == list.len()
            - 1,
    decreases list.len(),
{
    if list.len() > 0 {
        let front = list.drop_last();
        let last = list.last();
        lemma_without(front, value);
        assert(list == front.push(last));
        assert(list.contains(last)) by {
            assert(list[list.len() - 1] == last);
        }
        let kept = without(front, value);
        lemma_push(front, last);
        lemma_push(kept, last);
        assert forall|other: usize| other != value implies (#[trigger] without(
            list,
            value,
        ).contains(other) <==> list.contains(other)) by {
            assert(kept.contains(other) <==> front.contains(other));
            assert(front.push(last).contains(other) <==> (front.contains(other) || other == last));
            if last != value {
                assert(without(list, value) == kept.push(last));
            }
        }
        if list.no_duplicates() {
            assert(front.no_duplicates()) by {
                assert forall|i: int, j: int|
                    0 <= i < front.len() && 0 <= j < front.len() && i != j implies front[i]
                    != front[j] by {
                    assert(list[i] != list[j]);
                }
            }
            assert(!front.contains(last)) by {
                if front.contains(last) {
                    let i = choose|i: int| 0 <= i < front.len() && front[i] == last;
                    assert(list[i] != list[list.len() - 1]);
                }
            }
            if last != value {
                assert(!kept.contains(last));
                assert forall|i: int, j: int|
                    0 <= i < kept.push(last).len() && 0 <= j < kept.push(last).len() && i
                        != j implies kept.push(last)[i] != kept.push(last)[j] by {
                    if i < kept.len() && j < kept.len() {
                    } else if i < kept.len() {
                        assert(kept.contains(kept[i]));
                    } else {
                        assert(kept.contains(kept[j]));
                    }
                }
            }
        }
        if !list.contains(value) {
            assert(without(list, value) =~= list);
        }
    }
}

/// The order of last use holds every used value once.
pub proof fn last_use_lists_each_value_once(uses: Seq<usize>)
    ensures
        by_last_use(uses).no_duplicates(),
        forall|value: usize|
            #[trigger] by_last_use(uses).contains(value) <==> uses.contains(value),
    decreases uses.len(),
{
    if uses.len() > 0 {
        let front = uses.drop_last();
        let last = uses.last();
        last_use_lists_each_value_once(front);
        lemma_without(by_last_use(front), last);
        let kept = without(by_last_use(front), last);
        lemma_push(kept, last);
        lemma_push(front, last);
        assert(uses =~= front.push(last));
    }
}

/// The order of first use holds every used value once.
pub proof fn first_use_lists_each_value_once(uses: Seq<usize>)
    ensures
        by_first_use(uses).no_duplicates(),
        forall|value: usize|
            #[trigger] by_first_use(uses).contains(value) <==> uses.contains(value),
    decreases uses.len(),
{
    if uses.len() > 0 {
        let front = uses.drop_last();
        let last = uses.last();
        first_use_lists_each_value_once(front);
        lemma_push(by_first_use(front), last);
        lemma_push(front, last);
        assert(uses =~= front.push(last));
    }
}

pub proof fn lemma_push(list: Seq<usize>, last: usize)
    ensures
        forall|value: usize|
            #[trigger] list.push(last).contains(value) <==> (list.contains(value) || value == last),
        list.no_duplicates() && !list.contains(last) ==> list.push(last).no_duplicates(),
{
    assert forall|value: usize|
        #[trigger] list.push(last).contains(value) <==> (list.contains(value) || value
            == last) by {
        if list.push(last).contains(value) {
            let i = choose|i: int| 0 <= i < list.push(last).len() && list.push(last)[i] == value;
            if i < list.len() {
                assert(list[i] == value);
            }
        }
        if list.contains(value) {
            let i = choose|i: int| 0 <= i < list.len() && list[i] == value;
            assert(list.push(last)[i] == value);
        }
        assert(list.push(last)[list.len() as int] == last);
    }
    if list.no_duplicates() && !list.contains(last) {
        assert forall|i: int, j: int|
            0 <= i < list.push(last).len() && 0 <= j < list.push(last).len() && i
                != j implies list.push(last)[i] != list.push(last)[j] by {
            if i < list.len() && j < list.len() {
            } else if i < list.len() {
                assert(list.contains(list[i]));
            } else {
                assert(list.contains(list[j]));
            }
        }
    }
}

/// A value taken out of a suffix is taken out of the list, and a value in front of a suffix leaves
/// it alone.
proof fn lemma_suffix_without(list: Seq<usize>, value: usize, count: nat)
    requires
        list.no_duplicates(),
        count <= list.len(),
    ensures
        suffix(list, count).contains(value) ==> without(suffix(list, count), value) == suffix(
            without(list, value),
            (count - 1) as nat,
        ),
        !suffix(list, count).contains(value) && list.contains(value) ==> suffix(
            without(list, value),
            count,
        ) == suffix(list, count),
    decreases list.len(),
{
    let tail = suffix(list, count);
    lemma_without(list, value);
    if list.len() == 0 {
    } else if count == 0 {
        assert(tail =~= Seq::<usize>::empty());
        assert(suffix(without(list, value), 0) =~= Seq::<usize>::empty());
    } else {
        let front = list.drop_last();
        let last = list.last();
        assert(list[list.len() - 1] == last);
        assert(front.no_duplicates()) by {
            assert forall|i: int, j: int|
                0 <= i < front.len() && 0 <= j < front.len() && i != j implies front[i]
                != front[j] by {
                assert(list[i] != list[j]);
            }
        }
        let shorter = (count - 1) as nat;
        lemma_suffix_without(front, value, shorter);
        lemma_without(front, value);
        assert(tail.drop_last() =~= suffix(front, shorter));
        assert(tail.last() == last);
        assert(tail =~= suffix(front, shorter).push(last));
        lemma_push(suffix(front, shorter), last);
        lemma_push(front, last);
        assert(list =~= front.push(last));
        if last == value {
            assert(!front.contains(value)) by {
                if front.contains(value) {
                    let i = choose|i: int| 0 <= i < front.len() && front[i] == value;
                    assert(list[i] != list[list.len() - 1]);
                }
            }
            lemma_suffix_contains(front, shorter, value);
            lemma_without(suffix(front, shorter), value);
            assert(without(front, value) == front);
        } else {
            let kept = without(front, value);
            assert(without(list, value) == kept.push(last));
            if suffix(front, shorter).contains(value) {
                lemma_suffix_contains(front, shorter, value);
                assert(shorter >= 1) by {
                    if shorter == 0 {
                        assert(suffix(front, 0).len() == 0);
                    }
                }
                assert(without(tail, value) == without(suffix(front, shorter), value).push(last));
                assert(suffix(kept.push(last), shorter) =~= suffix(
                    kept,
                    (shorter - 1) as nat,
                ).push(last));
            } else if front.contains(value) {
                assert(suffix(kept.push(last), count) =~= suffix(kept, shorter).push(last));
            }
        }
    }
}

proof fn lemma_suffix_contains(list: Seq<usize>, count: nat, value: usize)
    ensures
        suffix(list, count).contains(value) ==> list.contains(value),
{
    if suffix(list, count).contains(value) {
        let tail = suffix(list, count);
        let i = choose|i: int| 0 <= i < tail.len() && tail[i] == value;
        if count < list.len() {
            assert(list[list.len() - count + i] == value);
        }
    }
}

/// A least-recently-used cache holds the values used last, in the order of their last use: as many
/// as it has places.
pub proof fn cache_keeps_the_last_used(uses: Seq<usize>, capacity: nat)
    ensures
        after_uses(uses, capacity) == suffix(by_last_use(uses), capacity),
    decreases uses.len(),
{
    if uses.len() == 0 {
        assert(suffix(by_last_use(uses), capacity) =~= Seq::<usize>::empty());
    } else {
        let front = uses.drop_last();
        let last = uses.last();
        cache_keeps_the_last_used(front, capacity);
        last_use_lists_each_value_once(front);
        let order = by_last_use(front);
        let cache = suffix(order, capacity);
        let kept = without(order, last);
        lemma_without(order, last);
        if capacity == 0 {
            assert(cache =~= Seq::<usize>::empty());
            assert(suffix(kept.push(last), 0) =~= Seq::<usize>::empty());
        } else if capacity >= order.len() {
            if order.contains(last) {
                assert(suffix(kept.push(last), capacity) =~= kept.push(last));
            } else {
                if order.len() < capacity {
                    assert(suffix(kept.push(last), capacity) =~= order.push(last));
                } else {
                    assert(suffix(kept.push(last), capacity) =~= order.skip(1).push(last));
                }
            }
        } else {
            lemma_suffix_without(order, last, capacity);
            if cache.contains(last) {
                lemma_suffix_contains(order, capacity, last);
                assert(suffix(kept.push(last), capacity) =~= suffix(
                    kept,
                    (capacity - 1) as nat,
                ).push(last));
            } else if order.contains(last) {
                assert(suffix(kept, capacity) == cache);
                assert(kept.len() == order.len() - 1);
                assert(kept.len() >= capacity);
                assert(suffix(kept.push(last), capacity) =~= suffix(kept, capacity).skip(1).push(
                    last,
                ));
            } else {
                assert(suffix(order.push(last), capacity) =~= cache.skip(1).push(last));
            }
        }
    }
}

/// In a list without repetition, to leave a value out is to remove it where it stands.
pub proof fn lemma_remove(list: Seq<usize>, at: int)
    requires
        list.no_duplicates(),
        0 <= at < list.len(),
    ensures
        without(list, list[at]) == list.remove(at),
    decreases list.len(),
{
    let value = list[at];
    let front = list.drop_last();
    assert(front.no_duplicates()) by {
        assert forall|i: int, j: int|
            0 <= i < front.len() && 0 <= j < front.len() && i != j implies front[i]
            != front[j] by {
            assert(list[i] != list[j]);
        }
    }
    if at == list.len() - 1 {
        assert(!front.contains(value)) by {
            if front.contains(value) {
                let i = choose|i: int| 0 <= i < front.len() && front[i] == value;
                assert(list[i] != list[at]);
            }
        }
        lemma_without(front, value);
        assert(list.remove(at) =~= front);
    } else {
        assert(list.last() != value) by {
            assert(list[list.len() - 1] != list[at]);
        }
        lemma_remove(front, at);
        assert(list.remove(at) =~= front.remove(at).push(list.last()));
    }
}

/// Where a list first holds a value.
pub fn position_of(list: &Vec<usize>, value: usize) -> (found: Option<usize>)
    ensures
        match found {
            Some(at) => at < list@.len() && list@[at as int] == value && !list@.take(
                at as int,
            ).contains(value),
            None => !list@.contains(value),
        },
{
    let mut index: usize = 0;
    while index < list.len()
        invariant
            index <= list@.len(),
            forall|i: int| 0 <= i < index ==> list@[i] != value,
        decreases list@.len() - index,
    {
        if list[index] == value {
            return Some(index);
        }
        index = index + 1;
    }
    None
}

/// Whether a list holds a value.
pub fn holds(list: &Vec<usize>, value: usize) -> (held: bool)
    ensures
        held == list@.contains(value),
{
    position_of(list, value).is_some()
}

/// No more values are listed than there are uses.
pub proof fn lemma_last_use_len(uses: Seq<usize>)
    ensures
        by_last_use(uses).len() <= uses.len(),
    decreases uses.len(),
{
    if uses.len() > 0 {
        lemma_last_use_len(uses.drop_last());
        lemma_without(by_last_use(uses.drop_last()), uses.last());
    }
}

/// Some use of `later` lies behind every use of `earlier`.
pub open spec fn last_used_before(uses: Seq<usize>, earlier: usize, later: usize) -> bool {
    exists|p: int|
        0 <= p < uses.len() && #[trigger] uses[p] == later && (forall|q: int|
            p <= q < uses.len() ==> uses[q] != earlier)
}

/// The order of last use is that of the last places of use.
pub proof fn order_of_last_use_is_sorted(uses: Seq<usize>, i: int, j: int)
    requires
        0 <= i < j < by_last_use(uses).len(),
    ensures
        last_used_before(uses, by_last_use(uses)[i], by_last_use(uses)[j]),
    decreases uses.len(),
{
    let order = by_last_use(uses);
    let front = uses.drop_last();
    let before = by_last_use(front);
    let value = uses.last();
    last_use_lists_each_value_once(uses);
    last_use_lists_each_value_once(front);
    lemma_without(before, value);
    assert(order[i] != order[j]);
    if j == order.len() - 1 {
        assert(uses[uses.len() - 1] == order[j]);
    } else {
        let a;
        let b;
        if before.contains(value) {
            let at = choose|at: int| 0 <= at < before.len() && before[at] == value;
            lemma_remove(before, at);
            a = if i < at { i } else { i + 1 };
            b = if j < at { j } else { j + 1 };
        } else {
            a = i;
            b = j;
        }
        assert(before[a] == order[i] && before[b] == order[j]);
        order_of_last_use_is_sorted(front, a, b);
        let p = choose|p: int|
            0 <= p < front.len() && #[trigger] front[p] == order[j] && (forall|q: int|
                p <= q < front.len() ==> front[q] != order[i]);
        assert(uses[p] == order[j]);
        assert(order[i] != order[order.len() - 1]);
        assert forall|q: int| p <= q < uses.len() implies uses[q] != order[i] by {
            if q < front.len() {
                assert(front[q] != order[i]);
            }
        }
    }
}

/// No more values are listed than there are uses.
pub proof fn lemma_first_use_len(uses: Seq<usize>)
    ensures
        by_first_use(uses).len() <= uses.len(),
    decreases uses.len(),
{
    if uses.len() > 0 {
        lemma_first_use_len(uses.drop_last());
    }
}

/// The cache behind a series of uses, from what it holds now.
pub open spec fn cached_after(cache: Seq<usize>, uses: Seq<usize>, capacity: nat) -> Seq<usize>
    decreases uses.len(),
{
    if uses.len() == 0 {
        cache
    } else {
        after_use(cached_after(cache, uses.drop_last(), capacity), uses.last(), capacity)
    }
}

/// Whether one more use makes the least recent value leave.
pub open spec fn displaces(cache: Seq<usize>, value: usize, capacity: nat) -> bool {
    !cache.contains(value) && capacity > 0 && cache.len() >= capacity
}

/// The values that leave the cache during a series of uses, in the order in which they do.
pub open spec fn victims(cache: Seq<usize>, uses: Seq<usize>, capacity: nat) -> Seq<usize>
    decreases uses.len(),
{
    if uses.len() == 0 {
        Seq::empty()
    } else {
        let before = cached_after(cache, uses.drop_last(), capacity);
        let earlier = victims(cache, uses.drop_last(), capacity);
        if displaces(before, uses.last(), capacity) {
            earlier.push(before[0])
        } else {
            earlier
        }
    }
}

/// The orders of first and of last use hold equally many values, and no fewer behind more uses.
pub proof fn lemma_distinct_uses(uses: Seq<usize>)
    ensures
        by_last_use(uses).len() == by_first_use(uses).len(),
        uses.len() > 0 ==> by_first_use(uses.drop_last()).len() <= by_first_use(uses).len(),
    decreases uses.len(),
{
    if uses.len() > 0 {
        let front = uses.drop_last();
        let last = uses.last();
        lemma_distinct_uses(front);
        last_use_lists_each_value_once(front);
        first_use_lists_each_value_once(front);
        lemma_without(by_last_use(front), last);
        assert(by_last_use(front).contains(last) <==> front.contains(last));
        assert(by_first_use(front).contains(last) <==> front.contains(last));
    }
}

/// While the values in use all find a place, those used so far stand last in the cache, in the
/// order of their last use, and what leaves was not used yet.
pub proof fn used_values_stay(cache: Seq<usize>, uses: Seq<usize>, capacity: nat)
    requires
        cache.no_duplicates(),
        cache.len() <= capacity,
        by_first_use(uses).len() <= capacity,
    ensures
        cached_after(cache, uses, capacity).no_duplicates(),
        cached_after(cache, uses, capacity).len() <= capacity,
        by_last_use(uses).len() <= cached_after(cache, uses, capacity).len(),
        suffix(cached_after(cache, uses, capacity), by_last_use(uses).len()) == by_last_use(uses),
        uses.len() > 0 && displaces(
            cached_after(cache, uses.drop_last(), capacity),
            uses.last(),
            capacity,
        ) ==> !uses.contains(cached_after(cache, uses.drop_last(), capacity)[0]),
    decreases uses.len(),
{
    lemma_distinct_uses(uses);
    if uses.len() == 0 {
        assert(suffix(cache, 0) =~= Seq::<usize>::empty());
    } else {
        let front = uses.drop_last();
        let value = uses.last();
        assert(uses =~= front.push(value));
        lemma_distinct_uses(front);
        used_values_stay(cache, front, capacity);
        last_use_lists_each_value_once(front);
        let before = cached_after(cache, front, capacity);
        let after = cached_after(cache, uses, capacity);
        let used = by_last_use(front);
        lemma_without(before, value);
        lemma_without(used, value);
        lemma_push(front, value);
        let kept = without(used, value);
        if before.contains(value) {
            lemma_suffix_without(before, value, used.len());
            let rest = without(before, value);
            lemma_push(rest, value);
            if used.contains(value) {
                assert(used.len() > 0);
                assert(suffix(rest.push(value), used.len()) =~= suffix(
                    rest,
                    (used.len() - 1) as nat,
                ).push(value));
            } else {
                assert(suffix(rest.push(value), (used.len() + 1) as nat) =~= suffix(
                    rest,
                    used.len(),
                ).push(value));
            }
        } else {
            lemma_suffix_contains(before, used.len(), value);
            assert(!used.contains(value));
            assert(by_last_use(uses) == used.push(value));
            lemma_push(before, value);
            if before.len() < capacity {
                assert(suffix(before.push(value), (used.len() + 1) as nat) =~= used.push(value));
            } else {
                let rest = before.skip(1);
                assert(rest.no_duplicates()) by {
                    assert forall|i: int, j: int|
                        0 <= i < rest.len() && 0 <= j < rest.len() && i != j implies rest[i]
                        != rest[j] by {
                        assert(before[i + 1] != before[j + 1]);
                    }
                }
                assert(!rest.contains(value)) by {
                    if rest.contains(value) {
                        let i = choose|i: int| 0 <= i < rest.len() && rest[i] == value;
                        assert(before[i + 1] == value);
                    }
                }
                lemma_push(rest, value);
                assert(suffix(rest.push(value), (used.len() + 1) as nat) =~= used.push(value));
                let gone = before[0];
                assert(before.contains(gone));
                if used.contains(gone) {
                    let i = choose|i: int| 0 <= i < used.len() && used[i] == gone;
                    assert(before[before.len() - used.len() + i] == gone);
                }
                assert(!front.contains(gone));
            }
        }
    }
}

/// What left during the first uses leaves first.
pub proof fn lemma_victims_grow(cache: Seq<usize>, uses: Seq<usize>, capacity: nat, count: int)
    requires
        0 <= count <= uses.len(),
    ensures
        ({
            let all = victims(cache, uses, capacity);
            let first = victims(cache, uses.take(count), capacity);
            first.len() <= all.len() && first == all.take(first.len() as int)
        }),
    decreases uses.len() - count,
{
    let all = victims(cache, uses, capacity);
    let first = victims(cache, uses.take(count), capacity);
    if count == uses.len() {
        assert(uses.take(count) =~= uses);
        assert(all.take(all.len() as int) =~= all);
    } else {
        lemma_victims_grow(cache, uses, capacity, count + 1);
        let next = victims(cache, uses.take(count + 1), capacity);
        assert(uses.take(count + 1).drop_last() =~= uses.take(count));
        assert(first =~= next.take(first.len() as int));
        assert(first =~= all.take(first.len() as int));
    }
}

/// While the values in use all find a place, none leaves once it is used.
pub proof fn used_values_never_leave(cache: Seq<usize>, uses: Seq<usize>, capacity: nat, count: int)
    requires
        cache.no_duplicates(),
        cache.len() <= capacity,
        by_first_use(uses).len() <= capacity,
        0 <= count < uses.len(),
    ensures
        ({
            let all = victims(cache, uses, capacity);
            let first = victims(cache, uses.take(count), capacity);
            forall|j: int|
                first.len() <= j < all.len() ==> !uses.take(count + 1).contains(#[trigger] all[j])
        }),
    decreases uses.len(),
{
    let all = victims(cache, uses, capacity);
    let first = victims(cache, uses.take(count), capacity);
    let front = uses.drop_last();
    let earlier = victims(cache, front, capacity);
    lemma_distinct_uses(uses);
    used_values_stay(cache, uses, capacity);
    if count < front.len() {
        used_values_never_leave(cache, front, capacity, count);
        assert(front.take(count) =~= uses.take(count));
        assert(front.take(count + 1) =~= uses.take(count + 1));
    } else {
        assert(front =~= uses.take(count));
    }
    assert forall|j: int| first.len() <= j < all.len() implies !uses.take(count + 1).contains(
        #[trigger] all[j],
    ) by {
        if j < earlier.len() {
            assert(earlier[j] == all[j]);
        } else if uses.take(count + 1).contains(all[j]) {
            let used = uses.take(count + 1);
            let i = choose|i: int| 0 <= i < used.len() && used[i] == all[j];
            assert(uses[i] == all[j]);
        }
    }
}

/// A cache with more places holds what one with fewer places holds, as its most recent values and
/// in the same order.
pub proof fn more_places_keep_the_same_recent(
    cache: Seq<usize>,
    uses: Seq<usize>,
    few: nat,
    many: nat,
)
    requires
        cache.no_duplicates(),
        cache.len() <= few <= many,
    ensures
        cached_after(cache, uses, many).no_duplicates(),
        cached_after(cache, uses, many).len() <= many,
        suffix(cached_after(cache, uses, many), few) == cached_after(cache, uses, few),
    decreases uses.len(),
{
    if uses.len() > 0 {
        let front = uses.drop_last();
        let value = uses.last();
        more_places_keep_the_same_recent(cache, front, few, many);
        let wide = cached_after(cache, front, many);
        let narrow = cached_after(cache, front, few);
        let after = cached_after(cache, uses, many);
        let rest = without(wide, value);
        lemma_without(wide, value);
        lemma_suffix_contains(wide, few, value);
        lemma_push(rest, value);
        if wide.contains(value) {
            if few < wide.len() {
                lemma_suffix_without(wide, value, few);
                if few == 0 {
                    assert(narrow =~= Seq::<usize>::empty());
                    assert(suffix(rest.push(value), 0) =~= Seq::<usize>::empty());
                } else if narrow.contains(value) {
                    assert(suffix(rest.push(value), few) =~= suffix(
                        rest,
                        (few - 1) as nat,
                    ).push(value));
                } else {
                    assert(suffix(rest.push(value), few) =~= suffix(rest, few).skip(1).push(
                        value,
                    ));
                }
            } else {
                assert(suffix(rest.push(value), few) =~= rest.push(value));
            }
        } else {
            lemma_push(wide, value);
            if wide.len() < many {
                if few == 0 {
                    assert(suffix(after, 0) =~= Seq::<usize>::empty());
                    assert(narrow =~= Seq::<usize>::empty());
                } else if wide.len() < few {
                    assert(suffix(wide.push(value), few) =~= wide.push(value));
                } else {
                    assert(suffix(wide.push(value), few) =~= narrow.skip(1).push(value));
                }
            } else if many > 0 {
                let short = wide.skip(1);
                assert(short.no_duplicates()) by {
                    assert forall|i: int, j: int|
                        0 <= i < short.len() && 0 <= j < short.len() && i != j implies short[i]
                        != short[j] by {
                        assert(wide[i + 1] != wide[j + 1]);
                    }
                }
                assert(!short.contains(value)) by {
                    if short.contains(value) {
                        let i = choose|i: int| 0 <= i < short.len() && short[i] == value;
                        assert(wide[i + 1] == value);
                    }
                }
                lemma_push(short, value);
                if few == 0 {
                    assert(suffix(after, 0) =~= Seq::<usize>::empty());
                    assert(narrow =~= Seq::<usize>::empty());
                } else {
                    assert(suffix(short.push(value), few) =~= narrow.skip(1).push(value));
                }
            }
        }
    } else {
        assert(suffix(cache, few) =~= cache);
    }
}

/// The values that leave the cache during a series of uses.
pub fn find_victims(cache: &Vec<usize>, uses: &Vec<usize>, capacity: usize) -> (gone: Vec<usize>)
    requires
        cache@.no_duplicates(),
        cache@.len() <= capacity,
        by_first_use(uses@).len() <= capacity,
    ensures
        gone@ == victims(cache@, uses@, capacity as nat),
{
    let mut held: Vec<usize> = Vec::new();
    let mut index: usize = 0;
    while index < cache.len()
        invariant
            index <= cache@.len(),
            held@ == cache@.take(index as int),
        decreases cache@.len() - index,
    {
        held.push(cache[index]);
        index = index + 1;
        assert(held@ =~= cache@.take(index as int));
    }
    assert(held@ =~= cache@);
    let mut gone: Vec<usize> = Vec::new();
    let mut done: usize = 0;
    while done < uses.len()
        invariant
            cache@.no_duplicates(),
            cache@.len() <= capacity,
            by_first_use(uses@).len() <= capacity,
            done <= uses@.len(),
            held@ == cached_after(cache@, uses@.take(done as int), capacity as nat),
            gone@ == victims(cache@, uses@.take(done as int), capacity as nat),
        decreases uses@.len() - done,
    {
        let value = uses[done];
        proof {
            lemma_distinct_prefix(uses@, done as int);
            used_values_stay(cache@, uses@.take(done as int), capacity as nat);
            assert(uses@.take(done + 1).drop_last() =~= uses@.take(done as int));
        }
        let ghost before = held@;
        match position_of(&held, value) {
            Some(at) => {
                proof {
                    lemma_remove(before, at as int);
                }
                let moved = held.remove(at);
                held.push(moved);
            },
            None => {
                if capacity > 0 {
                    if held.len() >= capacity {
                        let first = held.remove(0);
                        gone.push(first);
                        assert(before.remove(0) =~= before.skip(1));
                    }
                    held.push(value);
                }
            },
        }
        done = done + 1;
    }
    assert(uses@.take(uses@.len() as int) =~= uses@);
    gone
}

/// No more values are in use among the first uses than among all.
pub proof fn lemma_distinct_prefix(uses: Seq<usize>, count: int)
    requires
        0 <= count <= uses.len(),
    ensures
        by_first_use(uses.take(count)).len() <= by_first_use(uses).len(),
    decreases uses.len() - count,
{
    if count == uses.len() {
        assert(uses.take(count) =~= uses);
    } else {
        lemma_distinct_prefix(uses, count + 1);
        assert(uses.take(count + 1).drop_last() =~= uses.take(count));
        lemma_distinct_uses(uses.take(count + 1));
    }
}

/// The used values in the order of their first use.
pub fn list_distinct(uses: &Vec<usize>) -> (seen: Vec<usize>)
    ensures
        seen@ == by_first_use(uses@),
{
    let mut seen: Vec<usize> = Vec::new();
    let mut index: usize = 0;
    while index < uses.len()
        invariant
            index <= uses@.len(),
            seen@ == by_first_use(uses@.take(index as int)),
        decreases uses@.len() - index,
    {
        let value = uses[index];
        assert(uses@.take(index + 1).drop_last() =~= uses@.take(index as int));
        if !holds(&seen, value) {
            seen.push(value);
        }
        index = index + 1;
    }
    assert(uses@.take(uses@.len() as int) =~= uses@);
    seen
}

/// Whether the first use of one value comes before the first use of another.
pub open spec fn first_used_before(uses: Seq<usize>, earlier: usize, later: usize) -> bool {
    exists|p: int|
        0 <= p < uses.len() && #[trigger] uses[p] == earlier && (forall|q: int|
            0 <= q <= p ==> uses[q] != later)
}

/// The order of first use is that of the first places of use.
pub proof fn order_of_first_use_is_sorted(uses: Seq<usize>, i: int, j: int)
    requires
        0 <= i < j < by_first_use(uses).len(),
    ensures
        first_used_before(uses, by_first_use(uses)[i], by_first_use(uses)[j]),
    decreases uses.len(),
{
    let order = by_first_use(uses);
    let front = uses.drop_last();
    let before = by_first_use(front);
    first_use_lists_each_value_once(front);
    if j < before.len() {
        order_of_first_use_is_sorted(front, i, j);
        let p = choose|p: int|
            0 <= p < front.len() && #[trigger] front[p] == before[i] && (forall|q: int|
                0 <= q <= p ==> front[q] != before[j]);
        assert(uses[p] == order[i]);
        assert forall|q: int| 0 <= q <= p implies uses[q] != order[j] by {
            assert(front[q] == uses[q]);
        }
    } else {
        assert(before.contains(before[i]));
        assert(front.contains(before[i]));
        let p = choose|p: int| 0 <= p < front.len() && front[p] == before[i];
        assert(uses[p] == order[i]);
        assert forall|q: int| 0 <= q <= p implies uses[q] != order[j] by {
            assert(front[q] == uses[q]);
            if uses[q] == order[j] {
                assert(front.contains(uses[q]));
                assert(before.contains(uses.last()));
            }
        }
    }
}

/// A use makes its value the last one. Every other value that stays keeps its order, and one leaves
/// only where the value is new and the cache is full: the one that stood first.
pub proof fn a_use_displaces_the_oldest(cache: Seq<usize>, value: usize, capacity: nat, other: usize)
    requires
        cache.no_duplicates(),
        0 < capacity,
        cache.len() <= capacity,
        other != value,
    ensures
        after_use(cache, value, capacity).len() > 0,
        after_use(cache, value, capacity).last() == value,
        after_use(cache, value, capacity).contains(other) <==> cache.contains(other) && !(
        !cache.contains(value) && cache.len() == capacity && other == cache[0]),
{
    lemma_without(cache, value);
    let after = after_use(cache, value, capacity);
    assert(after.last() == value);
    if cache.contains(value) {
        let rest = without(cache, value);
        if after.contains(other) {
            let at = choose|at: int| 0 <= at < after.len() && after[at] == other;
            assert(rest[at] == other);
            assert(rest.contains(other));
        }
        if cache.contains(other) {
            assert(rest.contains(other));
            let at = choose|at: int| 0 <= at < rest.len() && rest[at] == other;
            assert(after[at] == other);
        }
    } else if cache.len() < capacity {
        if after.contains(other) {
            let at = choose|at: int| 0 <= at < after.len() && after[at] == other;
            assert(cache[at] == other);
        }
        if cache.contains(other) {
            let at = choose|at: int| 0 <= at < cache.len() && cache[at] == other;
            assert(after[at] == other);
        }
    } else {
        if after.contains(other) {
            let at = choose|at: int| 0 <= at < after.len() && after[at] == other;
            assert(cache[at + 1] == other);
        }
        if cache.contains(other) && other != cache[0] {
            let at = choose|at: int| 0 <= at < cache.len() && cache[at] == other;
            assert(after[at - 1] == other);
        }
    }
}

} // verus!
