//! Sums, extremes and shapes in the accounts of a checkpoint.

use crate::storage;
use crate::text;
use crate::text::push_decimal;
use vstd::hash_set::StringHashSet;
use vstd::prelude::*;
use vstd::string::*;

verus! {

pub open spec fn smaller(a: int, b: int) -> int {
    if a <= b {
        a
    } else {
        b
    }
}

pub open spec fn larger(a: int, b: int) -> int {
    if a >= b {
        a
    } else {
        b
    }
}

/// The dimensions of a tensor in a message.
pub open spec fn shown(shape: Seq<u64>) -> Seq<char>
    decreases shape.len(),
{
    if shape.len() == 0 {
        Seq::empty()
    } else if shape.len() == 1 {
        text::decimal(shape[0] as nat)
    } else {
        shown(shape.drop_last()) + ", "@ + text::decimal(shape.last() as nat)
    }
}

/// Appends the dimensions of a tensor.
pub fn push_shape(text: &mut String, shape: &Vec<u64>)
    ensures
        final(text)@ == old(text)@ + shown(shape@),
{
    let mut index: usize = 0;
    proof {
        assert(text@ =~= old(text)@ + shown(shape@.take(0)));
    }
    while index < shape.len()
        invariant
            index <= shape@.len(),
            text@ == old(text)@ + shown(shape@.take(index as int)),
        decreases shape@.len() - index,
    {
        if index > 0 {
            text.append(", ");
        }
        push_decimal(text, shape[index]);
        proof {
            let longer = shape@.take(index + 1);
            assert(longer.drop_last() =~= shape@.take(index as int));
            assert(longer.last() == shape@[index as int]);
            assert(text@ =~= old(text)@ + shown(longer));
        }
        index = index + 1;
    }
    proof {
        assert(shape@.take(shape@.len() as int) =~= shape@);
    }
}

/// The sum of a list.
pub open spec fn sum_of(items: Seq<u64>) -> nat
    decreases items.len(),
{
    if items.len() == 0 {
        0
    } else {
        sum_of(items.drop_last()) + items.last() as nat
    }
}

/// The largest item of a list, or zero.
pub open spec fn largest(items: Seq<u64>) -> u64
    decreases items.len(),
{
    if items.len() == 0 {
        0
    } else {
        larger(largest(items.drop_last()) as int, items.last() as int) as u64
    }
}

/// Adds all items up.
pub fn checked_sum_of(items: &Vec<u64>) -> (result: Option<u64>)
    ensures
        match result {
            Some(sum) => sum == sum_of(items@),
            None => sum_of(items@) > u64::MAX,
        },
{
    let mut sum: u64 = 0;
    let mut position: usize = 0;
    while position < items.len()
        invariant
            position <= items@.len(),
            sum == sum_of(items@.take(position as int)),
        decreases items@.len() - position,
    {
        proof {
            let longer = items@.take(position + 1);
            assert(longer.drop_last() =~= items@.take(position as int));
            assert(longer.last() == items@[position as int]);
        }
        match sum.checked_add(items[position]) {
            Some(next) => {
                sum = next;
            },
            None => {
                proof {
                    lemma_sum_grows(items@, position as int + 1);
                }
                return None;
            },
        }
        position = position + 1;
    }
    proof {
        assert(items@.take(items@.len() as int) =~= items@);
    }
    Some(sum)
}

proof fn lemma_sum_grows(items: Seq<u64>, count: int)
    requires
        0 <= count <= items.len(),
    ensures
        sum_of(items.take(count)) <= sum_of(items),
    decreases items.len(),
{
    if count == items.len() {
        assert(items.take(count) =~= items);
    } else {
        assert(items.drop_last().take(count) =~= items.take(count));
        lemma_sum_grows(items.drop_last(), count);
    }
}

/// Finds the largest item, or zero.
pub fn find_largest(items: &Vec<u64>) -> (result: u64)
    ensures
        result == largest(items@),
{
    let mut best: u64 = 0;
    let mut position: usize = 0;
    while position < items.len()
        invariant
            position <= items@.len(),
            best == largest(items@.take(position as int)),
        decreases items@.len() - position,
    {
        proof {
            let longer = items@.take(position + 1);
            assert(longer.drop_last() =~= items@.take(position as int));
            assert(longer.last() == items@[position as int]);
        }
        if items[position] > best {
            best = items[position];
        }
        position = position + 1;
    }
    proof {
        assert(items@.take(items@.len() as int) =~= items@);
    }
    best
}

/// How many names of a list are not expected.
pub open spec fn unexpected(names: Seq<Seq<char>>, expected: Set<Seq<char>>) -> nat
    decreases names.len(),
{
    if names.len() == 0 {
        0
    } else {
        unexpected(names.drop_last(), expected) + if expected.contains(names.last()) {
            0nat
        } else {
            1nat
        }
    }
}

/// Counts the names that are not expected.
pub fn count_unexpected(names: &Vec<String>, expected: &StringHashSet) -> (count: usize)
    ensures
        count == unexpected(storage::texts(names@), expected@),
{
    let ghost all = storage::texts(names@);
    let mut count: usize = 0;
    let mut position: usize = 0;
    while position < names.len()
        invariant
            all == storage::texts(names@),
            position <= names@.len(),
            count <= position,
            count == unexpected(all.take(position as int), expected@),
        decreases names@.len() - position,
    {
        proof {
            let longer = all.take(position + 1);
            assert(longer.drop_last() =~= all.take(position as int));
            assert(longer.last() == names@[position as int]@);
        }
        if !expected.contains(names[position].as_str()) {
            count = count + 1;
        }
        position = position + 1;
    }
    assert(all.take(all.len() as int) =~= all);
    count
}

/// The largest of some numbers is one of them, and none is greater.
pub proof fn no_number_is_greater(items: Seq<u64>, i: int)
    requires
        0 <= i < items.len(),
    ensures
        items.contains(largest(items)),
        items[i] <= largest(items),
    decreases items.len(),
{
    let front = items.drop_last();
    assert(items[items.len() - 1] == items.last());
    if front.len() > 0 {
        let other = if i < front.len() {
            i
        } else {
            0
        };
        no_number_is_greater(front, other);
        let at = choose|at: int| 0 <= at < front.len() && front[at] == largest(front);
        assert(items[at] == largest(front));
        assert(front[other] == items[other]);
    }
}

/// A sum of two lists is that of their sums, and a single number is its own sum.
pub proof fn sums_add_up(one: Seq<u64>, other: Seq<u64>, item: u64)
    ensures
        sum_of(one + other) == sum_of(one) + sum_of(other),
        sum_of(seq![item]) == item,
    decreases other.len(),
{
    assert(seq![item].drop_last() =~= Seq::<u64>::empty());
    assert(sum_of(seq![item].drop_last()) == 0);
    if other.len() == 0 {
        assert(one + other =~= one);
    } else {
        sums_add_up(one, other.drop_last(), item);
        assert((one + other).drop_last() =~= one + other.drop_last());
        assert((one + other).last() == other.last());
    }
}

} // verus!
