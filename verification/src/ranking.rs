//! Ranking positions by score: the best first, the earlier position first among equals.

use vstd::prelude::*;

verus! {

/// The place of a binary32 value, by its bits, in the total order of floating-point values:
/// negative values in reverse, then positive ones, each by magnitude, not-a-numbers outermost.
pub open spec fn total_order(bits: u32) -> int {
    if bits < 0x8000_0000 {
        bits as int
    } else {
        0x7fff_ffff - bits
    }
}

pub fn total_order_key(bits: u32) -> (key: i64)
    ensures
        key == total_order(bits),
{
    if bits < 0x8000_0000 {
        bits as i64
    } else {
        0x7fff_ffff - bits as i64
    }
}

/// The place in the total order of each of the given values.
pub open spec fn keys_of(bits: Seq<u32>) -> Seq<i64> {
    Seq::new(bits.len(), |i: int| total_order(bits[i]) as i64)
}

pub fn total_order_keys(bits: &[u32]) -> (keys: Vec<i64>)
    ensures
        keys@ == keys_of(bits@),
{
    let mut keys: Vec<i64> = Vec::new();
    let mut index: usize = 0;
    while index < bits.len()
        invariant
            index <= bits@.len(),
            keys@.len() == index,
            forall|i: int| 0 <= i < index ==> keys@[i] == total_order(bits@[i]),
        decreases bits@.len() - index,
    {
        keys.push(total_order_key(bits[index]));
        index = index + 1;
    }
    assert(keys@ =~= keys_of(bits@));
    keys
}

/// Position `a` ranks before position `b`: its key is greater, or equal with `a` the earlier.
pub open spec fn precedes(keys: Seq<i64>, a: usize, b: usize) -> bool {
    keys[a as int] > keys[b as int] || (keys[a as int] == keys[b as int] && a < b)
}

/// The positions of a list stand in rank order.
pub open spec fn ranked(keys: Seq<i64>, list: Seq<usize>) -> bool {
    forall|i: int, j: int| 0 <= i < j < list.len() ==> precedes(keys, #[trigger] list[i], #[trigger] list[j])
}

/// `list` holds exactly the positions from `low` to below `high`, in rank order.
pub open spec fn ranks(keys: Seq<i64>, list: Seq<usize>, low: int, high: int) -> bool {
    &&& list.len() == high - low
    &&& ranked(keys, list)
    &&& forall|i: int| 0 <= i < list.len() ==> low <= #[trigger] list[i] < high
    &&& forall|position: usize| low <= position < high ==> #[trigger] list.contains(position)
}

/// `list` is the ranking of all positions.
pub open spec fn ranking(keys: Seq<i64>, list: Seq<usize>) -> bool {
    ranks(keys, list, 0, keys.len() as int)
}

fn merge(keys: &Vec<i64>, left: Vec<usize>, right: Vec<usize>, low: Ghost<int>, middle: Ghost<int>, high: Ghost<int>) -> (merged: Vec<usize>)
    requires
        0 <= low@ <= middle@ <= high@ <= keys@.len(),
        ranks(keys@, left@, low@, middle@),
        ranks(keys@, right@, middle@, high@),
    ensures
        ranks(keys@, merged@, low@, high@),
{
    let mut merged: Vec<usize> = Vec::new();
    let mut i: usize = 0;
    let mut j: usize = 0;
    while i < left.len() || j < right.len()
        invariant
            0 <= low@ <= middle@ <= high@ <= keys@.len(),
            ranks(keys@, left@, low@, middle@),
            ranks(keys@, right@, middle@, high@),
            i <= left@.len(),
            j <= right@.len(),
            merged@.len() == i + j,
            ranked(keys@, merged@),
            forall|k: int| 0 <= k < merged@.len() ==> low@ <= #[trigger] merged@[k] < high@,
            forall|k: int, l: int|
                0 <= k < merged@.len() && i <= l < left@.len() ==> precedes(
                    keys@,
                    #[trigger] merged@[k],
                    #[trigger] left@[l],
                ),
            forall|k: int, l: int|
                0 <= k < merged@.len() && j <= l < right@.len() ==> precedes(
                    keys@,
                    #[trigger] merged@[k],
                    #[trigger] right@[l],
                ),
            forall|l: int| 0 <= l < i ==> merged@.contains(#[trigger] left@[l]),
            forall|l: int| 0 <= l < j ==> merged@.contains(#[trigger] right@[l]),
        decreases left@.len() - i + right@.len() - j,
    {
        let ghost before = merged@;
        let from_left = if i >= left.len() {
            false
        } else if j >= right.len() {
            true
        } else {
            keys[left[i]] >= keys[right[j]]
        };
        let next: usize = if from_left {
            left[i]
        } else {
            right[j]
        };
        merged.push(next);
        if from_left {
            i = i + 1;
        } else {
            j = j + 1;
        }
        proof {
            assert(merged@[before.len() as int] == next);
            assert(merged@.contains(next));
            assert forall|value: usize| before.contains(value) implies merged@.contains(value) by {
                let k = choose|k: int| 0 <= k < before.len() && before[k] == value;
                assert(merged@[k] == value);
            }
        }
    }
    proof {
        assert forall|position: usize| low@ <= position < high@ implies #[trigger] merged@.contains(
            position,
        ) by {
            if position < middle@ {
                assert(left@.contains(position));
                let l = choose|l: int| 0 <= l < left@.len() && left@[l] == position;
                assert(merged@.contains(left@[l]));
            } else {
                assert(right@.contains(position));
                let l = choose|l: int| 0 <= l < right@.len() && right@[l] == position;
                assert(merged@.contains(right@[l]));
            }
        }
    }
    merged
}

fn rank_range(keys: &Vec<i64>, low: usize, high: usize) -> (list: Vec<usize>)
    requires
        low <= high <= keys@.len(),
    ensures
        ranks(keys@, list@, low as int, high as int),
    decreases high - low,
{
    if high - low == 0 {
        return Vec::new();
    }
    if high - low == 1 {
        let mut list: Vec<usize> = Vec::new();
        list.push(low);
        assert(list@[0] == low);
        return list;
    }
    let middle: usize = low + (high - low) / 2;
    let left = rank_range(keys, low, middle);
    let right = rank_range(keys, middle, high);
    merge(keys, left, right, Ghost(low as int), Ghost(middle as int), Ghost(high as int))
}

/// All positions, the greatest key first and the earlier position first among equals.
pub fn rank(keys: &Vec<i64>) -> (list: Vec<usize>)
    ensures
        ranking(keys@, list@),
{
    rank_range(keys, 0, keys.len())
}

/// There is one ranking of the given keys.
pub proof fn ranking_is_unique(keys: Seq<i64>, left: Seq<usize>, right: Seq<usize>)
    requires
        ranking(keys, left),
        ranking(keys, right),
    ensures
        left == right,
{
    assert forall|i: int| 0 <= i < left.len() implies left[i] == right[i] by {
        lemma_same_prefix(keys, left, right, i);
    }
    assert(left =~= right);
}

proof fn lemma_same_prefix(keys: Seq<i64>, left: Seq<usize>, right: Seq<usize>, index: int)
    requires
        ranking(keys, left),
        ranking(keys, right),
        0 <= index < left.len(),
    ensures
        left[index] == right[index],
    decreases index,
{
    assert forall|i: int| 0 <= i < index implies left[i] == right[i] by {
        lemma_same_prefix(keys, left, right, i);
    }
    assert(right.contains(left[index]));
    assert(left.contains(right[index]));
    let in_right = choose|k: int| 0 <= k < right.len() && right[k] == left[index];
    let in_left = choose|k: int| 0 <= k < left.len() && left[k] == right[index];
    if in_right < index {
        assert(left[in_right] == right[in_right]);
        assert(precedes(keys, left[in_right], left[index]));
    }
    if in_left < index {
        assert(right[in_left] == left[in_left]);
        assert(precedes(keys, right[in_left], right[index]));
    }
    if left[index] != right[index] {
        assert(in_right > index && in_left > index);
        assert(precedes(keys, right[index], right[in_right]));
        assert(precedes(keys, left[index], left[in_left]));
    }
}

/// One binary32 value lies below another: a negative one below every other that is not, of two
/// negative ones that with the greater magnitude, of two others that with the smaller. The negative
/// zero lies right below the positive one, and a not-a-number outermost on its side.
pub open spec fn lies_below(a: u32, b: u32) -> bool {
    if a >= 0x8000_0000 {
        b < 0x8000_0000 || a > b
    } else {
        b < 0x8000_0000 && a < b
    }
}

/// The total order is the order of the numbers.
pub proof fn the_total_order_follows_the_numbers(a: u32, b: u32)
    ensures
        total_order(a) < total_order(b) <==> lies_below(a, b),
        total_order(a) == total_order(b) <==> a == b,
        i64::MIN <= total_order(a) <= i64::MAX,
{
}

/// A ranking of values lists every position once; none stands in front of one with a greater value,
/// and of two positions with the same value the earlier stands first.
pub proof fn rankings_descend(values: Seq<u32>, order: Seq<usize>, i: int, j: int)
    requires
        ranking(keys_of(values), order),
        0 <= i < j < order.len(),
    ensures
        order.len() == values.len(),
        order[i] < values.len() && order[j] < values.len(),
        order[i] != order[j],
        !lies_below(values[order[i] as int], values[order[j] as int]),
        values[order[i] as int] == values[order[j] as int] ==> order[i] < order[j],
{
    let keys = keys_of(values);
    assert(precedes(keys, order[i], order[j]));
    the_total_order_follows_the_numbers(values[order[i] as int], values[order[j] as int]);
    the_total_order_follows_the_numbers(values[order[j] as int], values[order[i] as int]);
}

} // verus!
