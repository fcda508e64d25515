//! Grouping the routed experts of a token batch, so that every expert is loaded and run once for
//! all tokens that chose it.

use crate::recency;
use crate::lists::copied;
use vstd::prelude::*;

verus! {

/// One use of an expert: by a token, as its route of this number.
pub struct Access {
    pub expert: usize,
    pub token: usize,
    pub route: usize,
}

pub open spec fn lists_of(lists: Seq<Vec<usize>>) -> Seq<Seq<usize>> {
    Seq::new(lists.len(), |i: int| lists[i]@)
}

/// The uses of one token, route by route.
pub open spec fn token_accesses(ids: Seq<Seq<usize>>, token: int) -> Seq<Access> {
    Seq::new(
        ids[token].len(),
        |route: int|
            Access { expert: ids[token][route], token: token as usize, route: route as usize },
    )
}

/// The uses of the first `tokens` tokens, token by token.
pub open spec fn accesses(ids: Seq<Seq<usize>>, tokens: nat) -> Seq<Access>
    decreases tokens,
{
    if tokens == 0 {
        Seq::empty()
    } else {
        accesses(ids, (tokens - 1) as nat) + token_accesses(ids, tokens - 1)
    }
}

pub open spec fn all_accesses(ids: Seq<Seq<usize>>) -> Seq<Access> {
    accesses(ids, ids.len())
}

/// The experts used, in order.
pub open spec fn experts_used(accesses: Seq<Access>) -> Seq<usize> {
    Seq::new(accesses.len(), |i: int| accesses[i].expert)
}

/// Where an expert is used, in order.
pub open spec fn positions_of(accesses: Seq<Access>, expert: usize) -> Seq<(usize, usize)>
    decreases accesses.len(),
{
    if accesses.len() == 0 {
        Seq::empty()
    } else if accesses.last().expert == expert {
        positions_of(accesses.drop_last(), expert).push(
            (accesses.last().token, accesses.last().route),
        )
    } else {
        positions_of(accesses.drop_last(), expert)
    }
}

/// An expert with the places, token and route, that use it.
#[derive(Debug)]
pub struct ExpertGroup {
    pub expert: usize,
    pub positions: Vec<(usize, usize)>,
}

/// The same group, over plain values.
pub struct GroupView {
    pub expert: usize,
    pub positions: Seq<(usize, usize)>,
}

impl View for ExpertGroup {
    type V = GroupView;

    open spec fn view(&self) -> GroupView {
        GroupView { expert: self.expert, positions: self.positions@ }
    }
}

pub open spec fn groups_of(groups: Seq<ExpertGroup>) -> Seq<GroupView> {
    Seq::new(groups.len(), |i: int| groups[i]@)
}

/// The given experts, each with its places.
pub open spec fn grouped(accesses: Seq<Access>, experts: Seq<usize>) -> Seq<GroupView> {
    Seq::new(
        experts.len(),
        |i: int| GroupView { expert: experts[i], positions: positions_of(accesses, experts[i]) },
    )
}

/// The groups in the order in which their experts are first used.
pub open spec fn grouped_by_first_use(accesses: Seq<Access>) -> Seq<GroupView> {
    grouped(accesses, recency::by_first_use(experts_used(accesses)))
}

/// The groups in the order in which their experts are last used.
pub open spec fn grouped_by_last_use(accesses: Seq<Access>) -> Seq<GroupView> {
    grouped(accesses, recency::by_last_use(experts_used(accesses)))
}

proof fn lemma_used_push(accesses: Seq<Access>, access: Access)
    ensures
        experts_used(accesses.push(access)) == experts_used(accesses).push(access.expert),
        accesses.push(access).drop_last() == accesses,
{
    assert(experts_used(accesses.push(access)) =~= experts_used(accesses).push(access.expert));
    assert(accesses.push(access).drop_last() =~= accesses);
}

proof fn lemma_unused(accesses: Seq<Access>, expert: usize)
    requires
        !experts_used(accesses).contains(expert),
    ensures
        positions_of(accesses, expert).len() == 0,
    decreases accesses.len(),
{
    if accesses.len() > 0 {
        let front = accesses.drop_last();
        assert(experts_used(accesses)[accesses.len() - 1] == accesses.last().expert);
        assert(!experts_used(front).contains(expert)) by {
            if experts_used(front).contains(expert) {
                let i = choose|i: int|
                    0 <= i < experts_used(front).len() && experts_used(front)[i] == expert;
                assert(experts_used(accesses)[i] == expert);
            }
        }
        lemma_unused(front, expert);
    }
}

fn find_group(groups: &Vec<ExpertGroup>, expert: usize) -> (found: Option<usize>)
    ensures
        match found {
            Some(at) => at < groups@.len() && groups@[at as int].expert == expert,
            None => forall|i: int|
                0 <= i < groups@.len() ==> (#[trigger] groups@[i]).expert != expert,
        },
{
    let mut index: usize = 0;
    while index < groups.len()
        invariant
            index <= groups@.len(),
            forall|i: int| 0 <= i < index ==> (#[trigger] groups@[i]).expert != expert,
        decreases groups@.len() - index,
    {
        if groups[index].expert == expert {
            return Some(index);
        }
        index = index + 1;
    }
    None
}

/// Enters one more use into the groups.
fn enter(
    groups: &mut Vec<ExpertGroup>,
    expert: usize,
    token: usize,
    route: usize,
    done: Ghost<Seq<Access>>,
)
    requires
        groups_of(old(groups)@) == grouped_by_first_use(done@),
    ensures
        groups_of(final(groups)@) == grouped_by_first_use(
            done@.push(Access { expert, token, route }),
        ),
{
    let ghost access = Access { expert, token, route };
    let ghost before = groups@;
    let ghost order = recency::by_first_use(experts_used(done@));
    proof {
        lemma_used_push(done@, access);
        let longer = experts_used(done@).push(expert);
        assert(longer.drop_last() =~= experts_used(done@));
        assert(groups_of(before).len() == order.len());
        assert forall|i: int| 0 <= i < before.len() implies (#[trigger] before[i]).expert
            == order[i] && before[i].positions@ == positions_of(done@, order[i]) by {
            assert(groups_of(before)[i] == grouped_by_first_use(done@)[i]);
        }
    }
    match find_group(groups, expert) {
        Some(at) => {
            groups[at].positions.push((token, route));
            proof {
                assert(order[at as int] == expert);
                recency::first_use_lists_each_value_once(experts_used(done@));
                let wanted = grouped_by_first_use(done@.push(access));
                assert(order.contains(expert));
                assert forall|i: int| 0 <= i < groups@.len() implies groups_of(groups@)[i]
                    == wanted[i] by {
                    assert(before[i].expert == order[i]);
                    if i != at {
                        assert(order[i] != order[at as int]);
                    }
                }
                assert(groups_of(groups@) =~= wanted);
            }
        },
        None => {
            let mut positions: Vec<(usize, usize)> = Vec::new();
            positions.push((token, route));
            groups.push(ExpertGroup { expert, positions });
            proof {
                assert(!order.contains(expert)) by {
                    if order.contains(expert) {
                        let i = choose|i: int| 0 <= i < order.len() && order[i] == expert;
                        assert(before[i].expert == expert);
                    }
                }
                recency::first_use_lists_each_value_once(experts_used(done@));
                lemma_unused(done@, expert);
                let wanted = grouped_by_first_use(done@.push(access));
                assert forall|i: int| 0 <= i < groups@.len() implies groups_of(groups@)[i]
                    == wanted[i] by {
                    if i < before.len() {
                        assert(before[i].expert == order[i]);
                        assert(order.contains(order[i]));
                    } else {
                        assert(positions@ =~= positions_of(done@, expert).push((token, route)));
                    }
                }
                assert(groups_of(groups@) =~= wanted);
            }
        },
    }
}

/// Groups the routes of a batch by expert, in the order of first use.
pub fn group_routes(ids: &Vec<Vec<usize>>) -> (groups: Vec<ExpertGroup>)
    ensures
        groups_of(groups@) == grouped_by_first_use(all_accesses(lists_of(ids@))),
{
    let ghost lists = lists_of(ids@);
    let mut groups: Vec<ExpertGroup> = Vec::new();
    let mut token: usize = 0;
    proof {
        assert(experts_used(accesses(lists, 0)) =~= Seq::<usize>::empty());
        assert(groups_of(groups@) =~= grouped_by_first_use(accesses(lists, 0)));
    }
    while token < ids.len()
        invariant
            lists == lists_of(ids@),
            token <= ids@.len(),
            groups_of(groups@) == grouped_by_first_use(accesses(lists, token as nat)),
        decreases ids@.len() - token,
    {
        let ghost before = accesses(lists, token as nat);
        let ghost row = token_accesses(lists, token as int);
        let mut route: usize = 0;
        proof {
            assert(before + row.take(0) =~= before);
        }
        while route < ids[token].len()
            invariant
                lists == lists_of(ids@),
                token < ids@.len(),
                route <= ids@[token as int]@.len(),
                row == token_accesses(lists, token as int),
                groups_of(groups@) == grouped_by_first_use(before + row.take(route as int)),
            decreases ids@[token as int]@.len() - route,
        {
            let expert = ids[token][route];
            enter(
                &mut groups,
                expert,
                token,
                route,
                Ghost(before + row.take(route as int)),
            );
            proof {
                assert((before + row.take(route as int)).push(row[route as int]) =~= before
                    + row.take(route + 1));
            }
            route = route + 1;
        }
        proof {
            assert(row.take(row.len() as int) =~= row);
        }
        token = token + 1;
    }
    groups
}

/// Makes one value the most recent of an order.
fn touch(order: &mut Vec<usize>, value: usize)
    requires
        old(order)@.no_duplicates(),
    ensures
        final(order)@ == recency::without(old(order)@, value).push(value),
{
    match recency::position_of(order, value) {
        Some(at) => {
            proof {
                recency::lemma_remove(order@, at as int);
            }
            order.remove(at);
        },
        None => {
            proof {
                recency::lemma_without(order@, value);
            }
        },
    }
    order.push(value);
}

/// The experts of a batch in the order of last use.
pub fn last_use_order(ids: &Vec<Vec<usize>>) -> (order: Vec<usize>)
    ensures
        order@ == recency::by_last_use(experts_used(all_accesses(lists_of(ids@)))),
{
    let ghost lists = lists_of(ids@);
    let mut order: Vec<usize> = Vec::new();
    let mut token: usize = 0;
    proof {
        assert(experts_used(accesses(lists, 0)) =~= Seq::<usize>::empty());
        assert(order@ =~= recency::by_last_use(experts_used(accesses(lists, 0))));
    }
    while token < ids.len()
        invariant
            lists == lists_of(ids@),
            token <= ids@.len(),
            order@ == recency::by_last_use(experts_used(accesses(lists, token as nat))),
        decreases ids@.len() - token,
    {
        let ghost before = accesses(lists, token as nat);
        let ghost row = token_accesses(lists, token as int);
        let mut route: usize = 0;
        proof {
            assert(before + row.take(0) =~= before);
        }
        while route < ids[token].len()
            invariant
                lists == lists_of(ids@),
                token < ids@.len(),
                route <= ids@[token as int]@.len(),
                row == token_accesses(lists, token as int),
                order@ == recency::by_last_use(experts_used(before + row.take(route as int))),
            decreases ids@[token as int]@.len() - route,
        {
            let expert = ids[token][route];
            proof {
                let done = before + row.take(route as int);
                recency::last_use_lists_each_value_once(experts_used(done));
                assert(done.push(row[route as int]) =~= before + row.take(route + 1));
                lemma_used_push(done, row[route as int]);
                assert(experts_used(done).push(expert).drop_last() =~= experts_used(done));
            }
            touch(&mut order, expert);
            route = route + 1;
        }
        proof {
            assert(row.take(row.len() as int) =~= row);
        }
        token = token + 1;
    }
    order
}

/// Groups the routes of a batch by expert, in the order of last use.
pub fn group_by_last_use(ids: &Vec<Vec<usize>>) -> (groups: Vec<ExpertGroup>)
    ensures
        groups_of(groups@) == grouped_by_last_use(all_accesses(lists_of(ids@))),
{
    let ghost all = all_accesses(lists_of(ids@));
    let ghost used = experts_used(all);
    let listed = group_routes(ids);
    let order = last_use_order(ids);
    let mut groups: Vec<ExpertGroup> = Vec::new();
    let mut index: usize = 0;
    proof {
        recency::first_use_lists_each_value_once(used);
        recency::last_use_lists_each_value_once(used);
        assert(groups_of(listed@).len() == recency::by_first_use(used).len());
    }
    while index < order.len()
        invariant
            order@ == recency::by_last_use(used),
            groups_of(listed@) == grouped(all, recency::by_first_use(used)),
            forall|value: usize|
                #[trigger] recency::by_first_use(used).contains(value) <==> used.contains(value),
            forall|value: usize|
                #[trigger] recency::by_last_use(used).contains(value) <==> used.contains(value),
            index <= order@.len(),
            groups@.len() == index,
            forall|i: int|
                0 <= i < index ==> (#[trigger] groups@[i]).expert == order@[i]
                    && groups@[i].positions@ == positions_of(all, order@[i]),
        decreases order@.len() - index,
    {
        let expert = order[index];
        match find_group(&listed, expert) {
            Some(at) => {
                proof {
                    let first = recency::by_first_use(used);
                    assert(groups_of(listed@).len() == grouped(all, first).len());
                    assert(groups_of(listed@)[at as int] == grouped(all, first)[at as int]);
                    assert(listed@[at as int]@.expert == first[at as int]);
                    assert(listed@[at as int]@.positions == positions_of(all, expert));
                }
                let positions = copied(listed[at].positions.as_slice());
                groups.push(ExpertGroup { expert, positions });
            },
            None => {
                proof {
                    let first = recency::by_first_use(used);
                    assert(order@.contains(expert));
                    assert(used.contains(expert));
                    assert(first.contains(expert));
                    let i = choose|i: int| 0 <= i < first.len() && first[i] == expert;
                    assert(groups_of(listed@).len() == first.len());
                    assert(groups_of(listed@)[i] == grouped(all, first)[i]);
                    assert(listed@[i].expert == expert);
                }
            },
        }
        index = index + 1;
    }
    proof {
        assert(groups_of(groups@) =~= grouped_by_last_use(all));
    }
    groups
}

/// How many of `count` groups the first chunk takes: what does not fill whole later chunks.
pub open spec fn first_chunk(count: nat, capacity: nat) -> nat {
    if count % capacity == 0 {
        capacity
    } else {
        count % capacity
    }
}

/// The chunks, begin and end, that cover `count` groups from `start`: one of `length`, then each
/// of `capacity`.
pub open spec fn chunks_from(start: nat, length: nat, count: nat, capacity: nat) -> Seq<
    (usize, usize),
>
    decreases count - start,
{
    if start >= count || length == 0 || capacity == 0 {
        Seq::empty()
    } else {
        let end = if start + length < count {
            start + length
        } else {
            count
        };
        seq![(start as usize, end as usize)] + chunks_from(end, capacity, count, capacity)
    }
}

/// The chunks in which groups stream through a cache: the last one fills it.
pub open spec fn stream_chunks(count: nat, capacity: nat) -> Seq<(usize, usize)> {
    chunks_from(0, first_chunk(count, capacity), count, capacity)
}

/// Splits groups into chunks that fit a cache, so that the last chunk fills it.
pub fn plan_chunks(count: usize, capacity: usize) -> (chunks: Vec<(usize, usize)>)
    requires
        capacity > 0,
    ensures
        chunks@ == stream_chunks(count as nat, capacity as nat),
{
    let remainder = count % capacity;
    let first = if remainder == 0 {
        capacity
    } else {
        remainder
    };
    let mut chunks: Vec<(usize, usize)> = Vec::new();
    let mut start: usize = 0;
    let mut length = first;
    proof {
        assert(chunks@ + chunks_from(0, first as nat, count as nat, capacity as nat)
            =~= stream_chunks(count as nat, capacity as nat));
    }
    while start < count
        invariant
            capacity > 0,
            length > 0,
            start <= count,
            chunks@ + chunks_from(start as nat, length as nat, count as nat, capacity as nat)
                == stream_chunks(count as nat, capacity as nat),
        decreases count - start,
    {
        let end = if length < count - start {
            start + length
        } else {
            count
        };
        let ghost before = chunks@;
        let ghost rest = chunks_from(end as nat, capacity as nat, count as nat, capacity as nat);
        chunks.push((start, end));
        proof {
            assert(before + (seq![(start, end)] + rest) =~= chunks@ + rest);
        }
        start = end;
        length = capacity;
    }
    proof {
        assert(chunks@ + chunks_from(start as nat, length as nat, count as nat, capacity as nat)
            =~= chunks@);
    }
    chunks
}

proof fn lemma_chunks(start: nat, length: nat, count: nat, capacity: nat)
    requires
        0 < length <= capacity,
        start < count <= usize::MAX,
        (count - start - length) % capacity as int == 0,
        start + length <= count,
    ensures
        ({
            let chunks = chunks_from(start, length, count, capacity);
            &&& chunks.len() > 0
            &&& chunks[0].0 == start
            &&& chunks.last().1 == count
            &&& chunks.last().1 - chunks.last().0 == (if chunks.len() == 1 {
                length
            } else {
                capacity
            })
            &&& forall|i: int|
                0 <= i < chunks.len() ==> (#[trigger] chunks[i]).0 < chunks[i].1 <= chunks[i].0
                    + capacity
            &&& forall|i: int|
                0 < i < chunks.len() ==> (#[trigger] chunks[i]).0 == chunks[i - 1].1
        }),
    decreases count - start,
{
    let chunks = chunks_from(start, length, count, capacity);
    let end = start + length;
    let rest = chunks_from(end, capacity, count, capacity);
    if end < count {
        let left = count - end;
        assert(left >= capacity) by {
            if left < capacity {
                vstd::arithmetic::div_mod::lemma_small_mod(left as nat, capacity);
            }
        }
        assert((count - end - capacity) % capacity as int == 0) by {
            vstd::arithmetic::div_mod::lemma_mod_sub_multiples_vanish(left, capacity as int);
        }
        lemma_chunks(end, capacity, count, capacity);
        assert forall|i: int| 0 < i < chunks.len() implies (#[trigger] chunks[i]).0 == chunks[i
            - 1].1 by {
            assert(chunks[i] == rest[i - 1]);
            if i > 1 {
                assert(chunks[i - 1] == rest[i - 2]);
            }
        }
        assert forall|i: int| 0 <= i < chunks.len() implies (#[trigger] chunks[i]).0
            < chunks[i].1 <= chunks[i].0 + capacity by {
            if i > 0 {
                assert(chunks[i] == rest[i - 1]);
            }
        }
        assert(chunks.last() == rest.last());
    } else {
        assert(rest =~= Seq::<(usize, usize)>::empty());
        assert(chunks =~= seq![(start as usize, end as usize)]);
    }
}

/// The chunks lie one behind the other, none is empty or exceeds the cache, together they cover
/// all groups, and the last one fills the cache unless all groups fit it.
pub proof fn chunks_cover_the_groups(count: nat, capacity: nat)
    requires
        0 < capacity,
        0 < count <= usize::MAX,
    ensures
        ({
            let chunks = stream_chunks(count, capacity);
            &&& chunks.len() > 0
            &&& chunks[0].0 == 0
            &&& chunks.last().1 == count
            &&& chunks.last().1 - chunks.last().0 == (if count < capacity {
                count
            } else {
                capacity
            })
            &&& forall|i: int|
                0 <= i < chunks.len() ==> (#[trigger] chunks[i]).0 < chunks[i].1 <= chunks[i].0
                    + capacity
            &&& forall|i: int|
                0 < i < chunks.len() ==> (#[trigger] chunks[i]).0 == chunks[i - 1].1
        }),
{
    let first = first_chunk(count, capacity);
    let quotient = count / capacity;
    vstd::arithmetic::div_mod::lemma_fundamental_div_mod(count as int, capacity as int);
    vstd::arithmetic::div_mod::lemma_mod_bound(count as int, capacity as int);
    if count < capacity {
        vstd::arithmetic::div_mod::lemma_small_mod(count, capacity);
    }
    assert(first <= count) by {
        vstd::arithmetic::div_mod::lemma_mod_decreases(count, capacity);
        if count % capacity == 0 && count < capacity {
            assert(count == 0);
        }
    }
    assert((count - first) % capacity as int == 0) by {
        if count % capacity == 0 {
            vstd::arithmetic::div_mod::lemma_mod_sub_multiples_vanish(
                count as int,
                capacity as int,
            );
        } else {
            assert(count - first == capacity * quotient);
            vstd::arithmetic::div_mod::lemma_mod_multiples_basic(
                quotient as int,
                capacity as int,
            );
            assert(capacity * quotient == quotient * capacity) by (nonlinear_arith);
        }
    }
    lemma_chunks(0, first, count, capacity);
    let chunks = stream_chunks(count, capacity);
    if chunks.len() == 1 {
        assert(first == count);
        if count >= capacity {
            assert(first == capacity);
        }
    } else if count < capacity {
        assert(first == count);
        assert(chunks_from(count, capacity, count, capacity) =~= Seq::<(usize, usize)>::empty());
    }
}

proof fn lemma_distinct_uses(uses: Seq<usize>, capacity: nat)
    requires
        uses.no_duplicates(),
        uses.len() <= capacity,
    ensures
        recency::after_uses(uses, capacity) == uses,
    decreases uses.len(),
{
    if uses.len() > 0 {
        let front = uses.drop_last();
        assert forall|i: int, j: int|
            0 <= i < front.len() && 0 <= j < front.len() && i != j implies front[i]
            != front[j] by {
            assert(uses[i] != uses[j]);
        }
        lemma_distinct_uses(front, capacity);
        assert(!front.contains(uses.last())) by {
            if front.contains(uses.last()) {
                let i = choose|i: int| 0 <= i < front.len() && front[i] == uses.last();
                assert(uses[i] != uses[uses.len() - 1]);
            }
        }
        assert(front.push(uses.last()) =~= uses);
    } else {
        assert(recency::after_uses(uses, capacity) =~= uses);
    }
}

/// Streaming a batch through an empty layer expert by expert, in the order of last use and in
/// these chunks, leaves the experts resident that running it token by token leaves, in the same
/// order: the last chunk, entered into the emptied layer, is what token order keeps.
pub proof fn streamed_cache_matches_token_order(uses: Seq<usize>, capacity: nat)
    requires
        capacity > 0,
        0 < uses.len() <= usize::MAX,
    ensures
        ({
            let order = recency::by_last_use(uses);
            let last = stream_chunks(order.len(), capacity).last();
            recency::after_uses(order.subrange(last.0 as int, last.1 as int), capacity)
                == recency::after_uses(uses, capacity)
        }),
{
    let order = recency::by_last_use(uses);
    recency::last_use_lists_each_value_once(uses);
    recency::cache_keeps_the_last_used(uses, capacity);
    assert(uses.contains(uses[0]));
    assert(order.contains(uses[0]));
    recency::lemma_last_use_len(uses);
    chunks_cover_the_groups(order.len(), capacity);
    let last = stream_chunks(order.len(), capacity).last();
    let chunk = order.subrange(last.0 as int, last.1 as int);
    assert(chunk =~= recency::suffix(order, capacity));
    assert forall|i: int, j: int|
        0 <= i < chunk.len() && 0 <= j < chunk.len() && i != j implies chunk[i] != chunk[j] by {
        assert(chunk[i] == order[i + last.0]);
        assert(chunk[j] == order[j + last.0]);
    }
    lemma_distinct_uses(chunk, capacity);
}

proof fn lemma_accesses(ids: Seq<Seq<usize>>, tokens: nat)
    requires
        tokens <= ids.len() <= usize::MAX,
        forall|t: int| 0 <= t < ids.len() ==> (#[trigger] ids[t]).len() <= usize::MAX,
    ensures
        forall|i: int|
            0 <= i < accesses(ids, tokens).len() ==> ({
                let access = #[trigger] accesses(ids, tokens)[i];
                &&& access.token < tokens
                &&& access.route < ids[access.token as int].len()
                &&& access.expert == ids[access.token as int][access.route as int]
            }),
        forall|i: int, j: int|
            0 <= i < j < accesses(ids, tokens).len() ==> {
                let first = #[trigger] accesses(ids, tokens)[i];
                let second = #[trigger] accesses(ids, tokens)[j];
                (first.token, first.route) != (second.token, second.route)
            },
        forall|t: int, r: int|
            #![trigger ids[t][r]]
            0 <= t < tokens && 0 <= r < ids[t].len() ==> accesses(ids, tokens).contains(
                Access { expert: ids[t][r], token: t as usize, route: r as usize },
            ),
    decreases tokens,
{
    if tokens > 0 {
        let before = (tokens - 1) as nat;
        lemma_accesses(ids, before);
        let row = token_accesses(ids, tokens - 1);
        let all = accesses(ids, tokens);
        let front = accesses(ids, before);
        assert(ids[tokens - 1].len() <= usize::MAX);
        assert forall|t: int, r: int|
            #![trigger ids[t][r]]
            0 <= t < tokens && 0 <= r < ids[t].len() implies all.contains(
            Access { expert: ids[t][r], token: t as usize, route: r as usize },
        ) by {
            let access = Access { expert: ids[t][r], token: t as usize, route: r as usize };
            if t < before {
                assert(front.contains(access));
                let i = choose|i: int| 0 <= i < front.len() && front[i] == access;
                assert(all[i] == access);
            } else {
                assert(row[r] == access);
                assert(all[front.len() + r] == access);
            }
        }
        assert forall|i: int, j: int| 0 <= i < j < all.len() implies {
            let first = #[trigger] all[i];
            let second = #[trigger] all[j];
            (first.token, first.route) != (second.token, second.route)
        } by {
            if j < front.len() {
                assert(all[i] == front[i] && all[j] == front[j]);
            } else if i < front.len() {
                assert(all[i] == front[i]);
                assert(all[j] == row[j - front.len()]);
            } else {
                assert(all[i] == row[i - front.len()]);
                assert(all[j] == row[j - front.len()]);
            }
        }
        assert forall|i: int| 0 <= i < all.len() implies ({
            let access = #[trigger] all[i];
            &&& access.token < tokens
            &&& access.route < ids[access.token as int].len()
            &&& access.expert == ids[access.token as int][access.route as int]
        }) by {
            if i < front.len() {
                assert(all[i] == front[i]);
            } else {
                assert(all[i] == row[i - front.len()]);
            }
        }
    }
}

/// Whether an access stands at this place.
pub open spec fn stands(access: Access, expert: usize, position: (usize, usize)) -> bool {
    access.expert == expert && (access.token, access.route) == position
}

proof fn lemma_positions(accesses: Seq<Access>, expert: usize)
    requires
        forall|i: int, j: int|
            0 <= i < j < accesses.len() ==> {
                let first = #[trigger] accesses[i];
                let second = #[trigger] accesses[j];
                (first.token, first.route) != (second.token, second.route)
            },
    ensures
        forall|k: int|
            0 <= k < positions_of(accesses, expert).len() ==> exists|i: int|
                0 <= i < accesses.len() && stands(
                    accesses[i],
                    expert,
                    #[trigger] positions_of(accesses, expert)[k],
                ),
        forall|i: int|
            0 <= i < accesses.len() && (#[trigger] accesses[i]).expert == expert ==> positions_of(
                accesses,
                expert,
            ).contains((accesses[i].token, accesses[i].route)),
        positions_of(accesses, expert).no_duplicates(),
    decreases accesses.len(),
{
    if accesses.len() > 0 {
        let front = accesses.drop_last();
        let last = accesses.last();
        let place = (last.token, last.route);
        let before = positions_of(front, expert);
        let all = positions_of(accesses, expert);
        assert forall|i: int, j: int| 0 <= i < j < front.len() implies {
            let first = #[trigger] front[i];
            let second = #[trigger] front[j];
            (first.token, first.route) != (second.token, second.route)
        } by {
            assert(front[i] == accesses[i] && front[j] == accesses[j]);
        }
        lemma_positions(front, expert);
        assert forall|k: int| 0 <= k < all.len() implies exists|i: int|
            0 <= i < accesses.len() && stands(accesses[i], expert, #[trigger] all[k]) by {
            if k < before.len() {
                assert(all[k] == before[k]);
                let i = choose|i: int|
                    0 <= i < front.len() && stands(front[i], expert, before[k]);
                assert(stands(accesses[i], expert, all[k]));
            } else {
                assert(stands(accesses[accesses.len() - 1], expert, all[k]));
            }
        }
        assert forall|i: int|
            0 <= i < accesses.len() && (
            #[trigger] accesses[i]).expert == expert implies all.contains(
            (accesses[i].token, accesses[i].route),
        ) by {
            let here = (accesses[i].token, accesses[i].route);
            if i < front.len() {
                assert(front[i] == accesses[i]);
                assert(before.contains(here));
                let k = choose|k: int| 0 <= k < before.len() && before[k] == here;
                assert(all[k] == here);
            } else {
                assert(all[all.len() - 1] == here);
            }
        }
        assert forall|a: int, b: int|
            0 <= a < all.len() && 0 <= b < all.len() && a != b implies all[a] != all[b] by {
            let low = if a < b { a } else { b };
            let high = if a < b { b } else { a };
            if high < before.len() {
                assert(before[low] != before[high]);
            } else {
                assert(all[high] == place);
                let i = choose|i: int|
                    0 <= i < front.len() && stands(front[i], expert, before[low]);
                assert(accesses[i] == front[i]);
                assert(accesses[accesses.len() - 1] == last);
                assert(before[low] != place);
            }
        }
    }
}

/// Some group holds a place.
pub open spec fn holds_place(groups: Seq<GroupView>, token: int, route: int) -> bool {
    exists|g: int, k: int|
        0 <= g < groups.len() && 0 <= k < groups[g].positions.len()
            && #[trigger] groups[g].positions[k] == (token as usize, route as usize)
}

/// Every place of a batch belongs to exactly one group, once.
pub proof fn groups_partition_the_routes(ids: Seq<Seq<usize>>, order: Seq<usize>)
    requires
        ids.len() <= usize::MAX,
        forall|t: int| 0 <= t < ids.len() ==> (#[trigger] ids[t]).len() <= usize::MAX,
        order.no_duplicates(),
        forall|value: usize|
            #[trigger] experts_used(all_accesses(ids)).contains(value) ==> order.contains(value),
    ensures
        forall|g: int, k: int|
            #![trigger grouped(all_accesses(ids), order)[g].positions[k]]
            0 <= g < order.len() && 0 <= k < grouped(
                all_accesses(ids),
                order,
            )[g].positions.len() ==> ({
                let place = grouped(all_accesses(ids), order)[g].positions[k];
                &&& place.0 < ids.len()
                &&& place.1 < ids[place.0 as int].len()
                &&& ids[place.0 as int][place.1 as int] == order[g]
            }),
        forall|g: int, k: int, h: int, m: int|
            #![trigger grouped(all_accesses(ids), order)[g].positions[k], grouped(
                all_accesses(ids),
                order,
            )[h].positions[m]]
            0 <= g < order.len() && 0 <= h < order.len() && 0 <= k < grouped(
                all_accesses(ids),
                order,
            )[g].positions.len() && 0 <= m < grouped(all_accesses(ids), order)[h].positions.len()
                && grouped(all_accesses(ids), order)[g].positions[k] == grouped(
                all_accesses(ids),
                order,
            )[h].positions[m] ==> g == h && k == m,
        forall|t: int, r: int|
            0 <= t < ids.len() && 0 <= r < ids[t].len() ==> #[trigger] holds_place(
                grouped(all_accesses(ids), order),
                t,
                r,
            ),
{
    let all = all_accesses(ids);
    let groups = grouped(all, order);
    lemma_accesses(ids, ids.len());
    assert forall|g: int, k: int|
        #![trigger groups[g].positions[k]]
        0 <= g < order.len() && 0 <= k < groups[g].positions.len() implies ({
        let place = groups[g].positions[k];
        &&& place.0 < ids.len()
        &&& place.1 < ids[place.0 as int].len()
        &&& ids[place.0 as int][place.1 as int] == order[g]
    }) by {
        lemma_positions(all, order[g]);
        let place = groups[g].positions[k];
        let i = choose|i: int| 0 <= i < all.len() && stands(all[i], order[g], place);
        assert(all[i].token < ids.len());
    }
    assert forall|g: int, k: int, h: int, m: int|
        #![trigger groups[g].positions[k], groups[h].positions[m]]
        0 <= g < order.len() && 0 <= h < order.len() && 0 <= k < groups[g].positions.len() && 0
            <= m < groups[h].positions.len() && groups[g].positions[k]
            == groups[h].positions[m] implies g == h && k == m by {
        let place = groups[g].positions[k];
        assert(ids[place.0 as int][place.1 as int] == order[g]);
        assert(ids[place.0 as int][place.1 as int] == order[h]);
        assert(g == h);
        lemma_positions(all, order[g]);
    }
    assert forall|t: int, r: int|
        0 <= t < ids.len() && 0 <= r < ids[t].len() implies #[trigger] holds_place(
        groups,
        t,
        r,
    ) by {
        let expert = ids[t][r];
        let access = Access { expert, token: t as usize, route: r as usize };
        assert(all.contains(access));
        let i = choose|i: int| 0 <= i < all.len() && all[i] == access;
        assert(experts_used(all)[i] == expert);
        assert(experts_used(all).contains(expert));
        assert(order.contains(expert));
        let g = choose|g: int| 0 <= g < order.len() && order[g] == expert;
        lemma_positions(all, expert);
        assert(all[i].expert == expert);
        assert(positions_of(all, expert).contains((t as usize, r as usize)));
        let k = choose|k: int|
            0 <= k < positions_of(all, expert).len() && positions_of(all, expert)[k] == (
                t as usize,
                r as usize,
            );
        assert(groups[g].positions[k] == (t as usize, r as usize));
    }
}

/// Values of a row, bit for bit.
pub open spec fn rows_of(rows: Seq<Vec<u32>>) -> Seq<Seq<u32>> {
    Seq::new(rows.len(), |i: int| rows[i]@)
}

/// The first group whose results are not one row for each of its places.
pub open spec fn rows_match(groups: Seq<GroupView>, values: Seq<Seq<Seq<u32>>>) -> bool {
    forall|g: int|
        0 <= g < groups.len() ==> (#[trigger] values[g]).len() == groups[g].positions.len()
}

/// Every place holds the row that its group computed for it.
pub open spec fn scattered(
    groups: Seq<GroupView>,
    values: Seq<Seq<Seq<u32>>>,
    ids: Seq<Seq<usize>>,
    output: Seq<Seq<Seq<u32>>>,
) -> bool {
    &&& output.len() == ids.len()
    &&& forall|t: int| 0 <= t < ids.len() ==> (#[trigger] output[t]).len() == ids[t].len()
    &&& forall|g: int, k: int|
        #![trigger groups[g].positions[k]]
        0 <= g < groups.len() && 0 <= k < groups[g].positions.len()
            ==> output[groups[g].positions[k].0 as int][groups[g].positions[k].1 as int]
            == values[g][k]
}

pub open spec fn results_of(values: Seq<Vec<Vec<u32>>>) -> Seq<Seq<Seq<u32>>> {
    Seq::new(values.len(), |g: int| rows_of(values[g]@))
}

fn empty_rows(ids: &Vec<Vec<usize>>) -> (output: Vec<Vec<Vec<u32>>>)
    ensures
        output@.len() == ids@.len(),
        forall|t: int|
            0 <= t < ids@.len() ==> (#[trigger] output@[t])@.len() == ids@[t]@.len(),
{
    let mut output: Vec<Vec<Vec<u32>>> = Vec::new();
    let mut token: usize = 0;
    while token < ids.len()
        invariant
            token <= ids@.len(),
            output@.len() == token,
            forall|t: int|
                0 <= t < token ==> (#[trigger] output@[t])@.len() == ids@[t]@.len(),
        decreases ids@.len() - token,
    {
        let mut row: Vec<Vec<u32>> = Vec::new();
        let mut route: usize = 0;
        while route < ids[token].len()
            invariant
                token < ids@.len(),
                route <= ids@[token as int]@.len(),
                row@.len() == route,
            decreases ids@[token as int]@.len() - route,
        {
            row.push(Vec::new());
            route = route + 1;
        }
        output.push(row);
        token = token + 1;
    }
    output
}

/// Hands the rows that every group computed to the places that asked for them. `None` where a
/// group did not compute one row for each of its places.
pub fn scatter(
    ids: &Vec<Vec<usize>>,
    groups: &Vec<ExpertGroup>,
    values: &Vec<Vec<Vec<u32>>>,
) -> (result: Option<Vec<Vec<Vec<u32>>>>)
    requires
        groups@.len() == values@.len(),
        groups_of(groups@) == grouped_by_first_use(all_accesses(lists_of(ids@))) || groups_of(
            groups@,
        ) == grouped_by_last_use(all_accesses(lists_of(ids@))),
    ensures
        match result {
            Some(output) => rows_match(groups_of(groups@), results_of(values@)) && scattered(
                groups_of(groups@),
                results_of(values@),
                lists_of(ids@),
                results_of(output@),
            ),
            None => !rows_match(groups_of(groups@), results_of(values@)),
        },
{
    let ghost lists = lists_of(ids@);
    let ghost views = groups_of(groups@);
    let ghost wanted = results_of(values@);
    let ghost used = experts_used(all_accesses(lists));
    let ghost order = if views == grouped_by_first_use(all_accesses(lists)) {
        recency::by_first_use(used)
    } else {
        recency::by_last_use(used)
    };
    proof {
        recency::first_use_lists_each_value_once(used);
        recency::last_use_lists_each_value_once(used);
        assert forall|t: int| 0 <= t < lists.len() implies (#[trigger] lists[t]).len()
            <= usize::MAX by {
            assert(ids@[t].len() == lists[t].len());
        }
        assert(ids.len() == lists.len());
        groups_partition_the_routes(lists, order);
    }
    let mut output = empty_rows(ids);
    let mut index: usize = 0;
    while index < groups.len()
        invariant
            lists == lists_of(ids@),
            views == groups_of(groups@),
            wanted == results_of(values@),
            views == grouped(all_accesses(lists), order),
            groups@.len() == values@.len(),
            index <= groups@.len(),
            output@.len() == ids@.len(),
            forall|t: int|
                0 <= t < ids@.len() ==> (#[trigger] output@[t])@.len() == ids@[t]@.len(),
            forall|g: int| 0 <= g < index ==> (#[trigger] wanted[g]).len() == views[g].positions.len(),
            forall|g: int, k: int|
                #![trigger views[g].positions[k]]
                0 <= g < order.len() && 0 <= k < views[g].positions.len() ==> ({
                    let place = views[g].positions[k];
                    &&& place.0 < lists.len()
                    &&& place.1 < lists[place.0 as int].len()
                    &&& lists[place.0 as int][place.1 as int] == order[g]
                }),
            forall|g: int, k: int, h: int, m: int|
                #![trigger views[g].positions[k], views[h].positions[m]]
                0 <= g < order.len() && 0 <= h < order.len() && 0 <= k < views[g].positions.len()
                    && 0 <= m < views[h].positions.len() && views[g].positions[k]
                    == views[h].positions[m] ==> g == h && k == m,
            forall|g: int, k: int|
                #![trigger views[g].positions[k]]
                0 <= g < index && 0 <= k < views[g].positions.len()
                    ==> output@[views[g].positions[k].0 as int]@[views[g].positions[k].1 as int]@
                    == wanted[g][k],
        decreases groups@.len() - index,
    {
        let rows = &values[index];
        let positions = &groups[index].positions;
        proof {
            assert(views[index as int].positions == positions@);
            assert(wanted[index as int] == rows_of(rows@));
            assert(views.len() == order.len());
        }
        if rows.len() != positions.len() {
            return None;
        }
        let mut place: usize = 0;
        while place < positions.len()
            invariant
                lists == lists_of(ids@),
                views.len() == order.len(),
                index < views.len(),
                positions@ == views[index as int].positions,
                wanted[index as int] == rows_of(rows@),
                rows@.len() == positions@.len(),
                place <= positions@.len(),
                output@.len() == ids@.len(),
                forall|t: int|
                    0 <= t < ids@.len() ==> (#[trigger] output@[t])@.len() == ids@[t]@.len(),
                forall|g: int, k: int|
                    #![trigger views[g].positions[k]]
                    0 <= g < order.len() && 0 <= k < views[g].positions.len() ==> ({
                        let place = views[g].positions[k];
                        &&& place.0 < lists.len()
                        &&& place.1 < lists[place.0 as int].len()
                        &&& lists[place.0 as int][place.1 as int] == order[g]
                    }),
                forall|g: int, k: int, h: int, m: int|
                    #![trigger views[g].positions[k], views[h].positions[m]]
                    0 <= g < order.len() && 0 <= h < order.len() && 0 <= k
                        < views[g].positions.len() && 0 <= m < views[h].positions.len()
                        && views[g].positions[k] == views[h].positions[m] ==> g == h && k == m,
                forall|g: int, k: int|
                    #![trigger views[g].positions[k]]
                    0 <= g <= index && 0 <= k < views[g].positions.len() && (g < index || k
                        < place)
                        ==> output@[views[g].positions[k].0 as int]@[views[g].positions[k].1 as int]@
                        == wanted[g][k],
            decreases positions@.len() - place,
        {
            let (token, route) = positions[place];
            let ghost before = output@;
            assert(views[index as int].positions[place as int] == (token, route));
            let row = copied(rows[place].as_slice());
            output[token][route] = row;
            proof {
                assert forall|g: int, k: int|
                    #![trigger views[g].positions[k]]
                    0 <= g <= index && 0 <= k < views[g].positions.len() && (g < index || k
                        <= place) implies output@[views[g].positions[k].0 as int]@[
                    views[g].positions[k].1 as int]@ == wanted[g][k] by {
                    let here = views[g].positions[k];
                    if here == (token, route) {
                        assert(g == index && k == place);
                    } else {
                        assert(output@[here.0 as int]@[here.1 as int]
                            == before[here.0 as int]@[here.1 as int]);
                    }
                }
            }
            place = place + 1;
        }
        index = index + 1;
    }
    proof {
        let rows = results_of(output@);
        assert forall|g: int, k: int|
            #![trigger views[g].positions[k]]
            0 <= g < views.len() && 0 <= k < views[g].positions.len() implies rows[
        views[g].positions[k].0 as int][views[g].positions[k].1 as int] == wanted[g][k] by {
            let place = views[g].positions[k];
            assert(place.0 < lists.len());
            assert(rows[place.0 as int] == rows_of(output@[place.0 as int]@));
        }
        assert forall|t: int| 0 <= t < lists.len() implies (#[trigger] rows[t]).len()
            == lists[t].len() by {
            assert(rows[t] == rows_of(output@[t]@));
        }
    }
    Some(output)
}

/// The accesses of a batch are those of its tokens, in the order of the tokens and within a token in
/// the order of its routes.
pub proof fn accesses_are_in_token_order(ids: Seq<Seq<usize>>, i: int, j: int)
    requires
        ids.len() <= usize::MAX,
        forall|t: int| 0 <= t < ids.len() ==> (#[trigger] ids[t]).len() <= usize::MAX,
        0 <= i < j < all_accesses(ids).len(),
    ensures
        ({
            let one = all_accesses(ids)[i];
            let other = all_accesses(ids)[j];
            &&& one.token < ids.len() && one.route < ids[one.token as int].len()
            &&& one.expert == ids[one.token as int][one.route as int]
            &&& one.token < other.token || (one.token == other.token && one.route < other.route)
        }),
{
    lemma_access_places(ids, ids.len(), i);
    lemma_access_order(ids, ids.len(), i, j);
}

proof fn lemma_access_places(ids: Seq<Seq<usize>>, tokens: nat, i: int)
    requires
        tokens <= ids.len() <= usize::MAX,
        forall|t: int| 0 <= t < ids.len() ==> (#[trigger] ids[t]).len() <= usize::MAX,
        0 <= i < accesses(ids, tokens).len(),
    ensures
        ({
            let one = accesses(ids, tokens)[i];
            &&& one.token < tokens && one.route < ids[one.token as int].len()
            &&& one.expert == ids[one.token as int][one.route as int]
        }),
    decreases tokens,
{
    if tokens > 0 {
        let before = accesses(ids, (tokens - 1) as nat);
        if i < before.len() {
            lemma_access_places(ids, (tokens - 1) as nat, i);
        } else {
            assert(ids[tokens - 1].len() <= usize::MAX);
            assert(accesses(ids, tokens)[i] == token_accesses(ids, tokens - 1)[i - before.len()]);
        }
    }
}

proof fn lemma_access_order(ids: Seq<Seq<usize>>, tokens: nat, i: int, j: int)
    requires
        tokens <= ids.len() <= usize::MAX,
        forall|t: int| 0 <= t < ids.len() ==> (#[trigger] ids[t]).len() <= usize::MAX,
        0 <= i < j < accesses(ids, tokens).len(),
    ensures
        ({
            let one = accesses(ids, tokens)[i];
            let other = accesses(ids, tokens)[j];
            one.token < other.token || (one.token == other.token && one.route < other.route)
        }),
    decreases tokens,
{
    if tokens > 0 {
        let before = accesses(ids, (tokens - 1) as nat);
        assert(ids[tokens - 1].len() <= usize::MAX);
        if j < before.len() {
            lemma_access_order(ids, (tokens - 1) as nat, i, j);
        } else {
            assert(accesses(ids, tokens)[j] == token_accesses(ids, tokens - 1)[j - before.len()]);
            if i < before.len() {
                lemma_access_places(ids, (tokens - 1) as nat, i);
                assert(accesses(ids, tokens)[i] == before[i]);
            } else {
                assert(accesses(ids, tokens)[i] == token_accesses(ids, tokens - 1)[i
                    - before.len()]);
            }
        }
    }
}

/// The places of an expert stand in the order of the accesses.
pub proof fn places_are_in_access_order(accesses: Seq<Access>, expert: usize, k: int, m: int)
    requires
        0 <= k < m < positions_of(accesses, expert).len(),
    ensures
        exists|i: int, j: int|
            #![trigger accesses[i], accesses[j]]
            0 <= i < j < accesses.len() && stands(
                accesses[i],
                expert,
                positions_of(accesses, expert)[k],
            ) && stands(accesses[j], expert, positions_of(accesses, expert)[m]),
    decreases accesses.len(),
{
    let front = accesses.drop_last();
    let before = positions_of(front, expert);
    if m < before.len() {
        places_are_in_access_order(front, expert, k, m);
        let (i, j) = choose|i: int, j: int|
            #![trigger front[i], front[j]]
            0 <= i < j < front.len() && stands(front[i], expert, before[k]) && stands(
                front[j],
                expert,
                before[m],
            );
        assert(accesses[i] == front[i] && accesses[j] == front[j]);
    } else {
        let i = lemma_place_stands(front, expert, k);
        assert(accesses[i] == front[i]);
        assert(stands(accesses[accesses.len() - 1], expert, positions_of(accesses, expert)[m]));
    }
}

proof fn lemma_place_stands(accesses: Seq<Access>, expert: usize, k: int) -> (i: int)
    requires
        0 <= k < positions_of(accesses, expert).len(),
    ensures
        0 <= i < accesses.len(),
        stands(accesses[i], expert, positions_of(accesses, expert)[k]),
    decreases accesses.len(),
{
    let front = accesses.drop_last();
    if k < positions_of(front, expert).len() {
        let i = lemma_place_stands(front, expert, k);
        assert(accesses[i] == front[i]);
        i
    } else {
        accesses.len() - 1
    }
}

/// Whatever the order of the groups, the result of every route is one of the results of its own expert:
/// that of the place that stands for the route.
pub proof fn results_return_to_their_routes(
    ids: Seq<Seq<usize>>,
    groups: Seq<GroupView>,
    values: Seq<Seq<Seq<u32>>>,
    output: Seq<Seq<Seq<u32>>>,
    token: int,
    route: int,
)
    requires
        ids.len() <= usize::MAX,
        forall|t: int| 0 <= t < ids.len() ==> (#[trigger] ids[t]).len() <= usize::MAX,
        groups == grouped_by_first_use(all_accesses(ids)) || groups == grouped_by_last_use(
            all_accesses(ids),
        ),
        scattered(groups, values, ids, output),
        0 <= token < ids.len(),
        0 <= route < ids[token].len(),
    ensures
        output.len() == ids.len(),
        output[token].len() == ids[token].len(),
        exists|g: int, k: int|
            0 <= g < groups.len() && 0 <= k < groups[g].positions.len()
                && #[trigger] groups[g].positions[k] == (token as usize, route as usize)
                && groups[g].expert == ids[token][route] && output[token][route] == values[g][k],
{
    let all = all_accesses(ids);
    let used = experts_used(all);
    recency::first_use_lists_each_value_once(used);
    recency::last_use_lists_each_value_once(used);
    let order = if groups == grouped_by_first_use(all) {
        recency::by_first_use(used)
    } else {
        recency::by_last_use(used)
    };
    assert(groups == grouped(all, order));
    groups_partition_the_routes(ids, order);
    assert(holds_place(groups, token, route));
    let (g, k) = choose|g: int, k: int|
        0 <= g < groups.len() && 0 <= k < groups[g].positions.len()
            && #[trigger] groups[g].positions[k] == (token as usize, route as usize);
    assert(grouped(all, order)[g].positions[k] == (token as usize, route as usize));
    assert(output[groups[g].positions[k].0 as int][groups[g].positions[k].1 as int]
        == values[g][k]);
    assert(groups[g].expert == order[g]);
}

} // verus!
