//! Fetching decoder layers ahead: which layers are queued while one runs, and which of them is
//! taken next.

use super::runtime::DeepseekRuntimeError;
use super::runtime;
use crate::recency::{holds, position_of};
use crate::text::push_decimal;
use crate::{accounting, residency, text};
use vstd::prelude::*;
use vstd::string::*;

verus! {

/// The layers from `from` to below `to` that are not cached, in order.
pub open spec fn uncached(cached: Seq<bool>, from: nat, to: nat) -> Seq<usize>
    decreases to - from,
{
    if from >= to {
        Seq::empty()
    } else if cached[from as int] {
        uncached(cached, from + 1, to)
    } else {
        seq![from as usize] + uncached(cached, from + 1, to)
    }
}

/// One behind the last layer that is fetched while layer `current` runs.
pub open spec fn lookahead_end(current: usize, depth: usize, layers: nat) -> nat {
    accounting::smaller(current + depth + 1, layers as int) as nat
}

/// What is taken for the next layer.
#[derive(Debug, Clone, Copy, PartialEq, Eq, Structural)]
pub enum NextLayer {
    /// There is no further layer.
    Done,
    /// It is cached.
    Cached,
    /// It stands at this place of the queue, and leaves it.
    Queued(usize),
}

/// The layers that are being loaded, in the order in which they were queued.
#[derive(Debug)]
pub struct LayerQueue {
    pending: Vec<usize>,
}

impl View for LayerQueue {
    type V = Seq<usize>;

    closed spec fn view(&self) -> Seq<usize> {
        self.pending@
    }
}

proof fn lemma_uncached_last(cached: Seq<bool>, from: nat, to: nat)
    requires
        from <= to,
    ensures
        uncached(cached, from, to + 1) == if cached[to as int] {
            uncached(cached, from, to)
        } else {
            uncached(cached, from, to).push(to as usize)
        },
    decreases to - from,
{
    if from < to {
        lemma_uncached_last(cached, from + 1, to);
        if !cached[from as int] && !cached[to as int] {
            assert(seq![from as usize] + uncached(cached, from + 1, to).push(to as usize) =~= (
            seq![from as usize] + uncached(cached, from + 1, to)).push(to as usize));
        }
    } else {
        assert(uncached(cached, from + 1, to + 1) =~= Seq::<usize>::empty());
        assert(uncached(cached, from, to) =~= Seq::<usize>::empty());
        assert(seq![from as usize] + Seq::<usize>::empty() =~= Seq::<usize>::empty().push(
            to as usize,
        ));
    }
}

proof fn lemma_uncached_within(cached: Seq<bool>, from: nat, to: nat)
    requires
        to <= usize::MAX,
    ensures
        forall|i: int|
            0 <= i < uncached(cached, from, to).len() ==> from <= #[trigger] uncached(
                cached,
                from,
                to,
            )[i] < to && !cached[uncached(cached, from, to)[i] as int],
        forall|layer: usize|
            from <= layer < to && !cached[layer as int] ==> #[trigger] uncached(
                cached,
                from,
                to,
            ).contains(layer),
    decreases to - from,
{
    let list = uncached(cached, from, to);
    if from < to {
        lemma_uncached_within(cached, from + 1, to);
        let rest = uncached(cached, from + 1, to);
        assert forall|i: int| 0 <= i < list.len() implies from <= #[trigger] list[i] < to
            && !cached[list[i] as int] by {
            if !cached[from as int] {
                if i > 0 {
                    assert(list[i] == rest[i - 1]);
                }
            }
        }
        assert forall|layer: usize|
            from <= layer < to && !cached[layer as int] implies #[trigger] list.contains(
            layer,
        ) by {
            if layer == from {
                assert(list[0] == layer);
            } else {
                assert(rest.contains(layer));
                let i = choose|i: int| 0 <= i < rest.len() && rest[i] == layer;
                if cached[from as int] {
                    assert(list[i] == layer);
                } else {
                    assert(list[i + 1] == layer);
                }
            }
        }
    }
}

/// Of the layers up to `last`, those up to `middle` are queued: then what is queued anew are the
/// others, and together they are all of them.
proof fn lemma_queue_grows(cached: Seq<bool>, from: nat, middle: nat, last: nat)
    requires
        from <= middle <= last <= usize::MAX,
    ensures
        residency::absent(uncached(cached, from, middle), uncached(cached, from, last))
            == uncached(cached, middle, last),
        uncached(cached, from, middle) + uncached(cached, middle, last) == uncached(
            cached,
            from,
            last,
        ),
    decreases last - middle,
{
    let queued = uncached(cached, from, middle);
    if middle < last {
        let before = (last - 1) as nat;
        lemma_queue_grows(cached, from, middle, before);
        lemma_uncached_last(cached, from, before);
        lemma_uncached_last(cached, middle, before);
        if !cached[before as int] {
            let list = uncached(cached, from, last);
            assert(list.drop_last() =~= uncached(cached, from, before));
            lemma_uncached_within(cached, from, middle);
            assert(!queued.contains(before as usize)) by {
                if queued.contains(before as usize) {
                    let i = choose|i: int|
                        0 <= i < queued.len() && queued[i] == before as usize;
                    assert(queued[i] < middle);
                }
            }
            assert(queued + uncached(cached, middle, before).push(before as usize) =~= (queued
                + uncached(cached, middle, before)).push(before as usize));
        }
    } else {
        lemma_absent_self(queued, queued);
        assert(uncached(cached, middle, last) =~= Seq::<usize>::empty());
        assert(queued + Seq::<usize>::empty() =~= queued);
    }
}

proof fn lemma_absent_self(held: Seq<usize>, list: Seq<usize>)
    requires
        forall|i: int| 0 <= i < list.len() ==> held.contains(#[trigger] list[i]),
    ensures
        residency::absent(held, list) =~= Seq::<usize>::empty(),
    decreases list.len(),
{
    if list.len() > 0 {
        assert(held.contains(list[list.len() - 1]));
        lemma_absent_self(held, list.drop_last());
    }
}

/// While layer `current` is about to run, the queue holds the layers behind it that are not cached,
/// up to one that its predecessors reached.
pub open spec fn ready(
    pending: Seq<usize>,
    cached: Seq<bool>,
    current: usize,
    depth: usize,
) -> bool {
    exists|reached: nat|
        current + 1 <= reached <= accounting::smaller(current + depth, cached.len() as int)
            && pending == #[trigger] uncached(cached, (current + 1) as nat, reached)
}

pub open spec fn lost_message(layer: usize) -> Seq<char> {
    "decoder layer "@ + text::decimal(layer as nat) + " was neither cached nor queued"@
}

impl LayerQueue {
    pub fn new() -> (queue: Self)
        ensures
            queue@ == Seq::<usize>::empty(),
    {
        LayerQueue { pending: Vec::new() }
    }

    /// Queues the layers behind `current`, as far as the depth reaches, that are neither cached nor
    /// queued, and returns them.
    pub fn fill(&mut self, current: usize, cached: &Vec<bool>, depth: usize) -> (queued: Vec<usize>)
        ensures
            queued@ == residency::absent(
                old(self)@,
                uncached(
                    cached@,
                    (current + 1) as nat,
                    lookahead_end(current, depth, cached@.len()),
                ),
            ),
            final(self)@ == old(self)@ + queued@,
    {
        let ghost before = self@;
        let layers = cached.len();
        let reach = current.saturating_add(depth);
        let end: usize = if reach < layers {
            reach + 1
        } else {
            layers
        };
        let mut queued: Vec<usize> = Vec::new();
        if current >= end {
            proof {
                assert(uncached(
                    cached@,
                    (current + 1) as nat,
                    lookahead_end(current, depth, cached@.len()),
                ) =~= Seq::<usize>::empty());
                assert(self@ =~= before + queued@);
            }
            return queued;
        }
        let mut layer: usize = current + 1;
        proof {
            assert(uncached(cached@, (current + 1) as nat, layer as nat) =~= Seq::<usize>::empty());
            assert(self@ =~= before + queued@);
        }
        while layer < end
            invariant
                before == old(self)@,
                current < layer <= end <= cached@.len(),
                queued@ == residency::absent(
                    before,
                    uncached(cached@, (current + 1) as nat, layer as nat),
                ),
                self@ == before + queued@,
            decreases end - layer,
        {
            proof {
                lemma_uncached_last(cached@, (current + 1) as nat, layer as nat);
            }
            if !cached[layer] {
                let ghost list = uncached(cached@, (current + 1) as nat, (layer + 1) as nat);
                proof {
                    assert(list.drop_last() =~= uncached(
                        cached@,
                        (current + 1) as nat,
                        layer as nat,
                    ));
                    lemma_fresh(before, cached@, (current + 1) as nat, layer as nat);
                }
                if !holds(&self.pending, layer) {
                    proof {
                        assert(!before.contains(layer)) by {
                            if before.contains(layer) {
                                let i = choose|i: int|
                                    0 <= i < before.len() && before[i] == layer;
                                assert(self@[i] == layer);
                            }
                        }
                    }
                    self.pending.push(layer);
                    queued.push(layer);
                    assert(self@ =~= before + queued@);
                } else {
                    proof {
                        let i = choose|i: int| 0 <= i < self@.len() && self@[i] == layer;
                        if i >= before.len() {
                            assert(queued@[i - before.len()] == layer);
                            assert(queued@.contains(layer));
                        }
                        assert(before.contains(layer));
                    }
                }
            }
            layer = layer + 1;
        }
        queued
    }

    /// Takes the next layer: from the cache, or out of the queue.
    pub fn take(&mut self, layer: usize, cached: &Vec<bool>) -> (result: Result<
        NextLayer,
        DeepseekRuntimeError,
    >)
        ensures
            match result {
                Ok(NextLayer::Done) => layer >= cached@.len() && final(self)@ == old(self)@,
                Ok(NextLayer::Cached) => layer < cached@.len() && cached@[layer as int]
                    && final(self)@ == old(self)@,
                Ok(NextLayer::Queued(at)) => {
                    &&& layer < cached@.len() && !cached@[layer as int]
                    &&& at < old(self)@.len()
                    &&& old(self)@[at as int] == layer
                    &&& !old(self)@.take(at as int).contains(layer)
                    &&& final(self)@ == old(self)@.remove(at as int)
                },
                Err(error) => {
                    &&& layer < cached@.len() && !cached@[layer as int]
                    &&& !old(self)@.contains(layer)
                    &&& error@ == runtime::RuntimeProblem::Invalid(lost_message(layer))
                    &&& final(self)@ == old(self)@
                },
            },
    {
        if layer >= cached.len() {
            return Ok(NextLayer::Done);
        }
        if cached[layer] {
            return Ok(NextLayer::Cached);
        }
        match position_of(&self.pending, layer) {
            Some(at) => {
                self.pending.remove(at);
                Ok(NextLayer::Queued(at))
            },
            None => {
                let mut reason = "decoder layer ".to_owned();
                push_decimal(&mut reason, layer as u64);
                reason.append(" was neither cached nor queued");
                Err(DeepseekRuntimeError::Invalid(reason))
            },
        }
    }

    /// Empties the queue, whose loads the caller awaits: the layers that were queued, in order.
    pub fn drain(&mut self) -> (layers: Vec<usize>)
        ensures
            layers@ == old(self)@,
            final(self)@ == Seq::<usize>::empty(),
    {
        let mut layers: Vec<usize> = Vec::new();
        layers.append(&mut self.pending);
        layers
    }
}

proof fn lemma_fresh(before: Seq<usize>, cached: Seq<bool>, from: nat, layer: nat)
    requires
        layer <= usize::MAX,
    ensures
        !residency::absent(before, uncached(cached, from, layer)).contains(layer as usize),
{
    let list = uncached(cached, from, layer);
    lemma_uncached_within(cached, from, layer);
    lemma_absent_within(before, list);
    let fresh = residency::absent(before, list);
    if fresh.contains(layer as usize) {
        let i = choose|i: int| 0 <= i < fresh.len() && fresh[i] == layer as usize;
        assert(list.contains(fresh[i]));
        let j = choose|j: int| 0 <= j < list.len() && list[j] == fresh[i];
        assert(list[j] < layer);
    }
}

proof fn lemma_absent_within(held: Seq<usize>, list: Seq<usize>)
    ensures
        forall|i: int|
            0 <= i < residency::absent(held, list).len() ==> list.contains(
                #[trigger] residency::absent(held, list)[i],
            ),
    decreases list.len(),
{
    if list.len() > 0 {
        let front = list.drop_last();
        lemma_absent_within(held, front);
        let all = residency::absent(held, list);
        assert forall|i: int| 0 <= i < all.len() implies list.contains(#[trigger] all[i]) by {
            let before = residency::absent(held, front);
            if i < before.len() {
                assert(all[i] == before[i]);
                assert(front.contains(before[i]));
                let j = choose|j: int| 0 <= j < front.len() && front[j] == before[i];
                assert(list[j] == all[i]);
            } else {
                assert(list[list.len() - 1] == all[i]);
            }
        }
    }
}

/// Whether a loaded layer is kept: it is one of the leading layers that the budget keeps.
pub fn retain_layer(cached: &mut Vec<bool>, layer: usize, limit: usize) -> (kept: bool)
    requires
        layer < old(cached)@.len(),
    ensures
        kept == (layer < limit && !old(cached)@[layer as int]),
        final(cached)@ == if layer < limit {
            old(cached)@.update(layer as int, true)
        } else {
            old(cached)@
        },
{
    if layer < limit && !cached[layer] {
        cached.set(layer, true);
        true
    } else {
        proof {
            if layer < limit {
                assert(cached@ =~= cached@.update(layer as int, true));
            }
        }
        false
    }
}

/// Fetching ahead never loses a layer: where the queue is filled before every layer and looks ahead
/// by one layer at least, the layer that runs next is cached or stands first in the queue, and
/// behind the last layer the queue is empty. The next layer may be cached once it has been taken.
pub proof fn the_next_layer_is_at_hand(
    pending: Seq<usize>,
    cached: Seq<bool>,
    current: usize,
    depth: usize,
    kept: bool,
)
    requires
        depth > 0,
        current < cached.len() <= usize::MAX,
        ready(pending, cached, current, depth),
    ensures
        ({
            let next = (current + 1) as usize;
            let filled = pending + residency::absent(
                pending,
                uncached(
                    cached,
                    (current + 1) as nat,
                    lookahead_end(current, depth, cached.len()),
                ),
            );
            if next >= cached.len() {
                filled.len() == 0
            } else if cached[next as int] {
                ready(filled, cached, next, depth)
            } else {
                &&& filled.len() > 0 && filled[0] == next
                &&& ready(filled.remove(0), cached, next, depth)
                &&& ready(filled.remove(0), cached.update(next as int, kept), next, depth)
            }
        }),
{
    let next = (current + 1) as nat;
    let reached = choose|reached: nat|
        current + 1 <= reached <= accounting::smaller(current + depth, cached.len() as int)
            && pending == #[trigger] uncached(cached, (current + 1) as nat, reached);
    let end = lookahead_end(current, depth, cached.len());
    lemma_queue_grows(cached, next, reached, end);
    let filled = pending + residency::absent(pending, uncached(cached, next, end));
    assert(filled == uncached(cached, next, end));
    if next < cached.len() {
        if !cached[next as int] {
            assert(filled.remove(0) =~= uncached(cached, next + 1, end));
            lemma_uncached_ignores(cached, next as int, kept, next + 1, end);
            assert(filled.remove(0) == uncached(
                cached.update(next as int, kept),
                next + 1,
                end,
            ));
        } else {
            assert(filled == uncached(cached, next + 1, end));
        }
    } else {
        assert(uncached(cached, next, end) =~= Seq::<usize>::empty());
    }
}

proof fn lemma_uncached_ignores(cached: Seq<bool>, at: int, value: bool, from: nat, to: nat)
    requires
        0 <= at < from,
        to <= cached.len(),
    ensures
        uncached(cached.update(at, value), from, to) == uncached(cached, from, to),
    decreases to - from,
{
    if from < to {
        lemma_uncached_ignores(cached, at, value, from + 1, to);
    }
}

/// An empty queue is ready for the first layer.
pub proof fn an_empty_queue_is_ready(cached: Seq<bool>, depth: usize)
    requires
        depth > 0,
        cached.len() > 0,
    ensures
        ready(Seq::empty(), cached, 0, depth),
{
    let current: usize = 0;
    assert(uncached(cached, (current + 1) as nat, 1) =~= Seq::<usize>::empty());
}

/// The layers that are looked ahead to are those behind the current one that are not cached, no
/// farther than the depth and each once, in order.
pub proof fn the_lookahead_lists_what_is_not_cached(
    cached: Seq<bool>,
    current: usize,
    depth: usize,
    layer: usize,
    i: int,
    j: int,
)
    requires
        cached.len() <= usize::MAX,
    ensures
        ({
            let list = uncached(
                cached,
                (current + 1) as nat,
                lookahead_end(current, depth, cached.len()),
            );
            &&& list.contains(layer) <==> current < layer <= current + depth && layer < cached.len()
                && !cached[layer as int]
            &&& 0 <= i < j < list.len() ==> list[i] < list[j]
        }),
{
    lemma_listed(cached, (current + 1) as nat, lookahead_end(current, depth, cached.len()), layer);
    lemma_ascending(
        cached,
        (current + 1) as nat,
        lookahead_end(current, depth, cached.len()),
        i,
        j,
    );
}

proof fn lemma_listed(cached: Seq<bool>, from: nat, to: nat, layer: usize)
    requires
        to <= cached.len() <= usize::MAX,
    ensures
        uncached(cached, from, to).contains(layer) <==> from <= layer < to && !cached[layer as int],
    decreases to - from,
{
    let list = uncached(cached, from, to);
    if from < to {
        let rest = uncached(cached, from + 1, to);
        lemma_listed(cached, from + 1, to, layer);
        if !cached[from as int] {
            assert(list[0] == from);
            if rest.contains(layer) {
                let at = choose|at: int| 0 <= at < rest.len() && rest[at] == layer;
                assert(list[at + 1] == layer);
            }
            if list.contains(layer) && layer != from {
                let at = choose|at: int| 0 <= at < list.len() && list[at] == layer;
                assert(rest[at - 1] == layer);
            }
        }
    }
}

proof fn lemma_ascending(cached: Seq<bool>, from: nat, to: nat, i: int, j: int)
    requires
        to <= cached.len() <= usize::MAX,
    ensures
        0 <= i < j < uncached(cached, from, to).len() ==> uncached(cached, from, to)[i] < uncached(
            cached,
            from,
            to,
        )[j],
    decreases to - from,
{
    let list = uncached(cached, from, to);
    if from < to && 0 <= i < j < list.len() {
        let rest = uncached(cached, from + 1, to);
        if cached[from as int] {
            lemma_ascending(cached, from + 1, to, i, j);
        } else {
            if i == 0 {
                assert(rest.contains(rest[j - 1]));
                lemma_listed(cached, from + 1, to, rest[j - 1]);
            } else {
                lemma_ascending(cached, from + 1, to, i - 1, j - 1);
            }
        }
    }
}

} // verus!
