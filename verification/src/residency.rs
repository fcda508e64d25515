//! Which experts stay loaded: a least-recently-used cache for every layer, with its counters.
//!
//! The cache keeps the identity, order and size of what is resident. The weights themselves lie
//! with the caller, who drops what the cache evicts.

use crate::recency;
use vstd::prelude::*;

verus! {

/// Counters of expert accesses, and what is resident now.
#[derive(Debug, Clone, Copy, PartialEq, Eq, Structural)]
pub struct ExpertTelemetry {
    pub hits: u64,
    pub misses: u64,
    pub evictions: u64,
    pub bytes_read: u64,
    pub resident_experts: usize,
    pub resident_bytes: u64,
}

impl Default for ExpertTelemetry {
    fn default() -> (telemetry: Self)
        ensures
            telemetry == no_telemetry(),
    {
        ExpertTelemetry {
            hits: 0,
            misses: 0,
            evictions: 0,
            bytes_read: 0,
            resident_experts: 0,
            resident_bytes: 0,
        }
    }
}

/// Counters that have counted nothing.
pub open spec fn no_telemetry() -> ExpertTelemetry {
    ExpertTelemetry {
        hits: 0,
        misses: 0,
        evictions: 0,
        bytes_read: 0,
        resident_experts: 0,
        resident_bytes: 0,
    }
}

/// A count that stops at the largest value.
pub open spec fn saturated(count: int) -> u64 {
    if count > u64::MAX {
        u64::MAX
    } else {
        count as u64
    }
}

/// A difference that stops at zero.
pub open spec fn floored(difference: int) -> int {
    if difference < 0 {
        0
    } else {
        difference
    }
}

pub open spec fn saturated_size(count: int) -> usize {
    if count > usize::MAX {
        usize::MAX
    } else {
        count as usize
    }
}

impl ExpertTelemetry {
    /// All accesses.
    pub open spec fn total(self) -> int {
        self.hits + self.misses
    }

    /// The counters behind `count` more hits.
    pub open spec fn with_hits(self, count: int) -> ExpertTelemetry {
        ExpertTelemetry { hits: saturated(self.hits + count), ..self }
    }

    /// The counters behind a miss that read `read` bytes.
    pub open spec fn with_miss(self, read: u64) -> ExpertTelemetry {
        ExpertTelemetry {
            misses: saturated(self.misses + 1),
            bytes_read: saturated(self.bytes_read + read),
            ..self
        }
    }

    /// The counters behind the eviction of an expert of this size.
    pub open spec fn with_eviction(self, bytes: u64) -> ExpertTelemetry {
        ExpertTelemetry {
            evictions: saturated(self.evictions + 1),
            resident_experts: floored(self.resident_experts - 1) as usize,
            resident_bytes: floored(self.resident_bytes - bytes) as u64,
            ..self
        }
    }

    /// The counters once an expert of this size is resident.
    pub open spec fn with_resident(self, bytes: u64) -> ExpertTelemetry {
        ExpertTelemetry {
            resident_experts: saturated_size(self.resident_experts + 1),
            resident_bytes: saturated(self.resident_bytes + bytes),
            ..self
        }
    }

    /// The counters behind the eviction of each of these, in order.
    pub open spec fn with_evictions(self, evicted: Seq<Resident>) -> ExpertTelemetry
        decreases evicted.len(),
    {
        if evicted.len() == 0 {
            self
        } else {
            self.with_evictions(evicted.drop_last()).with_eviction(evicted.last().bytes)
        }
    }

    /// How many accesses there were.
    pub fn accesses(&self) -> (count: u64)
        ensures
            count == saturated(self.total()),
    {
        self.hits.saturating_add(self.misses)
    }

    pub fn count_hits(&mut self, count: u64)
        ensures
            *final(self) == old(self).with_hits(count as int),
    {
        self.hits = self.hits.saturating_add(count);
    }

    fn count_miss(&mut self, read: u64)
        ensures
            *final(self) == old(self).with_miss(read),
    {
        self.misses = self.misses.saturating_add(1);
        self.bytes_read = self.bytes_read.saturating_add(read);
    }

    fn count_eviction(&mut self, bytes: u64)
        ensures
            *final(self) == old(self).with_eviction(bytes),
    {
        self.evictions = self.evictions.saturating_add(1);
        self.resident_experts = self.resident_experts.saturating_sub(1);
        self.resident_bytes = self.resident_bytes.saturating_sub(bytes);
    }

    fn count_resident(&mut self, bytes: u64)
        ensures
            *final(self) == old(self).with_resident(bytes),
    {
        self.resident_experts = self.resident_experts.saturating_add(1);
        self.resident_bytes = self.resident_bytes.saturating_add(bytes);
    }
}

/// A resident expert and its size.
#[derive(Debug, Clone, Copy, PartialEq, Eq, Structural)]
pub struct Resident {
    pub expert: usize,
    pub bytes: u64,
}

/// The experts of a list of residents.
pub open spec fn keys(list: Seq<Resident>) -> Seq<usize> {
    Seq::new(list.len(), |i: int| list[i].expert)
}

/// One layer behind an access: a resident expert becomes the most recent; another takes a place
/// where the layer has any, the least recent leaving if all are taken.
pub open spec fn after_access(
    list: Seq<Resident>,
    expert: usize,
    bytes: u64,
    capacity: nat,
) -> Seq<Resident> {
    if keys(list).contains(expert) {
        let at = keys(list).index_of(expert);
        list.remove(at).push(list[at])
    } else if capacity == 0 {
        list
    } else if list.len() < capacity {
        list.push(Resident { expert, bytes })
    } else {
        list.skip(1).push(Resident { expert, bytes })
    }
}

/// The counters behind an access.
pub open spec fn count_access(
    telemetry: ExpertTelemetry,
    list: Seq<Resident>,
    expert: usize,
    bytes: u64,
    read: u64,
    capacity: nat,
) -> ExpertTelemetry {
    if keys(list).contains(expert) {
        telemetry.with_hits(1)
    } else if capacity == 0 {
        telemetry.with_miss(read)
    } else if list.len() < capacity {
        telemetry.with_miss(read).with_resident(bytes)
    } else {
        telemetry.with_miss(read).with_eviction(list[0].bytes).with_resident(bytes)
    }
}

/// What an access evicts.
pub open spec fn evicted_by(list: Seq<Resident>, expert: usize, capacity: nat) -> Option<
    Resident,
> {
    if keys(list).contains(expert) || capacity == 0 || list.len() < capacity {
        None
    } else {
        Some(list[0])
    }
}

/// The experts of a request that are not resident, each once, in order of first use.
pub open spec fn missing(list: Seq<Resident>, experts: Seq<usize>) -> Seq<usize> {
    absent(keys(list), recency::by_first_use(experts))
}

/// The values of `list` that `held` does not hold.
pub open spec fn absent(held: Seq<usize>, list: Seq<usize>) -> Seq<usize>
    decreases list.len(),
{
    if list.len() == 0 {
        list
    } else if held.contains(list.last()) {
        absent(held, list.drop_last())
    } else {
        absent(held, list.drop_last()).push(list.last())
    }
}

/// The resident experts and the capacity of one layer.
#[derive(Debug)]
struct Layer {
    residents: Vec<Resident>,
    capacity: usize,
}

/// One layer, over plain values.
#[verifier::ext_equal]
pub struct LayerView {
    pub residents: Seq<Resident>,
    pub capacity: nat,
}

impl LayerView {
    /// No expert occurs twice, and none is held beyond the capacity.
    pub open spec fn well_formed(self) -> bool {
        &&& keys(self.residents).no_duplicates()
        &&& self.residents.len() <= self.capacity
    }

    /// The layer behind an access.
    pub open spec fn after_access(self, expert: usize, bytes: u64) -> LayerView {
        LayerView {
            residents: after_access(self.residents, expert, bytes, self.capacity),
            capacity: self.capacity,
        }
    }

    /// Whether every expert of a request is resident or finds a free place.
    pub open spec fn fits(self, experts: Seq<usize>) -> bool {
        self.residents.len() + missing(self.residents, experts).len() <= self.capacity
    }
}

/// A least-recently-used cache of experts for every layer.
#[derive(Debug)]
pub struct LayerLruCache {
    layers: Vec<Layer>,
}

impl View for LayerLruCache {
    type V = Seq<LayerView>;

    closed spec fn view(&self) -> Seq<LayerView> {
        Seq::new(
            self.layers@.len(),
            |i: int|
                LayerView {
                    residents: self.layers@[i].residents@,
                    capacity: self.layers@[i].capacity as nat,
                },
        )
    }
}

/// Every layer is well-formed.
pub open spec fn layers_well_formed(layers: Seq<LayerView>) -> bool {
    forall|i: int| 0 <= i < layers.len() ==> (#[trigger] layers[i]).well_formed()
}

proof fn lemma_keys(list: Seq<Resident>, at: int)
    requires
        0 <= at < list.len(),
        keys(list).no_duplicates(),
    ensures
        keys(list).contains(list[at].expert),
        keys(list).index_of(list[at].expert) == at,
{
    assert(keys(list)[at] == list[at].expert);
    let found = keys(list).index_of(list[at].expert);
    assert(keys(list)[found] == list[at].expert);
}

/// An access keeps a layer well-formed and changes its experts as a least-recently-used cache of
/// that capacity does.
pub proof fn access_keeps_the_most_recent(layer: LayerView, expert: usize, bytes: u64)
    requires
        layer.well_formed(),
    ensures
        layer.after_access(expert, bytes).well_formed(),
        keys(layer.after_access(expert, bytes).residents) == recency::after_use(
            keys(layer.residents),
            expert,
            layer.capacity,
        ),
{
    let list = layer.residents;
    let before = keys(list);
    let after = layer.after_access(expert, bytes).residents;
    if before.contains(expert) {
        let at = before.index_of(expert);
        assert(before[at] == expert);
        recency::lemma_remove(before, at);
        assert(keys(after) =~= before.remove(at).push(expert));
        recency::lemma_without(before, expert);
    } else if layer.capacity > 0 {
        if list.len() < layer.capacity {
            assert(keys(after) =~= before.push(expert));
        } else {
            assert(keys(after) =~= before.skip(1).push(expert));
        }
    }
    assert(keys(after).no_duplicates()) by {
        assert forall|i: int, j: int|
            0 <= i < keys(after).len() && 0 <= j < keys(after).len() && i != j implies keys(
            after,
        )[i] != keys(after)[j] by {
            if before.contains(expert) {
                let at = before.index_of(expert);
                let rest = recency::without(before, expert);
                assert(rest == before.remove(at));
                if i < rest.len() {
                    assert(rest.contains(rest[i]));
                }
                if j < rest.len() {
                    assert(rest.contains(rest[j]));
                }
            } else if layer.capacity > 0 && list.len() >= layer.capacity {
                if i < before.len() - 1 {
                    assert(keys(after)[i] == before[i + 1]);
                }
                if j < before.len() - 1 {
                    assert(keys(after)[j] == before[j + 1]);
                }
            } else if layer.capacity > 0 {
                if i < before.len() {
                    assert(keys(after)[i] == before[i]);
                }
                if j < before.len() {
                    assert(keys(after)[j] == before[j]);
                }
            }
        }
    }
}

proof fn lemma_absent(held: Seq<usize>, list: Seq<usize>)
    requires
        list.no_duplicates(),
    ensures
        absent(held, list).no_duplicates(),
        forall|value: usize|
            #[trigger] absent(held, list).contains(value) <==> list.contains(value)
                && !held.contains(value),
    decreases list.len(),
{
    if list.len() > 0 {
        let front = list.drop_last();
        let last = list.last();
        let before = absent(held, front);
        let all = absent(held, list);
        assert forall|i: int, j: int|
            0 <= i < front.len() && 0 <= j < front.len() && i != j implies front[i]
            != front[j] by {
            assert(list[i] != list[j]);
        }
        lemma_absent(held, front);
        assert(!front.contains(last)) by {
            if front.contains(last) {
                let i = choose|i: int| 0 <= i < front.len() && front[i] == last;
                assert(list[i] != list[list.len() - 1]);
            }
        }
        assert forall|value: usize| #[trigger] all.contains(value) <==> list.contains(value)
            && !held.contains(value) by {
            assert(list.contains(value) <==> front.contains(value) || value == last) by {
                if list.contains(value) {
                    let i = choose|i: int| 0 <= i < list.len() && list[i] == value;
                    if i < front.len() {
                        assert(front[i] == value);
                    }
                }
                if front.contains(value) {
                    let i = choose|i: int| 0 <= i < front.len() && front[i] == value;
                    assert(list[i] == value);
                }
                assert(list[list.len() - 1] == last);
            }
            if held.contains(last) {
                assert(all == before);
            } else {
                recency::lemma_push(before, last);
                assert(all == before.push(last));
                if all.contains(value) {
                    let i = choose|i: int| 0 <= i < all.len() && all[i] == value;
                    if i < before.len() {
                        assert(before[i] == value);
                    }
                }
                if before.contains(value) {
                    let i = choose|i: int| 0 <= i < before.len() && before[i] == value;
                    assert(all[i] == value);
                }
                assert(all[all.len() - 1] == last);
            }
        }
        assert forall|i: int, j: int|
            0 <= i < all.len() && 0 <= j < all.len() && i != j implies all[i] != all[j] by {
            if !held.contains(last) {
                assert(!before.contains(last));
                if i < before.len() {
                    assert(before.contains(before[i]));
                }
                if j < before.len() {
                    assert(before.contains(before[j]));
                }
            }
        }
    }
}

/// What a request misses is what it uses and the layer does not hold, each once.
pub proof fn missing_lists_each_once(list: Seq<Resident>, experts: Seq<usize>)
    ensures
        missing(list, experts).no_duplicates(),
        forall|value: usize|
            #[trigger] missing(list, experts).contains(value) <==> experts.contains(value)
                && !keys(list).contains(value),
{
    recency::first_use_lists_each_value_once(experts);
    lemma_absent(keys(list), recency::by_first_use(experts));
}

/// No more is missing than is asked for.
pub proof fn missing_is_no_longer(list: Seq<Resident>, experts: Seq<usize>)
    ensures
        missing(list, experts).len() <= experts.len(),
{
    lemma_absent_len(keys(list), recency::by_first_use(experts));
    recency::lemma_first_use_len(experts);
}

proof fn lemma_absent_len(held: Seq<usize>, list: Seq<usize>)
    ensures
        absent(held, list).len() <= list.len(),
    decreases list.len(),
{
    if list.len() > 0 {
        lemma_absent_len(held, list.drop_last());
    }
}

impl LayerLruCache {
    pub open spec fn well_formed(&self) -> bool {
        layers_well_formed(self@)
    }

    /// Empty layers of this capacity.
    pub fn new(layers: usize, capacity: usize) -> (cache: Self)
        ensures
            cache.well_formed(),
            cache@ == Seq::new(
                layers as nat,
                |i: int| LayerView { residents: Seq::empty(), capacity: capacity as nat },
            ),
    {
        let mut list: Vec<Layer> = Vec::new();
        let mut index: usize = 0;
        while index < layers
            invariant
                index <= layers,
                list@.len() == index,
                forall|i: int|
                    0 <= i < index ==> (#[trigger] list@[i]).residents@ == Seq::<Resident>::empty()
                        && list@[i].capacity == capacity,
            decreases layers - index,
        {
            list.push(Layer { residents: Vec::new(), capacity });
            index = index + 1;
        }
        let cache = LayerLruCache { layers: list };
        proof {
            let wanted = Seq::new(
                layers as nat,
                |i: int| LayerView { residents: Seq::empty(), capacity: capacity as nat },
            );
            assert forall|i: int| 0 <= i < layers implies cache@[i] == wanted[i] by {
                assert(list@[i].residents@ == Seq::<Resident>::empty());
            }
            assert(cache@ =~= wanted);
        }
        cache
    }

    fn position(&self, layer: usize, expert: usize) -> (found: Option<usize>)
        requires
            self.well_formed(),
            layer < self@.len(),
        ensures
            match found {
                Some(at) => at < self@[layer as int].residents.len() && keys(
                    self@[layer as int].residents,
                ).contains(expert) && keys(self@[layer as int].residents).index_of(expert) == at
                    && self@[layer as int].residents[at as int].expert == expert,
                None => !keys(self@[layer as int].residents).contains(expert),
            },
    {
        let list = &self.layers[layer].residents;
        let mut index: usize = 0;
        proof {
            assert(self@[layer as int].well_formed());
        }
        while index < list.len()
            invariant
                index <= list@.len(),
                keys(list@).no_duplicates(),
                self@[layer as int].residents == list@,
                forall|i: int| 0 <= i < index ==> (#[trigger] list@[i]).expert != expert,
            decreases list@.len() - index,
        {
            if list[index].expert == expert {
                proof {
                    lemma_keys(list@, index as int);
                }
                return Some(index);
            }
            index = index + 1;
        }
        proof {
            if keys(list@).contains(expert) {
                let i = keys(list@).index_of(expert);
                assert(list@[i].expert == expert);
            }
        }
        None
    }

    /// Whether an expert is resident.
    pub fn contains(&self, layer: usize, expert: usize) -> (held: bool)
        requires
            self.well_formed(),
            layer < self@.len(),
        ensures
            held == keys(self@[layer as int].residents).contains(expert),
    {
        self.position(layer, expert).is_some()
    }

    pub fn layer_is_empty(&self, layer: usize) -> (empty: bool)
        requires
            layer < self@.len(),
        ensures
            empty == (self@[layer as int].residents.len() == 0),
    {
        self.layers[layer].residents.len() == 0
    }

    pub fn layer_capacity(&self, layer: usize) -> (capacity: usize)
        requires
            layer < self@.len(),
        ensures
            capacity == self@[layer as int].capacity,
    {
        self.layers[layer].capacity
    }

    pub fn layer_count(&self) -> (count: usize)
        ensures
            count == self@.len(),
    {
        self.layers.len()
    }

    /// The experts of a request that are not resident, each once, in order of first use.
    pub fn missing(&self, layer: usize, experts: &Vec<usize>) -> (list: Vec<usize>)
        requires
            self.well_formed(),
            layer < self@.len(),
        ensures
            list@ == missing(self@[layer as int].residents, experts@),
    {
        let mut seen: Vec<usize> = Vec::new();
        let mut list: Vec<usize> = Vec::new();
        let mut index: usize = 0;
        let ghost held = keys(self@[layer as int].residents);
        while index < experts.len()
            invariant
                self.well_formed(),
                layer < self@.len(),
                held == keys(self@[layer as int].residents),
                index <= experts@.len(),
                seen@ == recency::by_first_use(experts@.take(index as int)),
                list@ == absent(held, seen@),
            decreases experts@.len() - index,
        {
            let expert = experts[index];
            let ghost before = seen@;
            proof {
                assert(experts@.take(index + 1).drop_last() =~= experts@.take(index as int));
            }
            if !recency::holds(&seen, expert) {
                seen.push(expert);
                proof {
                    assert(seen@.drop_last() =~= before);
                }
                if !self.contains(layer, expert) {
                    list.push(expert);
                }
            }
            index = index + 1;
        }
        proof {
            assert(experts@.take(experts@.len() as int) =~= experts@);
        }
        list
    }

    /// Whether every expert of a request is resident or finds a free place.
    pub fn can_insert_without_eviction(&self, layer: usize, experts: &Vec<usize>) -> (fits: bool)
        requires
            self.well_formed(),
            layer < self@.len(),
        ensures
            fits == self@[layer as int].fits(experts@),
    {
        let list = self.missing(layer, experts);
        let held = self.layers[layer].residents.len();
        proof {
            assert(self@[layer as int].well_formed());
        }
        list.len() <= self.layers[layer].capacity - held
    }

    /// Accesses an expert. The sizes are those of the expert if it had to be loaded; a hit leaves
    /// them unused. What leaves the cache is returned.
    pub fn access(
        &mut self,
        telemetry: &mut ExpertTelemetry,
        layer: usize,
        expert: usize,
        bytes: u64,
        read: u64,
    ) -> (evicted: Option<Resident>)
        requires
            old(self).well_formed(),
            layer < old(self)@.len(),
        ensures
            final(self).well_formed(),
            final(self)@ == old(self)@.update(
                layer as int,
                old(self)@[layer as int].after_access(expert, bytes),
            ),
            *final(telemetry) == count_access(
                *old(telemetry),
                old(self)@[layer as int].residents,
                expert,
                bytes,
                read,
                old(self)@[layer as int].capacity,
            ),
            evicted == evicted_by(
                old(self)@[layer as int].residents,
                expert,
                old(self)@[layer as int].capacity,
            ),
    {
        let ghost before = self@;
        let ghost wanted = before.update(
            layer as int,
            before[layer as int].after_access(expert, bytes),
        );
        proof {
            assert(before[layer as int].well_formed());
            access_keeps_the_most_recent(before[layer as int], expert, bytes);
            assert(layers_well_formed(wanted)) by {
                assert forall|i: int| 0 <= i < wanted.len() implies (
                #[trigger] wanted[i]).well_formed() by {
                    if i != layer {
                        assert(before[i].well_formed());
                    }
                }
            }
        }
        let mut evicted: Option<Resident> = None;
        match self.position(layer, expert) {
            Some(at) => {
                telemetry.count_hits(1);
                let entry = self.layers[layer].residents.remove(at);
                self.layers[layer].residents.push(entry);
            },
            None => {
                telemetry.count_miss(read);
                if self.layers[layer].capacity > 0 {
                    if self.layers[layer].residents.len() == self.layers[layer].capacity {
                        let entry = self.layers[layer].residents.remove(0);
                        telemetry.count_eviction(entry.bytes);
                        evicted = Some(entry);
                        proof {
                            let list = before[layer as int].residents;
                            assert(list.remove(0) =~= list.skip(1));
                        }
                    }
                    self.layers[layer].residents.push(Resident { expert, bytes });
                    telemetry.count_resident(bytes);
                }
            },
        }
        proof {
            assert(self@ =~= wanted);
        }
        evicted
    }

    /// Accesses a series of experts in order, each with the sizes to use if it is not resident.
    pub fn access_all(
        &mut self,
        telemetry: &mut ExpertTelemetry,
        layer: usize,
        experts: &Vec<usize>,
        sizes: &Vec<(u64, u64)>,
    )
        requires
            old(self).well_formed(),
            layer < old(self)@.len(),
            experts@.len() == sizes@.len(),
        ensures
            final(self).well_formed(),
            final(self)@ == old(self)@.update(
                layer as int,
                after_accesses(old(self)@[layer as int], experts@, sizes@),
            ),
            *final(telemetry) == count_accesses(
                *old(telemetry),
                old(self)@[layer as int],
                experts@,
                sizes@,
            ),
    {
        let ghost before = self@;
        let ghost first = *telemetry;
        let mut index: usize = 0;
        proof {
            assert(before =~= before.update(
                layer as int,
                after_accesses(before[layer as int], experts@.take(0), sizes@.take(0)),
            ));
        }
        while index < experts.len()
            invariant
                self.well_formed(),
                before == old(self)@,
                first == *old(telemetry),
                layer < before.len(),
                experts@.len() == sizes@.len(),
                index <= experts@.len(),
                self@ == before.update(
                    layer as int,
                    after_accesses(
                        before[layer as int],
                        experts@.take(index as int),
                        sizes@.take(index as int),
                    ),
                ),
                *telemetry == count_accesses(
                    first,
                    before[layer as int],
                    experts@.take(index as int),
                    sizes@.take(index as int),
                ),
            decreases experts@.len() - index,
        {
            let (bytes, read) = sizes[index];
            let ghost so_far = self@;
            self.access(telemetry, layer, experts[index], bytes, read);
            proof {
                assert(experts@.take(index + 1).drop_last() =~= experts@.take(index as int));
                assert(sizes@.take(index + 1).drop_last() =~= sizes@.take(index as int));
                assert(self@ =~= before.update(
                    layer as int,
                    after_accesses(
                        before[layer as int],
                        experts@.take(index + 1),
                        sizes@.take(index + 1),
                    ),
                ));
            }
            index = index + 1;
        }
        proof {
            assert(experts@.take(experts@.len() as int) =~= experts@);
            assert(sizes@.take(sizes@.len() as int) =~= sizes@);
        }
    }

    /// Empties a layer. Every expert that was resident counts as evicted.
    pub fn drain_layer(&mut self, telemetry: &mut ExpertTelemetry, layer: usize) -> (evicted: Vec<
        Resident,
    >)
        requires
            old(self).well_formed(),
            layer < old(self)@.len(),
        ensures
            final(self).well_formed(),
            evicted@ == old(self)@[layer as int].residents,
            final(self)@ == old(self)@.update(
                layer as int,
                LayerView {
                    residents: Seq::empty(),
                    capacity: old(self)@[layer as int].capacity,
                },
            ),
            *final(telemetry) == old(telemetry).with_evictions(evicted@),
    {
        proof {
            let list = self@[layer as int].residents;
            assert(most_recent(list, 0) =~= Seq::<Resident>::empty());
            assert(beyond(list, 0) =~= list);
        }
        self.trim(telemetry, layer, 0)
    }

    /// Lends a layer the places that no layer uses, up to `limit` in all, and returns the capacity
    /// it had.
    pub fn lend_unused_capacity(&mut self, layer: usize, limit: usize) -> (steady: usize)
        requires
            old(self).well_formed(),
            layer < old(self)@.len(),
        ensures
            final(self).well_formed(),
            steady == old(self)@[layer as int].capacity,
            final(self)@ == old(self)@.update(
                layer as int,
                LayerView {
                    residents: old(self)@[layer as int].residents,
                    capacity: lent_capacity(old(self)@, layer as int, limit as nat),
                },
            ),
    {
        let ghost before = self@;
        let steady = self.layers[layer].capacity;
        if limit > steady {
            let mut spare: usize = 0;
            let mut index: usize = 0;
            while index < self.layers.len()
                invariant
                    self@ == before,
                    layers_well_formed(before),
                    index <= before.len(),
                    before.len() == self.layers@.len(),
                    spare == saturated_size(unused(before.take(index as int))),
                    unused(before.take(index as int)) >= 0,
                decreases before.len() - index,
            {
                proof {
                    assert(before[index as int].well_formed());
                    assert(before.take(index + 1).drop_last() =~= before.take(index as int));
                }
                spare = spare.saturating_add(
                    self.layers[index].capacity - self.layers[index].residents.len(),
                );
                index = index + 1;
            }
            proof {
                assert(before.take(before.len() as int) =~= before);
                lemma_own_places_are_spare(before, layer as int);
            }
            let whole = spare.saturating_add(self.layers[layer].residents.len());
            self.layers[layer].capacity = if whole < limit {
                whole
            } else {
                limit
            };
        }
        proof {
            let wanted = before.update(
                layer as int,
                LayerView {
                    residents: before[layer as int].residents,
                    capacity: lent_capacity(before, layer as int, limit as nat),
                },
            );
            assert(self@ =~= wanted);
            lemma_own_places_are_spare(before, layer as int);
            assert forall|i: int| 0 <= i < wanted.len() implies (
            #[trigger] wanted[i]).well_formed() by {
                assert(before[i].well_formed());
            }
        }
        steady
    }

    /// Lets the experts that a request displaces leave beforehand, where those of the request can
    /// be resident together, so that all of them find a place at once.
    pub fn prepare_ordered_batch(
        &mut self,
        telemetry: &mut ExpertTelemetry,
        layer: usize,
        experts: &Vec<usize>,
    ) -> (result: Option<Vec<Resident>>)
        requires
            old(self).well_formed(),
            layer < old(self)@.len(),
        ensures
            final(self).well_formed(),
            match result {
                Some(evicted) => {
                    let held = old(self)@[layer as int];
                    &&& held.can_hold(experts@)
                    &&& evicted@ == taken(held.residents, held.displaced(experts@))
                    &&& final(self)@ == old(self)@.update(layer as int, held.prepared(experts@))
                    &&& *final(telemetry) == old(telemetry).with_evictions(evicted@)
                    &&& final(self)@[layer as int].fits(experts@)
                },
                None => {
                    &&& !old(self)@[layer as int].can_hold(experts@)
                    &&& final(self)@ == old(self)@
                    &&& *final(telemetry) == *old(telemetry)
                },
            },
    {
        let ghost before = self@;
        let ghost first = *telemetry;
        let ghost held = before[layer as int];
        let capacity = self.layers[layer].capacity;
        let distinct = recency::list_distinct(experts);
        if distinct.len() > capacity {
            return None;
        }
        proof {
            assert(held.well_formed());
        }
        let mut names: Vec<usize> = Vec::new();
        let mut index: usize = 0;
        while index < self.layers[layer].residents.len()
            invariant
                self@ == before,
                held == before[layer as int],
                layer < before.len(),
                index <= held.residents.len(),
                names@ == keys(held.residents).take(index as int),
            decreases held.residents.len() - index,
        {
            names.push(self.layers[layer].residents[index].expert);
            index = index + 1;
            assert(names@ =~= keys(held.residents).take(index as int));
        }
        assert(names@ =~= keys(held.residents));
        let gone = recency::find_victims(&names, experts, capacity);
        let mut stay: Vec<Resident> = Vec::new();
        let mut evicted: Vec<Resident> = Vec::new();
        let mut place: usize = 0;
        while place < self.layers[layer].residents.len()
            invariant
                self@ == before,
                first == *old(telemetry),
                held == before[layer as int],
                layer < before.len(),
                place <= held.residents.len(),
                stay@ == kept(held.residents.take(place as int), gone@),
                evicted@ == taken(held.residents.take(place as int), gone@),
                *telemetry == first.with_evictions(evicted@),
            decreases held.residents.len() - place,
        {
            let entry = self.layers[layer].residents[place];
            let ghost out = evicted@;
            proof {
                assert(held.residents.take(place + 1).drop_last() =~= held.residents.take(
                    place as int,
                ));
            }
            if recency::holds(&gone, entry.expert) {
                telemetry.count_eviction(entry.bytes);
                evicted.push(entry);
                assert(evicted@.drop_last() =~= out);
            } else {
                stay.push(entry);
            }
            place = place + 1;
        }
        assert(held.residents.take(held.residents.len() as int) =~= held.residents);
        let ghost rest = self.layers@;
        self.layers[layer].residents = stay;
        proof {
            let sizes = Seq::new(experts@.len(), |i: int| (0u64, 0u64));
            preparing_changes_nothing_in_the_end(first, held, experts@, sizes);
            let wanted = before.update(layer as int, held.prepared(experts@));
            assert forall|i: int| 0 <= i < before.len() && i != layer implies self@[i]
                == before[i] by {
                assert(self.layers@[i] == rest[i]);
            }
            assert(self@ =~= wanted);
            assert forall|i: int| 0 <= i < wanted.len() implies (
            #[trigger] wanted[i]).well_formed() by {
                assert(before[i].well_formed());
            }
        }
        Some(evicted)
    }

    /// Evicts the least recent experts of a layer until at most `count` are left.
    fn trim(&mut self, telemetry: &mut ExpertTelemetry, layer: usize, count: usize) -> (evicted:
        Vec<Resident>)
        requires
            old(self).well_formed(),
            layer < old(self)@.len(),
        ensures
            final(self).well_formed(),
            evicted@ == beyond(old(self)@[layer as int].residents, count as nat),
            final(self)@ == old(self)@.update(
                layer as int,
                LayerView {
                    residents: most_recent(old(self)@[layer as int].residents, count as nat),
                    capacity: old(self)@[layer as int].capacity,
                },
            ),
            *final(telemetry) == old(telemetry).with_evictions(evicted@),
    {
        let ghost before = self@;
        let ghost list = before[layer as int].residents;
        let ghost first = *telemetry;
        let mut evicted: Vec<Resident> = Vec::new();
        proof {
            assert(list.skip(0) =~= list);
            assert(before[layer as int].well_formed());
        }
        while self.layers[layer].residents.len() > count
            invariant
                before == old(self)@,
                first == *old(telemetry),
                layer < before.len(),
                list == before[layer as int].residents,
                self@.len() == before.len(),
                evicted@.len() <= list.len(),
                evicted@ == list.take(evicted@.len() as int),
                evicted@.len() > 0 ==> list.len() - evicted@.len() >= count,
                forall|i: int| 0 <= i < before.len() && i != layer ==> self@[i] == before[i],
                self@[layer as int].capacity == before[layer as int].capacity,
                self@[layer as int].residents == list.skip(evicted@.len() as int),
                *telemetry == first.with_evictions(evicted@),
            decreases list.len() - evicted@.len(),
        {
            let ghost done = evicted@;
            let ghost layers = self@;
            let entry = self.layers[layer].residents.remove(0);
            telemetry.count_eviction(entry.bytes);
            evicted.push(entry);
            proof {
                assert(evicted@.drop_last() =~= done);
                assert(evicted@ =~= list.take(evicted@.len() as int));
                assert(self@[layer as int].residents =~= list.skip(evicted@.len() as int));
                assert forall|i: int| 0 <= i < before.len() && i != layer implies self@[i]
                    == before[i] by {
                    assert(layers[i] == before[i]);
                }
            }
        }
        proof {
            let wanted = before.update(
                layer as int,
                LayerView {
                    residents: most_recent(list, count as nat),
                    capacity: before[layer as int].capacity,
                },
            );
            assert(self@[layer as int].residents =~= most_recent(list, count as nat));
            assert(self@ =~= wanted);
            assert(evicted@ =~= beyond(list, count as nat));
            assert forall|i: int| 0 <= i < wanted.len() implies (
            #[trigger] wanted[i]).well_formed() by {
                assert(before[i].well_formed());
                if i == layer {
                    let short = most_recent(list, count as nat);
                    assert forall|a: int, b: int|
                        0 <= a < short.len() && 0 <= b < short.len() && a != b implies keys(
                        short,
                    )[a] != keys(short)[b] by {
                        let gone = list.len() - short.len();
                        assert(keys(short)[a] == keys(list)[a + gone]);
                        assert(keys(short)[b] == keys(list)[b + gone]);
                    }
                }
            }
        }
        evicted
    }

    /// Gives a layer back its capacity. The least recent experts beyond it are evicted.
    pub fn restore_layer_capacity(
        &mut self,
        telemetry: &mut ExpertTelemetry,
        layer: usize,
        steady: usize,
    ) -> (evicted: Vec<Resident>)
        requires
            old(self).well_formed(),
            layer < old(self)@.len(),
        ensures
            final(self).well_formed(),
            evicted@ == beyond(old(self)@[layer as int].residents, steady as nat),
            final(self)@ == old(self)@.update(
                layer as int,
                LayerView {
                    residents: most_recent(old(self)@[layer as int].residents, steady as nat),
                    capacity: steady as nat,
                },
            ),
            *final(telemetry) == old(telemetry).with_evictions(evicted@),
    {
        let ghost before = self@;
        let evicted = self.trim(telemetry, layer, steady);
        let ghost trimmed = self@;
        let ghost rest = self.layers@;
        assert(rest.len() == trimmed.len() && trimmed.len() == before.len());
        self.layers[layer].capacity = steady;
        proof {
            assert forall|i: int| 0 <= i < before.len() && i != layer implies self@[i]
                == before[i] by {
                assert(trimmed[i] == before[i]);
                assert(self.layers@[i] == rest[i]);
            }
            assert(trimmed[layer as int].residents == rest[layer as int].residents@);
            let wanted = before.update(
                layer as int,
                LayerView {
                    residents: most_recent(before[layer as int].residents, steady as nat),
                    capacity: steady as nat,
                },
            );
            assert(self@ =~= wanted);
            assert forall|i: int| 0 <= i < wanted.len() implies (
            #[trigger] wanted[i]).well_formed() by {
                assert(trimmed[i].well_formed());
            }
        }
        evicted
    }
}

/// How many places of all layers are free.
pub open spec fn unused(layers: Seq<LayerView>) -> int
    decreases layers.len(),
{
    if layers.len() == 0 {
        0
    } else {
        unused(layers.drop_last()) + layers.last().capacity - layers.last().residents.len()
    }
}

/// How many places all layers have.
pub open spec fn places(layers: Seq<LayerView>) -> int
    decreases layers.len(),
{
    if layers.len() == 0 {
        0
    } else {
        places(layers.drop_last()) + layers.last().capacity
    }
}

/// How many experts are resident in all layers.
pub open spec fn occupied(layers: Seq<LayerView>) -> int
    decreases layers.len(),
{
    if layers.len() == 0 {
        0
    } else {
        occupied(layers.drop_last()) + layers.last().residents.len()
    }
}

/// The capacity of a layer that borrows every free place, up to `limit` places in all.
pub open spec fn lent_capacity(layers: Seq<LayerView>, layer: int, limit: nat) -> nat {
    let own = layers[layer].capacity;
    let whole = layers[layer].residents.len() + unused(layers);
    if limit <= own {
        own
    } else if whole < limit {
        whole as nat
    } else {
        limit
    }
}

/// The free places of a layer are among those of all.
proof fn lemma_own_places_are_spare(layers: Seq<LayerView>, layer: int)
    requires
        layers_well_formed(layers),
        0 <= layer < layers.len(),
    ensures
        unused(layers) >= layers[layer].capacity - layers[layer].residents.len() >= 0,
    decreases layers.len(),
{
    let front = layers.drop_last();
    assert forall|i: int| 0 <= i < front.len() implies (#[trigger] front[i]).well_formed() by {
        assert(layers[i].well_formed());
    }
    assert(layers[layer].well_formed());
    assert(layers[layers.len() - 1].well_formed());
    if layer < front.len() {
        lemma_own_places_are_spare(front, layer);
    } else {
        lemma_spare(front);
    }
}

proof fn lemma_spare(layers: Seq<LayerView>)
    requires
        layers_well_formed(layers),
    ensures
        unused(layers) >= 0,
    decreases layers.len(),
{
    if layers.len() > 0 {
        let front = layers.drop_last();
        assert forall|i: int| 0 <= i < front.len() implies (#[trigger] front[i]).well_formed() by {
            assert(layers[i].well_formed());
        }
        lemma_spare(front);
        assert(layers[layers.len() - 1].well_formed());
    }
}

proof fn lemma_spare_is_counted(layers: Seq<LayerView>)
    ensures
        unused(layers) == places(layers) - occupied(layers),
    decreases layers.len(),
{
    if layers.len() > 0 {
        lemma_spare_is_counted(layers.drop_last());
    }
}

/// Lent places were free: what the other layers hold and all that the borrowing layer may hold fit
/// into the places of all layers together, and the layer has no fewer places than before.
pub proof fn lending_stays_within_the_places(layers: Seq<LayerView>, layer: int, limit: nat)
    requires
        layers_well_formed(layers),
        0 <= layer < layers.len(),
    ensures
        lent_capacity(layers, layer, limit) >= layers[layer].capacity,
        occupied(layers) - layers[layer].residents.len() + lent_capacity(layers, layer, limit)
            <= places(layers),
{
    lemma_spare_is_counted(layers);
    lemma_own_places_are_spare(layers, layer);
}

/// The last `count` residents of a list, or all of them.
pub open spec fn most_recent(list: Seq<Resident>, count: nat) -> Seq<Resident> {
    if count >= list.len() {
        list
    } else {
        list.skip(list.len() - count)
    }
}

/// The residents before the last `count`.
pub open spec fn beyond(list: Seq<Resident>, count: nat) -> Seq<Resident> {
    if count >= list.len() {
        Seq::empty()
    } else {
        list.take(list.len() - count)
    }
}

/// A layer behind a series of accesses.
pub open spec fn after_accesses(
    layer: LayerView,
    experts: Seq<usize>,
    sizes: Seq<(u64, u64)>,
) -> LayerView
    decreases experts.len(),
{
    if experts.len() == 0 {
        layer
    } else {
        after_accesses(layer, experts.drop_last(), sizes.drop_last()).after_access(
            experts.last(),
            sizes.last().0,
        )
    }
}

/// The counters behind a series of accesses.
pub open spec fn count_accesses(
    telemetry: ExpertTelemetry,
    layer: LayerView,
    experts: Seq<usize>,
    sizes: Seq<(u64, u64)>,
) -> ExpertTelemetry
    decreases experts.len(),
{
    if experts.len() == 0 {
        telemetry
    } else {
        let before = after_accesses(layer, experts.drop_last(), sizes.drop_last());
        count_access(
            count_accesses(telemetry, layer, experts.drop_last(), sizes.drop_last()),
            before.residents,
            experts.last(),
            sizes.last().0,
            sizes.last().1,
            before.capacity,
        )
    }
}

/// An access adds its expert to a layer with room for it and takes none away.
proof fn lemma_access_members(layer: LayerView, expert: usize, bytes: u64, value: usize)
    requires
        layer.well_formed(),
        keys(layer.residents).contains(expert) || layer.residents.len() < layer.capacity,
    ensures
        keys(layer.after_access(expert, bytes).residents).contains(value) == (keys(
            layer.residents,
        ).contains(value) || value == expert),
{
    let before = keys(layer.residents);
    let after = keys(layer.after_access(expert, bytes).residents);
    if before.contains(expert) {
        let at = before.index_of(expert);
        assert(before[at] == expert);
        assert(after =~= before.remove(at).push(expert));
        assert(after[after.len() - 1] == expert);
        if before.contains(value) && value != expert {
            let k = choose|k: int| 0 <= k < before.len() && before[k] == value;
            if k < at {
                assert(after[k] == value);
            } else {
                assert(after[k - 1] == value);
            }
        }
        if after.contains(value) && value != expert {
            let k = choose|k: int| 0 <= k < after.len() && after[k] == value;
            if k < at {
                assert(before[k] == value);
            } else {
                assert(before[k + 1] == value);
            }
        }
    } else {
        assert(after =~= before.push(expert));
        assert(after[after.len() - 1] == expert);
        if before.contains(value) {
            let k = choose|k: int| 0 <= k < before.len() && before[k] == value;
            assert(after[k] == value);
        }
        if after.contains(value) && value != expert {
            let k = choose|k: int| 0 <= k < after.len() && after[k] == value;
            assert(before[k] == value);
        }
    }
}

/// A layer that holds none but residents and missing experts of a request that fits has room for
/// one that it does not hold.
proof fn lemma_room(layer: LayerView, experts: Seq<usize>, held: LayerView, expert: usize)
    requires
        layer.well_formed(),
        layer.fits(experts),
        held.well_formed(),
        held.capacity == layer.capacity,
        forall|x: usize| #[trigger]
            keys(held.residents).contains(x) ==> keys(layer.residents).contains(x)
                || experts.contains(x),
        experts.contains(expert),
        !keys(held.residents).contains(expert),
        !keys(layer.residents).contains(expert),
    ensures
        held.residents.len() < held.capacity,
{
    missing_lists_each_once(layer.residents, experts);
    let lacking = missing(layer.residents, experts);
    let all = keys(layer.residents) + lacking;
    assert(all.no_duplicates()) by {
        assert forall|i: int, j: int| 0 <= i < j < all.len() implies all[i] != all[j] by {
            let n = layer.residents.len() as int;
            if i < n && j >= n {
                assert(keys(layer.residents)[i] == all[i]);
                assert(lacking[j - n] == all[j]);
                assert(lacking.contains(all[j]));
            } else if i >= n {
                assert(lacking[i - n] == all[i] && lacking[j - n] == all[j]);
            } else {
                assert(keys(layer.residents)[i] == all[i] && keys(layer.residents)[j] == all[j]);
            }
        }
    }
    all.unique_seq_to_set();
    keys(held.residents).unique_seq_to_set();
    let fewer = keys(held.residents).to_set();
    let whole = all.to_set();
    assert(lacking.contains(expert));
    let at = choose|at: int| 0 <= at < lacking.len() && lacking[at] == expert;
    assert(all[layer.residents.len() + at] == expert);
    assert forall|x: usize| #[trigger] fewer.contains(x) implies whole.remove(expert).contains(x) by {
        assert(keys(held.residents).contains(x));
        if keys(layer.residents).contains(x) {
            let k = choose|k: int|
                0 <= k < keys(layer.residents).len() && keys(layer.residents)[k] == x;
            assert(all[k] == x);
        } else {
            assert(lacking.contains(x));
            let k = choose|k: int| 0 <= k < lacking.len() && lacking[k] == x;
            assert(all[layer.residents.len() + k] == x);
        }
    }
    vstd::set_lib::lemma_len_subset(fewer, whole.remove(expert));
}

/// While a request that fits is accessed, nothing leaves.
pub proof fn a_fitting_request_evicts_nothing(
    telemetry: ExpertTelemetry,
    layer: LayerView,
    experts: Seq<usize>,
    sizes: Seq<(u64, u64)>,
    count: nat,
)
    requires
        layer.well_formed(),
        layer.fits(experts),
        sizes.len() == experts.len(),
        count <= experts.len(),
    ensures
        ({
            let done = experts.take(count as int);
            let held = after_accesses(layer, done, sizes.take(count as int));
            &&& held.well_formed()
            &&& held.capacity == layer.capacity
            &&& forall|x: usize| #[trigger]
                keys(held.residents).contains(x) == (keys(layer.residents).contains(x)
                    || done.contains(x))
            &&& count_accesses(telemetry, layer, done, sizes.take(count as int)).evictions
                == telemetry.evictions
        }),
    decreases count,
{
    let done = experts.take(count as int);
    let paid = sizes.take(count as int);
    if count > 0 {
        let shorter = (count - 1) as nat;
        a_fitting_request_evicts_nothing(telemetry, layer, experts, sizes, shorter);
        assert(done.drop_last() =~= experts.take(shorter as int));
        assert(paid.drop_last() =~= sizes.take(shorter as int));
        let before = after_accesses(layer, experts.take(shorter as int), sizes.take(
            shorter as int,
        ));
        let expert = done.last();
        assert(expert == experts[shorter as int]);
        assert(experts.contains(expert));
        if !keys(before.residents).contains(expert) {
            assert forall|x: usize| #[trigger] keys(before.residents).contains(x) implies keys(
                layer.residents,
            ).contains(x) || experts.contains(x) by {
                if !keys(layer.residents).contains(x) {
                    let part = experts.take(shorter as int);
                    let k = choose|k: int| 0 <= k < part.len() && part[k] == x;
                    assert(experts[k] == x);
                }
            }
            lemma_room(layer, experts, before, expert);
        }
        access_keeps_the_most_recent(before, expert, paid.last().0);
        let held = after_accesses(layer, done, paid);
        assert forall|x: usize| #[trigger] keys(held.residents).contains(x) == (keys(
            layer.residents,
        ).contains(x) || done.contains(x)) by {
            lemma_access_members(before, expert, paid.last().0, x);
            let part = experts.take(shorter as int);
            assert(done =~= part.push(expert));
            assert(done[done.len() - 1] == expert);
            if part.contains(x) {
                let k = choose|k: int| 0 <= k < part.len() && part[k] == x;
                assert(done[k] == x);
            }
            if done.contains(x) && x != expert {
                let k = choose|k: int| 0 <= k < done.len() && done[k] == x;
                assert(part[k] == x);
            }
        }
    } else {
        assert(done.len() == 0);
    }
}

/// What each expert of a list costs.
pub open spec fn costs_of(experts: Seq<usize>, cost: spec_fn(usize) -> (u64, u64)) -> Seq<
    (u64, u64),
> {
    Seq::new(experts.len(), |i: int| cost(experts[i]))
}

/// Costs that are given where they count: those of the experts that the layer does not hold.
pub open spec fn agree_where_missing(
    layer: LayerView,
    experts: Seq<usize>,
    sizes: Seq<(u64, u64)>,
    cost: spec_fn(usize) -> (u64, u64),
) -> bool {
    forall|i: int|
        0 <= i < experts.len() && !keys(layer.residents).contains(experts[i])
            ==> #[trigger] sizes[i] == cost(experts[i])
}

/// A request that fits leaves the layer and the counters as single accesses do, each of which
/// brings the cost of its expert.
pub proof fn a_fitting_request_counts_like_single_accesses(
    telemetry: ExpertTelemetry,
    layer: LayerView,
    experts: Seq<usize>,
    sizes: Seq<(u64, u64)>,
    cost: spec_fn(usize) -> (u64, u64),
    count: nat,
)
    requires
        layer.well_formed(),
        layer.fits(experts),
        sizes.len() == experts.len(),
        agree_where_missing(layer, experts, sizes, cost),
        count <= experts.len(),
    ensures
        ({
            let done = experts.take(count as int);
            let paid = sizes.take(count as int);
            &&& after_accesses(layer, done, paid) == after_accesses(
                layer,
                done,
                costs_of(done, cost),
            )
            &&& count_accesses(telemetry, layer, done, paid) == count_accesses(
                telemetry,
                layer,
                done,
                costs_of(done, cost),
            )
        }),
    decreases count,
{
    let done = experts.take(count as int);
    let paid = sizes.take(count as int);
    if count > 0 {
        let shorter = (count - 1) as nat;
        a_fitting_request_counts_like_single_accesses(
            telemetry,
            layer,
            experts,
            sizes,
            cost,
            shorter,
        );
        a_fitting_request_evicts_nothing(telemetry, layer, experts, sizes, shorter);
        assert(done.drop_last() =~= experts.take(shorter as int));
        assert(paid.drop_last() =~= sizes.take(shorter as int));
        assert(costs_of(done, cost).drop_last() =~= costs_of(experts.take(shorter as int), cost));
        let before = after_accesses(layer, experts.take(shorter as int), sizes.take(
            shorter as int,
        ));
        if !keys(before.residents).contains(done.last()) {
            assert(!keys(layer.residents).contains(experts[shorter as int]));
            assert(sizes[shorter as int] == cost(experts[shorter as int]));
        }
    } else {
        assert(done.len() == 0);
    }
}

/// The residents whose experts are not listed.
pub open spec fn kept(list: Seq<Resident>, gone: Seq<usize>) -> Seq<Resident>
    decreases list.len(),
{
    if list.len() == 0 {
        list
    } else if gone.contains(list.last().expert) {
        kept(list.drop_last(), gone)
    } else {
        kept(list.drop_last(), gone).push(list.last())
    }
}

/// The residents whose experts are listed.
pub open spec fn taken(list: Seq<Resident>, gone: Seq<usize>) -> Seq<Resident>
    decreases list.len(),
{
    if list.len() == 0 {
        list
    } else if gone.contains(list.last().expert) {
        taken(list.drop_last(), gone).push(list.last())
    } else {
        taken(list.drop_last(), gone)
    }
}

/// The size of all residents of a list.
pub open spec fn total_bytes(list: Seq<Resident>) -> int
    decreases list.len(),
{
    if list.len() == 0 {
        0
    } else {
        total_bytes(list.drop_last()) + list.last().bytes
    }
}

impl LayerView {
    /// Whether the experts of a request can be resident together.
    pub open spec fn can_hold(self, experts: Seq<usize>) -> bool {
        recency::by_first_use(experts).len() <= self.capacity
    }

    /// The experts that leave while those of a request are accessed one by one.
    pub open spec fn displaced(self, experts: Seq<usize>) -> Seq<usize> {
        recency::victims(keys(self.residents), experts, self.capacity)
    }

    /// The layer without what will leave while the experts of a request are accessed.
    pub open spec fn prepared(self, experts: Seq<usize>) -> LayerView {
        LayerView { residents: kept(self.residents, self.displaced(experts)), ..self }
    }
}

proof fn lemma_kept(list: Seq<Resident>, gone: Seq<usize>)
    ensures
        kept(list, gone).len() + taken(list, gone).len() == list.len(),
        total_bytes(kept(list, gone)) + total_bytes(taken(list, gone)) == total_bytes(list),
        forall|r: Resident| #[trigger]
            kept(list, gone).contains(r) <==> list.contains(r) && !gone.contains(r.expert),
        keys(list).no_duplicates() ==> keys(kept(list, gone)).no_duplicates(),
    decreases list.len(),
{
    if list.len() > 0 {
        let front = list.drop_last();
        let last = list.last();
        let short = kept(front, gone);
        let all = kept(list, gone);
        lemma_kept(front, gone);
        if gone.contains(last.expert) {
            assert(taken(list, gone).drop_last() =~= taken(front, gone));
        } else {
            assert(all.drop_last() =~= short);
        }
        assert forall|r: Resident| #[trigger] all.contains(r) <==> list.contains(r)
            && !gone.contains(r.expert) by {
            if list.contains(r) {
                let i = choose|i: int| 0 <= i < list.len() && list[i] == r;
                if i < front.len() {
                    assert(front[i] == r);
                }
            }
            if front.contains(r) {
                let i = choose|i: int| 0 <= i < front.len() && front[i] == r;
                assert(list[i] == r);
            }
            assert(list[list.len() - 1] == last);
            if !gone.contains(last.expert) {
                assert(all[all.len() - 1] == last);
                if all.contains(r) {
                    let i = choose|i: int| 0 <= i < all.len() && all[i] == r;
                    if i < short.len() {
                        assert(short[i] == r);
                    }
                }
                if short.contains(r) {
                    let i = choose|i: int| 0 <= i < short.len() && short[i] == r;
                    assert(all[i] == r);
                }
            }
        }
        if keys(list).no_duplicates() {
            assert forall|i: int, j: int|
                0 <= i < front.len() && 0 <= j < front.len() && i != j implies keys(front)[i]
                != keys(front)[j] by {
                assert(keys(list)[i] != keys(list)[j]);
            }
            if !gone.contains(last.expert) {
                assert forall|i: int, j: int|
                    0 <= i < all.len() && 0 <= j < all.len() && i != j implies keys(all)[i]
                    != keys(all)[j] by {
                    assert forall|k: int| 0 <= k < short.len() implies keys(short)[k]
                        != last.expert by {
                        assert(short.contains(short[k]));
                        let m = choose|m: int| 0 <= m < front.len() && front[m] == short[k];
                        assert(keys(list)[m] != keys(list)[list.len() - 1]);
                    }
                    if i < short.len() {
                        assert(keys(all)[i] == keys(short)[i]);
                    }
                    if j < short.len() {
                        assert(keys(all)[j] == keys(short)[j]);
                    }
                }
            }
        }
    }
}

proof fn lemma_kept_same(list: Seq<Resident>, one: Seq<usize>, other: Seq<usize>)
    requires
        forall|i: int|
            0 <= i < list.len() ==> one.contains((#[trigger] list[i]).expert) == other.contains(
                list[i].expert,
            ),
    ensures
        kept(list, one) == kept(list, other),
    decreases list.len(),
{
    if list.len() > 0 {
        let front = list.drop_last();
        assert forall|i: int| 0 <= i < front.len() implies one.contains(
            (#[trigger] front[i]).expert,
        ) == other.contains(front[i].expert) by {
            assert(front[i] == list[i]);
        }
        lemma_kept_same(front, one, other);
        assert(list.last() == list[list.len() - 1]);
    }
}

proof fn lemma_kept_none(list: Seq<Resident>, gone: Seq<usize>)
    requires
        gone.len() == 0,
    ensures
        kept(list, gone) == list,
    decreases list.len(),
{
    if list.len() > 0 {
        lemma_kept_none(list.drop_last(), gone);
        assert(list.drop_last().push(list.last()) =~= list);
    }
}

proof fn lemma_kept_swap(list: Seq<Resident>, one: Seq<usize>, other: Seq<usize>)
    ensures
        kept(kept(list, one), other) == kept(kept(list, other), one),
    decreases list.len(),
{
    if list.len() > 0 {
        let front = list.drop_last();
        let last = list.last();
        lemma_kept_swap(front, one, other);
        assert(kept(front, one).push(last).drop_last() =~= kept(front, one));
        assert(kept(front, other).push(last).drop_last() =~= kept(front, other));
    }
}

proof fn lemma_kept_push(list: Seq<Resident>, last: Resident, gone: Seq<usize>)
    ensures
        kept(list.push(last), gone) == if gone.contains(last.expert) {
            kept(list, gone)
        } else {
            kept(list, gone).push(last)
        },
{
    assert(list.push(last).drop_last() =~= list);
}

proof fn lemma_kept_front(list: Seq<Resident>, gone: Seq<usize>)
    requires
        list.len() > 0,
        gone.contains(list[0].expert),
    ensures
        kept(list, gone) == kept(list.skip(1), gone),
    decreases list.len(),
{
    if list.len() == 1 {
        assert(kept(list.drop_last(), gone) =~= Seq::<Resident>::empty());
        assert(list.skip(1) =~= Seq::<Resident>::empty());
    } else {
        lemma_kept_front(list.drop_last(), gone);
        assert(list.skip(1).drop_last() =~= list.drop_last().skip(1));
    }
}

/// To keep all but one expert is to remove it where it stands.
proof fn lemma_kept_remove(list: Seq<Resident>, at: int)
    requires
        keys(list).no_duplicates(),
        0 <= at < list.len(),
    ensures
        kept(list, seq![list[at].expert]) == list.remove(at),
    decreases list.len(),
{
    let gone = seq![list[at].expert];
    let front = list.drop_last();
    assert(gone[0] == list[at].expert);
    assert forall|i: int, j: int|
        0 <= i < front.len() && 0 <= j < front.len() && i != j implies keys(front)[i]
        != keys(front)[j] by {
        assert(keys(list)[i] != keys(list)[j]);
    }
    if at == list.len() - 1 {
        assert forall|i: int| 0 <= i < front.len() implies gone.contains(
            (#[trigger] front[i]).expert,
        ) == Seq::<usize>::empty().contains(front[i].expert) by {
            assert(keys(list)[i] != keys(list)[at]);
        }
        lemma_kept_same(front, gone, Seq::empty());
        lemma_kept_none(front, Seq::empty());
        assert(list.remove(at) =~= front);
    } else {
        lemma_kept_remove(front, at);
        assert(keys(list)[at] != keys(list)[list.len() - 1]);
        assert(list.remove(at) =~= front.remove(at).push(list.last()));
    }
}

proof fn lemma_accesses_follow(layer: LayerView, experts: Seq<usize>, sizes: Seq<(u64, u64)>)
    requires
        layer.well_formed(),
        sizes.len() == experts.len(),
    ensures
        after_accesses(layer, experts, sizes).well_formed(),
        after_accesses(layer, experts, sizes).capacity == layer.capacity,
        keys(after_accesses(layer, experts, sizes).residents) == recency::cached_after(
            keys(layer.residents),
            experts,
            layer.capacity,
        ),
    decreases experts.len(),
{
    if experts.len() > 0 {
        lemma_accesses_follow(layer, experts.drop_last(), sizes.drop_last());
        access_keeps_the_most_recent(
            after_accesses(layer, experts.drop_last(), sizes.drop_last()),
            experts.last(),
            sizes.last().0,
        );
    }
}

/// What is still to leave behind the first `count` accesses.
spec fn leaving(layer: LayerView, experts: Seq<usize>, count: int) -> Seq<usize> {
    layer.displaced(experts).skip(layer.displaced(experts.take(count)).len() as int)
}

/// A layer and its prepared counterpart behind the first `count` accesses.
spec fn alike(layer: LayerView, experts: Seq<usize>, sizes: Seq<(u64, u64)>, count: int) -> bool {
    let done = experts.take(count);
    let paid = sizes.take(count);
    let plain = after_accesses(layer, done, paid);
    let ahead = after_accesses(layer.prepared(experts), done, paid);
    &&& ahead.residents == kept(plain.residents, leaving(layer, experts, count))
    &&& plain.residents.len() + layer.displaced(done).len() - ahead.residents.len()
        == layer.residents.len() - layer.prepared(experts).residents.len()
    &&& forall|x: usize|
        keys(layer.prepared(experts).residents).contains(x) || done.contains(x) ==> (
        #[trigger] keys(ahead.residents).contains(x))
}

/// The next access of both is a hit or a miss alike, and the prepared layer has room for a miss.
spec fn next_alike(
    layer: LayerView,
    experts: Seq<usize>,
    sizes: Seq<(u64, u64)>,
    count: int,
) -> bool {
    let done = experts.take(count);
    let paid = sizes.take(count);
    let plain = after_accesses(layer, done, paid);
    let ahead = after_accesses(layer.prepared(experts), done, paid);
    let expert = experts[count];
    &&& keys(plain.residents).contains(expert) == keys(ahead.residents).contains(expert)
    &&& !keys(plain.residents).contains(expert) ==> ahead.residents.len() < layer.capacity
    &&& !leaving(layer, experts, count).contains(expert)
}

proof fn lemma_prepared(layer: LayerView, experts: Seq<usize>)
    requires
        layer.well_formed(),
    ensures
        layer.prepared(experts).well_formed(),
{
    lemma_kept(layer.residents, layer.displaced(experts));
}

/// The first of the experts still to leave is the least recent one, where an access displaces it.
proof fn lemma_leaving(layer: LayerView, experts: Seq<usize>, sizes: Seq<(u64, u64)>, count: int)
    requires
        layer.well_formed(),
        sizes.len() == experts.len(),
        0 <= count < experts.len(),
    ensures
        ({
            let plain = after_accesses(layer, experts.take(count), sizes.take(count));
            let now = leaving(layer, experts, count);
            let later = leaving(layer, experts, count + 1);
            if recency::displaces(keys(plain.residents), experts[count], layer.capacity) {
                &&& plain.residents.len() > 0
                &&& now == seq![plain.residents[0].expert] + later
                &&& layer.displaced(experts.take(count + 1)).len() == layer.displaced(
                    experts.take(count),
                ).len() + 1
            } else {
                &&& now == later
                &&& layer.displaced(experts.take(count + 1)).len() == layer.displaced(
                    experts.take(count),
                ).len()
            }
        }),
{
    let held = keys(layer.residents);
    let plain = after_accesses(layer, experts.take(count), sizes.take(count));
    lemma_accesses_follow(layer, experts.take(count), sizes.take(count));
    recency::lemma_victims_grow(held, experts, layer.capacity, count);
    recency::lemma_victims_grow(held, experts, layer.capacity, count + 1);
    assert(experts.take(count + 1).drop_last() =~= experts.take(count));
    let all = layer.displaced(experts);
    let first = layer.displaced(experts.take(count));
    let next = layer.displaced(experts.take(count + 1));
    let now = leaving(layer, experts, count);
    let later = leaving(layer, experts, count + 1);
    if recency::displaces(keys(plain.residents), experts[count], layer.capacity) {
        assert(next == first.push(keys(plain.residents)[0]));
        assert(all[first.len() as int] == next[first.len() as int]);
        assert(now =~= seq![plain.residents[0].expert] + later);
    } else {
        assert(now =~= later);
    }
}

proof fn lemma_next_alike(
    layer: LayerView,
    experts: Seq<usize>,
    sizes: Seq<(u64, u64)>,
    count: int,
)
    requires
        layer.well_formed(),
        layer.can_hold(experts),
        sizes.len() == experts.len(),
        0 <= count < experts.len(),
        alike(layer, experts, sizes, count),
    ensures
        next_alike(layer, experts, sizes, count),
{
    let done = experts.take(count);
    let paid = sizes.take(count);
    let plain = after_accesses(layer, done, paid);
    let ahead = after_accesses(layer.prepared(experts), done, paid);
    let expert = experts[count];
    let now = leaving(layer, experts, count);
    lemma_accesses_follow(layer, done, paid);
    lemma_kept(plain.residents, now);
    recency::used_values_never_leave(keys(layer.residents), experts, layer.capacity, count);
    recency::lemma_victims_grow(keys(layer.residents), experts, layer.capacity, count);
    assert(!now.contains(expert)) by {
        if now.contains(expert) {
            let j = choose|j: int| 0 <= j < now.len() && now[j] == expert;
            let at = layer.displaced(done).len() + j;
            assert(layer.displaced(experts)[at] == expert);
            assert(experts.take(count + 1)[count] == expert);
        }
    }
    if keys(plain.residents).contains(expert) {
        let at = keys(plain.residents).index_of(expert);
        let entry = plain.residents[at];
        assert(plain.residents.contains(entry));
        assert(ahead.residents.contains(entry));
        let k = choose|k: int| 0 <= k < ahead.residents.len() && ahead.residents[k] == entry;
        assert(keys(ahead.residents)[k] == expert);
    } else {
        if keys(ahead.residents).contains(expert) {
            let k = keys(ahead.residents).index_of(expert);
            let entry = ahead.residents[k];
            assert(ahead.residents.contains(entry));
            let m = choose|m: int| 0 <= m < plain.residents.len() && plain.residents[m] == entry;
            assert(keys(plain.residents)[m] == expert);
        }
        lemma_leaving(layer, experts, sizes, count);
        assert(layer.capacity > 0) by {
            recency::first_use_lists_each_value_once(experts);
            assert(experts.contains(expert));
            assert(recency::by_first_use(experts).contains(expert));
        }
        if plain.residents.len() >= layer.capacity {
            assert(now[0] == plain.residents[0].expert);
            lemma_kept_front(plain.residents, now);
            lemma_kept(plain.residents.skip(1), now);
        }
    }
}

/// A hit moves the same entry behind the others, whatever is still to leave.
proof fn lemma_hit_alike(list: Seq<Resident>, gone: Seq<usize>, expert: usize, capacity: nat)
    requires
        keys(list).no_duplicates(),
        keys(list).contains(expert),
        keys(kept(list, gone)).contains(expert),
        !gone.contains(expert),
    ensures
        after_access(kept(list, gone), expert, 0, capacity) == kept(
            after_access(list, expert, 0, capacity),
            gone,
        ),
{
    let short = kept(list, gone);
    let at = keys(list).index_of(expert);
    let k = keys(short).index_of(expert);
    lemma_kept(list, gone);
    assert(keys(list)[at] == expert && keys(short)[k] == expert);
    assert(short.contains(short[k]));
    let m = choose|m: int| 0 <= m < list.len() && list[m] == short[k];
    assert(keys(list)[m] == keys(list)[at]);
    assert(list[at] == short[k]);
    lemma_kept_remove(list, at);
    lemma_kept_remove(short, k);
    lemma_kept_swap(list, gone, seq![expert]);
    lemma_kept_push(list.remove(at), list[at], gone);
}

proof fn lemma_alike(layer: LayerView, experts: Seq<usize>, sizes: Seq<(u64, u64)>, count: int)
    requires
        layer.well_formed(),
        layer.can_hold(experts),
        sizes.len() == experts.len(),
        0 <= count <= experts.len(),
    ensures
        alike(layer, experts, sizes, count),
    decreases count,
{
    let done = experts.take(count);
    let paid = sizes.take(count);
    let start = layer.prepared(experts);
    lemma_prepared(layer, experts);
    if count == 0 {
        assert(leaving(layer, experts, 0) =~= layer.displaced(experts));
    } else {
        let shorter = count - 1;
        lemma_alike(layer, experts, sizes, shorter);
        lemma_next_alike(layer, experts, sizes, shorter);
        lemma_leaving(layer, experts, sizes, shorter);
        assert(done.drop_last() =~= experts.take(shorter));
        assert(paid.drop_last() =~= sizes.take(shorter));
        lemma_accesses_follow(layer, done.drop_last(), paid.drop_last());
        lemma_accesses_follow(start, done.drop_last(), paid.drop_last());
        let plain = after_accesses(layer, done.drop_last(), paid.drop_last());
        let ahead = after_accesses(start, done.drop_last(), paid.drop_last());
        let now = leaving(layer, experts, shorter);
        let later = leaving(layer, experts, count);
        let expert = done.last();
        let bytes = paid.last().0;
        assert(expert == experts[shorter]);
        lemma_kept(plain.residents, now);
        if keys(plain.residents).contains(expert) {
            lemma_hit_alike(plain.residents, now, expert, layer.capacity);
        } else {
            let entry = Resident { expert, bytes };
            assert(layer.capacity > 0);
            if plain.residents.len() < layer.capacity {
                lemma_kept_push(plain.residents, entry, now);
            } else {
                let rest = plain.residents.skip(1);
                let first = plain.residents[0].expert;
                assert(now[0] == first);
                lemma_kept_front(plain.residents, now);
                assert forall|i: int| 0 <= i < rest.len() implies now.contains(
                    (#[trigger] rest[i]).expert,
                ) == later.contains(rest[i].expert) by {
                    assert(keys(plain.residents)[i + 1] != keys(plain.residents)[0]);
                    let x = rest[i].expert;
                    if now.contains(x) {
                        let j = choose|j: int| 0 <= j < now.len() && now[j] == x;
                        assert(later[j - 1] == x);
                    }
                    if later.contains(x) {
                        let j = choose|j: int| 0 <= j < later.len() && later[j] == x;
                        assert(now[j + 1] == x);
                    }
                }
                lemma_kept_same(rest, now, later);
                lemma_kept_push(rest, entry, later);
                assert(!later.contains(expert)) by {
                    if later.contains(expert) {
                        let j = choose|j: int| 0 <= j < later.len() && later[j] == expert;
                        assert(now[j + 1] == expert);
                    }
                }
            }
        }
        assert forall|x: usize| keys(start.residents).contains(x) || done.contains(x) implies (
        #[trigger] keys(after_accesses(start, done, paid).residents).contains(x)) by {
            lemma_access_members(ahead, expert, bytes, x);
            if done.contains(x) && x != expert {
                let j = choose|j: int| 0 <= j < done.len() && done[j] == x;
                assert(done.drop_last()[j] == x);
            }
        }
    }
}

proof fn lemma_evictions(telemetry: ExpertTelemetry, evicted: Seq<Resident>)
    ensures
        telemetry.with_evictions(evicted).hits == telemetry.hits,
        telemetry.with_evictions(evicted).misses == telemetry.misses,
        telemetry.with_evictions(evicted).bytes_read == telemetry.bytes_read,
        telemetry.with_evictions(evicted).evictions == saturated(
            telemetry.evictions + evicted.len(),
        ),
        telemetry.resident_experts >= evicted.len() ==> telemetry.with_evictions(
            evicted,
        ).resident_experts == telemetry.resident_experts - evicted.len(),
        telemetry.resident_bytes >= total_bytes(evicted) ==> telemetry.with_evictions(
            evicted,
        ).resident_bytes == telemetry.resident_bytes - total_bytes(evicted),
        total_bytes(evicted) >= 0,
    decreases evicted.len(),
{
    if evicted.len() > 0 {
        lemma_evictions(telemetry, evicted.drop_last());
    }
}

proof fn lemma_total_add(front: Seq<Resident>, back: Seq<Resident>)
    ensures
        total_bytes(front + back) == total_bytes(front) + total_bytes(back),
    decreases back.len(),
{
    if back.len() == 0 {
        assert(front + back =~= front);
    } else {
        lemma_total_add(front, back.drop_last());
        assert((front + back).drop_last() =~= front + back.drop_last());
    }
}

/// How many bytes a series of accesses can make resident.
pub open spec fn bytes_asked(sizes: Seq<(u64, u64)>) -> int
    decreases sizes.len(),
{
    if sizes.len() == 0 {
        0
    } else {
        bytes_asked(sizes.drop_last()) + sizes.last().0
    }
}

/// The gauges count the residents of this layer at least, and have room for as many accesses.
pub open spec fn gauges_hold(
    telemetry: ExpertTelemetry,
    layer: LayerView,
    sizes: Seq<(u64, u64)>,
) -> bool {
    &&& telemetry.resident_experts >= layer.residents.len()
    &&& telemetry.resident_bytes >= total_bytes(layer.residents)
    &&& telemetry.resident_experts + sizes.len() <= usize::MAX
    &&& telemetry.resident_bytes + bytes_asked(sizes) <= u64::MAX
}

/// What an access adds to the residents, in number and size.
proof fn lemma_access_totals(
    telemetry: ExpertTelemetry,
    layer: LayerView,
    expert: usize,
    bytes: u64,
    read: u64,
    others: int,
    more: int,
)
    requires
        layer.well_formed(),
        others >= 0,
        more >= 0,
        telemetry.resident_experts == others + layer.residents.len(),
        telemetry.resident_bytes == more + total_bytes(layer.residents),
        telemetry.resident_experts < usize::MAX,
        telemetry.resident_bytes + bytes <= u64::MAX,
    ensures
        ({
            let after = layer.after_access(expert, bytes).residents;
            let counted = count_access(
                telemetry,
                layer.residents,
                expert,
                bytes,
                read,
                layer.capacity,
            );
            &&& counted.resident_experts == others + after.len()
            &&& counted.resident_bytes == more + total_bytes(after)
            &&& counted.resident_experts <= telemetry.resident_experts + 1
            &&& counted.resident_bytes <= telemetry.resident_bytes + bytes
        }),
{
    let list = layer.residents;
    let after = layer.after_access(expert, bytes).residents;
    if keys(list).contains(expert) {
        let at = keys(list).index_of(expert);
        let entry = list[at];
        assert(list =~= list.take(at) + seq![entry] + list.skip(at + 1));
        assert(after =~= list.take(at) + list.skip(at + 1) + seq![entry]);
        lemma_total_add(list.take(at) + seq![entry], list.skip(at + 1));
        lemma_total_add(list.take(at), seq![entry]);
        lemma_total_add(list.take(at) + list.skip(at + 1), seq![entry]);
        lemma_total_add(list.take(at), list.skip(at + 1));
    } else if layer.capacity > 0 {
        let entry = Resident { expert, bytes };
        if list.len() < layer.capacity {
            assert(after.drop_last() =~= list);
        } else {
            assert(list =~= seq![list[0]] + list.skip(1));
            lemma_total_add(seq![list[0]], list.skip(1));
            reveal_with_fuel(total_bytes, 2);
            lemma_evictions(telemetry, list.skip(1));
            assert(after.drop_last() =~= list.skip(1));
        }
    }
}

proof fn lemma_gauges(
    telemetry: ExpertTelemetry,
    layer: LayerView,
    experts: Seq<usize>,
    sizes: Seq<(u64, u64)>,
    others: int,
    more: int,
)
    requires
        layer.well_formed(),
        sizes.len() == experts.len(),
        others >= 0,
        more >= 0,
        telemetry.resident_experts == others + layer.residents.len(),
        telemetry.resident_bytes == more + total_bytes(layer.residents),
        telemetry.resident_experts + sizes.len() <= usize::MAX,
        telemetry.resident_bytes + bytes_asked(sizes) <= u64::MAX,
    ensures
        ({
            let after = after_accesses(layer, experts, sizes).residents;
            let counted = count_accesses(telemetry, layer, experts, sizes);
            &&& counted.resident_experts == others + after.len()
            &&& counted.resident_bytes == more + total_bytes(after)
            &&& counted.resident_experts <= telemetry.resident_experts + sizes.len()
            &&& counted.resident_bytes <= telemetry.resident_bytes + bytes_asked(sizes)
        }),
    decreases experts.len(),
{
    if experts.len() > 0 {
        let done = experts.drop_last();
        let paid = sizes.drop_last();
        lemma_gauges(telemetry, layer, done, paid, others, more);
        lemma_accesses_follow(layer, done, paid);
        lemma_access_totals(
            count_accesses(telemetry, layer, done, paid),
            after_accesses(layer, done, paid),
            experts.last(),
            sizes.last().0,
            sizes.last().1,
            others,
            more,
        );
    }
}

proof fn lemma_counts_alike(
    telemetry: ExpertTelemetry,
    layer: LayerView,
    experts: Seq<usize>,
    sizes: Seq<(u64, u64)>,
    count: int,
)
    requires
        layer.well_formed(),
        layer.can_hold(experts),
        sizes.len() == experts.len(),
        0 <= count <= experts.len(),
    ensures
        ({
            let done = experts.take(count);
            let paid = sizes.take(count);
            let start = telemetry.with_evictions(
                taken(layer.residents, layer.displaced(experts)),
            );
            let plain = count_accesses(telemetry, layer, done, paid);
            let ahead = count_accesses(start, layer.prepared(experts), done, paid);
            &&& ahead.hits == plain.hits
            &&& ahead.misses == plain.misses
            &&& ahead.bytes_read == plain.bytes_read
            &&& ahead.evictions == start.evictions
            &&& plain.evictions == saturated(telemetry.evictions + layer.displaced(done).len())
        }),
    decreases count,
{
    let done = experts.take(count);
    let paid = sizes.take(count);
    lemma_evictions(telemetry, taken(layer.residents, layer.displaced(experts)));
    if count > 0 {
        let shorter = count - 1;
        lemma_counts_alike(telemetry, layer, experts, sizes, shorter);
        lemma_alike(layer, experts, sizes, shorter);
        lemma_next_alike(layer, experts, sizes, shorter);
        lemma_leaving(layer, experts, sizes, shorter);
        assert(done.drop_last() =~= experts.take(shorter));
        assert(paid.drop_last() =~= sizes.take(shorter));
        lemma_accesses_follow(layer, done.drop_last(), paid.drop_last());
        lemma_prepared(layer, experts);
        lemma_accesses_follow(layer.prepared(experts), done.drop_last(), paid.drop_last());
        assert(done.last() == experts[shorter]);
    }
}

/// Experts that leave beforehand leave the way clear for the others and change nothing in the end:
/// where the experts of a request can be resident together, all of them find a place in the
/// prepared layer, and accessing them there ends with the same residents in the same order, the
/// same sizes and the same counters as accessing them one by one. The gauges of what is resident
/// agree wherever they do not saturate.
pub proof fn preparing_changes_nothing_in_the_end(
    telemetry: ExpertTelemetry,
    layer: LayerView,
    experts: Seq<usize>,
    sizes: Seq<(u64, u64)>,
)
    requires
        layer.well_formed(),
        layer.can_hold(experts),
        sizes.len() == experts.len(),
    ensures
        layer.prepared(experts).well_formed(),
        layer.prepared(experts).fits(experts),
        after_accesses(layer.prepared(experts), experts, sizes) == after_accesses(
            layer,
            experts,
            sizes,
        ),
        ({
            let start = telemetry.with_evictions(
                taken(layer.residents, layer.displaced(experts)),
            );
            let plain = count_accesses(telemetry, layer, experts, sizes);
            let ahead = count_accesses(start, layer.prepared(experts), experts, sizes);
            &&& ahead.hits == plain.hits
            &&& ahead.misses == plain.misses
            &&& ahead.evictions == plain.evictions
            &&& ahead.bytes_read == plain.bytes_read
            &&& gauges_hold(telemetry, layer, sizes) ==> ahead == plain
        }),
{
    let all = experts.len() as int;
    let start = layer.prepared(experts);
    let gone = layer.displaced(experts);
    let out = taken(layer.residents, gone);
    assert(experts.take(all) =~= experts);
    assert(sizes.take(all) =~= sizes);
    lemma_prepared(layer, experts);
    lemma_alike(layer, experts, sizes, all);
    lemma_counts_alike(telemetry, layer, experts, sizes, all);
    lemma_accesses_follow(layer, experts, sizes);
    lemma_accesses_follow(start, experts, sizes);
    lemma_kept(layer.residents, gone);
    lemma_evictions(telemetry, out);
    let plain = after_accesses(layer, experts, sizes);
    let ahead = after_accesses(start, experts, sizes);
    assert(leaving(layer, experts, all).len() == 0);
    lemma_kept_none(plain.residents, leaving(layer, experts, all));
    assert(ahead == plain);
    assert(out.len() == gone.len());
    missing_lists_each_once(start.residents, experts);
    let lacking = missing(start.residents, experts);
    let union = keys(start.residents) + lacking;
    assert(union.no_duplicates()) by {
        assert forall|i: int, j: int| 0 <= i < j < union.len() implies union[i] != union[j] by {
            let n = start.residents.len() as int;
            if i < n && j >= n {
                assert(keys(start.residents)[i] == union[i]);
                assert(lacking[j - n] == union[j]);
                assert(lacking.contains(union[j]));
            } else if i >= n {
                assert(lacking[i - n] == union[i] && lacking[j - n] == union[j]);
            } else {
                assert(keys(start.residents)[i] == union[i] && keys(start.residents)[j]
                    == union[j]);
            }
        }
    }
    union.unique_seq_to_set();
    keys(ahead.residents).unique_seq_to_set();
    let fewer = union.to_set();
    let whole = keys(ahead.residents).to_set();
    assert forall|x: usize| #[trigger] fewer.contains(x) implies whole.contains(x) by {
        let i = choose|i: int| 0 <= i < union.len() && union[i] == x;
        if i < start.residents.len() {
            assert(keys(start.residents)[i] == x);
        } else {
            assert(lacking[i - start.residents.len()] == x);
            assert(lacking.contains(x));
        }
        assert(keys(ahead.residents).contains(x));
    }
    vstd::set_lib::lemma_len_subset(fewer, whole);
    if gauges_hold(telemetry, layer, sizes) {
        lemma_evictions(telemetry, start.residents);
        let others = telemetry.resident_experts - layer.residents.len();
        let more = telemetry.resident_bytes - total_bytes(layer.residents);
        lemma_gauges(telemetry, layer, experts, sizes, others, more);
        lemma_gauges(telemetry.with_evictions(out), start, experts, sizes, others, more);
    }
}

/// Every resident has the size that its expert has.
pub open spec fn priced(list: Seq<Resident>, cost: spec_fn(usize) -> (u64, u64)) -> bool {
    forall|i: int| 0 <= i < list.len() ==> (#[trigger] list[i]).bytes == cost(list[i].expert).0
}

proof fn lemma_priced(
    layer: LayerView,
    experts: Seq<usize>,
    cost: spec_fn(usize) -> (u64, u64),
)
    requires
        layer.well_formed(),
        priced(layer.residents, cost),
    ensures
        priced(after_accesses(layer, experts, costs_of(experts, cost)).residents, cost),
    decreases experts.len(),
{
    if experts.len() > 0 {
        let done = experts.drop_last();
        let costs = costs_of(experts, cost);
        lemma_priced(layer, done, cost);
        assert(costs.drop_last() =~= costs_of(done, cost));
        assert(costs.last() == cost(experts.last()));
        let list = after_accesses(layer, done, costs_of(done, cost)).residents;
        let after = after_accesses(layer, experts, costs).residents;
        assert forall|i: int| 0 <= i < after.len() implies (#[trigger] after[i]).bytes == cost(
            after[i].expert,
        ).0 by {
            if keys(list).contains(experts.last()) {
                let at = keys(list).index_of(experts.last());
                if i == after.len() - 1 {
                    assert(after[i] == list[at]);
                } else if i < at {
                    assert(after[i] == list[i]);
                } else {
                    assert(after[i] == list[i + 1]);
                }
            }
        }
    }
}

/// Residents of one size for each expert are told by their experts.
proof fn lemma_priced_by_key(
    one: Seq<Resident>,
    other: Seq<Resident>,
    cost: spec_fn(usize) -> (u64, u64),
)
    requires
        priced(one, cost),
        priced(other, cost),
        keys(one) == keys(other),
    ensures
        one == other,
{
    assert(one.len() == keys(one).len() && other.len() == keys(other).len());
    assert(one.len() == other.len());
    assert forall|i: int| 0 <= i < one.len() implies one[i] == other[i] by {
        assert(keys(one)[i] == one[i].expert && keys(other)[i] == other[i].expert);
        assert(one[i].bytes == cost(one[i].expert).0);
        assert(other[i].bytes == cost(other[i].expert).0);
    }
    assert(one =~= other);
}

/// A layer that borrows places and gives them back holds, behind any series of accesses, the
/// experts that it would hold without: the same, in the same order and of the same sizes.
pub proof fn lent_places_leave_the_same_residents(
    layer: LayerView,
    experts: Seq<usize>,
    cost: spec_fn(usize) -> (u64, u64),
    lent: nat,
)
    requires
        layer.well_formed(),
        priced(layer.residents, cost),
        lent >= layer.capacity,
    ensures
        most_recent(
            after_accesses(
                (LayerView { residents: layer.residents, capacity: lent }),
                experts,
                costs_of(experts, cost),
            ).residents,
            layer.capacity,
        ) == after_accesses(layer, experts, costs_of(experts, cost)).residents,
{
    let wide = LayerView { residents: layer.residents, capacity: lent };
    let costs = costs_of(experts, cost);
    let held = after_accesses(wide, experts, costs).residents;
    let short = most_recent(held, layer.capacity);
    let plain = after_accesses(layer, experts, costs).residents;
    lemma_accesses_follow(layer, experts, costs);
    lemma_accesses_follow(wide, experts, costs);
    recency::more_places_keep_the_same_recent(
        keys(layer.residents),
        experts,
        layer.capacity,
        lent,
    );
    lemma_priced(layer, experts, cost);
    lemma_priced(wide, experts, cost);
    assert(keys(short) =~= recency::suffix(keys(held), layer.capacity));
    assert(priced(short, cost)) by {
        let gone = held.len() - short.len();
        assert forall|i: int| 0 <= i < short.len() implies (#[trigger] short[i]).bytes == cost(
            short[i].expert,
        ).0 by {
            assert(short[i] == held[i + gone]);
        }
    }
    lemma_priced_by_key(short, plain, cost);
}

/// Every access counts once, as a hit or as a miss.
pub proof fn every_access_counts_once(
    telemetry: ExpertTelemetry,
    layer: LayerView,
    experts: Seq<usize>,
    sizes: Seq<(u64, u64)>,
)
    requires
        telemetry.total() + experts.len() <= u64::MAX,
    ensures
        count_accesses(telemetry, layer, experts, sizes).total() == telemetry.total()
            + experts.len(),
    decreases experts.len(),
{
    if experts.len() > 0 {
        every_access_counts_once(telemetry, layer, experts.drop_last(), sizes.drop_last());
    }
}

/// Where the gauges show what a layer holds, they show it behind an access too. A hit is counted
/// exactly where the expert was held, bytes are read exactly where it was not, and an eviction is
/// counted exactly where the layer was full.
pub proof fn the_gauges_follow_the_residents(
    telemetry: ExpertTelemetry,
    layer: LayerView,
    expert: usize,
    bytes: u64,
    read: u64,
)
    requires
        layer.well_formed(),
        telemetry.resident_experts == layer.residents.len(),
        telemetry.resident_bytes == total_bytes(layer.residents),
        layer.residents.len() < usize::MAX,
        total_bytes(layer.residents) + bytes <= u64::MAX,
        telemetry.hits < u64::MAX,
        telemetry.misses < u64::MAX,
        telemetry.evictions < u64::MAX,
        telemetry.bytes_read + read <= u64::MAX,
    ensures
        ({
            let after = count_access(
                telemetry,
                layer.residents,
                expert,
                bytes,
                read,
                layer.capacity,
            );
            let held = keys(layer.residents).contains(expert);
            let residents = layer.after_access(expert, bytes).residents;
            &&& after.resident_experts == residents.len()
            &&& after.resident_bytes == total_bytes(residents)
            &&& after.hits == telemetry.hits + if held {
                1int
            } else {
                0
            }
            &&& after.misses == telemetry.misses + if held {
                0int
            } else {
                1
            }
            &&& after.bytes_read == telemetry.bytes_read + if held {
                0int
            } else {
                read as int
            }
            &&& after.evictions == telemetry.evictions + if !held && layer.capacity > 0
                && layer.residents.len() == layer.capacity {
                1int
            } else {
                0
            }
        }),
{
    let list = layer.residents;
    let new = Resident { expert, bytes };
    if keys(list).contains(expert) {
        let at = keys(list).index_of(expert);
        assert(keys(list)[at] == expert);
        lemma_total_without(list, at);
        assert(list.remove(at).push(list[at]).drop_last() =~= list.remove(at));
    } else if layer.capacity > 0 {
        if list.len() < layer.capacity {
            assert(list.push(new).drop_last() =~= list);
        } else {
            lemma_total_without(list, 0);
            assert(list.remove(0) =~= list.skip(1));
            assert(list.skip(1).push(new).drop_last() =~= list.skip(1));
        }
    }
}

proof fn lemma_total_without(list: Seq<Resident>, at: int)
    requires
        0 <= at < list.len(),
    ensures
        total_bytes(list) == total_bytes(list.remove(at)) + list[at].bytes,
        total_bytes(list.remove(at)) >= 0,
    decreases list.len(),
{
    let front = list.drop_last();
    if at == list.len() - 1 {
        assert(list.remove(at) =~= front);
        if front.len() > 0 {
            lemma_total_without(front, 0);
        }
    } else {
        lemma_total_without(front, at);
        assert(list.remove(at).drop_last() =~= front.remove(at));
        assert(list.remove(at).last() == list.last());
    }
}

/// What a held expert took up stays known, and a new one is known by what was paid for it.
pub proof fn residents_keep_their_bytes(layer: LayerView, expert: usize, bytes: u64, i: int)
    requires
        layer.well_formed(),
        layer.capacity > 0,
        0 <= i < layer.residents.len(),
    ensures
        ({
            let last = layer.after_access(expert, bytes).residents.last();
            &&& last.expert == expert
            &&& layer.residents[i].expert == expert ==> last == layer.residents[i]
            &&& !keys(layer.residents).contains(expert) ==> last.bytes == bytes
        }),
{
    let list = layer.residents;
    if keys(list).contains(expert) {
        let at = keys(list).index_of(expert);
        assert(keys(list)[at] == expert);
        assert(keys(list)[i] == list[i].expert);
    }
    if list[i].expert == expert {
        assert(keys(list)[i] == expert);
        assert(keys(list).contains(expert));
    }
}

/// Giving places back drops the oldest residents: what leaves and what stays are the list again, and
/// no more stay than there are places.
pub proof fn the_oldest_leave(list: Seq<Resident>, count: nat)
    ensures
        beyond(list, count) + most_recent(list, count) == list,
        most_recent(list, count).len() == if list.len() < count {
            list.len()
        } else {
            count
        },
{
    assert(beyond(list, count) + most_recent(list, count) =~= list);
}

/// A layer borrows up to the limit where that many places are free, and all that are free otherwise.
pub proof fn a_layer_borrows_what_is_free(layers: Seq<LayerView>, layer: int, limit: nat)
    requires
        layers_well_formed(layers),
        0 <= layer < layers.len(),
        limit > layers[layer].capacity,
    ensures
        ({
            let others = occupied(layers) - layers[layer].residents.len();
            let lent = lent_capacity(layers, layer, limit);
            &&& lent <= limit
            &&& lent < limit ==> others + lent == places(layers)
        }),
{
    lemma_spare_is_counted(layers);
    lemma_own_places_are_spare(layers, layer);
}

/// An expert leaves exactly where a new one comes to a full layer, and it is the one used longest ago.
pub proof fn only_a_full_layer_evicts(layer: LayerView, expert: usize, i: int)
    requires
        layer.well_formed(),
        0 <= i < layer.residents.len(),
    ensures
        ({
            let gone = evicted_by(layer.residents, expert, layer.capacity);
            let after = layer.after_access(expert, 0).residents;
            &&& gone is Some <==> !keys(layer.residents).contains(expert) && layer.capacity > 0
                && layer.residents.len() == layer.capacity
            &&& gone matches Some(resident) ==> resident == layer.residents[0] && !keys(
                after,
            ).contains(resident.expert)
            &&& gone is None ==> keys(after).contains(layer.residents[i].expert)
        }),
{
    let list = layer.residents;
    let after = layer.after_access(expert, 0).residents;
    access_keeps_the_most_recent(layer, expert, 0);
    assert(keys(list)[i] == list[i].expert);
    if layer.capacity > 0 {
        if list[i].expert != expert {
            recency::a_use_displaces_the_oldest(
                keys(list),
                expert,
                layer.capacity,
                list[i].expert,
            );
        } else {
            assert(keys(after).last() == expert) by {
                recency::a_use_displaces_the_oldest(
                    keys(list),
                    expert,
                    layer.capacity,
                    if expert == 0 {
                        1
                    } else {
                        0
                    },
                );
            }
            assert(keys(after)[keys(after).len() - 1] == expert);
        }
        if evicted_by(list, expert, layer.capacity) is Some {
            assert(keys(list)[0] == list[0].expert);
            assert(keys(list).contains(list[0].expert));
            recency::a_use_displaces_the_oldest(
                keys(list),
                expert,
                layer.capacity,
                list[0].expert,
            );
        }
    } else {
        assert(list.len() == 0);
    }
}

/// Counts stop at their maximum and differences at zero.
pub proof fn counts_do_not_wrap(count: int)
    requires
        0 <= count,
    ensures
        count <= u64::MAX ==> saturated(count) == count,
        count > u64::MAX ==> saturated(count) == u64::MAX,
        count <= usize::MAX ==> saturated_size(count) == count,
        count > usize::MAX ==> saturated_size(count) == usize::MAX,
        floored(count) == count && floored(-count) == 0,
{
}

} // verus!
