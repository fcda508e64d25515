//! The routed experts of GLM: where they stand in the checkpoint, and which of them stay resident.
//!
//! Each layer keeps at most so many experts and drops the one that was used longest ago. A store
//! without slots is valid: an expert is loaded, used once and dropped.

use crate::residency;
use crate::residency::ExpertTelemetry;
use crate::storage;
use crate::storage::{inspect_weight_matrix, StorageError, TensorIndex};
use crate::text;
use crate::text::push_decimal;
use std::sync::Arc;
use vstd::prelude::*;
use vstd::string::*;

verus! {

#[derive(Debug)]
pub enum ExpertStoreError {
    InvalidGeometry(String),
    InvalidLayer { layer: usize, layers: usize },
    InvalidExpert { expert: usize, experts: usize },
    InvalidInput { expected: usize, got: usize },
    Budget { layer: usize, expert: usize, required: u64, maximum: u64 },
    Checkpoint(StorageError),
}

/// The same error, over plain values.
pub enum ExpertProblem {
    InvalidGeometry(Seq<char>),
    InvalidLayer { layer: usize, layers: usize },
    InvalidExpert { expert: usize, experts: usize },
    InvalidInput { expected: usize, got: usize },
    Budget { layer: usize, expert: usize, required: u64, maximum: u64 },
    Checkpoint(storage::StorageProblem),
}

impl View for ExpertStoreError {
    type V = ExpertProblem;

    open spec fn view(&self) -> ExpertProblem {
        match *self {
            ExpertStoreError::InvalidGeometry(reason) => ExpertProblem::InvalidGeometry(reason@),
            ExpertStoreError::InvalidLayer { layer, layers } => ExpertProblem::InvalidLayer {
                layer,
                layers,
            },
            ExpertStoreError::InvalidExpert { expert, experts } => ExpertProblem::InvalidExpert {
                expert,
                experts,
            },
            ExpertStoreError::InvalidInput { expected, got } => ExpertProblem::InvalidInput {
                expected,
                got,
            },
            ExpertStoreError::Budget { layer, expert, required, maximum } => ExpertProblem::Budget {
                layer,
                expert,
                required,
                maximum,
            },
            ExpertStoreError::Checkpoint(error) => ExpertProblem::Checkpoint(error@),
        }
    }
}

pub open spec fn problem<T>(result: Result<T, ExpertStoreError>) -> Option<ExpertProblem> {
    match result {
        Ok(_) => None,
        Err(error) => Some(error@),
    }
}

impl ExpertProblem {
    /// The error as text, but for one of the checkpoint, which speaks for itself.
    pub open spec fn text(self) -> Option<Seq<char>> {
        match self {
            ExpertProblem::InvalidGeometry(reason) => Some(
                "invalid expert store geometry: "@ + reason,
            ),
            ExpertProblem::InvalidLayer { layer, layers } => Some(
                "expert layer "@ + text::decimal(layer as nat) + " is outside 0.."@
                    + text::decimal(layers as nat),
            ),
            ExpertProblem::InvalidExpert { expert, experts } => Some(
                "expert ID "@ + text::decimal(expert as nat) + " is outside 0.."@
                    + text::decimal(experts as nat),
            ),
            ExpertProblem::InvalidInput { expected, got } => Some(
                "expert input needs "@ + text::decimal(expected as nat) + " values, got "@
                    + text::decimal(got as nat),
            ),
            ExpertProblem::Budget { layer, expert, required, maximum } => Some(
                "layer "@ + text::decimal(layer as nat) + " expert "@ + text::decimal(
                    expert as nat,
                ) + " needs "@ + text::decimal(required as nat)
                    + " bytes, per-expert limit is "@ + text::decimal(maximum as nat),
            ),
            ExpertProblem::Checkpoint(_) => None,
        }
    }
}

impl ExpertStoreError {
    pub fn message(&self) -> (message: Option<String>)
        ensures
            message is Some == self@.text() is Some,
            message is Some ==> message->0@ == self@.text()->0,
    {
        match self {
            ExpertStoreError::InvalidGeometry(reason) => {
                let mut message = "invalid expert store geometry: ".to_owned();
                message.append(reason.as_str());
                Some(message)
            },
            ExpertStoreError::InvalidLayer { layer, layers } => {
                let mut message = "expert layer ".to_owned();
                push_decimal(&mut message, *layer as u64);
                message.append(" is outside 0..");
                push_decimal(&mut message, *layers as u64);
                Some(message)
            },
            ExpertStoreError::InvalidExpert { expert, experts } => {
                let mut message = "expert ID ".to_owned();
                push_decimal(&mut message, *expert as u64);
                message.append(" is outside 0..");
                push_decimal(&mut message, *experts as u64);
                Some(message)
            },
            ExpertStoreError::InvalidInput { expected, got } => {
                let mut message = "expert input needs ".to_owned();
                push_decimal(&mut message, *expected as u64);
                message.append(" values, got ");
                push_decimal(&mut message, *got as u64);
                Some(message)
            },
            ExpertStoreError::Budget { layer, expert, required, maximum } => {
                let mut message = "layer ".to_owned();
                push_decimal(&mut message, *layer as u64);
                message.append(" expert ");
                push_decimal(&mut message, *expert as u64);
                message.append(" needs ");
                push_decimal(&mut message, *required);
                message.append(" bytes, per-expert limit is ");
                push_decimal(&mut message, *maximum);
                Some(message)
            },
            ExpertStoreError::Checkpoint(_) => None,
        }
    }
}

/// A resident expert and when it was last used.
#[derive(Debug, Clone, Copy, PartialEq, Eq, Structural)]
pub struct CachedExpert {
    pub expert: usize,
    pub last_used: u64,
    pub bytes: u64,
}

/// The place of an expert in a layer's list, or the list's length where it is not there.
pub open spec fn place(list: Seq<CachedExpert>, expert: usize) -> int
    decreases list.len(),
{
    if list.len() == 0 {
        0
    } else if list[0].expert == expert {
        0
    } else {
        1 + place(list.skip(1), expert)
    }
}

pub open spec fn holds(list: Seq<CachedExpert>, expert: usize) -> bool {
    exists|i: int| 0 <= i < list.len() && (#[trigger] list[i]).expert == expert
}

/// The entry at `i` was used before every other one.
pub open spec fn is_oldest(list: Seq<CachedExpert>, i: int) -> bool {
    &&& 0 <= i < list.len()
    &&& forall|j: int|
        0 <= j < list.len() && j != i ==> list[i].last_used < (#[trigger] list[j]).last_used
}

/// The place of the entry that was used longest ago.
pub open spec fn oldest(list: Seq<CachedExpert>) -> int {
    choose|i: int| is_oldest(list, i)
}

/// A layer's experts are distinct, were used at distinct times up to `clock`, and fit the slots.
pub open spec fn layer_well_formed(
    list: Seq<CachedExpert>,
    slots: usize,
    experts: usize,
    clock: u64,
) -> bool {
    &&& list.len() <= slots
    &&& forall|i: int|
        0 <= i < list.len() ==> (#[trigger] list[i]).expert < experts && list[i].last_used <= clock
    &&& forall|i: int, j: int|
        0 <= i < j < list.len() ==> (#[trigger] list[i]).expert != (#[trigger] list[j]).expert
            && list[i].last_used != list[j].last_used
}

/// How many experts there are in all layers.
pub open spec fn total(caches: Seq<Seq<CachedExpert>>) -> nat
    decreases caches.len(),
{
    if caches.len() == 0 {
        0
    } else {
        total(caches.drop_last()) + caches.last().len()
    }
}

proof fn lemma_total_update(caches: Seq<Seq<CachedExpert>>, layer: int, list: Seq<CachedExpert>)
    requires
        0 <= layer < caches.len(),
    ensures
        total(caches.update(layer, list)) == total(caches) - caches[layer].len() + list.len(),
        total(caches) >= caches[layer].len(),
    decreases caches.len(),
{
    let changed = caches.update(layer, list);
    if layer == caches.len() - 1 {
        assert(changed.drop_last() =~= caches.drop_last());
    } else {
        lemma_total_update(caches.drop_last(), layer, list);
        assert(changed.drop_last() =~= caches.drop_last().update(layer, list));
    }
}

proof fn lemma_nothing_held(caches: Seq<Seq<CachedExpert>>)
    requires
        forall|i: int| 0 <= i < caches.len() ==> (#[trigger] caches[i]).len() == 0,
    ensures
        total(caches) == 0,
    decreases caches.len(),
{
    if caches.len() > 0 {
        assert(caches.last().len() == 0);
        assert forall|i: int| 0 <= i < caches.drop_last().len() implies (
        #[trigger] caches.drop_last()[i]).len() == 0 by {
            assert(caches.drop_last()[i] == caches[i]);
        }
        lemma_nothing_held(caches.drop_last());
    }
}

/// Which projection of an expert.
#[derive(Debug, Clone, Copy, PartialEq, Eq, Structural)]
pub enum Projection {
    Gate,
    Up,
    Down,
}

/// The tensor of a projection.
pub open spec fn expert_name(layer: usize, expert: usize, projection: Projection) -> Seq<char> {
    "model.layers."@ + text::decimal(layer as nat) + ".mlp.experts."@ + text::decimal(expert as nat)
        + match projection {
        Projection::Gate => ".gate_proj.weight"@,
        Projection::Up => ".up_proj.weight"@,
        Projection::Down => ".down_proj.weight"@,
    }
}

pub fn name_expert(layer: usize, expert: usize, projection: Projection) -> (name: String)
    ensures
        name@ == expert_name(layer, expert, projection),
{
    let mut name = "model.layers.".to_owned();
    push_decimal(&mut name, layer as u64);
    name.append(".mlp.experts.");
    push_decimal(&mut name, expert as u64);
    match projection {
        Projection::Gate => name.append(".gate_proj.weight"),
        Projection::Up => name.append(".up_proj.weight"),
        Projection::Down => name.append(".down_proj.weight"),
    }
    name
}

/// What a layer's expert takes, and why it cannot be loaded.
pub open spec fn measure(
    index: storage::IndexView,
    layer: usize,
    expert: usize,
    hidden: usize,
    intermediate: usize,
    maximum: u64,
) -> Result<u64, ExpertProblem> {
    let gate = index.inspect(expert_name(layer, expert, Projection::Gate), intermediate, hidden);
    let up = index.inspect(expert_name(layer, expert, Projection::Up), intermediate, hidden);
    let down = index.inspect(expert_name(layer, expert, Projection::Down), hidden, intermediate);
    if gate is Err {
        Err(ExpertProblem::Checkpoint(gate->Err_0))
    } else if up is Err {
        Err(ExpertProblem::Checkpoint(up->Err_0))
    } else if gate->Ok_0.resident_bytes + up->Ok_0.resident_bytes > u64::MAX {
        Err(ExpertProblem::InvalidGeometry("expert bytes overflow"@))
    } else if down is Err {
        Err(ExpertProblem::Checkpoint(down->Err_0))
    } else {
        let bytes = gate->Ok_0.resident_bytes + up->Ok_0.resident_bytes
            + down->Ok_0.resident_bytes;
        if bytes > u64::MAX {
            Err(ExpertProblem::InvalidGeometry("expert bytes overflow"@))
        } else if bytes > maximum {
            Err(ExpertProblem::Budget { layer, expert, required: bytes as u64, maximum })
        } else {
            Ok(bytes as u64)
        }
    }
}

/// What a [`measure_expert`] call gave.
pub open spec fn outcome(result: Result<u64, ExpertStoreError>) -> Result<u64, ExpertProblem> {
    match result {
        Ok(bytes) => Ok(bytes),
        Err(error) => Err(error@),
    }
}

fn inspect(index: &TensorIndex, name: &str, rows: usize, cols: usize) -> (result: Result<
    u64,
    ExpertStoreError,
>)
    ensures
        match result {
            Ok(bytes) => index@.inspect(name@, rows, cols) is Ok && bytes == index@.inspect(
                name@,
                rows,
                cols,
            )->Ok_0.resident_bytes,
            Err(error) => index@.inspect(name@, rows, cols) is Err && error@
                == ExpertProblem::Checkpoint(index@.inspect(name@, rows, cols)->Err_0),
        },
{
    match inspect_weight_matrix(index, name, rows, cols) {
        Ok(layout) => Ok(layout.resident_bytes),
        Err(error) => Err(ExpertStoreError::Checkpoint(error)),
    }
}

/// How many bytes an expert takes.
pub fn measure_expert(
    index: &TensorIndex,
    layer: usize,
    expert: usize,
    hidden: usize,
    intermediate: usize,
    maximum: u64,
) -> (result: Result<u64, ExpertStoreError>)
    ensures
        outcome(result) == measure(index@, layer, expert, hidden, intermediate, maximum),
{
    let gate = name_expert(layer, expert, Projection::Gate);
    let up = name_expert(layer, expert, Projection::Up);
    let down = name_expert(layer, expert, Projection::Down);
    let first: u64 = inspect(index, gate.as_str(), intermediate, hidden)?;
    let second: u64 = inspect(index, up.as_str(), intermediate, hidden)?;
    let both: u64 = match first.checked_add(second) {
        Some(sum) => sum,
        None => {
            return Err(ExpertStoreError::InvalidGeometry("expert bytes overflow".to_owned()));
        },
    };
    let third: u64 = inspect(index, down.as_str(), hidden, intermediate)?;
    let bytes: u64 = match both.checked_add(third) {
        Some(sum) => sum,
        None => {
            return Err(ExpertStoreError::InvalidGeometry("expert bytes overflow".to_owned()));
        },
    };
    if bytes > maximum {
        return Err(ExpertStoreError::Budget { layer, expert, required: bytes, maximum });
    }
    Ok(bytes)
}

/// The resident experts of all layers.
pub struct ExpertStore {
    index: Arc<TensorIndex>,
    caches: Vec<Vec<CachedExpert>>,
    slots_per_layer: usize,
    experts_per_layer: usize,
    hidden_size: usize,
    intermediate_size: usize,
    maximum_expert_bytes: u64,
    clock: u64,
    telemetry: ExpertTelemetry,
}

/// What an [`ExpertStore`] holds.
#[verifier::ext_equal]
pub struct StoreView {
    pub index: storage::IndexView,
    pub caches: Seq<Seq<CachedExpert>>,
    pub slots: usize,
    pub experts: usize,
    pub hidden: usize,
    pub intermediate: usize,
    pub maximum: u64,
    pub clock: u64,
    pub telemetry: ExpertTelemetry,
}

/// The lists of all layers.
pub open spec fn lists(caches: Seq<Vec<CachedExpert>>) -> Seq<Seq<CachedExpert>> {
    Seq::new(caches.len(), |i: int| caches[i]@)
}

impl View for ExpertStore {
    type V = StoreView;

    closed spec fn view(&self) -> StoreView {
        StoreView {
            index: (*self.index)@,
            caches: lists(self.caches@),
            slots: self.slots_per_layer,
            experts: self.experts_per_layer,
            hidden: self.hidden_size,
            intermediate: self.intermediate_size,
            maximum: self.maximum_expert_bytes,
            clock: self.clock,
            telemetry: self.telemetry,
        }
    }
}

/// What an access comes to.
#[derive(Debug, Clone, Copy, PartialEq, Eq, Structural)]
pub enum Access {
    /// The expert is resident, at this place of its layer's list.
    Hit(usize),
    /// The expert has to be loaded, and takes so many bytes.
    Load(u64),
}

impl StoreView {
    pub open spec fn well_formed(self) -> bool {
        &&& forall|i: int|
            0 <= i < self.caches.len() ==> layer_well_formed(
                #[trigger] self.caches[i],
                self.slots,
                self.experts,
                self.clock,
            )
        &&& self.telemetry.resident_experts == total(self.caches)
        &&& self.telemetry.hits + self.telemetry.misses <= self.clock
        &&& self.telemetry.evictions <= self.telemetry.misses
    }

    /// Why a request is refused before anything changes.
    pub open spec fn request_problem(self, layer: usize, expert: usize, length: usize) -> Option<
        ExpertProblem,
    > {
        if layer >= self.caches.len() {
            Some(ExpertProblem::InvalidLayer { layer, layers: self.caches.len() as usize })
        } else if expert >= self.experts {
            Some(ExpertProblem::InvalidExpert { expert, experts: self.experts })
        } else if length != self.hidden {
            Some(ExpertProblem::InvalidInput { expected: self.hidden, got: length })
        } else if self.clock == u64::MAX {
            Some(ExpertProblem::InvalidGeometry("LRU clock overflowed u64"@))
        } else {
            None
        }
    }

    /// The store after a hit.
    pub open spec fn hit(self, layer: int, position: int) -> StoreView {
        let clock = (self.clock + 1) as u64;
        let list = self.caches[layer];
        StoreView {
            caches: self.caches.update(
                layer,
                list.update(position, CachedExpert { last_used: clock, ..list[position] }),
            ),
            clock,
            telemetry: ExpertTelemetry {
                hits: (self.telemetry.hits + 1) as u64,
                ..self.telemetry
            },
            ..self
        }
    }

    /// The store after a miss has been counted.
    pub open spec fn missed(self) -> StoreView {
        StoreView {
            clock: (self.clock + 1) as u64,
            telemetry: ExpertTelemetry {
                misses: (self.telemetry.misses + 1) as u64,
                ..self.telemetry
            },
            ..self
        }
    }

    /// The store without the expert of a layer that was used longest ago.
    pub open spec fn evicted(self, layer: int) -> StoreView {
        let list = self.caches[layer];
        let position = oldest(list);
        StoreView {
            caches: self.caches.update(layer, list.remove(position)),
            telemetry: ExpertTelemetry {
                evictions: (self.telemetry.evictions + 1) as u64,
                resident_experts: (self.telemetry.resident_experts - 1) as usize,
                resident_bytes: residency::floored(
                    self.telemetry.resident_bytes - list[position].bytes,
                ) as u64,
                ..self.telemetry
            },
            ..self
        }
    }

    /// The store when an accepted request has been begun.
    pub open spec fn begun(self, layer: int, expert: usize) -> StoreView {
        let list = self.caches[layer];
        if holds(list, expert) {
            self.hit(layer, place(list, expert))
        } else if self.slots > 0 && list.len() == self.slots {
            self.missed().evicted(layer)
        } else {
            self.missed()
        }
    }

    /// What an accepted request comes to.
    pub open spec fn access(self, layer: usize, expert: usize) -> Result<Access, ExpertProblem> {
        let list = self.caches[layer as int];
        if holds(list, expert) {
            Ok(Access::Hit(place(list, expert) as usize))
        } else {
            match measure(
                self.index,
                layer,
                expert,
                self.hidden,
                self.intermediate,
                self.maximum,
            ) {
                Ok(bytes) => Ok(Access::Load(bytes)),
                Err(problem) => Err(problem),
            }
        }
    }

    /// An expert can be added to a layer.
    pub open spec fn awaits(self, layer: int, expert: usize) -> bool {
        &&& 0 <= layer < self.caches.len()
        &&& expert < self.experts
        &&& !holds(self.caches[layer], expert)
        &&& self.slots > 0 ==> self.caches[layer].len() < self.slots
        &&& forall|i: int|
            0 <= i < self.caches[layer].len() ==> (#[trigger] self.caches[layer][i]).last_used
                < self.clock
    }

    /// The store when an expert has been loaded.
    pub open spec fn loaded(self, layer: int, expert: usize, bytes: u64) -> StoreView {
        let read = residency::saturated(self.telemetry.bytes_read + bytes);
        if self.slots == 0 {
            StoreView {
                telemetry: ExpertTelemetry { bytes_read: read, ..self.telemetry },
                ..self
            }
        } else {
            StoreView {
                caches: self.caches.update(
                    layer,
                    self.caches[layer].push(
                        CachedExpert { expert, last_used: self.clock, bytes },
                    ),
                ),
                telemetry: ExpertTelemetry {
                    bytes_read: read,
                    resident_experts: (self.telemetry.resident_experts + 1) as usize,
                    resident_bytes: residency::saturated(self.telemetry.resident_bytes + bytes),
                    ..self.telemetry
                },
                ..self
            }
        }
    }
}

proof fn lemma_place(list: Seq<CachedExpert>, expert: usize)
    ensures
        0 <= place(list, expert) <= list.len(),
        holds(list, expert) <==> place(list, expert) < list.len(),
        holds(list, expert) ==> list[place(list, expert)].expert == expert,
        forall|i: int|
            0 <= i < place(list, expert) ==> (#[trigger] list[i]).expert != expert,
    decreases list.len(),
{
    if list.len() > 0 {
        let rest = list.skip(1);
        lemma_place(rest, expert);
        if list[0].expert != expert {
            assert forall|i: int| 0 <= i < place(list, expert) implies (#[trigger] list[i]).expert
                != expert by {
                if i > 0 {
                    assert(rest[i - 1] == list[i]);
                }
            }
            if holds(list, expert) {
                let i = choose|i: int| 0 <= i < list.len() && (#[trigger] list[i]).expert == expert;
                assert(rest[i - 1].expert == expert);
            }
            if holds(rest, expert) {
                let i = choose|i: int| 0 <= i < rest.len() && (#[trigger] rest[i]).expert == expert;
                assert(list[i + 1].expert == expert);
            }
        }
    }
}

proof fn lemma_some_oldest(list: Seq<CachedExpert>)
    requires
        list.len() > 0,
        forall|i: int, j: int|
            0 <= i < j < list.len() ==> (#[trigger] list[i]).last_used != (
            #[trigger] list[j]).last_used,
    ensures
        exists|i: int| is_oldest(list, i),
    decreases list.len(),
{
    let rest = list.drop_last();
    let last = list.len() - 1;
    if rest.len() == 0 {
        assert(is_oldest(list, 0));
    } else {
        assert forall|i: int, j: int| 0 <= i < j < rest.len() implies (
        #[trigger] rest[i]).last_used != (#[trigger] rest[j]).last_used by {
            assert(rest[i] == list[i] && rest[j] == list[j]);
        }
        lemma_some_oldest(rest);
        let i = choose|i: int| is_oldest(rest, i);
        assert(list[i].last_used != list[last].last_used);
        assert forall|j: int| 0 <= j < rest.len() && j != i implies list[i].last_used < (
        #[trigger] list[j]).last_used by {
            assert(rest[j] == list[j]);
        }
        if list[i].last_used < list[last].last_used {
            assert(is_oldest(list, i));
        } else {
            assert(is_oldest(list, last));
        }
    }
}

/// No more than one expert of a layer was used longest ago.
pub proof fn the_oldest_is_unique(
    list: Seq<CachedExpert>,
    slots: usize,
    experts: usize,
    clock: u64,
    i: int,
)
    requires
        layer_well_formed(list, slots, experts, clock),
        is_oldest(list, i),
    ensures
        oldest(list) == i,
{
    let other = oldest(list);
    assert(is_oldest(list, other));
    if other != i {
        assert(list[i].last_used < list[other].last_used);
        assert(list[other].last_used < list[i].last_used);
    }
}

/// Dropping one expert of a full layer keeps the others, all of which were used later.
pub proof fn an_eviction_drops_the_least_recent(
    store: StoreView,
    layer: int,
    i: int,
    kept: CachedExpert,
)
    requires
        store.well_formed(),
        0 <= layer < store.caches.len(),
        is_oldest(store.caches[layer], i),
        store.caches[layer].contains(kept),
        kept != store.caches[layer][i],
    ensures
        store.evicted(layer).caches[layer].contains(kept),
        store.evicted(layer).caches[layer].len() == store.caches[layer].len() - 1,
        store.caches[layer][i].last_used < kept.last_used,
{
    let list = store.caches[layer];
    the_oldest_is_unique(list, store.slots, store.experts, store.clock, i);
    let j = choose|j: int| 0 <= j < list.len() && list[j] == kept;
    let rest = list.remove(i);
    if j < i {
        assert(rest[j] == kept);
    } else {
        assert(rest[j - 1] == kept);
    }
}

/// An accepted request is counted once, as a hit or as a miss.
pub proof fn each_request_counts_once(store: StoreView, layer: int, expert: usize)
    requires
        store.well_formed(),
        0 <= layer < store.caches.len(),
        store.clock < u64::MAX,
    ensures
        store.begun(layer, expert).telemetry.total() == store.telemetry.total() + 1,
        store.begun(layer, expert).telemetry.hits - store.telemetry.hits == if holds(
            store.caches[layer],
            expert,
        ) {
            1int
        } else {
            0
        },
{
}

proof fn lemma_hit(store: StoreView, layer: int, position: int)
    requires
        store.well_formed(),
        store.clock < u64::MAX,
        0 <= layer < store.caches.len(),
        0 <= position < store.caches[layer].len(),
    ensures
        store.hit(layer, position).well_formed(),
{
    let next = store.hit(layer, position);
    let list = store.caches[layer];
    lemma_total_update(store.caches, layer, next.caches[layer]);
    assert(layer_well_formed(list, store.slots, store.experts, store.clock));
    assert forall|i: int| 0 <= i < next.caches.len() implies layer_well_formed(
        #[trigger] next.caches[i],
        next.slots,
        next.experts,
        next.clock,
    ) by {
        assert(layer_well_formed(store.caches[i], store.slots, store.experts, store.clock));
    }
}

proof fn lemma_evicted(store: StoreView, layer: int, position: int)
    requires
        store.well_formed(),
        store.telemetry.evictions < store.telemetry.misses,
        0 <= layer < store.caches.len(),
        is_oldest(store.caches[layer], position),
    ensures
        store.evicted(layer).well_formed(),
        oldest(store.caches[layer]) == position,
        store.telemetry.resident_experts > 0,
{
    let list = store.caches[layer];
    the_oldest_is_unique(list, store.slots, store.experts, store.clock, position);
    let next = store.evicted(layer);
    lemma_total_update(store.caches, layer, next.caches[layer]);
    assert forall|i: int| 0 <= i < next.caches.len() implies layer_well_formed(
        #[trigger] next.caches[i],
        next.slots,
        next.experts,
        next.clock,
    ) by {
        assert(layer_well_formed(store.caches[i], store.slots, store.experts, store.clock));
        if i == layer {
            let rest = list.remove(position);
            assert forall|a: int| 0 <= a < rest.len() implies (#[trigger] rest[a])
                == list[if a < position { a } else { a + 1 }] by {}
        }
    }
}

/// An expert that is not resident can be added once its request has been begun.
pub proof fn a_begun_miss_awaits_its_expert(store: StoreView, layer: int, expert: usize)
    requires
        store.well_formed(),
        0 <= layer < store.caches.len(),
        expert < store.experts,
        store.clock < u64::MAX,
        !holds(store.caches[layer], expert),
    ensures
        store.begun(layer, expert).awaits(layer, expert),
{
    let next = store.begun(layer, expert);
    let list = store.caches[layer];
    assert(layer_well_formed(list, store.slots, store.experts, store.clock));
    if store.slots > 0 && list.len() == store.slots {
        lemma_some_oldest(list);
        assert(is_oldest(list, oldest(list)));
        let rest = list.remove(oldest(list));
        assert(next.caches[layer] == rest);
        assert forall|a: int| 0 <= a < rest.len() implies (#[trigger] rest[a]).expert != expert
            && rest[a].last_used < next.clock by {
            let b = if a < oldest(list) {
                a
            } else {
                a + 1
            };
            assert(rest[a] == list[b]);
            assert(list[b].expert != expert);
        }
    }
}

fn find_oldest(list: &Vec<CachedExpert>) -> (position: usize)
    requires
        list@.len() > 0,
        forall|i: int, j: int|
            0 <= i < j < list@.len() ==> (#[trigger] list@[i]).last_used != (
            #[trigger] list@[j]).last_used,
    ensures
        is_oldest(list@, position as int),
{
    let mut position: usize = 0;
    let mut i: usize = 1;
    while i < list.len()
        invariant
            1 <= i <= list@.len(),
            position < i,
            forall|a: int, b: int|
                0 <= a < b < list@.len() ==> (#[trigger] list@[a]).last_used != (
                #[trigger] list@[b]).last_used,
            forall|j: int|
                0 <= j < i && j != position ==> list@[position as int].last_used < (
                #[trigger] list@[j]).last_used,
        decreases list@.len() - i,
    {
        if list[i].last_used < list[position].last_used {
            position = i;
        }
        i = i + 1;
    }
    position
}

fn find_expert(list: &Vec<CachedExpert>, expert: usize) -> (found: Option<usize>)
    ensures
        found is Some == holds(list@, expert),
        found matches Some(position) ==> position == place(list@, expert) && position < list@.len(),
{
    proof {
        lemma_place(list@, expert);
    }
    let mut i: usize = 0;
    while i < list.len()
        invariant
            i <= list@.len(),
            forall|j: int| 0 <= j < i ==> (#[trigger] list@[j]).expert != expert,
        decreases list@.len() - i,
    {
        if list[i].expert == expert {
            proof {
                lemma_place(list@, expert);
                assert(holds(list@, expert));
            }
            return Some(i);
        }
        i = i + 1;
    }
    None
}

impl ExpertStore {
    /// A store that holds nothing, over tensors of its own.
    pub fn new(
        index: TensorIndex,
        num_layers: usize,
        experts_per_layer: usize,
        hidden_size: usize,
        intermediate_size: usize,
        slots_per_layer: usize,
        maximum_expert_bytes: u64,
    ) -> (result: Result<Self, ExpertStoreError>)
        ensures
            problem(result) == Self::geometry_problem(
                num_layers,
                experts_per_layer,
                hidden_size,
                intermediate_size,
                maximum_expert_bytes,
            ),
            result matches Ok(store) ==> store@.well_formed() && store@ == Self::fresh(
                index@,
                num_layers,
                experts_per_layer,
                hidden_size,
                intermediate_size,
                slots_per_layer,
                maximum_expert_bytes,
            ),
    {
        ExpertStore::new_shared(
            Arc::new(index),
            num_layers,
            experts_per_layer,
            hidden_size,
            intermediate_size,
            slots_per_layer,
            maximum_expert_bytes,
        )
    }

    /// Why there is no store of this geometry.
    pub open spec fn geometry_problem(
        layers: usize,
        experts: usize,
        hidden: usize,
        intermediate: usize,
        maximum: u64,
    ) -> Option<ExpertProblem> {
        if layers == 0 || experts == 0 || hidden == 0 || intermediate == 0 || maximum == 0 {
            Some(
                ExpertProblem::InvalidGeometry(
                    "layers, experts, dimensions, and byte limit must be non-zero"@,
                ),
            )
        } else {
            None
        }
    }

    /// A store that holds nothing.
    pub open spec fn fresh(
        index: storage::IndexView,
        layers: usize,
        experts: usize,
        hidden: usize,
        intermediate: usize,
        slots: usize,
        maximum: u64,
    ) -> StoreView {
        StoreView {
            index,
            caches: Seq::new(layers as nat, |i: int| Seq::empty()),
            slots,
            experts,
            hidden,
            intermediate,
            maximum,
            clock: 0,
            telemetry: residency::no_telemetry(),
        }
    }

    /// A store that holds nothing, over tensors that others use too.
    pub fn new_shared(
        index: Arc<TensorIndex>,
        num_layers: usize,
        experts_per_layer: usize,
        hidden_size: usize,
        intermediate_size: usize,
        slots_per_layer: usize,
        maximum_expert_bytes: u64,
    ) -> (result: Result<Self, ExpertStoreError>)
        ensures
            problem(result) == Self::geometry_problem(
                num_layers,
                experts_per_layer,
                hidden_size,
                intermediate_size,
                maximum_expert_bytes,
            ),
            result matches Ok(store) ==> store@.well_formed() && store@ == Self::fresh(
                (*index)@,
                num_layers,
                experts_per_layer,
                hidden_size,
                intermediate_size,
                slots_per_layer,
                maximum_expert_bytes,
            ),
    {
        if num_layers == 0 || experts_per_layer == 0 || hidden_size == 0 || intermediate_size == 0
            || maximum_expert_bytes == 0 {
            return Err(
                ExpertStoreError::InvalidGeometry(
                    "layers, experts, dimensions, and byte limit must be non-zero".to_owned(),
                ),
            );
        }
        let mut caches: Vec<Vec<CachedExpert>> = Vec::new();
        let mut i: usize = 0;
        while i < num_layers
            invariant
                i <= num_layers,
                caches@.len() == i,
                forall|j: int| 0 <= j < i ==> (#[trigger] caches@[j])@.len() == 0,
            decreases num_layers - i,
        {
            caches.push(Vec::new());
            i = i + 1;
        }
        let store = ExpertStore {
            index,
            caches,
            slots_per_layer,
            experts_per_layer,
            hidden_size,
            intermediate_size,
            maximum_expert_bytes,
            clock: 0,
            telemetry: ExpertTelemetry::default(),
        };
        proof {
            assert forall|j: int| 0 <= j < store@.caches.len() implies (
            #[trigger] store@.caches[j]) == Seq::<CachedExpert>::empty() by {
                assert(caches@[j]@ =~= Seq::<CachedExpert>::empty());
            }
            assert(store@.caches =~= Seq::new(
                num_layers as nat,
                |i: int| Seq::<CachedExpert>::empty(),
            ));
            lemma_nothing_held(store@.caches);
        }
        Ok(store)
    }

    pub fn telemetry(&self) -> (telemetry: &ExpertTelemetry)
        ensures
            *telemetry == self@.telemetry,
    {
        &self.telemetry
    }

    pub fn expert_count(&self) -> (count: usize)
        ensures
            count == self@.experts,
    {
        self.experts_per_layer
    }

    pub fn hidden_size(&self) -> (size: usize)
        ensures
            size == self@.hidden,
    {
        self.hidden_size
    }

    /// Counts from zero again. What is resident stays counted.
    pub fn reset_telemetry(&mut self)
        requires
            old(self)@.well_formed(),
        ensures
            final(self)@.well_formed(),
            final(self)@ == (StoreView {
                telemetry: ExpertTelemetry {
                    resident_experts: old(self)@.telemetry.resident_experts,
                    resident_bytes: old(self)@.telemetry.resident_bytes,
                    ..residency::no_telemetry()
                },
                ..old(self)@
            }),
    {
        let resident_experts: usize = self.telemetry.resident_experts;
        let resident_bytes: u64 = self.telemetry.resident_bytes;
        let mut telemetry = ExpertTelemetry::default();
        telemetry.resident_experts = resident_experts;
        telemetry.resident_bytes = resident_bytes;
        self.telemetry = telemetry;
    }

    /// Begins to execute an expert: a resident one is marked as used; for another one a full layer
    /// drops the one that was used longest ago. A request that is refused up front changes nothing;
    /// one whose tensors are not in order has been counted, and its slot is free.
    pub fn begin_execute(&mut self, layer: usize, expert: usize, input_length: usize) -> (result:
        Result<Access, ExpertStoreError>)
        requires
            old(self)@.well_formed(),
        ensures
            final(self)@.well_formed(),
            old(self)@.request_problem(layer, expert, input_length) is Some ==> problem(result)
                == old(self)@.request_problem(layer, expert, input_length) && final(self)@ == old(
                self,
            )@,
            old(self)@.request_problem(layer, expert, input_length) is None ==> {
                &&& final(self)@ == old(self)@.begun(layer as int, expert)
                &&& problem(result) == (match old(self)@.access(layer, expert) {
                    Ok(_) => None,
                    Err(problem) => Some(problem),
                })
                &&& result matches Ok(access) ==> old(self)@.access(layer, expert) == Ok::<
                    Access,
                    ExpertProblem,
                >(access)
                &&& result matches Ok(Access::Load(_)) ==> final(self)@.awaits(
                    layer as int,
                    expert,
                )
            },
    {
        if layer >= self.caches.len() {
            return Err(ExpertStoreError::InvalidLayer { layer, layers: self.caches.len() });
        }
        if expert >= self.experts_per_layer {
            return Err(
                ExpertStoreError::InvalidExpert { expert, experts: self.experts_per_layer },
            );
        }
        if input_length != self.hidden_size {
            return Err(
                ExpertStoreError::InvalidInput { expected: self.hidden_size, got: input_length },
            );
        }
        let clock: u64 = match self.clock.checked_add(1) {
            Some(clock) => clock,
            None => {
                return Err(
                    ExpertStoreError::InvalidGeometry("LRU clock overflowed u64".to_owned()),
                );
            },
        };
        let ghost before = self@;
        proof {
            assert(self.caches@[layer as int]@ == before.caches[layer as int]);
            assert(layer_well_formed(
                before.caches[layer as int],
                before.slots,
                before.experts,
                before.clock,
            ));
        }
        if let Some(position) = find_expert(&self.caches[layer], expert) {
            self.clock = clock;
            self.telemetry.hits = self.telemetry.hits + 1;
            let mut entry: CachedExpert = self.caches[layer][position];
            entry.last_used = clock;
            self.caches[layer].set(position, entry);
            proof {
                assert(self@.caches =~= before.hit(layer as int, position as int).caches);
                lemma_hit(before, layer as int, position as int);
            }
            return Ok(Access::Hit(position));
        }
        self.clock = clock;
        self.telemetry.misses = self.telemetry.misses + 1;
        let ghost counted = self@;
        proof {
            assert(counted =~= before.missed());
            assert forall|i: int| 0 <= i < counted.caches.len() implies layer_well_formed(
                #[trigger] counted.caches[i],
                counted.slots,
                counted.experts,
                counted.clock,
            ) by {
                assert(layer_well_formed(
                    before.caches[i],
                    before.slots,
                    before.experts,
                    before.clock,
                ));
            }
        }
        if self.slots_per_layer > 0 && self.caches[layer].len() == self.slots_per_layer {
            let position: usize = find_oldest(&self.caches[layer]);
            proof {
                lemma_evicted(counted, layer as int, position as int);
                assert(is_oldest(before.caches[layer as int], position as int));
            }
            let evicted = self.caches[layer].remove(position);
            self.telemetry.evictions = self.telemetry.evictions + 1;
            self.telemetry.resident_experts = self.telemetry.resident_experts - 1;
            self.telemetry.resident_bytes =
            self.telemetry.resident_bytes.saturating_sub(evicted.bytes);
            proof {
                assert(self@.caches =~= counted.evicted(layer as int).caches);
                assert(self@ =~= counted.evicted(layer as int));
                a_begun_miss_awaits_its_expert(before, layer as int, expert);
            }
        }
        let bytes: u64 = measure_expert(
            &self.index,
            layer,
            expert,
            self.hidden_size,
            self.intermediate_size,
            self.maximum_expert_bytes,
        )?;
        Ok(Access::Load(bytes))
    }

    /// Takes an expert that has been loaded into its layer, or only counts it where there are no
    /// slots.
    pub fn finish_load(&mut self, layer: usize, expert: usize, bytes: u64)
        requires
            old(self)@.well_formed(),
            old(self)@.awaits(layer as int, expert),
            old(self)@.telemetry.resident_experts < usize::MAX,
        ensures
            final(self)@.well_formed(),
            final(self)@ == old(self)@.loaded(layer as int, expert, bytes),
    {
        let ghost before = self@;
        self.telemetry.bytes_read = self.telemetry.bytes_read.saturating_add(bytes);
        if self.slots_per_layer == 0 {
            return ;
        }
        proof {
            assert(self.caches@[layer as int]@ == before.caches[layer as int]);
            assert(layer_well_formed(
                before.caches[layer as int],
                before.slots,
                before.experts,
                before.clock,
            ));
        }
        self.telemetry.resident_experts = self.telemetry.resident_experts + 1;
        self.telemetry.resident_bytes = self.telemetry.resident_bytes.saturating_add(bytes);
        let clock: u64 = self.clock;
        self.caches[layer].push(CachedExpert { expert, last_used: clock, bytes });
        proof {
            let next = before.loaded(layer as int, expert, bytes);
            assert(self@.caches =~= next.caches);
            assert(self@ =~= next);
            lemma_total_update(before.caches, layer as int, next.caches[layer as int]);
            assert forall|i: int| 0 <= i < next.caches.len() implies layer_well_formed(
                #[trigger] next.caches[i],
                next.slots,
                next.experts,
                next.clock,
            ) by {
                assert(layer_well_formed(
                    before.caches[i],
                    before.slots,
                    before.experts,
                    before.clock,
                ));
            }
        }
    }
}

/// An expert is measured as its three matrices together. It is refused exactly where one of them is
/// missing or of another shape, or where together they are beyond the limit.
pub proof fn experts_take_their_three_matrices(
    index: storage::IndexView,
    layer: usize,
    expert: usize,
    hidden: usize,
    intermediate: usize,
    maximum: u64,
)
    ensures
        ({
            let stem = "model.layers."@ + text::decimal(layer as nat) + ".mlp.experts."@
                + text::decimal(expert as nat);
            let gate = index.inspect(stem + ".gate_proj.weight"@, intermediate, hidden);
            let up = index.inspect(stem + ".up_proj.weight"@, intermediate, hidden);
            let down = index.inspect(stem + ".down_proj.weight"@, hidden, intermediate);
            let measured = measure(index, layer, expert, hidden, intermediate, maximum);
            let bytes = gate->Ok_0.resident_bytes + up->Ok_0.resident_bytes
                + down->Ok_0.resident_bytes;
            &&& measured is Ok <==> gate is Ok && up is Ok && down is Ok && bytes <= maximum
            &&& measured matches Ok(total) ==> total == bytes
        }),
{
}

/// The place of a held expert is where it stands.
pub proof fn held_experts_have_a_place(list: Seq<CachedExpert>, expert: usize)
    requires
        holds(list, expert),
    ensures
        0 <= place(list, expert) < list.len(),
        list[place(list, expert)].expert == expert,
    decreases list.len(),
{
    if list[0].expert != expert {
        let at = choose|at: int| 0 <= at < list.len() && (#[trigger] list[at]).expert == expert;
        let rest = list.skip(1);
        assert(rest[at - 1].expert == expert);
        held_experts_have_a_place(rest, expert);
    }
}

/// A hit makes its expert the one used last and changes no other; it counts a hit, and nothing is
/// read.
pub proof fn a_hit_is_the_latest_use(store: StoreView, layer: int, expert: usize, other: int)
    requires
        store.well_formed(),
        0 <= layer < store.caches.len(),
        holds(store.caches[layer], expert),
        store.clock < u64::MAX,
        0 <= other < store.caches[layer].len(),
    ensures
        ({
            let begun = store.begun(layer, expert);
            let before = store.caches[layer];
            let after = begun.caches[layer];
            &&& begun.clock == store.clock + 1
            &&& after.len() == before.len()
            &&& after[other].expert == before[other].expert
            &&& after[other].bytes == before[other].bytes
            &&& before[other].expert == expert ==> after[other].last_used == begun.clock
            &&& before[other].expert != expert ==> after[other].last_used
                == before[other].last_used
            &&& begun.telemetry.hits == store.telemetry.hits + 1
            &&& begun.telemetry.misses == store.telemetry.misses
            &&& begun.telemetry.bytes_read == store.telemetry.bytes_read
            &&& begun.telemetry.evictions == store.telemetry.evictions
        }),
{
    let list = store.caches[layer];
    held_experts_have_a_place(list, expert);
    assert(layer_well_formed(list, store.slots, store.experts, store.clock));
    let at = place(list, expert);
    if list[other].expert == expert && other != at {
        if other < at {
            assert(list[other].expert != list[at].expert);
        } else {
            assert(list[at].expert != list[other].expert);
        }
    }
    assert(store.telemetry.hits < u64::MAX);
}

/// A miss counts as one, and an expert leaves exactly where all slots are taken. What is loaded is
/// kept, as the one used last, exactly where there are slots; its bytes are read either way.
pub proof fn a_miss_is_loaded(store: StoreView, layer: int, expert: usize, bytes: u64)
    requires
        store.well_formed(),
        0 <= layer < store.caches.len(),
        !holds(store.caches[layer], expert),
        store.clock < u64::MAX,
        store.telemetry.bytes_read + bytes <= u64::MAX,
        store.telemetry.resident_experts < usize::MAX,
    ensures
        ({
            let begun = store.begun(layer, expert);
            let loaded = begun.loaded(layer, expert, bytes);
            let full = store.slots > 0 && store.caches[layer].len() == store.slots;
            let list = loaded.caches[layer];
            &&& begun.telemetry.misses == store.telemetry.misses + 1
            &&& begun.telemetry.hits == store.telemetry.hits
            &&& begun.telemetry.evictions == store.telemetry.evictions + if full {
                1int
            } else {
                0
            }
            &&& loaded.telemetry.bytes_read == store.telemetry.bytes_read + bytes
            &&& store.slots == 0 ==> list == store.caches[layer]
            &&& store.slots > 0 ==> list.len() > 0 && list.last().expert == expert
                && list.last().bytes == bytes && list.last().last_used == store.clock + 1
            &&& store.slots > 0 ==> list.len() == store.caches[layer].len() + if full {
                0int
            } else {
                1
            }
        }),
{
    let list = store.caches[layer];
    assert(layer_well_formed(list, store.slots, store.experts, store.clock));
    assert(store.telemetry.misses < u64::MAX);
    if store.slots > 0 && list.len() == store.slots {
        lemma_some_oldest(list);
        assert(is_oldest(list, oldest(list)));
    }
}

/// A request is answered with a hit exactly where its expert is held, at its place, and otherwise with
/// what the expert takes, where it can be loaded.
pub proof fn held_experts_are_hits(store: StoreView, layer: usize, expert: usize)
    requires
        store.caches[layer as int].len() <= usize::MAX,
    ensures
        ({
            let list = store.caches[layer as int];
            let measured = measure(
                store.index,
                layer,
                expert,
                store.hidden,
                store.intermediate,
                store.maximum,
            );
            let answer = store.access(layer, expert);
            &&& holds(list, expert) ==> answer is Ok && answer->Ok_0 is Hit
            &&& answer is Ok && answer->Ok_0 is Hit ==> list[answer->Ok_0->Hit_0 as int].expert
                == expert
            &&& !holds(list, expert) ==> (answer is Ok <==> measured is Ok)
            &&& !holds(list, expert) && measured is Ok ==> answer->Ok_0 == Access::Load(
                measured->Ok_0,
            )
        }),
{
    let list = store.caches[layer as int];
    if holds(list, expert) {
        held_experts_have_a_place(list, expert);
    }
}

/// A request is taken exactly where its layer and its expert are known, its input is as wide as the
/// model and the clock can advance; a store is made exactly where nothing of its geometry is zero.
pub proof fn sound_requests_are_taken(
    store: StoreView,
    layer: usize,
    expert: usize,
    length: usize,
    layers: usize,
    experts: usize,
    hidden: usize,
    intermediate: usize,
    maximum: u64,
)
    ensures
        store.request_problem(layer, expert, length) is None <==> layer < store.caches.len()
            && expert < store.experts && length == store.hidden && store.clock < u64::MAX,
        ExpertStore::geometry_problem(layers, experts, hidden, intermediate, maximum) is None
            <==> layers > 0 && experts > 0 && hidden > 0 && intermediate > 0 && maximum > 0,
{
}

} // verus!
