//! The routed experts of DeepSeek-V4: which of them a token or a batch needs loaded, in which
//! order they run, and what stays resident behind it.

use super::config::DeepseekV4Config;
use super::grouping::{group_by_last_use, group_routes, plan_chunks, scatter, ExpertGroup};
use super::math::are_finite;
use super::runtime::{invalid, DeepseekRuntimeError, PREFILL_ROUTE_WINDOW};
use super::{grouping, math, runtime};
use crate::ranking::rank;
use crate::recency::position_of;
use crate::residency::{ExpertTelemetry, LayerLruCache, Resident};
use crate::{ranking, recency, residency};
use vstd::prelude::*;
use vstd::string::*;

verus! {

/// The resident experts of all layers.
#[derive(Debug)]
pub struct DeepExpertStore {
    n_routed_experts: usize,
    hidden_size: usize,
    maximum_bytes: u64,
    slots_per_layer: usize,
    cache: LayerLruCache,
    telemetry: ExpertTelemetry,
}

/// What a [`DeepExpertStore`] holds.
#[verifier::ext_equal]
pub struct StoreView {
    pub n_routed_experts: usize,
    pub hidden_size: usize,
    pub maximum_bytes: u64,
    pub slots_per_layer: usize,
    pub cache: Seq<residency::LayerView>,
    pub telemetry: ExpertTelemetry,
}

impl View for DeepExpertStore {
    type V = StoreView;

    closed spec fn view(&self) -> StoreView {
        StoreView {
            n_routed_experts: self.n_routed_experts,
            hidden_size: self.hidden_size,
            maximum_bytes: self.maximum_bytes,
            slots_per_layer: self.slots_per_layer,
            cache: self.cache@,
            telemetry: self.telemetry,
        }
    }
}

/// The sizes to use for each access of a request: those of the loaded experts, and none for the
/// others, which are resident.
pub open spec fn access_sizes(
    experts: Seq<usize>,
    loaded: Seq<usize>,
    sizes: Seq<(u64, u64)>,
) -> Seq<(u64, u64)> {
    Seq::new(
        experts.len(),
        |i: int|
            if loaded.contains(experts[i]) {
                sizes[loaded.index_of(experts[i])]
            } else {
                (0u64, 0u64)
            },
    )
}

/// Some expert of a request lies outside the geometry.
pub open spec fn foreign(experts: Seq<usize>, count: usize) -> bool {
    exists|i: int| 0 <= i < experts.len() && #[trigger] experts[i] >= count
}

/// Rows of values, bit for bit.
pub open spec fn values_of(rows: Seq<Vec<u32>>) -> Seq<Seq<u32>> {
    Seq::new(rows.len(), |i: int| rows[i]@)
}

/// Every row has this many values, all of them finite.
pub open spec fn activations_ok(rows: Seq<Seq<u32>>, width: usize) -> bool {
    forall|i: int|
        0 <= i < rows.len() ==> (#[trigger] rows[i]).len() == width && math::all_finite(rows[i])
}

/// Every token has one weight for each of its experts.
pub open spec fn weights_match(ids: Seq<Seq<usize>>, weights: Seq<Seq<u32>>) -> bool {
    forall|t: int| 0 <= t < ids.len() ==> (#[trigger] ids[t]).len() == weights[t].len()
}

/// Some token uses no expert.
pub open spec fn idle_token(ids: Seq<Seq<usize>>) -> bool {
    exists|t: int| 0 <= t < ids.len() && (#[trigger] ids[t]).len() == 0
}

/// Some token uses an expert outside the geometry.
pub open spec fn foreign_token(ids: Seq<Seq<usize>>, count: usize) -> bool {
    exists|t: int| 0 <= t < ids.len() && foreign(#[trigger] ids[t], count)
}

/// What a batch of tokens hands to the experts.
#[derive(Debug)]
pub struct TokenBatch {
    pub expert_ids: Vec<Vec<usize>>,
    pub route_weights: Vec<Vec<u32>>,
    pub inputs: Vec<Vec<u32>>,
    pub mx_inputs: Vec<Vec<u32>>,
    /// How many trace contexts came with it.
    pub traces: usize,
}

impl TokenBatch {
    pub open spec fn ids(self) -> Seq<Seq<usize>> {
        grouping::lists_of(self.expert_ids@)
    }

    /// The experts used, token by token.
    pub open spec fn uses(self) -> Seq<usize> {
        grouping::experts_used(grouping::all_accesses(self.ids()))
    }

    /// There are two tokens at least and a window at most, with everything that each needs.
    pub open spec fn aligned(self) -> bool {
        &&& 2 <= self.expert_ids@.len() <= PREFILL_ROUTE_WINDOW
        &&& self.route_weights@.len() == self.expert_ids@.len()
        &&& self.inputs@.len() == self.expert_ids@.len()
        &&& self.mx_inputs@.len() == self.expert_ids@.len()
        &&& self.traces == self.expert_ids@.len()
    }

    /// What is right of a batch whatever the cache holds.
    pub open spec fn sound(self, store: StoreView, layer: usize) -> bool {
        &&& self.aligned()
        &&& layer < store.cache.len()
        &&& weights_match(self.ids(), values_of(self.route_weights@))
        &&& !foreign_token(self.ids(), store.n_routed_experts)
        &&& activations_ok(values_of(self.inputs@), store.hidden_size)
        &&& activations_ok(values_of(self.mx_inputs@), store.hidden_size)
    }
}

impl StoreView {
    pub open spec fn well_formed(self) -> bool {
        residency::layers_well_formed(self.cache)
    }

    /// A store that holds nothing.
    pub open spec fn fresh(
        layers: usize,
        n_routed_experts: usize,
        hidden_size: usize,
        slots_per_layer: usize,
        maximum_bytes: u64,
    ) -> StoreView {
        StoreView {
            n_routed_experts,
            hidden_size,
            maximum_bytes,
            slots_per_layer,
            cache: Seq::new(
                layers as nat,
                |i: int|
                    residency::LayerView {
                        residents: Seq::empty(),
                        capacity: slots_per_layer as nat,
                    },
            ),
            telemetry: residency::no_telemetry(),
        }
    }

    /// Why an expert cannot be asked for.
    pub open spec fn request_problem(self, layer: usize, expert: usize) -> Option<
        runtime::RuntimeProblem,
    > {
        runtime::invalid_if(
            layer >= self.cache.len() || expert >= self.n_routed_experts,
            "expert request is outside configured geometry"@,
        )
    }

    /// Why these experts cannot be loaded side by side.
    pub open spec fn batch_problem(self, layer: usize, experts: Seq<usize>) -> Option<
        runtime::RuntimeProblem,
    > {
        if layer >= self.cache.len() || foreign(experts, self.n_routed_experts) {
            Some(
                runtime::RuntimeProblem::Invalid(
                    "expert batch request is outside configured geometry"@,
                ),
            )
        } else {
            runtime::invalid_if(
                !self.cache[layer as int].fits(experts),
                "expert batch requires free cache slots; use sequential execution"@,
            )
        }
    }

    /// The store behind one access.
    pub open spec fn after_access(self, layer: usize, expert: usize, bytes: u64, read: u64) -> (
        StoreView
    ) {
        let held = self.cache[layer as int];
        StoreView {
            cache: self.cache.update(layer as int, held.after_access(expert, bytes)),
            telemetry: residency::count_access(
                self.telemetry,
                held.residents,
                expert,
                bytes,
                read,
                held.capacity,
            ),
            ..self
        }
    }

    /// The store behind a series of accesses.
    pub open spec fn after_accesses(
        self,
        layer: usize,
        experts: Seq<usize>,
        sizes: Seq<(u64, u64)>,
    ) -> StoreView {
        let held = self.cache[layer as int];
        StoreView {
            cache: self.cache.update(
                layer as int,
                residency::after_accesses(held, experts, sizes),
            ),
            telemetry: residency::count_accesses(self.telemetry, held, experts, sizes),
            ..self
        }
    }

    /// The experts of a request that have to be loaded.
    pub open spec fn missing(self, layer: usize, experts: Seq<usize>) -> Seq<usize> {
        residency::missing(self.cache[layer as int].residents, experts)
    }

    /// The store without what will leave while these experts are accessed.
    pub open spec fn prepared(self, layer: usize, experts: Seq<usize>) -> StoreView {
        let held = self.cache[layer as int];
        StoreView {
            cache: self.cache.update(layer as int, held.prepared(experts)),
            telemetry: self.telemetry.with_evictions(
                residency::taken(held.residents, held.displaced(experts)),
            ),
            ..self
        }
    }

    /// A layer that nothing is resident in, of a store that keeps anything.
    pub open spec fn can_stream(self, layer: usize) -> bool {
        self.slots_per_layer > 0 && self.cache[layer as int].residents.len() == 0
    }
}

fn any_foreign(experts: &Vec<usize>, count: usize) -> (found: bool)
    ensures
        found == foreign(experts@, count),
{
    let mut index: usize = 0;
    while index < experts.len()
        invariant
            index <= experts@.len(),
            forall|i: int| 0 <= i < index ==> experts@[i] < count,
        decreases experts@.len() - index,
    {
        if experts[index] >= count {
            assert(experts@[index as int] >= count);
            return true;
        }
        index = index + 1;
    }
    false
}

fn check_activations(rows: &Vec<Vec<u32>>, width: usize) -> (ok: bool)
    ensures
        ok == activations_ok(values_of(rows@), width),
{
    let mut index: usize = 0;
    let ghost values = values_of(rows@);
    while index < rows.len()
        invariant
            values == values_of(rows@),
            index <= rows@.len(),
            forall|i: int|
                0 <= i < index ==> (#[trigger] values[i]).len() == width && math::all_finite(
                    values[i],
                ),
        decreases rows@.len() - index,
    {
        assert(values[index as int] == rows@[index as int]@);
        if rows[index].len() != width || !are_finite(rows[index].as_slice()) {
            return false;
        }
        index = index + 1;
    }
    true
}

fn check_lists(batch: &TokenBatch, count: usize) -> (ok: (bool, bool, bool))
    requires
        batch.expert_ids@.len() == batch.route_weights@.len(),
    ensures
        ok.0 == weights_match(batch.ids(), values_of(batch.route_weights@)),
        ok.1 == foreign_token(batch.ids(), count),
        ok.2 == idle_token(batch.ids()),
{
    let ghost ids = batch.ids();
    let ghost weights = values_of(batch.route_weights@);
    let mut matched: bool = true;
    let mut strange: bool = false;
    let mut idle: bool = false;
    let mut token: usize = 0;
    while token < batch.expert_ids.len()
        invariant
            ids == batch.ids(),
            weights == values_of(batch.route_weights@),
            batch.expert_ids@.len() == batch.route_weights@.len(),
            token <= ids.len(),
            ids.len() == batch.expert_ids@.len(),
            matched == (forall|t: int|
                0 <= t < token ==> (#[trigger] ids[t]).len() == weights[t].len()),
            strange == (exists|t: int| 0 <= t < token && foreign(#[trigger] ids[t], count)),
            idle == (exists|t: int| 0 <= t < token && (#[trigger] ids[t]).len() == 0),
        decreases ids.len() - token,
    {
        let experts = &batch.expert_ids[token];
        assert(ids[token as int] == experts@);
        assert(weights[token as int] == batch.route_weights@[token as int]@);
        if experts.len() != batch.route_weights[token].len() {
            matched = false;
        }
        if any_foreign(experts, count) {
            strange = true;
        }
        if experts.len() == 0 {
            idle = true;
        }
        token = token + 1;
    }
    (matched, strange, idle)
}

fn flatten(ids: &Vec<Vec<usize>>) -> (uses: Vec<usize>)
    ensures
        uses@ == grouping::experts_used(grouping::all_accesses(grouping::lists_of(ids@))),
{
    let ghost lists = grouping::lists_of(ids@);
    let mut uses: Vec<usize> = Vec::new();
    let mut token: usize = 0;
    assert(uses@ =~= grouping::experts_used(grouping::accesses(lists, 0)));
    while token < ids.len()
        invariant
            lists == grouping::lists_of(ids@),
            token <= ids@.len(),
            uses@ == grouping::experts_used(grouping::accesses(lists, token as nat)),
        decreases ids@.len() - token,
    {
        let ghost before = uses@;
        let mut route: usize = 0;
        assert(before + ids@[token as int]@.take(0) =~= before);
        while route < ids[token].len()
            invariant
                token < ids@.len(),
                route <= ids@[token as int]@.len(),
                uses@ == before + ids@[token as int]@.take(route as int),
            decreases ids@[token as int]@.len() - route,
        {
            uses.push(ids[token][route]);
            route = route + 1;
            assert(uses@ =~= before + ids@[token as int]@.take(route as int));
        }
        token = token + 1;
        assert(uses@ =~= grouping::experts_used(grouping::accesses(lists, token as nat)));
    }
    uses
}

/// How many accesses beyond the first the groups from `start` to `end` stand for.
pub open spec fn repeats(groups: Seq<grouping::GroupView>, start: int, end: int) -> int
    decreases end - start,
{
    if end <= start {
        0
    } else {
        repeats(groups, start, end - 1) + residency::floored(groups[end - 1].positions.len() - 1)
    }
}

/// The experts of the groups from `start` to `end`.
pub open spec fn group_experts(groups: Seq<grouping::GroupView>, start: int, end: int) -> Seq<
    usize,
> {
    Seq::new((end - start) as nat, |i: int| groups[start + i].expert)
}

/// Some group of a chunk did not compute one row for each of its places.
pub open spec fn rows_missing(
    groups: Seq<grouping::GroupView>,
    start: int,
    end: int,
    rows: Seq<usize>,
) -> bool {
    exists|i: int|
        0 <= i < end - start && #[trigger] rows[i] != groups[start + i].positions.len()
}

/// Group `k` of a chunk is the first that did not.
pub open spec fn rows_fail_at(
    groups: Seq<grouping::GroupView>,
    start: int,
    end: int,
    rows: Seq<usize>,
    k: int,
) -> bool {
    &&& 0 <= k < end - start
    &&& rows[k] != groups[start + k].positions.len()
    &&& forall|i: int| 0 <= i < k ==> #[trigger] rows[i] == groups[start + i].positions.len()
}

/// What a streamed batch runs: groups in the order of last use, and the chunks they are loaded
/// in.
#[derive(Debug)]
pub struct StreamPlan {
    pub groups: Vec<ExpertGroup>,
    pub chunks: Vec<(usize, usize)>,
}

impl DeepExpertStore {
    /// A store that holds nothing.
    pub fn new(config: &DeepseekV4Config, slots_per_layer: usize, maximum_bytes: u64) -> (result:
        Result<Self, DeepseekRuntimeError>)
        ensures
            runtime::problem(result) == runtime::invalid_if(
                slots_per_layer > config.n_routed_experts || maximum_bytes == 0,
                "expert cache geometry is invalid"@,
            ),
            result matches Ok(store) ==> store@.well_formed() && store@ == StoreView::fresh(
                config.num_hidden_layers,
                config.n_routed_experts,
                config.hidden_size,
                slots_per_layer,
                maximum_bytes,
            ),
    {
        DeepExpertStore::with_geometry(
            config.num_hidden_layers,
            config.n_routed_experts,
            config.hidden_size,
            slots_per_layer,
            maximum_bytes,
        )
    }

    /// A store for so many layers and experts that holds nothing.
    pub fn with_geometry(
        layers: usize,
        n_routed_experts: usize,
        hidden_size: usize,
        slots_per_layer: usize,
        maximum_bytes: u64,
    ) -> (result: Result<Self, DeepseekRuntimeError>)
        ensures
            runtime::problem(result) == runtime::invalid_if(
                slots_per_layer > n_routed_experts || maximum_bytes == 0,
                "expert cache geometry is invalid"@,
            ),
            result matches Ok(store) ==> store@.well_formed() && store@ == StoreView::fresh(
                layers,
                n_routed_experts,
                hidden_size,
                slots_per_layer,
                maximum_bytes,
            ),
    {
        if slots_per_layer > n_routed_experts || maximum_bytes == 0 {
            return invalid("expert cache geometry is invalid");
        }
        Ok(
            DeepExpertStore {
                n_routed_experts,
                hidden_size,
                maximum_bytes,
                slots_per_layer,
                cache: LayerLruCache::new(layers, slots_per_layer),
                telemetry: ExpertTelemetry::default(),
            },
        )
    }

    pub fn telemetry(&self) -> (telemetry: &ExpertTelemetry)
        ensures
            *telemetry == self@.telemetry,
    {
        &self.telemetry
    }

    /// Whether an expert is resident.
    pub fn contains(&self, layer: usize, expert: usize) -> (held: bool)
        requires
            self@.well_formed(),
            layer < self@.cache.len(),
        ensures
            held == residency::keys(self@.cache[layer as int].residents).contains(expert),
    {
        self.cache.contains(layer, expert)
    }

    /// Whether all these experts can be resident together without an eviction.
    pub fn can_acquire_batch(&self, layer: usize, experts: &Vec<usize>) -> (fits: bool)
        requires
            self@.well_formed(),
            layer < self@.cache.len(),
        ensures
            fits == self@.cache[layer as int].fits(experts@),
    {
        self.cache.can_insert_without_eviction(layer, experts)
    }

    /// The experts of a request that are not resident, each once.
    pub fn list_missing(&self, layer: usize, experts: &Vec<usize>) -> (list: Vec<usize>)
        requires
            self@.well_formed(),
            layer < self@.cache.len(),
        ensures
            list@ == self@.missing(layer, experts@),
    {
        self.cache.missing(layer, experts)
    }

    /// Whether a batch can be streamed through a layer expert by expert.
    pub fn can_stream_grouped_batch(&self, layer: usize) -> (result: bool)
        requires
            layer < self@.cache.len(),
        ensures
            result == self@.can_stream(layer),
    {
        self.slots_per_layer > 0 && self.cache.layer_is_empty(layer)
    }

    /// Refuses a request for an expert outside the geometry.
    pub fn check_request(&self, layer: usize, expert: usize) -> (result: Result<
        (),
        DeepseekRuntimeError,
    >)
        ensures
            runtime::problem(result) == self@.request_problem(layer, expert),
    {
        if layer >= self.cache.layer_count() || expert >= self.n_routed_experts {
            return invalid("expert request is outside configured geometry");
        }
        Ok(())
    }

    /// Accesses one expert, with its sizes where it had to be loaded. What is evicted is returned.
    pub fn acquire(&mut self, layer: usize, expert: usize, bytes: u64, read: u64) -> (result:
        Result<Option<Resident>, DeepseekRuntimeError>)
        requires
            old(self)@.well_formed(),
        ensures
            final(self)@.well_formed(),
            runtime::problem(result) == old(self)@.request_problem(layer, expert),
            match result {
                Ok(evicted) => final(self)@ == old(self)@.after_access(layer, expert, bytes, read)
                    && evicted == residency::evicted_by(
                    old(self)@.cache[layer as int].residents,
                    expert,
                    old(self)@.cache[layer as int].capacity,
                ),
                Err(_) => final(self)@ == old(self)@,
            },
    {
        self.check_request(layer, expert)?;
        Ok(self.cache.access(&mut self.telemetry, layer, expert, bytes, read))
    }

    /// One step of running experts one behind the other while the next one loads: accesses the
    /// current expert and says whether the next one has to be loaded meanwhile.
    pub fn acquire_ahead(
        &mut self,
        layer: usize,
        expert: usize,
        bytes: u64,
        read: u64,
        next: Option<usize>,
    ) -> (result: Result<(Option<Resident>, bool), DeepseekRuntimeError>)
        requires
            old(self)@.well_formed(),
        ensures
            final(self)@.well_formed(),
            runtime::problem(result) == old(self)@.request_problem(layer, expert),
            match result {
                Ok((evicted, load_next)) => {
                    &&& final(self)@ == old(self)@.after_access(layer, expert, bytes, read)
                    &&& evicted == residency::evicted_by(
                        old(self)@.cache[layer as int].residents,
                        expert,
                        old(self)@.cache[layer as int].capacity,
                    )
                    &&& load_next == (next is Some && !residency::keys(
                        final(self)@.cache[layer as int].residents,
                    ).contains(next->Some_0))
                },
                Err(_) => final(self)@ == old(self)@,
            },
    {
        let evicted = self.acquire(layer, expert, bytes, read)?;
        let load_next = match next {
            Some(coming) => !self.cache.contains(layer, coming),
            None => false,
        };
        Ok((evicted, load_next))
    }

    /// Lists the experts that have to be loaded before a request runs with all of its experts
    /// resident together.
    pub fn plan_batch(&self, layer: usize, experts: &Vec<usize>) -> (result: Result<
        Vec<usize>,
        DeepseekRuntimeError,
    >)
        requires
            self@.well_formed(),
        ensures
            runtime::problem(result) == self@.batch_problem(layer, experts@),
            result is Ok ==> result->Ok_0@ == self@.missing(layer, experts@),
    {
        if layer >= self.cache.layer_count() || any_foreign(experts, self.n_routed_experts) {
            return invalid("expert batch request is outside configured geometry");
        }
        if !self.cache.can_insert_without_eviction(layer, experts) {
            return invalid("expert batch requires free cache slots; use sequential execution");
        }
        Ok(self.cache.missing(layer, experts))
    }

    fn spread_sizes(experts: &Vec<usize>, loaded: &Vec<usize>, sizes: &Vec<(u64, u64)>) -> (spread:
        Vec<(u64, u64)>)
        requires
            loaded@.no_duplicates(),
            loaded@.len() == sizes@.len(),
        ensures
            spread@ == access_sizes(experts@, loaded@, sizes@),
    {
        let mut spread: Vec<(u64, u64)> = Vec::new();
        let mut index: usize = 0;
        let ghost wanted = access_sizes(experts@, loaded@, sizes@);
        while index < experts.len()
            invariant
                loaded@.no_duplicates(),
                loaded@.len() == sizes@.len(),
                wanted == access_sizes(experts@, loaded@, sizes@),
                index <= experts@.len(),
                spread@ == wanted.take(index as int),
            decreases experts@.len() - index,
        {
            match position_of(loaded, experts[index]) {
                Some(at) => {
                    proof {
                        let expert = experts@[index as int];
                        assert(loaded@.contains(expert));
                        assert(loaded@[loaded@.index_of(expert)] == expert);
                        assert(loaded@.index_of(expert) == at);
                    }
                    spread.push(sizes[at]);
                },
                None => {
                    spread.push((0, 0));
                },
            }
            index = index + 1;
            assert(spread@ =~= wanted.take(index as int));
        }
        assert(wanted.take(wanted.len() as int) =~= wanted);
        spread
    }

    /// Enters a request whose missing experts have been loaded: its experts are accessed in order.
    /// The sizes are those of the experts that [`plan_batch`](Self::plan_batch) listed.
    pub fn commit_batch(&mut self, layer: usize, experts: &Vec<usize>, sizes: &Vec<(u64, u64)>)
        requires
            old(self)@.well_formed(),
            old(self)@.batch_problem(layer, experts@) is None,
            sizes@.len() == old(self)@.missing(layer, experts@).len(),
        ensures
            final(self)@.well_formed(),
            final(self)@ == old(self)@.after_accesses(
                layer,
                experts@,
                access_sizes(experts@, old(self)@.missing(layer, experts@), sizes@),
            ),
    {
        let loaded = self.cache.missing(layer, experts);
        proof {
            residency::missing_lists_each_once(
                self@.cache[layer as int].residents,
                experts@,
            );
        }
        let spread = Self::spread_sizes(experts, &loaded, sizes);
        self.cache.access_all(&mut self.telemetry, layer, experts, &spread);
    }

    /// Groups a batch of tokens by expert, where all of its experts can be resident together. The
    /// second list names those to load.
    pub fn plan_token_batch(&self, layer: usize, batch: &TokenBatch) -> (result: Result<
        (Vec<ExpertGroup>, Vec<usize>),
        DeepseekRuntimeError,
    >)
        requires
            self@.well_formed(),
        ensures
            match result {
                Ok((groups, loads)) => {
                    &&& batch.sound(self@, layer)
                    &&& self@.cache[layer as int].fits(batch.uses())
                    &&& grouping::groups_of(groups@) == grouping::grouped_by_first_use(
                        grouping::all_accesses(batch.ids()),
                    )
                    &&& loads@ == self@.missing(layer, batch.uses())
                },
                Err(error) => if !batch.sound(self@, layer) {
                    error@ == runtime::RuntimeProblem::Invalid(
                        "expert token batch has invalid geometry or activation values"@,
                    )
                } else {
                    &&& !self@.cache[layer as int].fits(batch.uses())
                    &&& error@ == runtime::RuntimeProblem::Invalid(
                        "expert token batch would change cache eviction semantics"@,
                    )
                },
            },
    {
        if !self.check_token_batch(layer, batch) {
            return invalid("expert token batch has invalid geometry or activation values");
        }
        let uses = flatten(&batch.expert_ids);
        if !self.cache.can_insert_without_eviction(layer, &uses) {
            return invalid("expert token batch would change cache eviction semantics");
        }
        let groups = group_routes(&batch.expert_ids);
        Ok((groups, self.cache.missing(layer, &uses)))
    }

    fn check_token_batch(&self, layer: usize, batch: &TokenBatch) -> (ok: bool)
        ensures
            ok == batch.sound(self@, layer),
    {
        let count = batch.expert_ids.len();
        if count < 2 || count > PREFILL_ROUTE_WINDOW || batch.route_weights.len() != count
            || batch.inputs.len() != count || batch.mx_inputs.len() != count || batch.traces
            != count || layer >= self.cache.layer_count() {
            return false;
        }
        let (matched, strange, _) = check_lists(batch, self.n_routed_experts);
        matched && !strange && check_activations(&batch.inputs, self.hidden_size)
            && check_activations(&batch.mx_inputs, self.hidden_size)
    }

    /// Enters a grouped batch once its groups are loaded and computed: the uses are replayed token
    /// by token, and every place gets the row of its group.
    pub fn commit_token_batch(
        &mut self,
        layer: usize,
        batch: &TokenBatch,
        groups: &Vec<ExpertGroup>,
        sizes: &Vec<(u64, u64)>,
        values: &Vec<Vec<Vec<u32>>>,
    ) -> (result: Result<Vec<Vec<Vec<u32>>>, DeepseekRuntimeError>)
        requires
            old(self)@.well_formed(),
            batch.sound(old(self)@, layer),
            old(self)@.cache[layer as int].fits(batch.uses()),
            grouping::groups_of(groups@) == grouping::grouped_by_first_use(
                grouping::all_accesses(batch.ids()),
            ),
            values@.len() == groups@.len(),
            sizes@.len() == old(self)@.missing(layer, batch.uses()).len(),
        ensures
            final(self)@.well_formed(),
            final(self)@ == old(self)@.after_accesses(
                layer,
                batch.uses(),
                access_sizes(batch.uses(), old(self)@.missing(layer, batch.uses()), sizes@),
            ),
            match result {
                Ok(rows) => grouping::scattered(
                    grouping::groups_of(groups@),
                    grouping::results_of(values@),
                    batch.ids(),
                    grouping::results_of(rows@),
                ),
                Err(error) => !grouping::rows_match(
                    grouping::groups_of(groups@),
                    grouping::results_of(values@),
                ) && error@ == runtime::RuntimeProblem::Invalid(
                    "expert token batch returned the wrong number of rows"@,
                ),
            },
    {
        let uses = flatten(&batch.expert_ids);
        let loaded = self.cache.missing(layer, &uses);
        proof {
            residency::missing_lists_each_once(self@.cache[layer as int].residents, uses@);
        }
        let spread = Self::spread_sizes(&uses, &loaded, sizes);
        self.cache.access_all(&mut self.telemetry, layer, &uses, &spread);
        match scatter(&batch.expert_ids, groups, values) {
            Some(rows) => Ok(rows),
            None => invalid("expert token batch returned the wrong number of rows"),
        }
    }

    /// Groups a batch of tokens by expert so that the groups stream through an empty layer.
    pub fn plan_streamed_batch(&self, layer: usize, batch: &TokenBatch) -> (result: Result<
        StreamPlan,
        DeepseekRuntimeError,
    >)
        requires
            self@.well_formed(),
        ensures
            match result {
                Ok(plan) => {
                    &&& batch.sound(self@, layer)
                    &&& !idle_token(batch.ids())
                    &&& self@.can_stream(layer)
                    &&& self@.cache[layer as int].capacity > 0
                    &&& grouping::groups_of(plan.groups@) == grouping::grouped_by_last_use(
                        grouping::all_accesses(batch.ids()),
                    )
                    &&& plan.chunks@ == grouping::stream_chunks(
                        plan.groups@.len(),
                        self@.cache[layer as int].capacity,
                    )
                },
                Err(error) => if !batch.sound(self@, layer) || idle_token(batch.ids())
                    || !self@.can_stream(layer) {
                    error@ == runtime::RuntimeProblem::Invalid(
                        "streamed expert token batch has invalid geometry, state, or activation values"@,
                    )
                } else {
                    &&& self@.cache[layer as int].capacity == 0
                    &&& error@ == runtime::RuntimeProblem::Invalid(
                        "streamed expert batch requires a non-empty cache and route set"@,
                    )
                },
            },
    {
        if !self.check_token_batch(layer, batch) || !self.can_stream_grouped_batch(layer)
            || check_lists(batch, self.n_routed_experts).2 {
            return invalid(
                "streamed expert token batch has invalid geometry, state, or activation values",
            );
        }
        let groups = group_by_last_use(&batch.expert_ids);
        let capacity = self.cache.layer_capacity(layer);
        proof {
            let uses = batch.uses();
            let all = grouping::all_accesses(batch.ids());
            recency::last_use_lists_each_value_once(uses);
            lemma_some_use(batch.ids());
            assert(recency::by_last_use(uses).contains(uses[0]));
            assert(grouping::groups_of(groups@).len() == recency::by_last_use(uses).len());
        }
        if capacity == 0 || groups.len() == 0 {
            return invalid("streamed expert batch requires a non-empty cache and route set");
        }
        let chunks = plan_chunks(groups.len(), capacity);
        Ok(StreamPlan { groups, chunks })
    }

    /// Enters one chunk of a streamed batch once its experts are loaded and computed. Places beyond
    /// the first of a group count as hits. Unless the chunk is the last, the layer is emptied for
    /// the next one. What leaves it is returned.
    pub fn commit_chunk(
        &mut self,
        layer: usize,
        groups: &Vec<ExpertGroup>,
        start: usize,
        end: usize,
        sizes: &Vec<(u64, u64)>,
        rows: &Vec<usize>,
    ) -> (result: Result<Vec<Resident>, DeepseekRuntimeError>)
        requires
            old(self)@.well_formed(),
            start <= end <= groups@.len(),
            rows@.len() == end - start,
            old(self)@.batch_problem(
                layer,
                group_experts(grouping::groups_of(groups@), start as int, end as int),
            ) is None,
            sizes@.len() == old(self)@.missing(
                layer,
                group_experts(grouping::groups_of(groups@), start as int, end as int),
            ).len(),
        ensures
            final(self)@.well_formed(),
            ({
                let views = grouping::groups_of(groups@);
                let experts = group_experts(views, start as int, end as int);
                let entered = old(self)@.after_accesses(
                    layer,
                    experts,
                    access_sizes(experts, old(self)@.missing(layer, experts), sizes@),
                );
                match result {
                    Ok(evicted) => {
                        let counted = entered.telemetry.with_hits(
                            repeats(views, start as int, end as int),
                        );
                        &&& !rows_missing(views, start as int, end as int, rows@)
                        &&& if end < groups@.len() {
                            &&& evicted@ == entered.cache[layer as int].residents
                            &&& final(self)@ == (StoreView {
                                cache: entered.cache.update(
                                    layer as int,
                                    residency::LayerView {
                                        residents: Seq::empty(),
                                        capacity: entered.cache[layer as int].capacity,
                                    },
                                ),
                                telemetry: counted.with_evictions(evicted@),
                                ..entered
                            })
                        } else {
                            &&& evicted@.len() == 0
                            &&& final(self)@ == (StoreView { telemetry: counted, ..entered })
                        }
                    },
                    Err(error) => {
                        &&& rows_missing(views, start as int, end as int, rows@)
                        &&& error@ == runtime::RuntimeProblem::Invalid(
                            "streamed expert token batch returned the wrong number of rows"@,
                        )
                        &&& exists|k: int|
                            #[trigger] rows_fail_at(views, start as int, end as int, rows@, k)
                                && final(self)@ == (StoreView {
                                telemetry: entered.telemetry.with_hits(
                                    repeats(views, start as int, start + k),
                                ),
                                ..entered
                            })
                    },
                }
            }),
    {
        let ghost views = grouping::groups_of(groups@);
        let mut experts: Vec<usize> = Vec::new();
        let mut index: usize = start;
        while index < end
            invariant
                views == grouping::groups_of(groups@),
                start <= index <= end <= groups@.len(),
                experts@ == group_experts(views, start as int, index as int),
            decreases end - index,
        {
            assert(views[index as int].expert == groups@[index as int].expert);
            experts.push(groups[index].expert);
            index = index + 1;
            assert(experts@ =~= group_experts(views, start as int, index as int));
        }
        self.commit_batch(layer, &experts, sizes);
        let ghost entered = self@;
        index = start;
        while index < end
            invariant
                views == grouping::groups_of(groups@),
                start <= index <= end <= groups@.len(),
                rows@.len() == end - start,
                self@.well_formed(),
                layer < self@.cache.len(),
                entered == old(self)@.after_accesses(
                    layer,
                    group_experts(views, start as int, end as int),
                    access_sizes(
                        group_experts(views, start as int, end as int),
                        old(self)@.missing(
                            layer,
                            group_experts(views, start as int, end as int),
                        ),
                        sizes@,
                    ),
                ),
                self@ == (StoreView {
                    telemetry: entered.telemetry.with_hits(
                        repeats(views, start as int, index as int),
                    ),
                    ..entered
                }),
                repeats(views, start as int, index as int) >= 0,
                forall|i: int|
                    0 <= i < index - start ==> #[trigger] rows@[i] == views[start
                        + i].positions.len(),
            decreases end - index,
        {
            let places = groups[index].positions.len();
            assert(views[index as int].positions.len() == places);
            if rows[index - start] != places {
                proof {
                    assert(rows@[index - start] != views[start + (index - start)].positions.len());
                    assert(rows_fail_at(views, start as int, end as int, rows@, index - start));
                }
                return invalid("streamed expert token batch returned the wrong number of rows");
            }
            let again: usize = if places > 0 {
                places - 1
            } else {
                0
            };
            self.telemetry.count_hits(again as u64);
            index = index + 1;
        }
        if end < groups.len() {
            let evicted = self.cache.drain_layer(&mut self.telemetry, layer);
            Ok(evicted)
        } else {
            Ok(Vec::new())
        }
    }
}

proof fn lemma_some_use(ids: Seq<Seq<usize>>)
    requires
        ids.len() > 0,
        !idle_token(ids),
    ensures
        grouping::experts_used(grouping::all_accesses(ids)).len() > 0,
{
    let last = ids.len() - 1;
    assert(ids[last].len() > 0);
    assert(grouping::token_accesses(ids, last).len() > 0);
}

/// Each chunk of a streamed batch finds room in an emptied layer: its experts differ and are no
/// more than the layer holds.
pub proof fn chunks_fit_an_emptied_layer(
    uses: Seq<usize>,
    layer: residency::LayerView,
    accesses: Seq<grouping::Access>,
    chunk: int,
)
    requires
        layer.residents.len() == 0,
        layer.capacity > 0,
        uses == grouping::experts_used(accesses),
        0 < uses.len() <= usize::MAX,
        0 <= chunk < grouping::stream_chunks(
            recency::by_last_use(uses).len(),
            layer.capacity,
        ).len(),
    ensures
        ({
            let bounds = grouping::stream_chunks(
                recency::by_last_use(uses).len(),
                layer.capacity,
            )[chunk];
            layer.fits(
                group_experts(
                    grouping::grouped_by_last_use(accesses),
                    bounds.0 as int,
                    bounds.1 as int,
                ),
            )
        }),
{
    let order = recency::by_last_use(uses);
    recency::last_use_lists_each_value_once(uses);
    recency::lemma_last_use_len(uses);
    assert(uses.contains(uses[0]));
    assert(order.contains(uses[0]));
    grouping::chunks_cover_the_groups(order.len(), layer.capacity);
    let bounds = grouping::stream_chunks(order.len(), layer.capacity)[chunk];
    let experts = group_experts(
        grouping::grouped_by_last_use(accesses),
        bounds.0 as int,
        bounds.1 as int,
    );
    residency::missing_is_no_longer(layer.residents, experts);
}

/// How many accesses the groups of these experts stand for.
pub open spec fn places_of(accesses: Seq<grouping::Access>, order: Seq<usize>) -> nat
    decreases order.len(),
{
    if order.len() == 0 {
        0
    } else {
        places_of(accesses, order.drop_last()) + grouping::positions_of(
            accesses,
            order.last(),
        ).len()
    }
}

proof fn lemma_places_push(accesses: Seq<grouping::Access>, access: grouping::Access, order: Seq<
    usize,
>)
    requires
        order.no_duplicates(),
    ensures
        places_of(accesses.push(access), order) == places_of(accesses, order) + if order.contains(
            access.expert,
        ) {
            1nat
        } else {
            0nat
        },
    decreases order.len(),
{
    if order.len() > 0 {
        let front = order.drop_last();
        assert(accesses.push(access).drop_last() =~= accesses);
        assert forall|i: int, j: int|
            0 <= i < front.len() && 0 <= j < front.len() && i != j implies front[i]
            != front[j] by {
            assert(order[i] != order[j]);
        }
        lemma_places_push(accesses, access, front);
        assert(front.push(order.last()) =~= order);
        recency::lemma_push(front, order.last());
        assert(!front.contains(order.last())) by {
            if front.contains(order.last()) {
                let i = choose|i: int| 0 <= i < front.len() && front[i] == order.last();
                assert(order[i] != order[order.len() - 1]);
            }
        }
        assert(order.contains(access.expert) <==> front.contains(access.expert) || access.expert
            == order.last()) by {
            if order.contains(access.expert) {
                let i = choose|i: int| 0 <= i < order.len() && order[i] == access.expert;
                if i < front.len() {
                    assert(front[i] == access.expert);
                }
            }
            if front.contains(access.expert) {
                let i = choose|i: int| 0 <= i < front.len() && front[i] == access.expert;
                assert(order[i] == access.expert);
            }
            assert(order[order.len() - 1] == order.last());
        }
    }
}

proof fn lemma_no_places(order: Seq<usize>)
    ensures
        places_of(Seq::empty(), order) == 0,
    decreases order.len(),
{
    if order.len() > 0 {
        lemma_no_places(order.drop_last());
    }
}

proof fn lemma_all_places(accesses: Seq<grouping::Access>, order: Seq<usize>)
    requires
        order.no_duplicates(),
        forall|value: usize|
            #[trigger] grouping::experts_used(accesses).contains(value) ==> order.contains(value),
    ensures
        places_of(accesses, order) == accesses.len(),
    decreases accesses.len(),
{
    if accesses.len() == 0 {
        assert(accesses =~= Seq::empty());
        lemma_no_places(order);
    } else {
        let front = accesses.drop_last();
        let last = accesses.last();
        assert forall|value: usize| #[trigger] grouping::experts_used(front).contains(
            value,
        ) implies order.contains(value) by {
            let i = choose|i: int|
                0 <= i < front.len() && grouping::experts_used(front)[i] == value;
            assert(grouping::experts_used(accesses)[i] == value);
            assert(grouping::experts_used(accesses).contains(value));
        }
        lemma_all_places(front, order);
        lemma_places_push(front, last, order);
        assert(front.push(last) =~= accesses);
        assert(grouping::experts_used(accesses)[accesses.len() - 1] == last.expert);
        assert(grouping::experts_used(accesses).contains(last.expert));
    }
}

proof fn lemma_repeats(accesses: Seq<grouping::Access>, order: Seq<usize>, count: int)
    requires
        0 <= count <= order.len(),
        forall|i: int|
            0 <= i < order.len() ==> grouping::positions_of(
                accesses,
                #[trigger] order[i],
            ).len() > 0,
    ensures
        repeats(grouping::grouped(accesses, order), 0, count) + count == places_of(
            accesses,
            order.take(count),
        ),
    decreases count,
{
    if count > 0 {
        lemma_repeats(accesses, order, count - 1);
        assert(order.take(count).drop_last() =~= order.take(count - 1));
        assert(order.take(count).last() == order[count - 1]);
    } else {
        assert(order.take(0) =~= Seq::<usize>::empty());
    }
}

proof fn lemma_used_has_a_place(accesses: Seq<grouping::Access>, expert: usize)
    requires
        grouping::experts_used(accesses).contains(expert),
    ensures
        grouping::positions_of(accesses, expert).len() > 0,
    decreases accesses.len(),
{
    let i = choose|i: int|
        0 <= i < accesses.len() && grouping::experts_used(accesses)[i] == expert;
    if accesses.last().expert != expert {
        let front = accesses.drop_last();
        assert(grouping::experts_used(front)[i] == expert);
        lemma_used_has_a_place(front, expert);
    }
}

/// Streaming counts every use of a batch once: one for each group, where its expert is loaded, and
/// the rest as hits.
pub proof fn streaming_counts_every_use(accesses: Seq<grouping::Access>)
    ensures
        ({
            let groups = grouping::grouped_by_last_use(accesses);
            repeats(groups, 0, groups.len() as int) + groups.len() == accesses.len()
        }),
{
    let used = grouping::experts_used(accesses);
    let order = recency::by_last_use(used);
    recency::last_use_lists_each_value_once(used);
    assert forall|i: int| 0 <= i < order.len() implies grouping::positions_of(
        accesses,
        #[trigger] order[i],
    ).len() > 0 by {
        assert(order.contains(order[i]));
        lemma_used_has_a_place(accesses, order[i]);
    }
    lemma_repeats(accesses, order, order.len() as int);
    assert(order.take(order.len() as int) =~= order);
    lemma_all_places(accesses, order);
}

/// How a batch of tokens runs its experts.
#[derive(Debug, Clone, Copy, PartialEq, Eq, Structural)]
pub enum BatchMode {
    /// All of its experts are resident together.
    Grouped,
    /// Its experts stream through the empty layer.
    Streamed,
    /// Token by token.
    Fallback,
}

/// How one token runs its experts.
#[derive(Debug, Clone, Copy, PartialEq, Eq, Structural)]
pub enum TokenMode {
    /// All at once, with all of them resident.
    Parallel,
    /// One behind the other, the next one loading meanwhile.
    Pipelined,
    /// One behind the other, each dropped before the next is loaded.
    Sequential,
}

pub open spec fn batch_size_message() -> Seq<char> {
    "MoE prefill batch must contain two through 24 aligned tokens"@
}

impl DeepExpertStore {
    /// Decides how a batch runs. A batch has two tokens at least and a window at most.
    pub fn batch_mode(
        &self,
        layer: usize,
        ids: &Vec<Vec<usize>>,
        tokens: usize,
        positions: usize,
    ) -> (result: Result<BatchMode, DeepseekRuntimeError>)
        requires
            self@.well_formed(),
            layer < self@.cache.len(),
        ensures
            ({
                let uses = grouping::experts_used(
                    grouping::all_accesses(grouping::lists_of(ids@)),
                );
                match result {
                    Ok(mode) => {
                        &&& 2 <= ids@.len() <= PREFILL_ROUTE_WINDOW
                        &&& tokens == ids@.len()
                        &&& positions == ids@.len()
                        &&& mode == if self@.cache[layer as int].fits(uses) {
                            BatchMode::Grouped
                        } else if self@.can_stream(layer) {
                            BatchMode::Streamed
                        } else {
                            BatchMode::Fallback
                        }
                    },
                    Err(error) => {
                        &&& ids@.len() < 2 || ids@.len() > PREFILL_ROUTE_WINDOW || tokens
                            != ids@.len() || positions != ids@.len()
                        &&& error@ == runtime::RuntimeProblem::Invalid(batch_size_message())
                    },
                }
            }),
    {
        let batch = ids.len();
        if batch < 2 || batch > PREFILL_ROUTE_WINDOW || tokens != batch || positions != batch {
            return invalid("MoE prefill batch must contain two through 24 aligned tokens");
        }
        let uses = flatten(ids);
        if self.cache.can_insert_without_eviction(layer, &uses) {
            Ok(BatchMode::Grouped)
        } else if self.can_stream_grouped_batch(layer) {
            Ok(BatchMode::Streamed)
        } else {
            Ok(BatchMode::Fallback)
        }
    }

    /// Lets the experts that those of a token displace leave beforehand, where the token's can be
    /// resident together. What leaves is returned.
    pub fn prepare_ordered_batch(&mut self, layer: usize, experts: &Vec<usize>) -> (result: Option<
        Vec<Resident>,
    >)
        requires
            old(self)@.well_formed(),
            layer < old(self)@.cache.len(),
        ensures
            final(self)@.well_formed(),
            match result {
                Some(evicted) => {
                    let held = old(self)@.cache[layer as int];
                    &&& held.can_hold(experts@)
                    &&& evicted@ == residency::taken(held.residents, held.displaced(experts@))
                    &&& final(self)@ == old(self)@.prepared(layer, experts@)
                    &&& final(self)@.cache[layer as int].fits(experts@)
                },
                None => !old(self)@.cache[layer as int].can_hold(experts@) && final(self)@ == old(
                    self,
                )@,
            },
    {
        self.cache.prepare_ordered_batch(&mut self.telemetry, layer, experts)
    }

    /// Decides how one token runs, and makes room for its experts where they can then all run at
    /// once. What leaves is returned.
    pub fn token_mode(&mut self, layer: usize, experts: &Vec<usize>) -> (result: (
        TokenMode,
        Vec<Resident>,
    ))
        requires
            old(self)@.well_formed(),
            layer < old(self)@.cache.len(),
        ensures
            final(self)@.well_formed(),
            ({
                let held = old(self)@.cache[layer as int];
                if !held.fits(experts@) && held.can_hold(experts@) {
                    &&& result.0 == TokenMode::Parallel
                    &&& result.1@ == residency::taken(held.residents, held.displaced(experts@))
                    &&& final(self)@ == old(self)@.prepared(layer, experts@)
                } else {
                    &&& result.0 == if held.fits(experts@) {
                        TokenMode::Parallel
                    } else if old(self)@.slots_per_layer > 0 {
                        TokenMode::Pipelined
                    } else {
                        TokenMode::Sequential
                    }
                    &&& result.1@.len() == 0
                    &&& final(self)@ == old(self)@
                }
            }),
            result.0 == TokenMode::Parallel ==> final(self)@.cache[layer as int].fits(experts@),
    {
        if self.can_acquire_batch(layer, experts) {
            return (TokenMode::Parallel, Vec::new());
        }
        match self.prepare_ordered_batch(layer, experts) {
            Some(evicted) => (TokenMode::Parallel, evicted),
            None => if self.slots_per_layer > 0 {
                (TokenMode::Pipelined, Vec::new())
            } else {
                (TokenMode::Sequential, Vec::new())
            },
        }
    }

    /// Lends a layer the places that no layer uses while a prompt runs through it, up to one for
    /// each of its experts. The capacity to give back is returned.
    pub fn begin_prefill_layer(&mut self, layer: usize) -> (steady: usize)
        requires
            old(self)@.well_formed(),
            layer < old(self)@.cache.len(),
        ensures
            final(self)@.well_formed(),
            steady == old(self)@.cache[layer as int].capacity,
            final(self)@ == (StoreView {
                cache: old(self)@.cache.update(
                    layer as int,
                    residency::LayerView {
                        residents: old(self)@.cache[layer as int].residents,
                        capacity: residency::lent_capacity(
                            old(self)@.cache,
                            layer as int,
                            old(self)@.n_routed_experts as nat,
                        ),
                    },
                ),
                ..old(self)@
            }),
    {
        self.cache.lend_unused_capacity(layer, self.n_routed_experts)
    }

    /// Takes lent capacity back. What no longer fits is returned.
    pub fn finish_prefill_layer(&mut self, layer: usize, steady: usize) -> (evicted: Vec<Resident>)
        requires
            old(self)@.well_formed(),
            layer < old(self)@.cache.len(),
        ensures
            final(self)@.well_formed(),
            evicted@ == residency::beyond(
                old(self)@.cache[layer as int].residents,
                steady as nat,
            ),
            final(self)@ == (StoreView {
                cache: old(self)@.cache.update(
                    layer as int,
                    residency::LayerView {
                        residents: residency::most_recent(
                            old(self)@.cache[layer as int].residents,
                            steady as nat,
                        ),
                        capacity: steady as nat,
                    },
                ),
                telemetry: old(self)@.telemetry.with_evictions(evicted@),
                ..old(self)@
            }),
    {
        self.cache.restore_layer_capacity(&mut self.telemetry, layer, steady)
    }
}

/// Lent capacity leaves no trace where the layer gained nothing: taken back, the store is what it
/// was.
pub proof fn lending_is_undone(store: StoreView, layer: int, capacity: nat)
    requires
        store.well_formed(),
        0 <= layer < store.cache.len(),
    ensures
        ({
            let held = store.cache[layer];
            let lent = store.cache.update(
                layer,
                residency::LayerView { residents: held.residents, capacity },
            );
            &&& residency::beyond(lent[layer].residents, held.capacity).len() == 0
            &&& lent.update(
                layer,
                residency::LayerView {
                    residents: residency::most_recent(lent[layer].residents, held.capacity),
                    capacity: held.capacity,
                },
            ) == store.cache
        }),
{
    let held = store.cache[layer];
    let lent = store.cache.update(
        layer,
        residency::LayerView { residents: held.residents, capacity },
    );
    assert(held.well_formed());
    assert(lent.update(
        layer,
        residency::LayerView {
            residents: residency::most_recent(lent[layer].residents, held.capacity),
            capacity: held.capacity,
        },
    ) =~= store.cache);
}

/// The experts as keys whose descending order is their ascending order.
pub open spec fn ascending_keys(experts: Seq<usize>) -> Seq<i64> {
    Seq::new(experts.len(), |i: int| (i64::MAX - experts[i]) as i64)
}

fn ascending_key(expert: usize) -> (key: i64)
    ensures
        key == i64::MAX - expert,
{
    let wide = expert as u64;
    if wide <= i64::MAX as u64 {
        i64::MAX - wide as i64
    } else {
        -1 - (wide - i64::MAX as u64 - 1) as i64
    }
}

/// The places of a token's routes in the order in which its experts run: by ascending expert, and
/// among equals as they stand.
pub fn execution_order(experts: &Vec<usize>) -> (order: Vec<usize>)
    ensures
        ranking::ranking(ascending_keys(experts@), order@),
{
    let mut keys: Vec<i64> = Vec::new();
    let mut index: usize = 0;
    while index < experts.len()
        invariant
            index <= experts@.len(),
            keys@ == ascending_keys(experts@).take(index as int),
        decreases experts@.len() - index,
    {
        keys.push(ascending_key(experts[index]));
        index = index + 1;
        assert(keys@ =~= ascending_keys(experts@).take(index as int));
    }
    assert(keys@ =~= ascending_keys(experts@));
    rank(&keys)
}

/// Experts run in ascending order.
pub proof fn execution_is_ascending(experts: Seq<usize>, order: Seq<usize>, i: int, j: int)
    requires
        ranking::ranking(ascending_keys(experts), order),
        0 <= i < j < order.len(),
    ensures
        experts[order[i] as int] < experts[order[j] as int] || (experts[order[i] as int]
            == experts[order[j] as int] && order[i] < order[j]),
{
    assert(ranking::precedes(ascending_keys(experts), order[i], order[j]));
}

/// A batch that fits leaves the store as single accesses do, each of which brings the cost of its
/// expert, whatever was resident before.
pub proof fn a_batch_counts_like_single_accesses(
    store: StoreView,
    layer: usize,
    experts: Seq<usize>,
    sizes: Seq<(u64, u64)>,
    cost: spec_fn(usize) -> (u64, u64),
)
    requires
        store.well_formed(),
        store.batch_problem(layer, experts) is None,
        sizes == residency::costs_of(store.missing(layer, experts), cost),
    ensures
        store.after_accesses(
            layer,
            experts,
            access_sizes(experts, store.missing(layer, experts), sizes),
        ) == store.after_accesses(layer, experts, residency::costs_of(experts, cost)),
{
    let held = store.cache[layer as int];
    let loaded = store.missing(layer, experts);
    let spread = access_sizes(experts, loaded, sizes);
    residency::missing_lists_each_once(held.residents, experts);
    assert forall|i: int|
        0 <= i < experts.len() && !residency::keys(held.residents).contains(
            experts[i],
        ) implies #[trigger] spread[i] == cost(experts[i]) by {
        assert(experts.contains(experts[i]));
        assert(loaded.contains(experts[i]));
        assert(loaded[loaded.index_of(experts[i])] == experts[i]);
    }
    residency::a_fitting_request_counts_like_single_accesses(
        store.telemetry,
        held,
        experts,
        spread,
        cost,
        experts.len(),
    );
    assert(experts.take(experts.len() as int) =~= experts);
    assert(spread.take(experts.len() as int) =~= spread);
}

/// A token whose experts can be resident together runs them all at once and leaves the store as
/// single accesses do, each of which brings the cost of its expert: the same residents in the same
/// order, and the same counters. The gauges of what is resident must not saturate.
pub proof fn a_prepared_batch_counts_like_single_accesses(
    store: StoreView,
    layer: usize,
    experts: Seq<usize>,
    sizes: Seq<(u64, u64)>,
    cost: spec_fn(usize) -> (u64, u64),
)
    requires
        store.well_formed(),
        layer < store.cache.len(),
        !foreign(experts, store.n_routed_experts),
        store.cache[layer as int].can_hold(experts),
        residency::gauges_hold(
            store.telemetry,
            store.cache[layer as int],
            residency::costs_of(experts, cost),
        ),
        sizes == residency::costs_of(store.prepared(layer, experts).missing(layer, experts), cost),
    ensures
        store.prepared(layer, experts).batch_problem(layer, experts) is None,
        ({
            let ready = store.prepared(layer, experts);
            ready.after_accesses(
                layer,
                experts,
                access_sizes(experts, ready.missing(layer, experts), sizes),
            )
        }) == store.after_accesses(layer, experts, residency::costs_of(experts, cost)),
{
    let held = store.cache[layer as int];
    let ready = store.prepared(layer, experts);
    let costs = residency::costs_of(experts, cost);
    assert(held.well_formed());
    residency::preparing_changes_nothing_in_the_end(store.telemetry, held, experts, costs);
    assert(ready.cache[layer as int] == held.prepared(experts));
    assert(ready.well_formed()) by {
        assert forall|i: int| 0 <= i < ready.cache.len() implies (
        #[trigger] ready.cache[i]).well_formed() by {
            assert(store.cache[i].well_formed());
        }
    }
    a_batch_counts_like_single_accesses(ready, layer, experts, sizes, cost);
    assert(ready.after_accesses(layer, experts, costs).cache =~= store.after_accesses(
        layer,
        experts,
        costs,
    ).cache);
}

/// An expert that was loaded is charged what was paid for it, and one that was held nothing.
pub proof fn loaded_experts_are_charged(
    experts: Seq<usize>,
    loaded: Seq<usize>,
    sizes: Seq<(u64, u64)>,
    i: int,
    k: int,
)
    requires
        loaded.no_duplicates(),
        loaded.len() == sizes.len(),
        0 <= i < experts.len(),
        0 <= k < loaded.len(),
    ensures
        access_sizes(experts, loaded, sizes).len() == experts.len(),
        loaded[k] == experts[i] ==> access_sizes(experts, loaded, sizes)[i] == sizes[k],
        !loaded.contains(experts[i]) ==> access_sizes(experts, loaded, sizes)[i] == (0u64, 0u64),
{
    if loaded[k] == experts[i] {
        assert(loaded.contains(experts[i]));
        assert(loaded[loaded.index_of(experts[i])] == loaded[k]);
    }
}

/// An expert is acquired exactly where its layer and itself are known; a batch of experts exactly where
/// all of them are, and those that are missing fit beside the residents.
pub proof fn known_experts_are_acquired(
    store: StoreView,
    layer: usize,
    expert: usize,
    experts: Seq<usize>,
)
    ensures
        store.request_problem(layer, expert) is None <==> layer < store.cache.len() && expert
            < store.n_routed_experts,
        store.batch_problem(layer, experts) is None <==> {
            &&& layer < store.cache.len()
            &&& forall|i: int|
                0 <= i < experts.len() ==> #[trigger] experts[i] < store.n_routed_experts
            &&& store.cache[layer as int].residents.len() + residency::missing(
                store.cache[layer as int].residents,
                experts,
            ).len() <= store.cache[layer as int].capacity
        },
        store.can_stream(layer) <==> store.slots_per_layer > 0
            && store.cache[layer as int].residents.len() == 0,
{
}

/// A batch is aligned where it holds from two to twenty-four tokens and everything once for each; its
/// rows are sound where each is as wide as the model and holds numbers alone.
pub proof fn batches_hold_up_to_a_window(batch: TokenBatch, rows: Seq<Seq<u32>>, width: usize)
    ensures
        batch.aligned() <==> {
            let tokens = batch.expert_ids@.len();
            &&& 2 <= tokens <= 24
            &&& batch.route_weights@.len() == tokens && batch.inputs@.len() == tokens
            &&& batch.mx_inputs@.len() == tokens && batch.traces == tokens
        },
        activations_ok(rows, width) <==> forall|i: int|
            0 <= i < rows.len() ==> (#[trigger] rows[i]).len() == width && math::all_finite(rows[i]),
{
}

/// A group of several places counts a hit for every place but its first.
pub proof fn repeated_places_are_hits(groups: Seq<grouping::GroupView>, start: int, end: int)
    requires
        start <= end,
    ensures
        repeats(groups, start, start) == 0,
        groups[end].positions.len() > 0 ==> repeats(groups, start, end + 1) == repeats(
            groups,
            start,
            end,
        ) + groups[end].positions.len() - 1,
{
}

/// A batch is sound exactly where it is aligned, its layer is known, every token has a weight for each
/// of its experts, all experts are known and all rows are as wide as the model and hold numbers.
pub proof fn sound_batches_name_known_experts(batch: TokenBatch, store: StoreView, layer: usize)
    ensures
        batch.sound(store, layer) <==> {
            let ids = batch.ids();
            &&& batch.aligned()
            &&& layer < store.cache.len()
            &&& forall|t: int|
                0 <= t < ids.len() ==> (#[trigger] ids[t]).len() == values_of(
                    batch.route_weights@,
                )[t].len()
            &&& forall|t: int, r: int|
                0 <= t < ids.len() && 0 <= r < ids[t].len() ==> #[trigger] ids[t][r]
                    < store.n_routed_experts
            &&& activations_ok(values_of(batch.inputs@), store.hidden_size)
            &&& activations_ok(values_of(batch.mx_inputs@), store.hidden_size)
        },
{
    let ids = batch.ids();
    if batch.sound(store, layer) {
        assert forall|t: int, r: int| 0 <= t < ids.len() && 0 <= r < ids[t].len() implies
            #[trigger] ids[t][r] < store.n_routed_experts by {
            if ids[t][r] >= store.n_routed_experts {
                assert(foreign(ids[t], store.n_routed_experts));
                assert(foreign_token(ids, store.n_routed_experts));
            }
        }
    }
    if foreign_token(ids, store.n_routed_experts) {
        let t = choose|t: int|
            0 <= t < ids.len() && foreign(#[trigger] ids[t], store.n_routed_experts);
        let r = choose|r: int|
            0 <= r < ids[t].len() && #[trigger] ids[t][r] >= store.n_routed_experts;
        assert(ids[t][r] >= store.n_routed_experts);
    }
}

/// The rows of a chunk fail at the first group whose count is not that of its places, and exactly where
/// there is one.
pub proof fn the_first_wrong_count_fails(
    groups: Seq<grouping::GroupView>,
    start: int,
    end: int,
    rows: Seq<usize>,
    k: int,
    m: int,
)
    requires
        rows_fail_at(groups, start, end, rows, k),
    ensures
        rows_missing(groups, start, end, rows),
        rows[k] != groups[start + k].positions.len(),
        rows_fail_at(groups, start, end, rows, m) ==> m == k,
{
    if rows_fail_at(groups, start, end, rows, m) {
        if m < k {
            assert(rows[m] == groups[start + m].positions.len());
        }
        if k < m {
            assert(rows[k] == groups[start + k].positions.len());
        }
    }
}

/// The experts of a chunk are those of its groups, in order.
pub proof fn chunks_run_their_groups(
    groups: Seq<grouping::GroupView>,
    start: int,
    end: int,
    i: int,
)
    requires
        start <= end,
        0 <= i < end - start,
    ensures
        group_experts(groups, start, end).len() == end - start,
        group_experts(groups, start, end)[i] == groups[start + i].expert,
{
}

} // verus!
