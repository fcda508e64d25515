//! The routed experts of DeepSeek-V4.1: what is resident, what a token needs loaded, and in which
//! way it runs.

use super::config::DeepseekV41TextConfig;
use super::runtime;
use super::runtime::DeepseekV41RuntimeError;
use crate::models::deepseek_v4::experts;
use crate::models::deepseek_v4::experts::{execution_order, DeepExpertStore};
use crate::models::deepseek_v4::runtime as base;
use crate::models::deepseek_v4::runtime::DeepseekRuntimeError;
use crate::ranking;
use crate::residency;
use crate::residency::{ExpertTelemetry, Resident};
use vstd::prelude::*;
use vstd::string::*;

verus! {

/// The resident experts of all layers.
#[derive(Debug)]
pub struct ExpertStore {
    store: DeepExpertStore,
}

impl View for ExpertStore {
    type V = experts::StoreView;

    closed spec fn view(&self) -> experts::StoreView {
        self.store@
    }
}

/// How the routed experts of a token run.
#[derive(Debug)]
pub enum TokenRun {
    /// The listed experts are loaded while the shared expert computes; then all of them run.
    Overlapped { loads: Vec<usize> },
    /// One expert is acquired, run and dropped behind the other; the shared expert runs last.
    Sequential,
}

/// The routed experts of a token in the order in which they run, and how.
#[derive(Debug)]
pub struct TokenPlan {
    /// Places in the list of routes, ascending by expert.
    pub order: Vec<usize>,
    /// The experts, in that order.
    pub experts: Vec<usize>,
    pub run: TokenRun,
}

/// A refusal with the same reason.
pub open spec fn carried(problem: Option<base::RuntimeProblem>) -> Option<runtime::RuntimeProblem> {
    match problem {
        Some(base::RuntimeProblem::Invalid(reason)) => Some(
            runtime::RuntimeProblem::Invalid(reason),
        ),
        _ => None,
    }
}

fn carry<T>(result: Result<T, DeepseekRuntimeError>) -> (carried_result: Result<
    T,
    DeepseekV41RuntimeError,
>)
    requires
        result is Err ==> result->Err_0 is Invalid,
    ensures
        runtime::problem(carried_result) == carried(base::problem(result)),
        result is Ok == carried_result is Ok,
        result is Ok ==> carried_result->Ok_0 == result->Ok_0,
{
    match result {
        Ok(value) => Ok(value),
        Err(DeepseekRuntimeError::Invalid(reason)) => Err(DeepseekV41RuntimeError::Invalid(reason)),
        Err(_) => Err(DeepseekV41RuntimeError::Invalid(String::new())),
    }
}

/// The experts in the order of `order`.
pub open spec fn arranged(list: Seq<usize>, order: Seq<usize>) -> Seq<usize> {
    Seq::new(order.len(), |i: int| list[order[i] as int])
}

impl ExpertStore {
    /// A store that holds nothing.
    pub fn new(text: &DeepseekV41TextConfig, slots_per_layer: usize, maximum_bytes: u64) -> (result:
        Result<Self, DeepseekV41RuntimeError>)
        ensures
            runtime::problem(result) == runtime::invalid_if(
                slots_per_layer > text.n_routed_experts || maximum_bytes == 0,
                "expert cache geometry is invalid"@,
            ),
            result matches Ok(store) ==> store@.well_formed() && store@
                == experts::StoreView::fresh(
                text.num_hidden_layers,
                text.n_routed_experts,
                text.hidden_size,
                slots_per_layer,
                maximum_bytes,
            ),
    {
        let store = carry(
            DeepExpertStore::with_geometry(
                text.num_hidden_layers,
                text.n_routed_experts,
                text.hidden_size,
                slots_per_layer,
                maximum_bytes,
            ),
        )?;
        Ok(ExpertStore { store })
    }

    pub fn telemetry(&self) -> (telemetry: &ExpertTelemetry)
        ensures
            *telemetry == self@.telemetry,
    {
        self.store.telemetry()
    }

    /// Whether an expert is resident.
    pub fn contains(&self, layer: usize, expert: usize) -> (held: bool)
        requires
            self@.well_formed(),
            layer < self@.cache.len(),
        ensures
            held == residency::keys(self@.cache[layer as int].residents).contains(expert),
    {
        self.store.contains(layer, expert)
    }

    /// Accesses one expert, with its sizes where it had to be loaded. What is evicted is returned.
    pub fn acquire(&mut self, layer: usize, expert: usize, bytes: u64, read: u64) -> (result:
        Result<Option<Resident>, DeepseekV41RuntimeError>)
        requires
            old(self)@.well_formed(),
        ensures
            final(self)@.well_formed(),
            runtime::problem(result) == carried(old(self)@.request_problem(layer, expert)),
            match result {
                Ok(evicted) => final(self)@ == old(self)@.after_access(layer, expert, bytes, read)
                    && evicted == residency::evicted_by(
                    old(self)@.cache[layer as int].residents,
                    expert,
                    old(self)@.cache[layer as int].capacity,
                ),
                Err(_) => final(self)@ == old(self)@,
            },
    {
        carry(self.store.acquire(layer, expert, bytes, read))
    }

    /// Lists the experts that have to be loaded before a request runs with all of its experts
    /// resident together. Nothing is computed for a request that is refused.
    pub fn plan_batch(&self, layer: usize, experts: &Vec<usize>) -> (result: Result<
        Vec<usize>,
        DeepseekV41RuntimeError,
    >)
        requires
            self@.well_formed(),
        ensures
            runtime::problem(result) == carried(self@.batch_problem(layer, experts@)),
            result is Ok ==> self@.batch_problem(layer, experts@) is None && result->Ok_0@
                == self@.missing(layer, experts@),
    {
        carry(self.store.plan_batch(layer, experts))
    }

    /// Enters a request whose missing experts have been loaded, as [`plan_batch`](Self::plan_batch)
    /// listed them. Where loading or the work beside it failed, the store is left as it is by not
    /// calling this.
    pub fn commit_batch(&mut self, layer: usize, experts: &Vec<usize>, sizes: &Vec<(u64, u64)>)
        requires
            old(self)@.well_formed(),
            old(self)@.batch_problem(layer, experts@) is None,
            sizes@.len() == old(self)@.missing(layer, experts@).len(),
        ensures
            final(self)@.well_formed(),
            final(self)@ == old(self)@.after_accesses(
                layer,
                experts@,
                experts::access_sizes(
                    experts@,
                    old(self)@.missing(layer, experts@),
                    sizes@,
                ),
            ),
    {
        self.store.commit_batch(layer, experts, sizes)
    }

    /// Decides how the routed experts of a token run: ascending by number, and together where the
    /// cache takes all of them without an eviction.
    pub fn plan_token(&self, layer: usize, routes: &Vec<usize>) -> (plan: TokenPlan)
        requires
            self@.well_formed(),
            layer < self@.cache.len(),
        ensures
            ranking::ranking(experts::ascending_keys(routes@), plan.order@),
            plan.experts@ == arranged(routes@, plan.order@),
            match plan.run {
                TokenRun::Overlapped { loads } => {
                    &&& self@.cache[layer as int].fits(plan.experts@)
                    &&& loads@ == self@.missing(layer, plan.experts@)
                },
                TokenRun::Sequential => !self@.cache[layer as int].fits(plan.experts@),
            },
    {
        let order = execution_order(routes);
        let mut experts: Vec<usize> = Vec::new();
        let mut i: usize = 0;
        while i < order.len()
            invariant
                ranking::ranking(experts::ascending_keys(routes@), order@),
                i <= order@.len(),
                experts@ == arranged(routes@, order@).take(i as int),
            decreases order@.len() - i,
        {
            assert(order@[i as int] < routes@.len());
            experts.push(routes[order[i]]);
            i = i + 1;
            assert(experts@ =~= arranged(routes@, order@).take(i as int));
        }
        assert(experts@ =~= arranged(routes@, order@));
        let run = if self.store.can_acquire_batch(layer, &experts) {
            TokenRun::Overlapped { loads: self.store.list_missing(layer, &experts) }
        } else {
            TokenRun::Sequential
        };
        TokenPlan { order, experts, run }
    }
}

/// Experts are arranged by the places of an order.
pub proof fn experts_are_arranged_by_place(list: Seq<usize>, order: Seq<usize>, i: int)
    requires
        0 <= i < order.len(),
    ensures
        arranged(list, order).len() == order.len(),
        arranged(list, order)[i] == list[order[i] as int],
{
}

} // verus!
