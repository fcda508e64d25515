//! What every runtime is loaded with.

use vstd::prelude::*;

verus! {

/// The budgets and limits that a runtime is loaded under.
#[derive(Debug, Clone, Copy, PartialEq, Eq, Structural)]
pub struct RuntimeLoadOptions {
    pub resident_budget_bytes: u64,
    pub expert_cache_budget_bytes: u64,
    pub kv_cache_budget_bytes: u64,
    pub expert_slots_per_layer: usize,
    pub maximum_expert_bytes: u64,
    pub context_limit: usize,
}

impl RuntimeLoadOptions {
    /// A budget that nothing can be loaded under, or no context.
    pub open spec fn lacks_a_budget(self) -> bool {
        self.context_limit == 0 || self.resident_budget_bytes == 0 || self.kv_cache_budget_bytes
            == 0 || self.maximum_expert_bytes == 0
    }

    pub fn is_empty(&self) -> (result: bool)
        ensures
            result == self.lacks_a_budget(),
    {
        self.context_limit == 0 || self.resident_budget_bytes == 0 || self.kv_cache_budget_bytes
            == 0 || self.maximum_expert_bytes == 0
    }
}

/// Options that lack a budget are those without a context, or without bytes for what is resident, for
/// the cache or for an expert; a budget for cached experts is not asked for.
pub proof fn budgets_are_asked_for(options: RuntimeLoadOptions)
    ensures
        !options.lacks_a_budget() <==> options.context_limit > 0 && options.resident_budget_bytes
            > 0 && options.kv_cache_budget_bytes > 0 && options.maximum_expert_bytes > 0,
{
}

} // verus!
