//! What the GLM runtime decides around its arithmetic: what a checkpoint needs, what is admitted,
//! and how a token changes the state.

use super::attention::{AttentionError, MlaAttention, MlaCache, MlaGeometry};
use super::config::{GlmConfig, MLA_LATENT_NORM_EPS};
use super::experts::ExpertStore;
use super::manifest::preflight_runtime;
use super::moe::RuntimeMoeError;
use super::{attention, experts, manifest, moe};
use crate::bits::Float32;
use crate::config::{quote, ConfigError};
use crate::residency::ExpertTelemetry;
use crate::runtime::RuntimeLoadOptions;
use crate::storage::{StorageError, TensorIndex};
use crate::text::{characters, find, join, push_decimal};
use crate::{config, storage, text};
use std::sync::Arc;
use vstd::prelude::*;
use vstd::string::*;

verus! {

#[derive(Debug)]
pub enum RuntimeError {
    Config(ConfigError),
    Checkpoint(StorageError),
    Attention(AttentionError),
    Moe(RuntimeMoeError),
    Invalid(String),
    ResidentBudget { name: String, required: u64, remaining: u64 },
    ExpertCacheBudget { required: u64, maximum: u64 },
    KvCacheBudget { required: u64, maximum: u64 },
    TokenOutOfRange { token: u32, vocabulary: usize },
    ContextExhausted { position: usize, limit: usize },
}

/// The same error, over plain values.
pub enum RuntimeProblem {
    Config(Seq<char>),
    Checkpoint(storage::StorageProblem),
    Attention(attention::AttentionProblem),
    Moe(moe::MoeProblem),
    Invalid(Seq<char>),
    ResidentBudget { name: Seq<char>, required: u64, remaining: u64 },
    ExpertCacheBudget { required: u64, maximum: u64 },
    KvCacheBudget { required: u64, maximum: u64 },
    TokenOutOfRange { token: u32, vocabulary: usize },
    ContextExhausted { position: usize, limit: usize },
}

impl View for RuntimeError {
    type V = RuntimeProblem;

    open spec fn view(&self) -> RuntimeProblem {
        match *self {
            RuntimeError::Config(error) => RuntimeProblem::Config(error.reason()),
            RuntimeError::Checkpoint(error) => RuntimeProblem::Checkpoint(error@),
            RuntimeError::Attention(error) => RuntimeProblem::Attention(error@),
            RuntimeError::Moe(error) => RuntimeProblem::Moe(error@),
            RuntimeError::Invalid(reason) => RuntimeProblem::Invalid(reason@),
            RuntimeError::ResidentBudget { name, required, remaining } =>
                RuntimeProblem::ResidentBudget { name: name@, required, remaining },
            RuntimeError::ExpertCacheBudget { required, maximum } =>
                RuntimeProblem::ExpertCacheBudget { required, maximum },
            RuntimeError::KvCacheBudget { required, maximum } => RuntimeProblem::KvCacheBudget {
                required,
                maximum,
            },
            RuntimeError::TokenOutOfRange { token, vocabulary } =>
                RuntimeProblem::TokenOutOfRange { token, vocabulary },
            RuntimeError::ContextExhausted { position, limit } =>
                RuntimeProblem::ContextExhausted { position, limit },
        }
    }
}

pub open spec fn problem<T>(result: Result<T, RuntimeError>) -> Option<RuntimeProblem> {
    match result {
        Ok(_) => None,
        Err(error) => Some(error@),
    }
}

/// What a call gave, over plain values.
pub open spec fn outcome<T>(result: Result<T, RuntimeError>) -> Result<T, RuntimeProblem> {
    match result {
        Ok(value) => Ok(value),
        Err(error) => Err(error@),
    }
}

pub open spec fn invalid_if(broken: bool, reason: Seq<char>) -> Option<RuntimeProblem> {
    if broken {
        Some(RuntimeProblem::Invalid(reason))
    } else {
        None
    }
}

pub open spec fn first(earlier: Option<RuntimeProblem>, later: Option<RuntimeProblem>) -> Option<
    RuntimeProblem,
> {
    if earlier is Some {
        earlier
    } else {
        later
    }
}

fn invalid<T>(reason: &str) -> (result: Result<T, RuntimeError>)
    ensures
        problem(result) == Some(RuntimeProblem::Invalid(reason@)),
{
    Err(RuntimeError::Invalid(reason.to_owned()))
}

impl RuntimeProblem {
    /// The error as text, but for one of the checkpoint, which speaks for itself.
    pub open spec fn text(self) -> Option<Seq<char>> {
        match self {
            RuntimeProblem::Config(reason) => Some(reason),
            RuntimeProblem::Checkpoint(_) => None,
            RuntimeProblem::Attention(error) => Some(error.text()),
            RuntimeProblem::Moe(error) => error.text(),
            RuntimeProblem::Invalid(reason) => Some("invalid runtime model: "@ + reason),
            RuntimeProblem::ResidentBudget { name, required, remaining } => Some(
                "resident tensor "@ + config::quoted(name) + " needs "@ + text::decimal(
                    required as nat,
                ) + " bytes, only "@ + text::decimal(remaining as nat)
                    + " budget bytes remain"@,
            ),
            RuntimeProblem::ExpertCacheBudget { required, maximum } => Some(
                "expert working set needs at most "@ + text::decimal(required as nat)
                    + " bytes, budget is "@ + text::decimal(maximum as nat) + " bytes"@,
            ),
            RuntimeProblem::KvCacheBudget { required, maximum } => Some(
                "compressed KV cache needs "@ + text::decimal(required as nat)
                    + " bytes, budget is "@ + text::decimal(maximum as nat) + " bytes"@,
            ),
            RuntimeProblem::TokenOutOfRange { token, vocabulary } => Some(
                "token ID "@ + text::decimal(token as nat) + " is outside vocabulary 0.."@
                    + text::decimal(vocabulary as nat),
            ),
            RuntimeProblem::ContextExhausted { position, limit } => Some(
                "runtime position "@ + text::decimal(position as nat)
                    + " reaches exact dense-MLA context limit "@ + text::decimal(limit as nat),
            ),
        }
    }
}

impl RuntimeError {
    pub fn message(&self) -> (message: Option<String>)
        ensures
            message is Some == self@.text() is Some,
            message is Some ==> message->0@ == self@.text()->0,
    {
        match self {
            RuntimeError::Config(error) => Some(error.message()),
            RuntimeError::Checkpoint(_) => None,
            RuntimeError::Attention(error) => Some(error.message()),
            RuntimeError::Moe(error) => error.message(),
            RuntimeError::Invalid(reason) => Some(
                join("invalid runtime model: ", reason.as_str()),
            ),
            RuntimeError::ResidentBudget { name, required, remaining } => {
                let mut message = join("resident tensor ", quote(name.as_str()).as_str());
                message.append(" needs ");
                push_decimal(&mut message, *required);
                message.append(" bytes, only ");
                push_decimal(&mut message, *remaining);
                message.append(" budget bytes remain");
                Some(message)
            },
            RuntimeError::ExpertCacheBudget { required, maximum } => {
                let mut message = "expert working set needs at most ".to_owned();
                push_decimal(&mut message, *required);
                message.append(" bytes, budget is ");
                push_decimal(&mut message, *maximum);
                message.append(" bytes");
                Some(message)
            },
            RuntimeError::KvCacheBudget { required, maximum } => {
                let mut message = "compressed KV cache needs ".to_owned();
                push_decimal(&mut message, *required);
                message.append(" bytes, budget is ");
                push_decimal(&mut message, *maximum);
                message.append(" bytes");
                Some(message)
            },
            RuntimeError::TokenOutOfRange { token, vocabulary } => {
                let mut message = "token ID ".to_owned();
                push_decimal(&mut message, *token as u64);
                message.append(" is outside vocabulary 0..");
                push_decimal(&mut message, *vocabulary as u64);
                Some(message)
            },
            RuntimeError::ContextExhausted { position, limit } => {
                let mut message = "runtime position ".to_owned();
                push_decimal(&mut message, *position as u64);
                message.append(" reaches exact dense-MLA context limit ");
                push_decimal(&mut message, *limit as u64);
                Some(message)
            },
        }
    }
}

/// What running a checkpoint takes.
#[derive(Debug, Clone, Copy, PartialEq, Eq, Structural)]
pub struct RuntimeRequirements {
    pub resident_bytes: u64,
    pub maximum_expert_bytes: u64,
    /// The least working set, needed even where no expert stays resident.
    pub transient_expert_bytes: u64,
    /// The bound on all experts at once, with the transient minimum.
    pub expert_cache_bytes: u64,
    pub kv_cache_bytes: u64,
    pub expert_slots_per_layer: usize,
    pub context_limit: usize,
    pub exact_context_ceiling: usize,
}

pub open spec fn mentions(name: Seq<char>, pattern: Seq<char>) -> bool {
    text::first_from(name, pattern, 0) is Some
}

/// A tensor of the sparse-attention indexer.
pub open spec fn indexer_tensor(name: Seq<char>) -> bool {
    mentions(name, ".self_attn.indexer."@) || mentions(name, ".self_attn.indexers_proj"@)
}

pub open spec fn has_indexer(names: Seq<Seq<char>>) -> bool {
    exists|i: int| 0 <= i < names.len() && indexer_tensor(#[trigger] names[i])
}

fn is_indexer_tensor(name: &str) -> (result: bool)
    ensures
        result == indexer_tensor(name@),
{
    let list = characters(name);
    find(&list, &characters(".self_attn.indexer.")).is_some() || find(
        &list,
        &characters(".self_attn.indexers_proj"),
    ).is_some()
}

fn lists_indexer(index: &TensorIndex) -> (result: bool)
    ensures
        result == has_indexer(index@.names),
{
    let names = index.names();
    let mut i: usize = 0;
    while i < names.len()
        invariant
            i <= names@.len(),
            storage::texts(names@) == index@.names,
            forall|j: int| 0 <= j < i ==> !indexer_tensor(#[trigger] index@.names[j]),
        decreases names@.len() - i,
    {
        assert(index@.names[i as int] == names@[i as int]@);
        if is_indexer_tensor(names[i].as_str()) {
            return true;
        }
        i = i + 1;
    }
    false
}

/// The longest context in which attending to everything is exact.
pub open spec fn context_ceiling(config: GlmConfig) -> usize {
    if config.index_topk > 0 && config.index_topk < config.max_position_embeddings {
        config.index_topk
    } else {
        config.max_position_embeddings
    }
}

/// How many values the cache of a context holds.
pub open spec fn cache_values(config: GlmConfig, context: usize) -> int {
    (config.kv_lora_rank + config.qk_rope_head_dim) * config.num_hidden_layers * context
}

/// Why a cache has no size.
pub open spec fn cache_problem(config: GlmConfig, context: usize) -> Option<RuntimeProblem> {
    let width = config.kv_lora_rank + config.qk_rope_head_dim;
    if width > usize::MAX || width * config.num_hidden_layers > usize::MAX || cache_values(
        config,
        context,
    ) > usize::MAX {
        Some(RuntimeProblem::Invalid("compressed KV size overflows usize"@))
    } else {
        invalid_if(
            cache_values(config, context) * 4 > u64::MAX,
            "compressed KV bytes overflow u64"@,
        )
    }
}

/// How many bytes the cache of a context takes.
pub fn kv_cache_bytes(config: &GlmConfig, context: usize) -> (result: Result<u64, RuntimeError>)
    ensures
        problem(result) == cache_problem(*config, context),
        result matches Ok(bytes) ==> bytes == cache_values(*config, context) * 4,
{
    let width: usize = match config.kv_lora_rank.checked_add(config.qk_rope_head_dim) {
        Some(width) => width,
        None => {
            return invalid("compressed KV size overflows usize");
        },
    };
    let per_token: usize = match width.checked_mul(config.num_hidden_layers) {
        Some(values) => values,
        None => {
            return invalid("compressed KV size overflows usize");
        },
    };
    let values: usize = match per_token.checked_mul(context) {
        Some(values) => values,
        None => {
            return invalid("compressed KV size overflows usize");
        },
    };
    match (values as u64).checked_mul(4) {
        Some(bytes) => Ok(bytes),
        None => invalid("compressed KV bytes overflow u64"),
    }
}

/// Why a request is refused before the checkpoint is inspected.
pub open spec fn request_problem(
    config: GlmConfig,
    names: Seq<Seq<char>>,
    context_limit: usize,
    slots: usize,
) -> Option<RuntimeProblem> {
    first(
        invalid_if(context_limit == 0, "context limit must be non-zero"@),
        first(
            invalid_if(
                slots > config.n_routed_experts,
                "expert_slots_per_layer="@ + text::decimal(slots as nat)
                    + " exceeds n_routed_experts="@ + text::decimal(
                    config.n_routed_experts as nat,
                ),
            ),
            first(
                invalid_if(
                    has_indexer(names),
                    "DSA indexer execution is not implemented; refusing a checkpoint that contains indexer weights"@,
                ),
                invalid_if(
                    context_limit > context_ceiling(config),
                    "requested context "@ + text::decimal(context_limit as nat)
                        + " exceeds exact dense-MLA fallback limit "@ + text::decimal(
                        context_ceiling(config) as nat,
                    ),
                ),
            ),
        ),
    )
}

fn check_request(
    config: &GlmConfig,
    index: &TensorIndex,
    context_limit: usize,
    slots: usize,
) -> (result: Result<usize, RuntimeError>)
    ensures
        problem(result) == request_problem(*config, index@.names, context_limit, slots),
        result matches Ok(ceiling) ==> ceiling == context_ceiling(*config),
{
    if context_limit == 0 {
        return invalid("context limit must be non-zero");
    }
    if slots > config.n_routed_experts {
        let mut reason = "expert_slots_per_layer=".to_owned();
        push_decimal(&mut reason, slots as u64);
        reason.append(" exceeds n_routed_experts=");
        push_decimal(&mut reason, config.n_routed_experts as u64);
        return Err(RuntimeError::Invalid(reason));
    }
    if lists_indexer(index) {
        return invalid(
            "DSA indexer execution is not implemented; refusing a checkpoint that contains indexer weights",
        );
    }
    let ceiling: usize = if config.index_topk > 0 && config.index_topk
        < config.max_position_embeddings {
        config.index_topk
    } else {
        config.max_position_embeddings
    };
    if context_limit > ceiling {
        let mut reason = "requested context ".to_owned();
        push_decimal(&mut reason, context_limit as u64);
        reason.append(" exceeds exact dense-MLA fallback limit ");
        push_decimal(&mut reason, ceiling as u64);
        return Err(RuntimeError::Invalid(reason));
    }
    Ok(ceiling)
}

/// What running a checkpoint takes, or why it is refused.
pub open spec fn requirements(
    config: GlmConfig,
    index: storage::IndexView,
    context_limit: usize,
    slots: usize,
) -> Result<RuntimeRequirements, RuntimeProblem> {
    let refused = request_problem(config, index.names, context_limit, slots);
    let account = manifest::account(index, manifest::core_needs(config));
    if config.refusal() is Some {
        Err(RuntimeProblem::Config(config.refusal()->0))
    } else if refused is Some {
        Err(refused->0)
    } else if account is Err {
        Err(account->Err_0)
    } else if account->Ok_0.expert_slot_bytes_all_layers * slots > u64::MAX {
        Err(RuntimeProblem::Invalid("expert cache byte count overflows"@))
    } else if cache_problem(config, context_limit) is Some {
        Err(cache_problem(config, context_limit)->0)
    } else {
        let persistent = (account->Ok_0.expert_slot_bytes_all_layers * slots) as u64;
        let transient = account->Ok_0.maximum_expert_bytes;
        Ok(
            RuntimeRequirements {
                resident_bytes: account->Ok_0.resident_bytes,
                maximum_expert_bytes: transient,
                transient_expert_bytes: transient,
                expert_cache_bytes: if persistent > transient {
                    persistent
                } else {
                    transient
                },
                kv_cache_bytes: (cache_values(config, context_limit) * 4) as u64,
                expert_slots_per_layer: slots,
                context_limit,
                exact_context_ceiling: context_ceiling(config),
            },
        )
    }
}

/// Inspects what running a checkpoint takes, without reading payloads.
pub fn inspect_runtime_requirements(
    config: &GlmConfig,
    index: &TensorIndex,
    context_limit: usize,
    expert_slots_per_layer: usize,
) -> (result: Result<RuntimeRequirements, RuntimeError>)
    ensures
        outcome(result) == requirements(*config, index@, context_limit, expert_slots_per_layer),
{
    match config.validate() {
        Ok(_) => {},
        Err(error) => {
            return Err(RuntimeError::Config(error));
        },
    }
    let ceiling: usize = check_request(config, index, context_limit, expert_slots_per_layer)?;
    let account = preflight_runtime(config, index)?;
    let persistent: u64 = match account.expert_slot_bytes_all_layers.checked_mul(
        expert_slots_per_layer as u64,
    ) {
        Some(bytes) => bytes,
        None => {
            return Err(RuntimeError::Invalid("expert cache byte count overflows".to_owned()));
        },
    };
    let transient: u64 = account.maximum_expert_bytes;
    let kv: u64 = kv_cache_bytes(config, context_limit)?;
    Ok(
        RuntimeRequirements {
            resident_bytes: account.resident_bytes,
            maximum_expert_bytes: transient,
            transient_expert_bytes: transient,
            expert_cache_bytes: if persistent > transient {
                persistent
            } else {
                transient
            },
            kv_cache_bytes: kv,
            expert_slots_per_layer,
            context_limit,
            exact_context_ceiling: ceiling,
        },
    )
}

/// The first budget that a checkpoint with these needs exceeds.
pub open spec fn budget_problem(needs: RuntimeRequirements, options: RuntimeLoadOptions) -> Option<
    RuntimeProblem,
> {
    if needs.resident_bytes > options.resident_budget_bytes {
        Some(
            RuntimeProblem::ResidentBudget {
                name: "complete resident core"@,
                required: needs.resident_bytes,
                remaining: options.resident_budget_bytes,
            },
        )
    } else if needs.maximum_expert_bytes > options.maximum_expert_bytes {
        Some(
            RuntimeProblem::Invalid(
                "largest routed expert needs "@ + text::decimal(needs.maximum_expert_bytes as nat)
                    + " bytes, per-expert limit is "@ + text::decimal(
                    options.maximum_expert_bytes as nat,
                ),
            ),
        )
    } else if needs.expert_cache_bytes > options.expert_cache_budget_bytes {
        Some(
            RuntimeProblem::ExpertCacheBudget {
                required: needs.expert_cache_bytes,
                maximum: options.expert_cache_budget_bytes,
            },
        )
    } else if needs.kv_cache_bytes > options.kv_cache_budget_bytes {
        Some(
            RuntimeProblem::KvCacheBudget {
                required: needs.kv_cache_bytes,
                maximum: options.kv_cache_budget_bytes,
            },
        )
    } else {
        None
    }
}

/// Why a checkpoint is not loaded under these options.
pub open spec fn admission_problem(
    config: GlmConfig,
    index: storage::IndexView,
    options: RuntimeLoadOptions,
) -> Option<RuntimeProblem> {
    let needs = requirements(config, index, options.context_limit, options.expert_slots_per_layer);
    if options.lacks_a_budget() {
        Some(
            RuntimeProblem::Invalid(
                "resident, per-expert, and KV budgets plus context limit must be non-zero"@,
            ),
        )
    } else if needs is Err {
        Some(needs->Err_0)
    } else {
        budget_problem(needs->Ok_0, options)
    }
}

/// Refuses a checkpoint that cannot be loaded under these options, before any payload is read.
pub fn admit_checkpoint(config: &GlmConfig, index: &TensorIndex, options: &RuntimeLoadOptions) -> (
    result: Result<RuntimeRequirements, RuntimeError>)
    ensures
        problem(result) == admission_problem(*config, index@, *options),
        result matches Ok(needs) ==> requirements(
            *config,
            index@,
            options.context_limit,
            options.expert_slots_per_layer,
        ) == Ok::<RuntimeRequirements, RuntimeProblem>(needs),
{
    if options.is_empty() {
        return invalid("resident, per-expert, and KV budgets plus context limit must be non-zero");
    }
    let needs = inspect_runtime_requirements(
        config,
        index,
        options.context_limit,
        options.expert_slots_per_layer,
    )?;
    if needs.resident_bytes > options.resident_budget_bytes {
        return Err(
            RuntimeError::ResidentBudget {
                name: "complete resident core".to_owned(),
                required: needs.resident_bytes,
                remaining: options.resident_budget_bytes,
            },
        );
    }
    if needs.maximum_expert_bytes > options.maximum_expert_bytes {
        let mut reason = "largest routed expert needs ".to_owned();
        push_decimal(&mut reason, needs.maximum_expert_bytes);
        reason.append(" bytes, per-expert limit is ");
        push_decimal(&mut reason, options.maximum_expert_bytes);
        return Err(RuntimeError::Invalid(reason));
    }
    if needs.expert_cache_bytes > options.expert_cache_budget_bytes {
        return Err(
            RuntimeError::ExpertCacheBudget {
                required: needs.expert_cache_bytes,
                maximum: options.expert_cache_budget_bytes,
            },
        );
    }
    if needs.kv_cache_bytes > options.kv_cache_budget_bytes {
        return Err(
            RuntimeError::KvCacheBudget {
                required: needs.kv_cache_bytes,
                maximum: options.kv_cache_budget_bytes,
            },
        );
    }
    Ok(needs)
}

/// The geometry of the attention of every layer. `rope_theta` is the configured value in single
/// precision.
pub open spec fn layer_geometry(config: GlmConfig, rope_theta: Float32) -> MlaGeometry {
    MlaGeometry {
        hidden_size: config.hidden_size,
        num_heads: config.num_attention_heads,
        q_lora_rank: config.q_lora_rank->0,
        kv_lora_rank: config.kv_lora_rank,
        qk_nope_head_dim: config.qk_nope_head_dim,
        qk_rope_head_dim: config.qk_rope_head_dim,
        v_head_dim: config.v_head_dim,
        latent_norm_eps: Float32 { bits: MLA_LATENT_NORM_EPS },
        rope_theta,
    }
}

pub fn attention_geometry(config: &GlmConfig, rope_theta: Float32) -> (geometry: MlaGeometry)
    requires
        config.q_lora_rank is Some,
    ensures
        geometry == layer_geometry(*config, rope_theta),
{
    MlaGeometry {
        hidden_size: config.hidden_size,
        num_heads: config.num_attention_heads,
        q_lora_rank: config.q_lora_rank_value(),
        kv_lora_rank: config.kv_lora_rank,
        qk_nope_head_dim: config.qk_nope_head_dim,
        qk_rope_head_dim: config.qk_rope_head_dim,
        v_head_dim: config.v_head_dim,
        latent_norm_eps: Float32 { bits: MLA_LATENT_NORM_EPS },
        rope_theta,
    }
}

/// The attention of an accepted configuration is refused for nothing but its rotary base, which may
/// round to zero or infinity in single precision.
pub proof fn accepted_configs_have_attention(config: GlmConfig, rope_theta: Float32)
    requires
        config.refusal() is None,
        rope_theta.positive_finite(),
    ensures
        layer_geometry(config, rope_theta).refusal() is None,
        layer_geometry(config, rope_theta).compressed() <= usize::MAX,
{
    manifest::accepted_dimensions_fit(config);
    assert(config.qk_head_dim == config.qk_nope_head_dim + config.qk_rope_head_dim);
}

/// A loaded model, but for its weights.
pub struct RuntimeModel {
    pub instance_id: u64,
    pub config: GlmConfig,
    pub index: Arc<TensorIndex>,
    pub resident_bytes: u64,
    pub expert_slots_per_layer: usize,
    pub maximum_expert_bytes: u64,
    pub context_limit: usize,
}

/// The state of one generation.
pub struct RuntimeState {
    pub instance_id: u64,
    pub position: usize,
    pub layer_caches: Vec<MlaCache>,
    pub experts: ExpertStore,
}

pub open spec fn cache_views(list: Seq<MlaCache>) -> Seq<attention::CacheView> {
    Seq::new(list.len(), |i: int| list[i]@)
}

/// What a [`RuntimeState`] holds.
#[verifier::ext_equal]
pub struct StateView {
    pub instance_id: u64,
    pub position: usize,
    pub caches: Seq<attention::CacheView>,
    pub experts: experts::StoreView,
}

impl View for RuntimeState {
    type V = StateView;

    open spec fn view(&self) -> StateView {
        StateView {
            instance_id: self.instance_id,
            position: self.position,
            caches: cache_views(self.layer_caches@),
            experts: self.experts@,
        }
    }
}

pub open spec fn caches_well_formed(caches: Seq<attention::CacheView>) -> bool {
    forall|i: int| 0 <= i < caches.len() ==> (#[trigger] caches[i]).well_formed()
}

/// How many values the caches hold together.
pub open spec fn cached_elements(caches: Seq<attention::CacheView>) -> nat
    decreases caches.len(),
{
    if caches.len() == 0 {
        0
    } else {
        cached_elements(caches.drop_last()) + caches.last().latent.len()
            + caches.last().rope.len()
    }
}

/// The caches with only their first `tokens` tokens, as far as they have so many.
pub open spec fn cut(caches: Seq<attention::CacheView>, tokens: int) -> Seq<attention::CacheView> {
    Seq::new(
        caches.len(),
        |i: int|
            if tokens <= caches[i].tokens() {
                caches[i].truncated(tokens)
            } else {
                caches[i]
            },
    )
}

/// A later state of a cache: it holds the same tokens, and maybe more behind them.
pub open spec fn extends(later: attention::CacheView, earlier: attention::CacheView) -> bool {
    &&& later.kv_lora_rank == earlier.kv_lora_rank
    &&& later.rope_dim == earlier.rope_dim
    &&& earlier.latent.len() <= later.latent.len()
    &&& later.latent.take(earlier.latent.len() as int) == earlier.latent
    &&& earlier.rope.len() <= later.rope.len()
    &&& later.rope.take(earlier.rope.len() as int) == earlier.rope
}

/// A push gives a later state of the cache.
pub proof fn a_push_extends(cache: attention::CacheView, latent: Seq<u32>, rope: Seq<u32>)
    ensures
        extends(cache.pushed(latent, rope), cache),
{
    assert(cache.pushed(latent, rope).latent.take(cache.latent.len() as int) =~= cache.latent);
    assert(cache.pushed(latent, rope).rope.take(cache.rope.len() as int) =~= cache.rope);
}

proof fn lemma_cut_goes_back(
    earlier: Seq<attention::CacheView>,
    later: Seq<attention::CacheView>,
    tokens: int,
)
    requires
        earlier.len() == later.len(),
        caches_well_formed(earlier),
        caches_well_formed(later),
        forall|i: int|
            0 <= i < earlier.len() ==> (#[trigger] earlier[i]).tokens() == tokens && extends(
                later[i],
                earlier[i],
            ),
    ensures
        cut(later, tokens) == earlier,
        forall|i: int| 0 <= i < later.len() ==> tokens <= (#[trigger] later[i]).tokens(),
{
    assert forall|i: int| 0 <= i < later.len() implies tokens <= (#[trigger] later[i]).tokens()
        && later[i].truncated(tokens) == earlier[i] by {
        assert(earlier[i].tokens() == tokens);
        assert(earlier[i].well_formed() && later[i].well_formed());
        let rank = later[i].kv_lora_rank as int;
        vstd::arithmetic::div_mod::lemma_div_is_ordered(
            earlier[i].latent.len() as int,
            later[i].latent.len() as int,
            rank,
        );
        assert(later[i].truncated(tokens) == earlier[i]);
    }
    assert(cut(later, tokens) =~= earlier);
}

impl StateView {
    /// The caches stand at the state's position.
    pub open spec fn in_step(self) -> bool {
        forall|i: int| 0 <= i < self.caches.len() ==> (#[trigger] self.caches[i]).tokens()
            == self.position
    }

    /// The first cache, from `from` on, that has fewer tokens than asked for.
    pub open spec fn short_cache(self, position: usize, from: int) -> Option<int>
        decreases self.caches.len() - from,
    {
        if from < 0 || from >= self.caches.len() {
            None
        } else if position > self.caches[from].tokens() {
            Some(from)
        } else {
            self.short_cache(position, from + 1)
        }
    }

    /// The state when it has been taken back to a position.
    pub open spec fn restored(self, position: usize) -> StateView {
        match self.short_cache(position, 0) {
            None => StateView { position, caches: cut(self.caches, position as int), ..self },
            Some(short) => StateView {
                caches: cut(self.caches.take(short), position as int) + self.caches.skip(short),
                ..self
            },
        }
    }

    /// The state when a token that began at `start` has been undone.
    pub open spec fn rolled_back(self, start: usize) -> StateView {
        StateView { position: start, caches: cut(self.caches, start as int), ..self }
    }

    /// What the last of the first `count` caches that has fewer tokens than asked for says.
    pub open spec fn rollback_failure(self, start: usize, count: nat) -> Option<Seq<char>>
        decreases count,
    {
        if count == 0 {
            None
        } else {
            let cache = self.caches[count - 1];
            if start > cache.tokens() {
                Some(
                    "layer "@ + text::decimal((count - 1) as nat) + ": "@
                        + attention::AttentionProblem::CachePosition {
                        expected: cache.tokens() as usize,
                        got: start,
                    }.text(),
                )
            } else {
                self.rollback_failure(start, (count - 1) as nat)
            }
        }
    }
}

impl RuntimeState {
    pub open spec fn well_formed(&self) -> bool {
        &&& caches_well_formed(self@.caches)
        &&& self.experts@.well_formed()
    }

    pub fn position(&self) -> (position: usize)
        ensures
            position == self@.position,
    {
        self.position
    }

    pub fn expert_telemetry(&self) -> (telemetry: &ExpertTelemetry)
        ensures
            *telemetry == self@.experts.telemetry,
    {
        self.experts.telemetry()
    }

    /// How many values the caches hold together.
    pub fn cached_f32_elements(&self) -> (count: usize)
        requires
            self.well_formed(),
            cached_elements(self@.caches) <= usize::MAX,
        ensures
            count == cached_elements(self@.caches),
    {
        let ghost all = self@.caches;
        let mut count: usize = 0;
        let mut i: usize = 0;
        while i < self.layer_caches.len()
            invariant
                i <= self.layer_caches@.len(),
                all == self@.caches,
                self.well_formed(),
                cached_elements(all) <= usize::MAX,
                count == cached_elements(all.take(i as int)),
            decreases self.layer_caches@.len() - i,
        {
            proof {
                let longer = all.take(i + 1);
                assert(longer.drop_last() =~= all.take(i as int));
                assert(longer.last() == self.layer_caches@[i as int]@);
                lemma_elements_grow(all, i + 1);
                assert(all[i as int].well_formed());
                let cache = all[i as int];
                let rank = cache.kv_lora_rank as int;
                let width = cache.rope_dim as int;
                let tokens = cache.tokens();
                assert(tokens * (rank + width) == tokens * rank + tokens * width)
                    by (nonlinear_arith);
            }
            count = count + self.layer_caches[i].stored_f32_elements();
            i = i + 1;
        }
        assert(all.take(i as int) =~= all);
        count
    }

    /// The mark that `restore` goes back to.
    pub fn checkpoint(&self) -> (position: usize)
        ensures
            position == self@.position,
    {
        self.position
    }

    /// Takes the state back to a position. Where a cache has fewer tokens, the caches before it are
    /// cut already and the position stays.
    pub fn restore(&mut self, position: usize) -> (result: Result<(), AttentionError>)
        requires
            old(self).well_formed(),
        ensures
            final(self).well_formed(),
            final(self)@ == old(self)@.restored(position),
            attention::problem(result) == (match old(self)@.short_cache(position, 0) {
                None => None,
                Some(short) => Some(
                    attention::AttentionProblem::CachePosition {
                        expected: old(self)@.caches[short].tokens() as usize,
                        got: position,
                    },
                ),
            }),
    {
        let ghost before = self@;
        let total: usize = self.layer_caches.len();
        let mut i: usize = 0;
        proof {
            assert(self@.caches =~= cut(before.caches.take(0), position as int)
                + before.caches.skip(0));
        }
        while i < total
            invariant
                i <= total,
                before == old(self)@,
                total == before.caches.len(),
                self.layer_caches@.len() == total,
                self.well_formed(),
                self@.instance_id == before.instance_id,
                self@.position == before.position,
                self@.experts == before.experts,
                self@.caches == cut(before.caches.take(i as int), position as int)
                    + before.caches.skip(i as int),
                before.short_cache(position, i as int) == before.short_cache(position, 0),
            decreases total - i,
        {
            let ghost now = self@.caches;
            proof {
                assert(self.layer_caches@[i as int]@ == now[i as int]);
                assert(now[i as int] == before.caches[i as int]);
            }
            match self.layer_caches[i].truncate(position) {
                Ok(_) => {},
                Err(error) => {
                    assert(self@.caches =~= now);
                    assert(self@ =~= before.restored(position));
                    return Err(error);
                },
            }
            proof {
                assert(self@.caches =~= now.update(
                    i as int,
                    before.caches[i as int].truncated(position as int),
                ));
                assert forall|j: int| 0 <= j < self@.caches.len() implies (
                #[trigger] self@.caches[j]).well_formed() by {
                    assert(now[j].well_formed());
                }
                assert(self@.caches =~= cut(before.caches.take(i + 1), position as int)
                    + before.caches.skip(i + 1));
            }
            i = i + 1;
        }
        self.position = position;
        proof {
            assert(before.caches.take(total as int) =~= before.caches);
            assert(self@.caches =~= cut(before.caches, position as int));
        }
        Ok(())
    }
}

proof fn lemma_elements_grow(caches: Seq<attention::CacheView>, few: int)
    requires
        0 <= few <= caches.len(),
    ensures
        cached_elements(caches.take(few)) <= cached_elements(caches),
    decreases caches.len(),
{
    if few == caches.len() {
        assert(caches.take(few) =~= caches);
    } else {
        assert(caches.drop_last().take(few) =~= caches.take(few));
        lemma_elements_grow(caches.drop_last(), few);
    }
}

/// Why a token is refused before it changes anything.
pub open spec fn token_problem(model: RuntimeModel, state: StateView, token: u32) -> Option<
    RuntimeProblem,
> {
    if state.instance_id != model.instance_id {
        Some(RuntimeProblem::Invalid("runtime state belongs to a different model instance"@))
    } else if state.caches.len() != model.config.num_hidden_layers || !state.in_step() {
        Some(RuntimeProblem::Invalid("runtime cache lengths disagree with model/state position"@))
    } else if token >= model.config.vocab_size {
        Some(RuntimeProblem::TokenOutOfRange { token, vocabulary: model.config.vocab_size })
    } else if state.position >= model.context_limit {
        Some(
            RuntimeProblem::ContextExhausted {
                position: state.position,
                limit: model.context_limit,
            },
        )
    } else {
        None
    }
}

/// What the attention refuses, as an error of the runtime.
pub open spec fn of_attention(refusal: Option<attention::AttentionProblem>) -> (
    Option<RuntimeProblem>
) {
    match refusal {
        Some(error) => Some(RuntimeProblem::Attention(error)),
        None => None,
    }
}

/// Why a loaded core is refused.
pub open spec fn loaded_problem(expected: u64, loaded: u64) -> Option<RuntimeProblem> {
    invalid_if(
        loaded != expected,
        "preflight resident bytes "@ + text::decimal(expected as nat)
            + " disagree with loaded bytes "@ + text::decimal(loaded as nat),
    )
}

impl RuntimeModel {
    /// The model was admitted.
    pub open spec fn well_formed(&self) -> bool {
        &&& self.config.refusal() is None
        &&& self.context_limit > 0
        &&& self.maximum_expert_bytes > 0
        &&& requirements(
            self.config,
            (*self.index)@,
            self.context_limit,
            self.expert_slots_per_layer,
        ) is Ok
        &&& requirements(
            self.config,
            (*self.index)@,
            self.context_limit,
            self.expert_slots_per_layer,
        )->Ok_0.maximum_expert_bytes <= self.maximum_expert_bytes
    }

    /// Inspects what running a checkpoint takes, without reading payloads.
    pub fn inspect_requirements(
        config: &GlmConfig,
        index: &TensorIndex,
        context_limit: usize,
        expert_slots_per_layer: usize,
    ) -> (result: Result<RuntimeRequirements, RuntimeError>)
        ensures
            outcome(result) == requirements(
                *config,
                index@,
                context_limit,
                expert_slots_per_layer,
            ),
    {
        inspect_runtime_requirements(config, index, context_limit, expert_slots_per_layer)
    }

    /// Takes a checkpoint whose resident core has been read into `loaded_bytes` bytes. The instance
    /// id tells the states of this model from those of others.
    pub fn load(
        config: GlmConfig,
        index: TensorIndex,
        options: &RuntimeLoadOptions,
        instance_id: u64,
        loaded_bytes: u64,
    ) -> (result: Result<Self, RuntimeError>)
        ensures
            problem(result) == first(
                admission_problem(config, index@, *options),
                loaded_problem(
                    requirements(
                        config,
                        index@,
                        options.context_limit,
                        options.expert_slots_per_layer,
                    )->Ok_0.resident_bytes,
                    loaded_bytes,
                ),
            ),
            result matches Ok(model) ==> {
                &&& model.well_formed()
                &&& model.instance_id == instance_id
                &&& model.config == config
                &&& (*model.index)@ == index@
                &&& model.resident_bytes == loaded_bytes
                &&& model.expert_slots_per_layer == options.expert_slots_per_layer
                &&& model.maximum_expert_bytes == options.maximum_expert_bytes
                &&& model.context_limit == options.context_limit
            },
    {
        let needs = admit_checkpoint(&config, &index, options)?;
        if loaded_bytes != needs.resident_bytes {
            let mut reason = "preflight resident bytes ".to_owned();
            push_decimal(&mut reason, needs.resident_bytes);
            reason.append(" disagree with loaded bytes ");
            push_decimal(&mut reason, loaded_bytes);
            return Err(RuntimeError::Invalid(reason));
        }
        Ok(
            RuntimeModel {
                instance_id,
                config,
                index: Arc::new(index),
                resident_bytes: loaded_bytes,
                expert_slots_per_layer: options.expert_slots_per_layer,
                maximum_expert_bytes: options.maximum_expert_bytes,
                context_limit: options.context_limit,
            },
        )
    }

    pub fn config(&self) -> (config: &GlmConfig)
        ensures
            *config == self.config,
    {
        &self.config
    }

    pub fn resident_bytes(&self) -> (bytes: u64)
        ensures
            bytes == self.resident_bytes,
    {
        self.resident_bytes
    }

    pub fn context_limit(&self) -> (limit: usize)
        ensures
            limit == self.context_limit,
    {
        self.context_limit
    }

    /// The state before any token.
    pub open spec fn fresh_state(&self) -> StateView {
        StateView {
            instance_id: self.instance_id,
            position: 0,
            caches: Seq::new(
                self.config.num_hidden_layers as nat,
                |i: int|
                    attention::CacheView::fresh(
                        self.config.kv_lora_rank,
                        self.config.qk_rope_head_dim,
                    ),
            ),
            experts: ExpertStore::fresh(
                (*self.index)@,
                self.config.num_hidden_layers,
                self.config.n_routed_experts,
                self.config.hidden_size,
                self.config.moe_intermediate_size,
                self.expert_slots_per_layer,
                self.maximum_expert_bytes,
            ),
        }
    }

    /// The state is one of this model's: it has a cache of the model's shape for every layer, and
    /// all of them stand at its position.
    pub open spec fn owns(&self, state: StateView) -> bool {
        &&& state.instance_id == self.instance_id
        &&& state.caches.len() == self.config.num_hidden_layers
        &&& state.in_step()
        &&& forall|i: int|
            0 <= i < state.caches.len() ==> (#[trigger] state.caches[i]).kv_lora_rank
                == self.config.kv_lora_rank && state.caches[i].rope_dim
                == self.config.qk_rope_head_dim
    }

    /// A state before any token. A loaded model has one wherever the machine has room for the caches
    /// of its whole context.
    pub fn new_state(&self) -> (result: Result<RuntimeState, RuntimeError>)
        requires
            self.well_formed(),
        ensures
            match result {
                Ok(state) => state.well_formed() && state@ == self.fresh_state() && self.owns(
                    state@,
                ),
                Err(error) => exists|latent: Option<Seq<char>>, rope: Option<Seq<char>>|
                    Some(error@) == of_attention(
                        #[trigger] MlaCache::reserved_problem(
                            self.config.kv_lora_rank,
                            self.config.qk_rope_head_dim,
                            self.context_limit,
                            latent,
                            rope,
                        ),
                    ),
            },
            MlaCache::never_fits(
                self.config.kv_lora_rank,
                self.config.qk_rope_head_dim,
                self.context_limit,
            ) ==> result is Err,
    {
        let rank: usize = self.config.kv_lora_rank;
        let width: usize = self.config.qk_rope_head_dim;
        proof {
            let layers = self.config.num_hidden_layers as int;
            let context = self.context_limit as int;
            assert(rank * context <= (rank + width) * layers * context && width * context <= (rank
                + width) * layers * context) by (nonlinear_arith)
                requires
                    rank >= 0,
                    width >= 0,
                    layers >= 1,
                    context >= 0,
            ;
        }
        let ghost fresh = attention::CacheView::fresh(rank, width);
        let mut layer_caches: Vec<MlaCache> = Vec::new();
        let mut i: usize = 0;
        while i < self.config.num_hidden_layers
            invariant
                i <= self.config.num_hidden_layers,
                layer_caches@.len() == i,
                rank == self.config.kv_lora_rank,
                width == self.config.qk_rope_head_dim,
                MlaCache::capacity_problem(rank, width, self.context_limit) is None,
                MlaCache::never_fits(rank, width, self.context_limit) ==> i == 0,
                fresh == attention::CacheView::fresh(rank, width),
                forall|j: int|
                    0 <= j < i ==> (#[trigger] layer_caches@[j])@ == fresh
                        && layer_caches@[j]@.well_formed(),
            decreases self.config.num_hidden_layers - i,
        {
            match MlaCache::with_capacity(rank, width, self.context_limit) {
                Ok(cache) => layer_caches.push(cache),
                Err(error) => {
                    return Err(RuntimeError::Attention(error));
                },
            }
            i = i + 1;
        }
        let experts = match ExpertStore::new_shared(
            self.index.clone(),
            self.config.num_hidden_layers,
            self.config.n_routed_experts,
            self.config.hidden_size,
            self.config.moe_intermediate_size,
            self.expert_slots_per_layer,
            self.maximum_expert_bytes,
        ) {
            Ok(experts) => experts,
            Err(error) => {
                return Err(RuntimeError::Moe(RuntimeMoeError::Expert(error)));
            },
        };
        let state = RuntimeState {
            instance_id: self.instance_id,
            position: 0,
            layer_caches,
            experts,
        };
        proof {
            assert(state@.caches =~= self.fresh_state().caches);
            assert forall|j: int| 0 <= j < state@.caches.len() implies (
            #[trigger] state@.caches[j]).well_formed() && state@.caches[j].tokens() == 0 by {
                assert(state@.caches[j] == layer_caches@[j]@);
                vstd::arithmetic::div_mod::lemma_div_basics(rank as int);
            }
        }
        Ok(state)
    }

    /// Refuses a token that the state cannot take, before anything changes. The result is the
    /// position at which it begins.
    pub fn begin_token(&self, token: u32, state: &RuntimeState) -> (result: Result<
        usize,
        RuntimeError,
    >)
        requires
            state.well_formed(),
        ensures
            problem(result) == token_problem(*self, state@, token),
            result matches Ok(start) ==> start == state@.position,
    {
        if state.instance_id != self.instance_id {
            return invalid("runtime state belongs to a different model instance");
        }
        if state.layer_caches.len() != self.config.num_hidden_layers {
            return invalid("runtime cache lengths disagree with model/state position");
        }
        let mut i: usize = 0;
        while i < state.layer_caches.len()
            invariant
                i <= state.layer_caches@.len(),
                state.well_formed(),
                state.instance_id == self.instance_id,
                state@.caches.len() == self.config.num_hidden_layers,
                forall|j: int|
                    0 <= j < i ==> (#[trigger] state@.caches[j]).tokens() == state@.position,
            decreases state.layer_caches@.len() - i,
        {
            assert(state@.caches[i as int] == state.layer_caches@[i as int]@);
            assert(state@.caches[i as int].well_formed());
            if state.layer_caches[i].len() != state.position {
                return invalid("runtime cache lengths disagree with model/state position");
            }
            i = i + 1;
        }
        if token as u64 >= self.config.vocab_size as u64 {
            return Err(
                RuntimeError::TokenOutOfRange { token, vocabulary: self.config.vocab_size },
            );
        }
        if state.position >= self.context_limit {
            return Err(
                RuntimeError::ContextExhausted {
                    position: state.position,
                    limit: self.context_limit,
                },
            );
        }
        Ok(state.position)
    }

    /// Counts a token that every layer has taken.
    pub fn finish_token(&self, state: &mut RuntimeState)
        requires
            old(state).well_formed(),
            old(state)@.position < self.context_limit,
        ensures
            final(state).well_formed(),
            final(state)@ == (StateView {
                position: (old(state)@.position + 1) as usize,
                ..old(state)@
            }),
    {
        state.position = state.position + 1;
    }

    /// Undoes a token that failed with `error`, whose text is `cause`: the caches go back to where
    /// it began. The experts that it loaded stay. Where a cache has fewer tokens than that, the
    /// error says so.
    pub fn fail_token(
        &self,
        state: &mut RuntimeState,
        start: usize,
        error: RuntimeError,
        cause: &str,
    ) -> (failure: RuntimeError)
        requires
            old(state).well_formed(),
        ensures
            final(state).well_formed(),
            final(state)@ == old(state)@.rolled_back(start),
            match old(state)@.rollback_failure(start, old(state)@.caches.len()) {
                None => failure == error,
                Some(reason) => failure@ == RuntimeProblem::Invalid(
                    "state rollback failed after "@ + cause@ + ": "@ + reason,
                ),
            },
    {
        let ghost before = state@;
        let total: usize = state.layer_caches.len();
        let mut found: Option<String> = None;
        let mut i: usize = 0;
        while i < total
            invariant
                i <= total,
                total == before.caches.len(),
                state.layer_caches@.len() == total,
                state.well_formed(),
                state@.instance_id == before.instance_id,
                state@.experts == before.experts,
                forall|j: int|
                    0 <= j < i ==> #[trigger] state@.caches[j] == cut(
                        before.caches,
                        start as int,
                    )[j],
                forall|j: int|
                    i <= j < total ==> #[trigger] state@.caches[j] == before.caches[j],
                found is Some == before.rollback_failure(start, i as nat) is Some,
                found is Some ==> found->0@ == before.rollback_failure(start, i as nat)->0,
            decreases total - i,
        {
            let ghost now = state@.caches;
            proof {
                assert(state.layer_caches@[i as int]@ == now[i as int]);
                assert(now[i as int] == before.caches[i as int]);
                assert(now[i as int].well_formed());
            }
            match state.layer_caches[i].truncate(start) {
                Ok(_) => {
                    proof {
                        assert(state@.caches =~= now.update(
                            i as int,
                            before.caches[i as int].truncated(start as int),
                        ));
                    }
                },
                Err(cause_of_layer) => {
                    let mut reason = "layer ".to_owned();
                    push_decimal(&mut reason, i as u64);
                    reason.append(": ");
                    reason.append(cause_of_layer.message().as_str());
                    found = Some(reason);
                    proof {
                        assert(state@.caches =~= now);
                    }
                },
            }
            proof {
                assert forall|j: int| 0 <= j < state@.caches.len() implies (
                #[trigger] state@.caches[j]).well_formed() by {
                    assert(now[j].well_formed());
                }
                assert(before.caches[i as int] == now[i as int]);
            }
            i = i + 1;
        }
        state.position = start;
        proof {
            assert(state@.caches =~= cut(before.caches, start as int));
            assert(state@ =~= before.rolled_back(start));
        }
        match found {
            None => error,
            Some(reason) => {
                let mut message = join("state rollback failed after ", cause);
                message.append(": ");
                message.append(reason.as_str());
                RuntimeError::Invalid(message)
            },
        }
    }
}

/// What one token adds to the caches: the first values of a row are latent, the others rotary.
pub open spec fn with_rows(
    caches: Seq<attention::CacheView>,
    rows: Seq<Vec<u32>>,
    count: int,
    rank: int,
) -> Seq<attention::CacheView> {
    Seq::new(
        caches.len(),
        |i: int|
            if i < count {
                caches[i].pushed(rows[i]@.take(rank), rows[i]@.skip(rank))
            } else {
                caches[i]
            },
    )
}

/// Why the caches from `from` on do not take a token: the refusal of the first that does not.
pub open spec fn layer_refusal(
    attention: MlaAttention,
    caches: Seq<attention::CacheView>,
    position: usize,
    from: int,
) -> Option<attention::AttentionProblem>
    decreases caches.len() - from,
{
    if from < 0 || from >= caches.len() {
        None
    } else if attention.token_problem(caches[from], position) is Some {
        attention.token_problem(caches[from], position)
    } else {
        layer_refusal(attention, caches, position, from + 1)
    }
}

proof fn lemma_no_layer_refusal(
    attention: MlaAttention,
    caches: Seq<attention::CacheView>,
    position: usize,
    from: int,
)
    requires
        0 <= from,
        forall|i: int|
            0 <= i < caches.len() ==> attention.token_problem(#[trigger] caches[i], position)
                is None,
    ensures
        layer_refusal(attention, caches, position, from) is None,
    decreases caches.len() - from,
{
    if from < caches.len() {
        lemma_no_layer_refusal(attention, caches, position, from + 1);
    }
}

/// How many values the caches hold, where every one has taken a token.
proof fn lemma_rows_add(
    caches: Seq<attention::CacheView>,
    rows: Seq<Vec<u32>>,
    rank: int,
    width: int,
)
    requires
        caches.len() == rows.len(),
        0 <= rank,
        0 <= width,
        forall|i: int| 0 <= i < rows.len() ==> (#[trigger] rows[i])@.len() == rank + width,
    ensures
        cached_elements(with_rows(caches, rows, rows.len() as int, rank)) == cached_elements(caches)
            + rows.len() * (rank + width),
    decreases caches.len(),
{
    if caches.len() > 0 {
        let more = with_rows(caches, rows, rows.len() as int, rank);
        let count = rows.len() - 1;
        assert(more.drop_last() =~= with_rows(caches.drop_last(), rows.drop_last(), count, rank));
        lemma_rows_add(caches.drop_last(), rows.drop_last(), rank, width);
        assert(rows[count]@.len() == rank + width);
        assert((count + 1) * (rank + width) == count * (rank + width) + (rank + width))
            by (nonlinear_arith);
    } else {
        assert(rows.len() * (rank + width) == 0) by (nonlinear_arith)
            requires
                rows.len() == 0,
        ;
    }
}

impl RuntimeModel {
    /// Takes a token. `work` is what the layers come to for it: the row that each of them keeps, or
    /// why one of them failed, a failed expert included. A token that succeeds moves the state on by
    /// one position and adds its row to every cache. One that is refused or fails leaves the state
    /// as it was.
    pub fn forward_token(
        &self,
        token: u32,
        state: &mut RuntimeState,
        attention: &MlaAttention,
        work: Result<Vec<Vec<u32>>, RuntimeError>,
    ) -> (result: Result<(), RuntimeError>)
        requires
            old(state).well_formed(),
            work matches Ok(rows) ==> rows@.len() == self.config.num_hidden_layers && forall|i: int|
                0 <= i < rows@.len() ==> (#[trigger] rows@[i])@.len()
                    == attention.geometry.compressed(),
        ensures
            final(state).well_formed(),
            token_problem(*self, old(state)@, token) is Some ==> problem(result) == token_problem(
                *self,
                old(state)@,
                token,
            ),
            token_problem(*self, old(state)@, token) is None ==> match work {
                Err(error) => result == Err::<(), RuntimeError>(error),
                Ok(_) => problem(result) == of_attention(
                    layer_refusal(*attention, old(state)@.caches, old(state)@.position, 0),
                ),
            },
            result is Err ==> final(state)@ == old(state)@,
            result is Ok ==> work is Ok && final(state)@ == (StateView {
                position: (old(state)@.position + 1) as usize,
                caches: with_rows(
                    old(state)@.caches,
                    work->Ok_0@,
                    old(state)@.caches.len() as int,
                    attention.geometry.kv_lora_rank as int,
                ),
                ..old(state)@
            }),
    {
        let start: usize = self.begin_token(token, state)?;
        let rows = match work {
            Ok(rows) => rows,
            Err(error) => {
                return Err(error);
            },
        };
        let ghost before = state@;
        let ghost rank = attention.geometry.kv_lora_rank as int;
        let mut i: usize = 0;
        assert(with_rows(before.caches, rows@, 0, rank) =~= before.caches);
        while i < rows.len()
            invariant
                before == old(state)@,
                before.in_step(),
                caches_well_formed(before.caches),
                start == before.position,
                start < self.context_limit,
                rank == attention.geometry.kv_lora_rank,
                i <= rows@.len(),
                rows@.len() == before.caches.len(),
                forall|j: int|
                    0 <= j < rows@.len() ==> (#[trigger] rows@[j])@.len()
                        == attention.geometry.compressed(),
                state.layer_caches@.len() == rows@.len(),
                state.well_formed(),
                state@ == (StateView {
                    caches: with_rows(before.caches, rows@, i as int, rank),
                    ..before
                }),
                token_problem(*self, before, token) is None,
                work == Ok::<Vec<Vec<u32>>, RuntimeError>(rows),
                layer_refusal(*attention, before.caches, start, 0) == layer_refusal(
                    *attention,
                    before.caches,
                    start,
                    i as int,
                ),
            decreases rows@.len() - i,
        {
            let ghost now = state@;
            proof {
                assert(now.caches[i as int] == before.caches[i as int]);
                assert(state.layer_caches@[i as int]@ == now.caches[i as int]);
                assert(now.caches[i as int].well_formed());
            }
            match attention.append_token(&mut state.layer_caches[i], start, &rows[i]) {
                Ok(_) => {
                    proof {
                        let row = rows@[i as int]@;
                        assert(state@.caches =~= now.caches.update(
                            i as int,
                            before.caches[i as int].pushed(row.take(rank), row.skip(rank)),
                        ));
                        assert(state@.caches =~= with_rows(before.caches, rows@, i + 1, rank));
                        assert forall|j: int| 0 <= j < state@.caches.len() implies (
                        #[trigger] state@.caches[j]).well_formed() by {
                            assert(now.caches[j].well_formed());
                        }
                    }
                },
                Err(error) => {
                    proof {
                        assert(state@.caches =~= now.caches);
                        assert forall|j: int| 0 <= j < before.caches.len() implies extends(
                            state@.caches[j],
                            #[trigger] before.caches[j],
                        ) by {
                            let cache = before.caches[j];
                            a_push_extends(cache, rows@[j]@.take(rank), rows@[j]@.skip(rank));
                            assert(cache.latent.take(cache.latent.len() as int) =~= cache.latent);
                            assert(cache.rope.take(cache.rope.len() as int) =~= cache.rope);
                            assert(now.caches[j] == with_rows(
                                before.caches,
                                rows@,
                                i as int,
                                rank,
                            )[j]);
                        }
                        a_failed_token_leaves_no_trace(before, state@);
                    }
                    let cause = error.message();
                    return Err(
                        self.fail_token(
                            state,
                            start,
                            RuntimeError::Attention(error),
                            cause.as_str(),
                        ),
                    );
                },
            }
            i = i + 1;
        }
        self.finish_token(state);
        Ok(())
    }
}

/// A token that a state of the model may take, and whose layers succeed, moves the state on by one
/// position, adds a row to every cache, and leaves it a state of the model. Only a token outside the
/// vocabulary or a full context is refused, in this order.
pub proof fn tokens_of_an_owned_state(
    model: RuntimeModel,
    state: StateView,
    token: u32,
    attention: MlaAttention,
    rows: Seq<Vec<u32>>,
)
    requires
        model.owns(state),
        caches_well_formed(state.caches),
        attention.geometry.kv_lora_rank == model.config.kv_lora_rank,
        attention.geometry.qk_rope_head_dim == model.config.qk_rope_head_dim,
        rows.len() == model.config.num_hidden_layers,
        forall|i: int|
            0 <= i < rows.len() ==> (#[trigger] rows[i])@.len() == attention.geometry.compressed(),
    ensures
        token_problem(model, state, token) == (if token >= model.config.vocab_size {
            Some(
                RuntimeProblem::TokenOutOfRange { token, vocabulary: model.config.vocab_size },
            )
        } else if state.position >= model.context_limit {
            Some(
                RuntimeProblem::ContextExhausted {
                    position: state.position,
                    limit: model.context_limit,
                },
            )
        } else {
            None
        }),
        layer_refusal(attention, state.caches, state.position, 0) is None,
        ({
            let rank = model.config.kv_lora_rank as int;
            let caches = with_rows(state.caches, rows, state.caches.len() as int, rank);
            &&& cached_elements(caches) == cached_elements(state.caches) + rows.len()
                * attention.geometry.compressed()
            &&& state.position < model.context_limit ==> model.owns(
                (StateView { position: (state.position + 1) as usize, caches, ..state }),
            )
        }),
{
    let rank = model.config.kv_lora_rank as int;
    let width = model.config.qk_rope_head_dim as int;
    lemma_no_layer_refusal(attention, state.caches, state.position, 0);
    lemma_rows_add(state.caches, rows, rank, width);
    let caches = with_rows(state.caches, rows, state.caches.len() as int, rank);
    assert forall|i: int| 0 <= i < caches.len() implies (#[trigger] caches[i]).tokens()
        == state.position + 1 && caches[i].kv_lora_rank == rank && caches[i].rope_dim == width by {
        assert(state.caches[i].well_formed());
        assert(rows[i]@.len() == rank + width);
        attention::a_push_adds_one_token(
            state.caches[i],
            rows[i]@.take(rank),
            rows[i]@.skip(rank),
            state.caches[i].tokens(),
        );
    }
}

proof fn lemma_no_short_cache(state: StateView, position: usize, from: int)
    requires
        0 <= from,
        forall|i: int|
            0 <= i < state.caches.len() ==> position <= (#[trigger] state.caches[i]).tokens(),
    ensures
        state.short_cache(position, from) is None,
    decreases state.caches.len() - from,
{
    if from < state.caches.len() {
        lemma_no_short_cache(state, position, from + 1);
    }
}

proof fn lemma_no_rollback_failure(state: StateView, start: usize, count: nat)
    requires
        count <= state.caches.len(),
        forall|i: int|
            0 <= i < state.caches.len() ==> start <= (#[trigger] state.caches[i]).tokens(),
    ensures
        state.rollback_failure(start, count) is None,
    decreases count,
{
    if count > 0 {
        lemma_no_rollback_failure(state, start, (count - 1) as nat);
    }
}

/// A token that fails after it has reached any of the layers leaves no trace but its experts:
/// undoing it gives back the caches and the position, and does not fail itself.
pub proof fn a_failed_token_leaves_no_trace(before: StateView, during: StateView)
    requires
        before.in_step(),
        caches_well_formed(before.caches),
        caches_well_formed(during.caches),
        during.instance_id == before.instance_id,
        during.caches.len() == before.caches.len(),
        forall|i: int|
            0 <= i < before.caches.len() ==> extends(during.caches[i], #[trigger] before.caches[i]),
    ensures
        during.rolled_back(before.position) == (StateView { experts: during.experts, ..before }),
        during.rollback_failure(before.position, during.caches.len()) is None,
{
    assert forall|i: int| 0 <= i < before.caches.len() implies (
    #[trigger] before.caches[i]).tokens() == before.position && extends(
        during.caches[i],
        before.caches[i],
    ) by {}
    lemma_cut_goes_back(before.caches, during.caches, before.position as int);
    lemma_no_rollback_failure(during, before.position, during.caches.len());
}

/// A state that is taken back to a checkpoint holds what it held there, whatever tokens came since;
/// only the experts that are resident may differ.
pub proof fn restoring_undoes_later_tokens(before: StateView, after: StateView)
    requires
        before.in_step(),
        caches_well_formed(before.caches),
        caches_well_formed(after.caches),
        after.instance_id == before.instance_id,
        after.caches.len() == before.caches.len(),
        forall|i: int|
            0 <= i < before.caches.len() ==> extends(after.caches[i], #[trigger] before.caches[i]),
    ensures
        after.short_cache(before.position, 0) is None,
        after.restored(before.position) == (StateView { experts: after.experts, ..before }),
{
    assert forall|i: int| 0 <= i < before.caches.len() implies (
    #[trigger] before.caches[i]).tokens() == before.position && extends(
        after.caches[i],
        before.caches[i],
    ) by {}
    lemma_cut_goes_back(before.caches, after.caches, before.position as int);
    lemma_no_short_cache(after, before.position, 0);
}

/// A loaded model finds every routed expert of its sparse layers within its limit.
pub proof fn a_loaded_model_finds_its_experts(model: RuntimeModel, layer: usize, expert: usize)
    requires
        model.well_formed(),
        layer < model.config.num_hidden_layers,
        model.config.sparse(layer as nat),
        expert < model.config.n_routed_experts,
    ensures
        experts::measure(
            (*model.index)@,
            layer,
            expert,
            model.config.hidden_size,
            model.config.moe_intermediate_size,
            model.maximum_expert_bytes,
        ) is Ok,
{
    manifest::every_expert_can_be_fetched(
        model.config,
        (*model.index)@,
        layer,
        expert,
        model.maximum_expert_bytes,
    );
}

/// A cache takes four bytes for every value of the compressed and the rotary row of every token in every
/// layer.
pub proof fn caches_take_their_rows(config: GlmConfig, context: usize)
    ensures
        cache_values(config, context) * 4 == 4 * (config.num_hidden_layers * (context * (
        config.kv_lora_rank + config.qk_rope_head_dim))),
        cache_problem(config, context) is None ==> cache_values(config, context) <= usize::MAX
            && cache_values(config, context) * 4 <= u64::MAX,
{
    let width = config.kv_lora_rank + config.qk_rope_head_dim;
    let layers = config.num_hidden_layers as int;
    let tokens = context as int;
    assert(width * layers * tokens == layers * (tokens * width)) by (nonlinear_arith);
}

/// A context is exact up to the number of positions that the indexer would select, where it has one, and
/// up to the last position otherwise.
pub proof fn contexts_are_exact_up_to_the_selection(config: GlmConfig, context: usize)
    ensures
        context <= context_ceiling(config) <==> context <= config.max_position_embeddings && (
        config.index_topk > 0 ==> context <= config.index_topk),
{
}

/// A request is taken exactly where it asks for a context that is exact, for no more slots than experts,
/// of a checkpoint without indexer weights.
pub proof fn sound_requests_are_taken(
    config: GlmConfig,
    names: Seq<Seq<char>>,
    context_limit: usize,
    slots: usize,
)
    ensures
        request_problem(config, names, context_limit, slots) is None <==> {
            &&& 0 < context_limit <= context_ceiling(config)
            &&& slots <= config.n_routed_experts
            &&& forall|i: int| 0 <= i < names.len() ==> !indexer_tensor(#[trigger] names[i])
        },
{
}

/// The weights of an indexer are those whose name holds one of its two parts.
pub proof fn indexer_weights_are_known_by_name(front: Seq<char>, back: Seq<char>)
    ensures
        indexer_tensor(front + ".self_attn.indexer."@ + back),
        indexer_tensor(front + ".self_attn.indexers_proj"@ + back),
{
    let one = front + ".self_attn.indexer."@ + back;
    let other = front + ".self_attn.indexers_proj"@ + back;
    let at = front.len() as int;
    assert(text::stands_at(one, ".self_attn.indexer."@, at)) by {
        assert(one.subrange(at, at + ".self_attn.indexer."@.len()) =~= ".self_attn.indexer."@);
    }
    assert(text::stands_at(other, ".self_attn.indexers_proj"@, at)) by {
        assert(other.subrange(at, at + ".self_attn.indexers_proj"@.len())
            =~= ".self_attn.indexers_proj"@);
    }
    text::the_first_place_is_found(one, ".self_attn.indexer."@, 0, at);
    text::the_first_place_is_found(other, ".self_attn.indexers_proj"@, 0, at);
}

/// What a model needs is what its manifest holds: its core is resident, the cached experts take their
/// slots in every layer or at least the largest expert, and the cache is that of the context.
pub proof fn needs_follow_from_the_manifest(
    config: GlmConfig,
    index: storage::IndexView,
    context_limit: usize,
    slots: usize,
)
    ensures
        ({
            let account = manifest::account(index, manifest::core_needs(config));
            let needed = requirements(config, index, context_limit, slots);
            let persistent = account->Ok_0.expert_slot_bytes_all_layers * slots;
            let largest = account->Ok_0.maximum_expert_bytes;
            &&& needed is Ok <==> {
                &&& config.refusal() is None
                &&& request_problem(config, index.names, context_limit, slots) is None
                &&& account is Ok
                &&& persistent <= u64::MAX
                &&& cache_problem(config, context_limit) is None
            }
            &&& needed matches Ok(needs) ==> {
                &&& needs.resident_bytes == account->Ok_0.resident_bytes
                &&& needs.maximum_expert_bytes == largest && needs.transient_expert_bytes == largest
                &&& needs.expert_cache_bytes >= persistent && needs.expert_cache_bytes >= largest
                &&& needs.expert_cache_bytes == persistent || needs.expert_cache_bytes == largest
                &&& needs.kv_cache_bytes == 4 * cache_values(config, context_limit)
                &&& needs.context_limit == context_limit && needs.expert_slots_per_layer == slots
                &&& needs.exact_context_ceiling == context_ceiling(config)
            }
        }),
{
    let account = manifest::account(index, manifest::core_needs(config));
    let slot = account->Ok_0.expert_slot_bytes_all_layers;
    assert(slot * slots >= 0) by (nonlinear_arith);
    let width = config.kv_lora_rank + config.qk_rope_head_dim;
    let layers = config.num_hidden_layers as int;
    let tokens = context_limit as int;
    assert(width * layers * tokens >= 0) by (nonlinear_arith)
        requires
            width >= 0,
            layers >= 0,
            tokens >= 0,
    ;
}

/// A model is admitted exactly where it has its budgets and each of its needs is within them.
pub proof fn needs_within_their_budgets_are_admitted(
    config: GlmConfig,
    index: storage::IndexView,
    options: RuntimeLoadOptions,
)
    ensures
        admission_problem(config, index, options) is None <==> {
            let needs = requirements(
                config,
                index,
                options.context_limit,
                options.expert_slots_per_layer,
            );
            &&& !options.lacks_a_budget()
            &&& needs is Ok
            &&& needs->Ok_0.resident_bytes <= options.resident_budget_bytes
            &&& needs->Ok_0.maximum_expert_bytes <= options.maximum_expert_bytes
            &&& needs->Ok_0.expert_cache_bytes <= options.expert_cache_budget_bytes
            &&& needs->Ok_0.kv_cache_bytes <= options.kv_cache_budget_bytes
        },
{
}

/// A token is taken exactly where the state is the model's own, all caches are at its position, the
/// vocabulary holds the token and the context has a place left.
pub proof fn sound_tokens_are_taken(model: RuntimeModel, state: StateView, token: u32)
    ensures
        token_problem(model, state, token) is None <==> {
            &&& state.instance_id == model.instance_id
            &&& state.caches.len() == model.config.num_hidden_layers
            &&& forall|i: int|
                0 <= i < state.caches.len() ==> (#[trigger] state.caches[i]).tokens()
                    == state.position
            &&& token < model.config.vocab_size
            &&& state.position < model.context_limit
        },
{
}

/// The attention of every layer has the dimensions of the configuration and the fixed epsilon of its
/// latent norms.
pub proof fn layers_have_the_configured_geometry(config: GlmConfig, rope_theta: Float32)
    ensures
        ({
            let geometry = layer_geometry(config, rope_theta);
            &&& geometry.hidden_size == config.hidden_size
            &&& geometry.num_heads == config.num_attention_heads
            &&& Some(geometry.q_lora_rank) == config.q_lora_rank || config.q_lora_rank is None
            &&& geometry.kv_lora_rank == config.kv_lora_rank
            &&& geometry.qk_nope_head_dim == config.qk_nope_head_dim
            &&& geometry.qk_rope_head_dim == config.qk_rope_head_dim
            &&& geometry.v_head_dim == config.v_head_dim
            &&& geometry.latent_norm_eps.bits == 0x3586_37bd
            &&& geometry.rope_theta == rope_theta
        }),
{
}

/// A computed token adds to every layer's cache the front of its row as the compressed part and the rest
/// as the rotary part.
pub proof fn rows_are_split_at_the_rank(
    caches: Seq<attention::CacheView>,
    rows: Seq<Vec<u32>>,
    count: int,
    rank: int,
    i: int,
    column: int,
)
    requires
        0 <= i < caches.len(),
        i < rows.len(),
        0 <= rank <= rows[i]@.len(),
        0 <= column < rows[i]@.len(),
    ensures
        ({
            let before = caches[i];
            let after = with_rows(caches, rows, count, rank)[i];
            &&& i >= count ==> after == before
            &&& i < count && column < rank ==> after.latent[before.latent.len() + column]
                == rows[i]@[column]
            &&& i < count && column >= rank ==> after.rope[before.rope.len() + column - rank]
                == rows[i]@[column]
            &&& i < count ==> after.latent.len() == before.latent.len() + rank && after.rope.len()
                == before.rope.len() + rows[i]@.len() - rank
        }),
{
}

/// The values that are cached are those of all caches.
pub proof fn cached_values_add_up(caches: Seq<attention::CacheView>, cache: attention::CacheView)
    ensures
        cached_elements(Seq::empty()) == 0,
        cached_elements(caches.push(cache)) == cached_elements(caches) + cache.latent.len()
            + cache.rope.len(),
{
    assert(caches.push(cache).drop_last() =~= caches);
}

/// Cutting caches back leaves the front of those that are longer and all of the others.
pub proof fn caches_are_cut_to_their_front(
    caches: Seq<attention::CacheView>,
    tokens: int,
    i: int,
)
    requires
        0 <= i < caches.len(),
        0 <= tokens,
    ensures
        cut(caches, tokens).len() == caches.len(),
        tokens > caches[i].tokens() ==> cut(caches, tokens)[i] == caches[i],
        tokens <= caches[i].tokens() ==> cut(caches, tokens)[i].latent == caches[i].latent.take(
            tokens * caches[i].kv_lora_rank,
        ) && cut(caches, tokens)[i].rope == caches[i].rope.take(tokens * caches[i].rope_dim),
{
}

/// A fresh state is at the first position, with an empty cache of the configured widths for every layer
/// and no expert resident.
pub proof fn fresh_states_are_empty(model: RuntimeModel, layer: int)
    requires
        0 <= layer < model.config.num_hidden_layers,
    ensures
        ({
            let fresh = model.fresh_state();
            &&& fresh.instance_id == model.instance_id && fresh.position == 0
            &&& fresh.caches.len() == model.config.num_hidden_layers
            &&& fresh.caches[layer].kv_lora_rank == model.config.kv_lora_rank
            &&& fresh.caches[layer].rope_dim == model.config.qk_rope_head_dim
            &&& fresh.caches[layer].latent.len() == 0 && fresh.caches[layer].rope.len() == 0
            &&& fresh.experts.caches.len() == model.config.num_hidden_layers
            &&& fresh.experts.caches[layer].len() == 0
            &&& fresh.experts.slots == model.expert_slots_per_layer
            &&& fresh.experts.experts == model.config.n_routed_experts
            &&& fresh.experts.hidden == model.config.hidden_size
            &&& fresh.experts.intermediate == model.config.moe_intermediate_size
            &&& fresh.experts.maximum == model.maximum_expert_bytes
            &&& fresh.experts.clock == 0
        }),
{
}

/// A state is not restored past the first cache that is too short: the caches before it are cut back,
/// it and those behind it stay as they are, and so does the position. Where none is too short all are
/// cut back and the position is taken.
pub proof fn a_short_cache_stops_the_restore(state: StateView, position: usize, i: int)
    requires
        0 <= i < state.caches.len(),
    ensures
        ({
            let after = state.restored(position);
            let short = state.short_cache(position, 0);
            &&& short is None ==> after.position == position && position <= state.caches[i].tokens()
                && after.caches[i] == state.caches[i].truncated(position as int)
            &&& short matches Some(at) ==> {
                &&& 0 <= at < state.caches.len() && position > state.caches[at].tokens()
                &&& after.position == state.position
                &&& i < at ==> position <= state.caches[i].tokens() && after.caches[i]
                    == state.caches[i].truncated(position as int)
                &&& i >= at ==> after.caches[i] == state.caches[i]
            }
            &&& after.caches.len() == state.caches.len()
        }),
{
    lemma_short_cache(state, position, 0, i);
}

proof fn lemma_short_cache(state: StateView, position: usize, from: int, i: int)
    requires
        0 <= from <= state.caches.len(),
        0 <= i < state.caches.len(),
    ensures
        state.short_cache(position, from) is None && from <= i ==> position
            <= state.caches[i].tokens(),
        state.short_cache(position, from) matches Some(at) ==> from <= at < state.caches.len()
            && position > state.caches[at].tokens() && (from <= i < at ==> position
            <= state.caches[i].tokens()),
    decreases state.caches.len() - from,
{
    if from < state.caches.len() && position <= state.caches[from].tokens() {
        lemma_short_cache(state, position, from + 1, i);
    }
}

/// Rolling back fails exactly where some cache is shorter than where the token began.
pub proof fn rollback_fails_on_a_short_cache(state: StateView, start: usize, count: nat)
    requires
        count <= state.caches.len(),
    ensures
        state.rollback_failure(start, count) is None <==> forall|i: int|
            0 <= i < count ==> start <= (#[trigger] state.caches[i]).tokens(),
    decreases count,
{
    if count > 0 {
        rollback_fails_on_a_short_cache(state, start, (count - 1) as nat);
        if start > state.caches[count - 1].tokens() {
            assert(state.rollback_failure(start, count) is Some);
        }
    }
}

} // verus!
