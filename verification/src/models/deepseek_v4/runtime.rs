//! What the DeepSeek-V4 runtime decides around its arithmetic: what it admits, which state a
//! token changes, which layers it fetches ahead, which cache entries it attends to.

use super::attention::{AttentionState, AttentionStateCheckpoint};
use super::compressor::CompressorError;
use super::config::DeepseekV4Config;
use super::experts::DeepExpertStore;
use super::math::DeepseekMathError;
use super::schema::{inspect_requirements, DeepseekV4Requirements, SchemaError};
use super::{attention, compressor, experts, math, schema};
use crate::config::ConfigError;
use crate::residency::ExpertTelemetry;
use crate::runtime::RuntimeLoadOptions;
use crate::storage::{DType, StorageError, TensorIndex};
use crate::text::{join, push_decimal};
use crate::{accounting, residency, storage, text};
use vstd::prelude::*;
use vstd::string::*;

verus! {

/// How many tokens share one window of expert routes.
pub const PREFILL_ROUTE_WINDOW: usize = 24;

#[derive(Debug)]
pub enum DeepseekRuntimeError {
    Config(ConfigError),
    Storage(StorageError),
    DeepseekMath(DeepseekMathError),
    Compressor(CompressorError),
    Schema(SchemaError),
    Invalid(String),
    Budget { component: &'static str, required: u64, maximum: u64 },
    TokenOutOfRange { token: u32, vocabulary: usize },
    ContextExhausted { position: usize, limit: usize },
}

/// The same error, over plain values.
pub enum RuntimeProblem {
    Config(Seq<char>),
    Storage(storage::StorageProblem),
    DeepseekMath(math::MathProblem),
    Compressor(Seq<char>),
    Schema(schema::SchemaProblem),
    Invalid(Seq<char>),
    Budget { component: Seq<char>, required: u64, maximum: u64 },
    TokenOutOfRange { token: u32, vocabulary: usize },
    ContextExhausted { position: usize, limit: usize },
}

impl View for DeepseekRuntimeError {
    type V = RuntimeProblem;

    open spec fn view(&self) -> RuntimeProblem {
        match *self {
            DeepseekRuntimeError::Config(error) => RuntimeProblem::Config(error.reason()),
            DeepseekRuntimeError::Storage(error) => RuntimeProblem::Storage(error@),
            DeepseekRuntimeError::DeepseekMath(error) => RuntimeProblem::DeepseekMath(error@),
            DeepseekRuntimeError::Compressor(error) => RuntimeProblem::Compressor(error.reason()),
            DeepseekRuntimeError::Schema(error) => RuntimeProblem::Schema(error@),
            DeepseekRuntimeError::Invalid(reason) => RuntimeProblem::Invalid(reason@),
            DeepseekRuntimeError::Budget { component, required, maximum } =>
                RuntimeProblem::Budget { component: component@, required, maximum },
            DeepseekRuntimeError::TokenOutOfRange { token, vocabulary } =>
                RuntimeProblem::TokenOutOfRange { token, vocabulary },
            DeepseekRuntimeError::ContextExhausted { position, limit } =>
                RuntimeProblem::ContextExhausted { position, limit },
        }
    }
}

/// What a result refuses, if anything.
pub open spec fn problem<T>(result: Result<T, DeepseekRuntimeError>) -> Option<RuntimeProblem> {
    match result {
        Ok(_) => None,
        Err(error) => Some(error@),
    }
}

pub open spec fn invalid_if(broken: bool, reason: Seq<char>) -> Option<RuntimeProblem> {
    if broken {
        Some(RuntimeProblem::Invalid(reason))
    } else {
        None
    }
}

/// Refuses with this reason.
pub fn invalid<T>(reason: &str) -> (result: Result<T, DeepseekRuntimeError>)
    ensures
        problem(result) == Some(RuntimeProblem::Invalid(reason@)),
{
    Err(DeepseekRuntimeError::Invalid(reason.to_owned()))
}

impl DeepseekRuntimeError {
    /// What the error says. What the storage refuses has no words of its own here.
    pub open spec fn text(self) -> Option<Seq<char>> {
        match self {
            DeepseekRuntimeError::Config(error) => Some(error.reason()),
            DeepseekRuntimeError::Storage(_) => None,
            DeepseekRuntimeError::DeepseekMath(error) => Some(error.text()),
            DeepseekRuntimeError::Compressor(error) => Some(error.text()),
            DeepseekRuntimeError::Schema(error) => error.text(),
            DeepseekRuntimeError::Invalid(reason) => Some(
                "invalid DeepSeek-V4 runtime: "@ + reason@,
            ),
            DeepseekRuntimeError::Budget { component, required, maximum } => Some(
                "DeepSeek-V4 "@ + component@ + " needs "@ + text::decimal(required as nat)
                    + " bytes, authorized maximum is "@ + text::decimal(maximum as nat),
            ),
            DeepseekRuntimeError::TokenOutOfRange { token, vocabulary } => Some(
                "token ID "@ + text::decimal(token as nat) + " is outside vocabulary 0.."@
                    + text::decimal(vocabulary as nat),
            ),
            DeepseekRuntimeError::ContextExhausted { position, limit } => Some(
                "runtime position "@ + text::decimal(position as nat)
                    + " reaches context limit "@ + text::decimal(limit as nat),
            ),
        }
    }

    pub fn message(&self) -> (message: Option<String>)
        ensures
            match message {
                Some(text) => self.text() == Some(text@),
                None => self.text() is None,
            },
    {
        match self {
            DeepseekRuntimeError::Config(error) => Some(error.message()),
            DeepseekRuntimeError::Storage(_) => None,
            DeepseekRuntimeError::DeepseekMath(error) => Some(error.message()),
            DeepseekRuntimeError::Compressor(error) => Some(error.message()),
            DeepseekRuntimeError::Schema(error) => error.message(),
            DeepseekRuntimeError::Invalid(reason) => Some(
                join("invalid DeepSeek-V4 runtime: ", reason.as_str()),
            ),
            DeepseekRuntimeError::Budget { component, required, maximum } => {
                let mut text = join("DeepSeek-V4 ", component);
                text.append(" needs ");
                push_decimal(&mut text, *required);
                text.append(" bytes, authorized maximum is ");
                push_decimal(&mut text, *maximum);
                Some(text)
            },
            DeepseekRuntimeError::TokenOutOfRange { token, vocabulary } => {
                let mut text = "token ID ".to_owned();
                push_decimal(&mut text, *token as u64);
                text.append(" is outside vocabulary 0..");
                push_decimal(&mut text, *vocabulary as u64);
                Some(text)
            },
            DeepseekRuntimeError::ContextExhausted { position, limit } => {
                let mut text = "runtime position ".to_owned();
                push_decimal(&mut text, *position as u64);
                text.append(" reaches context limit ");
                push_decimal(&mut text, *limit as u64);
                Some(text)
            },
        }
    }
}

/// How the vocabulary projection is read.
#[derive(Debug, Clone, Copy, PartialEq, Eq, Structural)]
pub enum HeadLoad {
    /// Row by row from the checkpoint, for every token.
    Streamed,
    /// Once, kept as 16-bit values.
    CompactBf16,
    /// Once, in its own format.
    Resident,
}

/// What a runtime keeps resident.
#[derive(Debug, Clone, Copy, PartialEq, Eq, Structural)]
pub struct LoadPlan {
    pub cached_decoder_layers: usize,
    pub decoder_layer_prefetch_depth: usize,
    pub head: HeadLoad,
}

pub open spec fn over_budget(component: Seq<char>, required: u64, maximum: u64) -> Option<
    RuntimeProblem,
> {
    if required > maximum {
        Some(RuntimeProblem::Budget { component, required, maximum })
    } else {
        None
    }
}

fn check_budget(component: &'static str, required: u64, maximum: u64) -> (result: Result<
    (),
    DeepseekRuntimeError,
>)
    ensures
        problem(result) == over_budget(component@, required, maximum),
{
    if required > maximum {
        Err(DeepseekRuntimeError::Budget { component, required, maximum })
    } else {
        Ok(())
    }
}

pub open spec fn surplus_message(count: usize) -> Seq<char> {
    "checkpoint has "@ + text::decimal(count as nat)
        + " tensors outside the strict release schema"@
}

/// Why a checkpoint with these needs is not loaded under these options: the first budget that it
/// exceeds, or tensors that it should not have.
pub open spec fn admission_problem(
    requirements: DeepseekV4Requirements,
    options: RuntimeLoadOptions,
) -> Option<RuntimeProblem> {
    let resident = over_budget(
        "resident layer pipeline"@,
        requirements.resident_bytes,
        options.resident_budget_bytes,
    );
    let cache = over_budget(
        "KV/state cache"@,
        requirements.kv_cache_bytes,
        options.kv_cache_budget_bytes,
    );
    let expert = over_budget(
        "largest routed expert"@,
        requirements.maximum_expert_bytes,
        options.maximum_expert_bytes,
    );
    let experts = over_budget(
        "expert working set"@,
        requirements.expert_cache_bytes,
        options.expert_cache_budget_bytes,
    );
    if resident is Some {
        resident
    } else if cache is Some {
        cache
    } else if expert is Some {
        expert
    } else if experts is Some {
        experts
    } else {
        invalid_if(
            requirements.unexpected_tensor_count != 0,
            surplus_message(requirements.unexpected_tensor_count),
        )
    }
}

/// Refuses a checkpoint that exceeds a budget or holds tensors outside the schema.
pub fn check_needs(requirements: &DeepseekV4Requirements, options: &RuntimeLoadOptions) -> (result:
    Result<(), DeepseekRuntimeError>)
    ensures
        problem(result) == admission_problem(*requirements, *options),
{
    check_budget(
        "resident layer pipeline",
        requirements.resident_bytes,
        options.resident_budget_bytes,
    )?;
    check_budget("KV/state cache", requirements.kv_cache_bytes, options.kv_cache_budget_bytes)?;
    check_budget(
        "largest routed expert",
        requirements.maximum_expert_bytes,
        options.maximum_expert_bytes,
    )?;
    check_budget(
        "expert working set",
        requirements.expert_cache_bytes,
        options.expert_cache_budget_bytes,
    )?;
    if requirements.unexpected_tensor_count != 0 {
        let mut reason = "checkpoint has ".to_owned();
        push_decimal(&mut reason, requirements.unexpected_tensor_count as u64);
        reason.append(" tensors outside the strict release schema");
        return Err(DeepseekRuntimeError::Invalid(reason));
    }
    Ok(())
}

/// How the vocabulary projection is read once the checkpoint is admitted.
pub open spec fn head_load(
    requirements: DeepseekV4Requirements,
    index: storage::IndexView,
    resident_budget: u64,
) -> Result<HeadLoad, RuntimeProblem> {
    if !requirements.caches_lm_head(resident_budget) {
        Ok(HeadLoad::Streamed)
    } else {
        match index.require("head.weight"@) {
            Err(error) => Err(RuntimeProblem::Storage(error)),
            Ok(tensor) => Ok(
                if tensor.dtype == DType::Bf16 {
                    HeadLoad::CompactBf16
                } else {
                    HeadLoad::Resident
                },
            ),
        }
    }
}

/// What loading a checkpoint under these options comes to.
pub open spec fn load_plan(
    config: DeepseekV4Config,
    index: storage::IndexView,
    options: RuntimeLoadOptions,
) -> Result<LoadPlan, RuntimeProblem> {
    if options.lacks_a_budget() {
        Err(
            RuntimeProblem::Invalid(
                "resident/KV/per-expert budgets and context limit must be non-zero"@,
            ),
        )
    } else {
        match config.refusal() {
            Some(reason) => Err(RuntimeProblem::Config(reason)),
            None => match schema::requirements(
                config,
                index,
                options.context_limit,
                options.expert_slots_per_layer,
            ) {
                Err(error) => Err(RuntimeProblem::Schema(error)),
                Ok(requirements) => match admission_problem(requirements, options) {
                    Some(error) => Err(error),
                    None => match head_load(requirements, index, options.resident_budget_bytes) {
                        Err(error) => Err(error),
                        Ok(head) => {
                            let capacity = requirements.cached_layers(
                                options.resident_budget_bytes,
                            );
                            let split = schema::pipeline(
                                capacity as usize,
                                requirements.decoder_layer_count,
                            );
                            Ok(
                                LoadPlan {
                                    cached_decoder_layers: split.0,
                                    decoder_layer_prefetch_depth: split.1,
                                    head,
                                },
                            )
                        },
                    },
                },
            },
        }
    }
}

fn plan_head(
    requirements: &DeepseekV4Requirements,
    index: &TensorIndex,
    resident_budget: u64,
) -> (result: Result<HeadLoad, DeepseekRuntimeError>)
    ensures
        match result {
            Ok(head) => head_load(*requirements, index@, resident_budget) == Ok::<
                HeadLoad,
                RuntimeProblem,
            >(head),
            Err(error) => head_load(*requirements, index@, resident_budget) == Err::<
                HeadLoad,
                RuntimeProblem,
            >(error@),
        },
{
    if !requirements.caches_lm_head_for_resident_budget(resident_budget) {
        return Ok(HeadLoad::Streamed);
    }
    match index.require("head.weight") {
        Err(error) => Err(DeepseekRuntimeError::Storage(error)),
        Ok(tensor) => {
            if tensor.dtype == DType::Bf16 {
                Ok(HeadLoad::CompactBf16)
            } else {
                Ok(HeadLoad::Resident)
            }
        },
    }
}

/// Decides whether a checkpoint is loaded under these options, and what then stays resident.
pub fn plan_load(
    config: &DeepseekV4Config,
    index: &TensorIndex,
    options: &RuntimeLoadOptions,
) -> (result: Result<LoadPlan, DeepseekRuntimeError>)
    requires
        config.open_dimensions_fit(),
    ensures
        match result {
            Ok(plan) => load_plan(*config, index@, *options) == Ok::<LoadPlan, RuntimeProblem>(
                plan,
            ),
            Err(error) => load_plan(*config, index@, *options) == Err::<LoadPlan, RuntimeProblem>(
                error@,
            ),
        },
{
    if options.is_empty() {
        return invalid("resident/KV/per-expert budgets and context limit must be non-zero");
    }
    match config.validate() {
        Ok(_) => {},
        Err(error) => {
            return Err(DeepseekRuntimeError::Config(error));
        },
    }
    proof {
        schema::accepted_config_fits(*config, options.context_limit);
    }
    let requirements = match inspect_requirements(
        config,
        index,
        options.context_limit,
        options.expert_slots_per_layer,
    ) {
        Ok(found) => found,
        Err(error) => {
            return Err(DeepseekRuntimeError::Schema(error));
        },
    };
    check_needs(&requirements, options)?;
    let (cached, depth) = requirements.decoder_layer_pipeline_for_resident_budget(
        options.resident_budget_bytes,
    );
    let head = plan_head(&requirements, index, options.resident_budget_bytes)?;
    Ok(LoadPlan { cached_decoder_layers: cached, decoder_layer_prefetch_depth: depth, head })
}

/// A plan never caches a layer of a checkpoint whose needs exceed a budget: what is planned fits
/// all four budgets, and looks ahead by one to four layers.
pub proof fn planned_loads_fit_their_budgets(
    config: DeepseekV4Config,
    index: storage::IndexView,
    options: RuntimeLoadOptions,
)
    requires
        load_plan(config, index, options) is Ok,
    ensures
        ({
            let needs = schema::requirements(
                config,
                index,
                options.context_limit,
                options.expert_slots_per_layer,
            )->Ok_0;
            let plan = load_plan(config, index, options)->Ok_0;
            &&& needs.resident_bytes <= options.resident_budget_bytes
            &&& needs.kv_cache_bytes <= options.kv_cache_budget_bytes
            &&& needs.maximum_expert_bytes <= options.maximum_expert_bytes
            &&& needs.expert_cache_bytes <= options.expert_cache_budget_bytes
            &&& needs.unexpected_tensor_count == 0
            &&& 1 <= plan.decoder_layer_prefetch_depth <= 4
        }),
{
    let needs = schema::requirements(
        config,
        index,
        options.context_limit,
        options.expert_slots_per_layer,
    )->Ok_0;
    schema::pipeline_keeps_residency(
        needs.cached_layers(options.resident_budget_bytes) as usize,
        needs.decoder_layer_count,
    );
}

/// The trace id of a layer at a position: both in 32 bits, cut off at the largest value.
pub open spec fn flow_id(position: usize, layer: usize) -> u64 {
    let high = accounting::smaller(position as int, u32::MAX as int);
    let low = accounting::smaller(layer as int, u32::MAX as int);
    (high * 0x1_0000_0000 + low) as u64
}

pub fn layer_flow_id(position: usize, layer: usize) -> (id: u64)
    ensures
        id == flow_id(position, layer),
{
    let limit: u64 = 0xffff_ffff;
    let wide: u64 = position as u64;
    let high: u64 = if wide < limit {
        wide
    } else {
        limit
    };
    let deep: u64 = layer as u64;
    let low: u64 = if deep < limit {
        deep
    } else {
        limit
    };
    assert((high << 32) | low == high * 0x1_0000_0000 + low) by (bit_vector)
        requires
            high <= 0xffff_ffff,
            low <= 0xffff_ffff,
    ;
    (high << 32) | low
}

/// Layers at positions that 32 bits hold have different trace ids.
pub proof fn flow_ids_differ(
    position: usize,
    layer: usize,
    other_position: usize,
    other_layer: usize,
)
    requires
        position <= u32::MAX,
        layer <= u32::MAX,
        other_position <= u32::MAX,
        other_layer <= u32::MAX,
        flow_id(position, layer) == flow_id(other_position, other_layer),
    ensures
        position == other_position,
        layer == other_layer,
{
}

/// A loaded model, as far as it decides anything: its configuration and its limits. The weights lie
/// with the caller.
#[derive(Debug)]
pub struct DeepseekRuntimeModel {
    instance_id: u64,
    config: DeepseekV4Config,
    context_limit: usize,
    expert_slots_per_layer: usize,
    maximum_expert_bytes: u64,
    plan: LoadPlan,
}

/// What a [`DeepseekRuntimeModel`] holds.
pub struct ModelView {
    pub instance_id: u64,
    pub config: DeepseekV4Config,
    pub context_limit: usize,
    pub expert_slots_per_layer: usize,
    pub maximum_expert_bytes: u64,
    pub plan: LoadPlan,
}

impl View for DeepseekRuntimeModel {
    type V = ModelView;

    closed spec fn view(&self) -> ModelView {
        ModelView {
            instance_id: self.instance_id,
            config: self.config,
            context_limit: self.context_limit,
            expert_slots_per_layer: self.expert_slots_per_layer,
            maximum_expert_bytes: self.maximum_expert_bytes,
            plan: self.plan,
        }
    }
}

impl ModelView {
    /// The configuration was accepted, and the limits fit it.
    pub open spec fn well_formed(self) -> bool {
        &&& self.config.refusal() is None
        &&& 0 < self.context_limit <= self.config.max_position_embeddings
        &&& self.expert_slots_per_layer <= self.config.n_routed_experts
        &&& self.maximum_expert_bytes > 0
    }

    /// The compression ratio of a layer.
    pub open spec fn ratio(self, layer: int) -> usize {
        match self.config.base_ratio(layer as nat) {
            Some(ratio) => ratio,
            None => 0,
        }
    }
}

/// The state of one generation.
#[derive(Debug)]
pub struct DeepseekRuntimeState {
    instance_id: u64,
    position: usize,
    pub attention: Vec<AttentionState>,
    pub experts: DeepExpertStore,
    /// The layers that are cached.
    pub cached_layers: Vec<bool>,
    /// The layers whose payload has been checked once; it is immutable, so later reads are not
    /// checked again.
    pub validated_layers: Vec<bool>,
}

pub open spec fn attention_views(states: Seq<AttentionState>) -> Seq<attention::AttentionView> {
    Seq::new(states.len(), |i: int| states[i]@)
}

/// What a [`DeepseekRuntimeState`] holds.
#[verifier::ext_equal]
pub struct StateView {
    pub instance_id: u64,
    pub position: usize,
    pub attention: Seq<attention::AttentionView>,
    pub experts: experts::StoreView,
    pub cached_layers: Seq<bool>,
    pub validated_layers: Seq<bool>,
}

impl View for DeepseekRuntimeState {
    type V = StateView;

    closed spec fn view(&self) -> StateView {
        StateView {
            instance_id: self.instance_id,
            position: self.position,
            attention: attention_views(self.attention@),
            experts: self.experts@,
            cached_layers: self.cached_layers@,
            validated_layers: self.validated_layers@,
        }
    }
}

impl StateView {
    /// The parts have their shape.
    pub open spec fn well_formed(self) -> bool {
        &&& forall|i: int|
            0 <= i < self.attention.len() ==> (#[trigger] self.attention[i]).well_formed()
        &&& self.experts.well_formed()
    }

    /// The state of a generation that has seen nothing.
    pub open spec fn fresh(model: ModelView) -> StateView {
        let layers = model.config.num_hidden_layers as nat;
        StateView {
            instance_id: model.instance_id,
            position: 0,
            attention: Seq::new(
                layers,
                |i: int| attention::AttentionView::fresh(model.config, model.ratio(i)),
            ),
            experts: experts::StoreView {
                n_routed_experts: model.config.n_routed_experts,
                hidden_size: model.config.hidden_size,
                maximum_bytes: model.maximum_expert_bytes,
                slots_per_layer: model.expert_slots_per_layer,
                cache: Seq::new(
                    layers,
                    |i: int|
                        residency::LayerView {
                            residents: Seq::empty(),
                            capacity: model.expert_slots_per_layer as nat,
                        },
                ),
                telemetry: residency::no_telemetry(),
            },
            cached_layers: Seq::new(layers, |i: int| false),
            validated_layers: Seq::new(layers, |i: int| false),
        }
    }

    /// The state whose attention layers have handed their next slot to a snapshot.
    pub open spec fn emptied(self) -> StateView {
        StateView {
            attention: Seq::new(self.attention.len(), |i: int| self.attention[i].emptied()),
            ..self
        }
    }

    pub open spec fn snapshots(self) -> Seq<attention::AttentionSnapshot> {
        Seq::new(self.attention.len(), |i: int| self.attention[i].snapshot())
    }

    /// The state with its attention given back from snapshots.
    pub open spec fn restored(self, snapshots: Seq<attention::AttentionSnapshot>) -> StateView {
        StateView {
            attention: Seq::new(
                self.attention.len(),
                |i: int| self.attention[i].restored(snapshots[i]),
            ),
            ..self
        }
    }
}

/// What a token starts with: where it stands, and what undoes it.
#[derive(Debug)]
pub struct TokenStart {
    pub token: usize,
    pub position: usize,
    pub checkpoints: Vec<AttentionStateCheckpoint>,
}

pub open spec fn checkpoint_views(checkpoints: Seq<AttentionStateCheckpoint>) -> Seq<
    attention::AttentionSnapshot,
> {
    Seq::new(checkpoints.len(), |i: int| checkpoints[i]@)
}

impl TokenStart {
    pub open spec fn snapshots(self) -> Seq<attention::AttentionSnapshot> {
        checkpoint_views(self.checkpoints@)
    }
}

/// What a prompt starts with: its tokens, where they stand, and what undoes them.
#[derive(Debug)]
pub struct PrefillStart {
    pub tokens: Vec<usize>,
    pub start: usize,
    pub end: usize,
    pub checkpoint: Vec<AttentionState>,
}

impl PrefillStart {
    pub open spec fn attention(self) -> Seq<attention::AttentionView> {
        attention_views(self.checkpoint@)
    }
}

/// Why a token is refused.
pub open spec fn token_problem(model: ModelView, state: StateView, token: u32) -> Option<
    RuntimeProblem,
> {
    if state.instance_id != model.instance_id {
        Some(RuntimeProblem::Invalid("state belongs to another runtime instance"@))
    } else if token >= model.config.vocab_size {
        Some(
            RuntimeProblem::TokenOutOfRange { token, vocabulary: model.config.vocab_size },
        )
    } else if state.position >= model.context_limit {
        Some(
            RuntimeProblem::ContextExhausted {
                position: state.position,
                limit: model.context_limit,
            },
        )
    } else {
        None
    }
}

/// The first token outside the vocabulary.
pub open spec fn stray_token(tokens: Seq<u32>, vocabulary: usize) -> Option<u32>
    decreases tokens.len(),
{
    if tokens.len() == 0 {
        None
    } else if stray_token(tokens.drop_last(), vocabulary) is Some {
        stray_token(tokens.drop_last(), vocabulary)
    } else if tokens.last() >= vocabulary {
        Some(tokens.last())
    } else {
        None
    }
}

/// Why a prompt is refused.
pub open spec fn prefill_problem(model: ModelView, state: StateView, tokens: Seq<u32>) -> Option<
    RuntimeProblem,
> {
    let end = state.position + tokens.len();
    if state.instance_id != model.instance_id {
        Some(RuntimeProblem::Invalid("state belongs to another runtime instance"@))
    } else if tokens.len() == 0 {
        Some(RuntimeProblem::Invalid("prefill requires at least one token"@))
    } else if stray_token(tokens, model.config.vocab_size) is Some {
        Some(
            RuntimeProblem::TokenOutOfRange {
                token: stray_token(tokens, model.config.vocab_size)->Some_0,
                vocabulary: model.config.vocab_size,
            },
        )
    } else if end > usize::MAX {
        Some(RuntimeProblem::Invalid("prefill position overflows"@))
    } else if end > model.context_limit {
        Some(
            RuntimeProblem::ContextExhausted {
                position: (end - 1) as usize,
                limit: model.context_limit,
            },
        )
    } else {
        None
    }
}

fn false_list(count: usize) -> (list: Vec<bool>)
    ensures
        list@ == Seq::new(count as nat, |i: int| false),
{
    let mut list: Vec<bool> = Vec::new();
    let mut index: usize = 0;
    while index < count
        invariant
            index <= count,
            list@ == Seq::new(index as nat, |i: int| false),
        decreases count - index,
    {
        list.push(false);
        index = index + 1;
        assert(list@ =~= Seq::new(index as nat, |i: int| false));
    }
    list
}

proof fn lemma_layer_state_fits(model: ModelView, layer: int)
    requires
        model.well_formed(),
        0 <= layer < model.config.num_hidden_layers,
    ensures
        model.config.sliding_window > 0,
        model.ratio(layer) == 0 || model.ratio(layer) == 4 || model.ratio(layer) == 128,
        2 * model.config.head_dim <= usize::MAX,
        2 * model.config.index_head_dim <= usize::MAX,
        attention::part_problem(
            model.ratio(layer) > 0,
            model.ratio(layer),
            model.config.head_dim,
        ) is None,
        attention::part_problem(
            model.ratio(layer) == 4,
            model.ratio(layer),
            model.config.index_head_dim,
        ) is None,
{
    let config = model.config;
    schema::lemma_ratio(config, 0, layer as nat);
    let ratio = model.ratio(layer);
    assert(ratio == config.compress_ratios@[layer]);
    assert(128 * config.head_dim <= 128 * 65536);
    assert(compressor::span_of(ratio) * compressor::width_of(ratio, config.head_dim) <= 128
        * 131072) by (nonlinear_arith)
        requires
            0 <= compressor::span_of(ratio) <= 128,
            0 <= compressor::width_of(ratio, config.head_dim) <= 131072,
    ;
    assert(compressor::span_of(ratio) * compressor::width_of(ratio, config.index_head_dim) <= 128
        * 131072) by (nonlinear_arith)
        requires
            0 <= compressor::span_of(ratio) <= 128,
            0 <= compressor::width_of(ratio, config.index_head_dim) <= 131072,
    ;
}

impl DeepseekRuntimeModel {
    /// Accounts for the memory that a checkpoint needs.
    pub fn inspect_requirements(
        config: &DeepseekV4Config,
        index: &TensorIndex,
        context_limit: usize,
        expert_slots_per_layer: usize,
    ) -> (result: Result<DeepseekV4Requirements, DeepseekRuntimeError>)
        requires
            config.open_dimensions_fit(),
        ensures
            match result {
                Ok(found) => config.refusal() is None && schema::requirements(
                    *config,
                    index@,
                    context_limit,
                    expert_slots_per_layer,
                ) == Ok::<DeepseekV4Requirements, schema::SchemaProblem>(found),
                Err(error) => match config.refusal() {
                    Some(reason) => error@ == RuntimeProblem::Config(reason),
                    None => exists|problem: schema::SchemaProblem|
                        error@ == RuntimeProblem::Schema(problem) && #[trigger] schema_refuses(
                            *config,
                            index@,
                            context_limit,
                            expert_slots_per_layer,
                            problem,
                        ),
                },
            },
    {
        match config.validate() {
            Ok(_) => {},
            Err(error) => {
                return Err(DeepseekRuntimeError::Config(error));
            },
        }
        proof {
            schema::accepted_config_fits(*config, context_limit);
        }
        match inspect_requirements(config, index, context_limit, expert_slots_per_layer) {
            Ok(found) => Ok(found),
            Err(error) => {
                assert(schema_refuses(
                    *config,
                    index@,
                    context_limit,
                    expert_slots_per_layer,
                    error@,
                ));
                Err(DeepseekRuntimeError::Schema(error))
            },
        }
    }

    /// Loads a model under budgets and limits. The instance id tells its states from those of
    /// other models.
    pub fn load(
        config: DeepseekV4Config,
        index: &TensorIndex,
        options: RuntimeLoadOptions,
        instance_id: u64,
    ) -> (result: Result<Self, DeepseekRuntimeError>)
        requires
            config.open_dimensions_fit(),
        ensures
            match result {
                Ok(model) => model@.well_formed() && load_plan(config, index@, options) == Ok::<
                    LoadPlan,
                    RuntimeProblem,
                >(model@.plan) && model@ == (ModelView {
                    instance_id,
                    config,
                    context_limit: options.context_limit,
                    expert_slots_per_layer: options.expert_slots_per_layer,
                    maximum_expert_bytes: options.maximum_expert_bytes,
                    plan: model@.plan,
                }),
                Err(error) => load_plan(config, index@, options) == Err::<
                    LoadPlan,
                    RuntimeProblem,
                >(error@),
            },
    {
        let plan = plan_load(&config, index, &options)?;
        Ok(
            DeepseekRuntimeModel {
                instance_id,
                config,
                context_limit: options.context_limit,
                expert_slots_per_layer: options.expert_slots_per_layer,
                maximum_expert_bytes: options.maximum_expert_bytes,
                plan,
            },
        )
    }

    pub fn config(&self) -> (config: &DeepseekV4Config)
        ensures
            *config == self@.config,
    {
        &self.config
    }

    pub fn plan(&self) -> (plan: LoadPlan)
        ensures
            plan == self@.plan,
    {
        self.plan
    }

    /// The state of a new generation.
    pub fn new_state(&self) -> (result: Result<DeepseekRuntimeState, DeepseekRuntimeError>)
        requires
            self@.well_formed(),
        ensures
            result is Ok,
            result->Ok_0@ == StateView::fresh(self@),
            result->Ok_0@.well_formed(),
    {
        let mut attention: Vec<AttentionState> = Vec::new();
        let mut layer: usize = 0;
        while layer < self.config.num_hidden_layers
            invariant
                self@.well_formed(),
                layer <= self.config.num_hidden_layers,
                attention@.len() == layer,
                forall|i: int|
                    0 <= i < layer ==> (#[trigger] attention@[i])@
                        == attention::AttentionView::fresh(self@.config, self@.ratio(i))
                        && attention@[i]@.well_formed(),
            decreases self.config.num_hidden_layers - layer,
        {
            let ratio: usize = match self.config.base_compress_ratio(layer) {
                Some(ratio) => ratio,
                None => 0,
            };
            proof {
                lemma_layer_state_fits(self@, layer as int);
            }
            let state = AttentionState::new(&self.config, ratio)?;
            attention.push(state);
            layer = layer + 1;
        }
        let experts = DeepExpertStore::new(
            &self.config,
            self.expert_slots_per_layer,
            self.maximum_expert_bytes,
        )?;
        let state = DeepseekRuntimeState {
            instance_id: self.instance_id,
            position: 0,
            attention,
            experts,
            cached_layers: false_list(self.config.num_hidden_layers),
            validated_layers: false_list(self.config.num_hidden_layers),
        };
        proof {
            assert(state@.attention =~= StateView::fresh(self@).attention);
            assert(state@.experts.cache =~= StateView::fresh(self@).experts.cache);
            assert(state@ =~= StateView::fresh(self@));
        }
        Ok(state)
    }

    /// Refuses a token, or takes what undoes it.
    pub fn begin_token(&self, token: u32, state: &mut DeepseekRuntimeState) -> (result: Result<
        TokenStart,
        DeepseekRuntimeError,
    >)
        requires
            old(state)@.well_formed(),
        ensures
            problem(result) == token_problem(self@, old(state)@, token),
            final(state)@.well_formed(),
            match result {
                Ok(start) => {
                    &&& start.token == token
                    &&& start.position == old(state)@.position
                    &&& start.snapshots() == old(state)@.snapshots()
                    &&& final(state)@ == old(state)@.emptied()
                },
                Err(_) => final(state)@ == old(state)@,
            },
    {
        if state.instance_id != self.instance_id {
            return invalid("state belongs to another runtime instance");
        }
        let index: usize = token as usize;
        if index >= self.config.vocab_size {
            return Err(
                DeepseekRuntimeError::TokenOutOfRange {
                    token,
                    vocabulary: self.config.vocab_size,
                },
            );
        }
        if state.position >= self.context_limit {
            return Err(
                DeepseekRuntimeError::ContextExhausted {
                    position: state.position,
                    limit: self.context_limit,
                },
            );
        }
        let ghost before = state@;
        let mut checkpoints: Vec<AttentionStateCheckpoint> = Vec::new();
        let mut layer: usize = 0;
        while layer < state.attention.len()
            invariant
                before.well_formed(),
                before == old(state)@,
                state@.instance_id == before.instance_id,
                state@.position == before.position,
                state@.experts == before.experts,
                state@.cached_layers == before.cached_layers,
                state@.validated_layers == before.validated_layers,
                state@.attention.len() == before.attention.len(),
                layer <= before.attention.len(),
                checkpoints@.len() == layer,
                forall|i: int|
                    0 <= i < layer ==> (#[trigger] checkpoints@[i])@
                        == before.attention[i].snapshot(),
                forall|i: int|
                    0 <= i < layer ==> #[trigger] state@.attention[i]
                        == before.attention[i].emptied() && state@.attention[i].well_formed(),
                forall|i: int|
                    layer <= i < before.attention.len() ==> #[trigger] state@.attention[i]
                        == before.attention[i],
            decreases before.attention.len() - layer,
        {
            let ghost states = state@.attention;
            assert(states[layer as int] == before.attention[layer as int]);
            assert(before.attention[layer as int].well_formed());
            let checkpoint = state.attention[layer].checkpoint_next_token();
            checkpoints.push(checkpoint);
            proof {
                assert forall|i: int| 0 <= i < before.attention.len() && i != layer implies
                    #[trigger] state@.attention[i] == states[i] by {}
            }
            layer = layer + 1;
        }
        let start = TokenStart { token: index, position: state.position, checkpoints };
        proof {
            assert(start.snapshots() =~= before.snapshots());
            assert(state@.attention =~= before.emptied().attention);
            assert(state@ =~= before.emptied());
        }
        Ok(start)
    }

    /// Ends a token: the position moves on, or, where it failed, its layers are given back.
    pub fn finish_token(&self, state: &mut DeepseekRuntimeState, start: TokenStart, succeeded: bool)
        requires
            old(state)@.position < usize::MAX,
            start.snapshots().len() == old(state)@.attention.len(),
            forall|i: int|
                0 <= i < old(state)@.attention.len() ==> (
                #[trigger] start.snapshots()[i]).local_slot < old(state)@.attention[i].local.len(),
        ensures
            final(state)@ == if succeeded {
                StateView { position: (old(state)@.position + 1) as usize, ..old(state)@ }
            } else {
                old(state)@.restored(start.snapshots())
            },
    {
        if succeeded {
            state.position = state.position + 1;
            return ;
        }
        let ghost before = state@;
        let ghost snapshots = start.snapshots();
        let TokenStart { token: _, position: _, checkpoints } = start;
        let mut checkpoints = checkpoints;
        let ghost all = checkpoints@;
        let mut layer: usize = state.attention.len();
        while layer > 0
            invariant
                before == old(state)@,
                snapshots == checkpoint_views(all),
                snapshots.len() == before.attention.len(),
                forall|i: int|
                    0 <= i < before.attention.len() ==> (#[trigger] snapshots[i]).local_slot
                        < before.attention[i].local.len(),
                state@.instance_id == before.instance_id,
                state@.position == before.position,
                state@.experts == before.experts,
                state@.cached_layers == before.cached_layers,
                state@.validated_layers == before.validated_layers,
                state@.attention.len() == before.attention.len(),
                layer <= before.attention.len(),
                checkpoints@ == all.take(layer as int),
                forall|i: int|
                    layer <= i < before.attention.len() ==> #[trigger] state@.attention[i]
                        == before.attention[i].restored(snapshots[i]),
                forall|i: int|
                    0 <= i < layer ==> #[trigger] state@.attention[i] == before.attention[i],
            decreases layer,
        {
            layer = layer - 1;
            let ghost states = state@.attention;
            assert(states[layer as int] == before.attention[layer as int]);
            match checkpoints.pop() {
                Some(checkpoint) => {
                    proof {
                        assert(checkpoint == all[layer as int]);
                        assert(snapshots[layer as int] == checkpoint@);
                        assert(all.take(layer + 1).drop_last() =~= all.take(layer as int));
                    }
                    state.attention[layer].restore(checkpoint);
                },
                None => {},
            }
            proof {
                assert forall|i: int| 0 <= i < before.attention.len() && i != layer implies
                    #[trigger] state@.attention[i] == states[i] by {}
            }
        }
        proof {
            assert(state@.attention =~= before.restored(snapshots).attention);
            assert(state@ =~= before.restored(snapshots));
        }
    }

    /// Refuses a prompt, or takes what undoes it.
    pub fn begin_prefill(&self, tokens: &[u32], state: &DeepseekRuntimeState) -> (result: Result<
        PrefillStart,
        DeepseekRuntimeError,
    >)
        ensures
            problem(result) == prefill_problem(self@, state@, tokens@),
            result is Ok ==> ({
                let start = result->Ok_0;
                &&& start.tokens@ == Seq::new(tokens@.len(), |i: int| tokens@[i] as usize)
                &&& start.start == state@.position
                &&& start.end == state@.position + tokens@.len()
                &&& start.attention() == state@.attention
            }),
    {
        if state.instance_id != self.instance_id {
            return invalid("state belongs to another runtime instance");
        }
        if tokens.len() == 0 {
            return invalid("prefill requires at least one token");
        }
        let vocabulary = self.config.vocab_size;
        let mut indices: Vec<usize> = Vec::new();
        let mut index: usize = 0;
        while index < tokens.len()
            invariant
                state@.instance_id == self@.instance_id,
                tokens@.len() > 0,
                vocabulary == self@.config.vocab_size,
                index <= tokens@.len(),
                indices@ == Seq::new(index as nat, |i: int| tokens@[i] as usize),
                stray_token(tokens@.take(index as int), vocabulary) is None,
            decreases tokens@.len() - index,
        {
            let token: u32 = tokens[index];
            proof {
                assert(tokens@.take(index + 1).drop_last() =~= tokens@.take(index as int));
                assert(tokens@.take(index + 1).last() == token);
            }
            if token as usize >= vocabulary {
                proof {
                    lemma_stray_prefix(tokens@, vocabulary, index + 1);
                }
                return Err(DeepseekRuntimeError::TokenOutOfRange { token, vocabulary });
            }
            indices.push(token as usize);
            index = index + 1;
            assert(indices@ =~= Seq::new(index as nat, |i: int| tokens@[i] as usize));
        }
        proof {
            assert(tokens@.take(tokens@.len() as int) =~= tokens@);
        }
        let end: usize = match state.position.checked_add(tokens.len()) {
            Some(end) => end,
            None => {
                return invalid("prefill position overflows");
            },
        };
        if end > self.context_limit {
            return Err(
                DeepseekRuntimeError::ContextExhausted {
                    position: end - 1,
                    limit: self.context_limit,
                },
            );
        }
        let mut checkpoint: Vec<AttentionState> = Vec::new();
        let mut layer: usize = 0;
        while layer < state.attention.len()
            invariant
                layer <= state.attention@.len(),
                checkpoint@.len() == layer,
                forall|i: int|
                    0 <= i < layer ==> (#[trigger] checkpoint@[i])@ == state.attention@[i]@,
            decreases state.attention@.len() - layer,
        {
            checkpoint.push(state.attention[layer].copy());
            layer = layer + 1;
        }
        proof {
            assert(attention_views(checkpoint@) =~= state@.attention);
        }
        Ok(PrefillStart { tokens: indices, start: state.position, end, checkpoint })
    }

    /// Ends a prompt: the position moves behind it, or, where it failed, all layers are given back.
    pub fn finish_prefill(
        &self,
        state: &mut DeepseekRuntimeState,
        start: PrefillStart,
        succeeded: bool,
    )
        ensures
            final(state)@ == if succeeded {
                StateView { position: start.end, ..old(state)@ }
            } else {
                StateView { attention: start.attention(), ..old(state)@ }
            },
    {
        if succeeded {
            state.position = start.end;
        } else {
            state.attention = start.checkpoint;
        }
    }
}

/// The schema refuses a checkpoint for this reason.
pub open spec fn schema_refuses(
    config: DeepseekV4Config,
    index: storage::IndexView,
    context_limit: usize,
    expert_slots_per_layer: usize,
    problem: schema::SchemaProblem,
) -> bool {
    schema::requirements(config, index, context_limit, expert_slots_per_layer) == Err::<
        DeepseekV4Requirements,
        schema::SchemaProblem,
    >(problem)
}

proof fn lemma_stray_prefix(tokens: Seq<u32>, vocabulary: usize, count: int)
    requires
        0 <= count <= tokens.len(),
        stray_token(tokens.take(count), vocabulary) is Some,
    ensures
        stray_token(tokens, vocabulary) == stray_token(tokens.take(count), vocabulary),
    decreases tokens.len(),
{
    if count < tokens.len() {
        assert(tokens.drop_last().take(count) =~= tokens.take(count));
        lemma_stray_prefix(tokens.drop_last(), vocabulary, count);
    } else {
        assert(tokens.take(count) =~= tokens);
    }
}

/// A token that failed leaves no trace in the attention: whatever its layers did of it, ending it as
/// failed gives back the state that it began with. What the experts and the layer cache gained
/// stays.
pub proof fn a_failed_token_leaves_no_trace(before: StateView, after: StateView)
    requires
        before.well_formed(),
        after.attention.len() == before.attention.len(),
        forall|i: int|
            0 <= i < before.attention.len() ==> ({
                let old_layer = #[trigger] before.attention[i];
                let new_layer = after.attention[i];
                &&& new_layer.ratio == old_layer.ratio
                &&& new_layer.local.len() == old_layer.local.len()
                &&& forall|j: int|
                    0 <= j < old_layer.local.len() && j != old_layer.slot()
                        ==> new_layer.local[j] == old_layer.local[j]
                &&& attention::token_effect(old_layer.compressor, new_layer.compressor)
                &&& attention::token_effect(old_layer.indexer, new_layer.indexer)
            }),
    ensures
        after.restored(before.snapshots()).attention == before.attention,
{
    let given_back = after.restored(before.snapshots()).attention;
    assert forall|i: int| 0 <= i < before.attention.len() implies given_back[i]
        == before.attention[i] by {
        assert(before.attention[i].well_formed());
        attention::snapshot_undoes_a_token(before.attention[i], after.attention[i]);
    }
    assert(given_back =~= before.attention);
}

/// How many values all layers hold.
pub open spec fn values_cached(states: Seq<attention::AttentionView>) -> int
    decreases states.len(),
{
    if states.len() == 0 {
        0
    } else {
        values_cached(states.drop_last()) + attention::values_held(states.last())
    }
}

proof fn lemma_values_grow(states: Seq<attention::AttentionView>, count: int)
    requires
        0 <= count <= states.len(),
    ensures
        0 <= values_cached(states.take(count)) <= values_cached(states),
    decreases states.len(),
{
    if states.len() > 0 {
        attention::lemma_held_nonnegative(states.last());
        if count == states.len() {
            lemma_values_grow(states.drop_last(), count - 1);
            assert(states.take(count) =~= states);
            assert(states.drop_last().take(count - 1) =~= states.drop_last());
        } else {
            assert(states.drop_last().take(count) =~= states.take(count));
            lemma_values_grow(states.drop_last(), count);
        }
    } else {
        assert(states.take(count) =~= states);
    }
}

impl DeepseekRuntimeState {
    pub fn position(&self) -> (position: usize)
        ensures
            position == self@.position,
    {
        self.position
    }

    pub fn expert_telemetry(&self) -> (telemetry: &ExpertTelemetry)
        ensures
            *telemetry == self@.experts.telemetry,
    {
        self.experts.telemetry()
    }

    /// How many values all layers hold.
    pub fn cached_f32_elements(&self) -> (count: usize)
        requires
            values_cached(self@.attention) <= usize::MAX,
        ensures
            count == values_cached(self@.attention),
    {
        let ghost states = self@.attention;
        let mut count: usize = 0;
        let mut layer: usize = 0;
        while layer < self.attention.len()
            invariant
                states == attention_views(self.attention@),
                values_cached(states) <= usize::MAX,
                layer <= states.len(),
                count == values_cached(states.take(layer as int)),
            decreases states.len() - layer,
        {
            proof {
                lemma_values_grow(states, layer + 1);
                lemma_values_grow(states, layer as int);
                assert(states.take(layer + 1).drop_last() =~= states.take(layer as int));
                assert(states.take(layer + 1).last() == self.attention@[layer as int]@);
            }
            count = count + self.attention[layer].stored_f32_elements();
            layer = layer + 1;
        }
        assert(states.take(states.len() as int) =~= states);
        count
    }
}

/// The windows in which a prompt's tokens share their expert routes: begin and end, one behind the
/// other, each full but the last.
pub open spec fn windows_of(count: nat, start: nat) -> Seq<(usize, usize)>
    decreases count - start,
{
    if start >= count {
        Seq::empty()
    } else {
        let end = accounting::smaller(start + PREFILL_ROUTE_WINDOW, count as int) as nat;
        seq![(start as usize, end as usize)] + windows_of(count, end)
    }
}

pub fn route_windows(count: usize) -> (windows: Vec<(usize, usize)>)
    ensures
        windows@ == windows_of(count as nat, 0),
{
    let mut windows: Vec<(usize, usize)> = Vec::new();
    let mut start: usize = 0;
    assert(windows@ + windows_of(count as nat, 0) =~= windows_of(count as nat, 0));
    while start < count
        invariant
            start <= count,
            windows@ + windows_of(count as nat, start as nat) == windows_of(count as nat, 0),
        decreases count - start,
    {
        let end: usize = if count - start > PREFILL_ROUTE_WINDOW {
            start + PREFILL_ROUTE_WINDOW
        } else {
            count
        };
        let ghost before = windows@;
        let ghost rest = windows_of(count as nat, end as nat);
        windows.push((start, end));
        assert(before + (seq![(start, end)] + rest) =~= windows@ + rest);
        start = end;
    }
    assert(windows@ + windows_of(count as nat, start as nat) =~= windows@);
    windows
}

/// The windows of a prompt lie one behind the other and cover it; each holds twenty-four tokens, but
/// for the last, which may hold fewer.
pub proof fn windows_cover_the_prompt(count: nat, i: int)
    requires
        count <= usize::MAX,
        0 <= i < windows_of(count, 0).len(),
    ensures
        ({
            let windows = windows_of(count, 0);
            let (start, end) = windows[i];
            &&& start == 24 * i
            &&& i + 1 < windows.len() ==> end == start + 24
            &&& i + 1 == windows.len() ==> end == count && start < end <= start + 24
        }),
{
    lemma_windows(count, 0, i);
}

proof fn lemma_windows(count: nat, from: nat, i: int)
    requires
        count <= usize::MAX,
        0 <= i < windows_of(count, from).len(),
    ensures
        ({
            let windows = windows_of(count, from);
            let (start, end) = windows[i];
            &&& start == from + 24 * i
            &&& i + 1 < windows.len() ==> end == start + 24
            &&& i + 1 == windows.len() ==> end == count && start < end <= start + 24
        }),
    decreases count - from,
{
    let end = accounting::smaller((from + 24) as int, count as int) as nat;
    let rest = windows_of(count, end);
    assert(windows_of(count, from) == seq![(from as usize, end as usize)] + rest);
    if i > 0 {
        lemma_windows(count, end, i - 1);
        if rest.len() > 0 {
            assert(end < count);
        }
    } else if rest.len() > 0 {
        assert(end < count);
    }
}

/// Every prompt has windows.
pub proof fn some_prompts_have_windows(count: nat)
    ensures
        windows_of(count, 0).len() > 0 <==> count > 0,
{
}

/// A flow names its position and its layer.
pub proof fn flows_name_their_place(position: usize, layer: usize)
    requires
        position <= u32::MAX,
        layer <= u32::MAX,
    ensures
        flow_id(position, layer) as int / 0x1_0000_0000 == position,
        flow_id(position, layer) as int % 0x1_0000_0000 == layer,
{
}

/// A token is taken exactly where the state is the model's own, the vocabulary holds it and the
/// context has a place left.
pub proof fn sound_tokens_are_taken(model: ModelView, state: StateView, token: u32)
    ensures
        token_problem(model, state, token) is None <==> state.instance_id == model.instance_id
            && token < model.config.vocab_size && state.position < model.context_limit,
{
}

/// The first token that the vocabulary does not hold is named.
pub proof fn the_first_stray_token_is_named(tokens: Seq<u32>, vocabulary: usize, i: int)
    requires
        0 <= i < tokens.len(),
    ensures
        stray_token(tokens, vocabulary) is None ==> tokens[i] < vocabulary,
        stray_token(tokens, vocabulary) matches Some(token) ==> token >= vocabulary && exists|
            at: int,
        |
            0 <= at < tokens.len() && #[trigger] tokens[at] == token && (forall|j: int|
                0 <= j < at ==> tokens[j] < vocabulary),
    decreases tokens.len(),
{
    let front = tokens.drop_last();
    let last = tokens.len() - 1;
    if front.len() > 0 {
        let other = if i < last {
            i
        } else {
            0
        };
        the_first_stray_token_is_named(front, vocabulary, other);
        assert(front[other] == tokens[other]);
        if stray_token(front, vocabulary) is Some {
            let token = stray_token(front, vocabulary)->0;
            let at = choose|at: int|
                0 <= at < front.len() && #[trigger] front[at] == token && (forall|j: int|
                    0 <= j < at ==> front[j] < vocabulary);
            assert(tokens[at] == token);
            assert forall|j: int| 0 <= j < at implies tokens[j] < vocabulary by {
                assert(front[j] == tokens[j]);
            }
        } else if tokens.last() >= vocabulary {
            assert(tokens[last] == tokens.last());
            assert forall|j: int| 0 <= j < last implies tokens[j] < vocabulary by {
                the_first_stray_token_is_named(front, vocabulary, j);
                assert(front[j] == tokens[j]);
            }
        }
    } else {
        assert(stray_token(front, vocabulary) is None);
        assert(tokens[last] == tokens.last());
    }
}

/// A prompt is taken exactly where it holds a token, the state is the model's own, the vocabulary holds
/// all of its tokens and the context has a place for each.
pub proof fn sound_prompts_are_taken(model: ModelView, state: StateView, tokens: Seq<u32>)
    ensures
        prefill_problem(model, state, tokens) is None <==> {
            &&& state.instance_id == model.instance_id
            &&& tokens.len() > 0
            &&& forall|i: int|
                0 <= i < tokens.len() ==> #[trigger] tokens[i] < model.config.vocab_size
            &&& state.position + tokens.len() <= model.context_limit
        },
{
    let vocabulary = model.config.vocab_size;
    if tokens.len() > 0 {
        the_first_stray_token_is_named(tokens, vocabulary, 0);
        assert forall|i: int|
            0 <= i < tokens.len() && stray_token(tokens, vocabulary) is None implies
            #[trigger] tokens[i] < vocabulary by {
            the_first_stray_token_is_named(tokens, vocabulary, i);
        }
    }
}

/// A model is admitted exactly where each of its needs is within its budget and its checkpoint holds no
/// tensor that it does not know.
pub proof fn needs_within_their_budgets_are_admitted(
    requirements: DeepseekV4Requirements,
    options: RuntimeLoadOptions,
)
    ensures
        admission_problem(requirements, options) is None <==> {
            &&& requirements.resident_bytes <= options.resident_budget_bytes
            &&& requirements.kv_cache_bytes <= options.kv_cache_budget_bytes
            &&& requirements.maximum_expert_bytes <= options.maximum_expert_bytes
            &&& requirements.expert_cache_bytes <= options.expert_cache_budget_bytes
            &&& requirements.unexpected_tensor_count == 0
        },
{
}

/// The projection onto the vocabulary is kept where its budget allows it, as 16-bit values where the
/// checkpoint has such, and streamed otherwise.
pub proof fn heads_are_kept_where_they_fit(
    requirements: DeepseekV4Requirements,
    index: storage::IndexView,
    resident_budget: u64,
)
    requires
        index.tensors.contains_key("head.weight"@),
    ensures
        head_load(requirements, index, resident_budget) == Ok::<HeadLoad, RuntimeProblem>(
            if !requirements.caches_lm_head(resident_budget) {
                HeadLoad::Streamed
            } else if index.tensors["head.weight"@].dtype == DType::Bf16 {
                HeadLoad::CompactBf16
            } else {
                HeadLoad::Resident
            },
        ),
{
}

/// A fresh state is at the first position, with an empty cache for every layer by its ratio, no expert
/// resident and no layer cached or checked.
pub proof fn fresh_states_are_empty(model: ModelView, layer: int)
    requires
        0 <= layer < model.config.num_hidden_layers,
    ensures
        ({
            let fresh = StateView::fresh(model);
            let ratio = model.config.compress_ratios@[layer];
            &&& fresh.instance_id == model.instance_id
            &&& fresh.position == 0
            &&& fresh.attention.len() == model.config.num_hidden_layers
            &&& fresh.attention[layer] == attention::AttentionView::fresh(model.config, ratio)
            &&& fresh.experts.cache.len() == model.config.num_hidden_layers
            &&& fresh.experts.cache[layer].residents.len() == 0
            &&& fresh.experts.cache[layer].capacity == model.expert_slots_per_layer
            &&& fresh.experts.telemetry.hits == 0 && fresh.experts.telemetry.misses == 0
            &&& fresh.experts.telemetry.resident_bytes == 0
            &&& fresh.cached_layers.len() == model.config.num_hidden_layers
            &&& !fresh.cached_layers[layer]
            &&& fresh.validated_layers.len() == model.config.num_hidden_layers
            &&& !fresh.validated_layers[layer]
        }),
{
}

/// A load is planned exactly where it has its budgets, its configuration is accepted, its checkpoint can
/// be read, its needs are within the budgets and its head is there where it is kept. The plan caches
/// as many layers as fit, some of them as places for reading ahead.
pub proof fn sound_loads_are_planned(
    config: DeepseekV4Config,
    index: storage::IndexView,
    options: RuntimeLoadOptions,
)
    ensures
        ({
            let needs = schema::requirements(
                config,
                index,
                options.context_limit,
                options.expert_slots_per_layer,
            );
            let budget = options.resident_budget_bytes;
            let head = head_load(needs->Ok_0, index, budget);
            let plan = load_plan(config, index, options);
            &&& plan is Ok <==> {
                &&& !options.lacks_a_budget()
                &&& config.refusal() is None
                &&& needs is Ok
                &&& admission_problem(needs->Ok_0, options) is None
                &&& head is Ok
            }
            &&& plan matches Ok(plan) ==> {
                let split = schema::pipeline(
                    needs->Ok_0.cached_layers(budget) as usize,
                    needs->Ok_0.decoder_layer_count,
                );
                &&& plan.head == head->Ok_0
                &&& plan.cached_decoder_layers == split.0
                &&& plan.decoder_layer_prefetch_depth == split.1
            }
        }),
{
}

/// The values that are cached are those of all layers.
pub proof fn cached_values_add_up(states: Seq<attention::AttentionView>, state: attention::AttentionView)
    ensures
        values_cached(Seq::empty()) == 0,
        values_cached(states.push(state)) == values_cached(states) + attention::values_held(state),
{
    assert(states.push(state).drop_last() =~= states);
}

} // verus!
