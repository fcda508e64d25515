//! What the DeepSeek-V4.1 runtime decides around its arithmetic: what it admits, which state a
//! token changes and how a failed token is undone.

use super::attention::SourceState;
use super::compressor::{CompressorError, CompressorState};
use super::config::DeepseekV41Config;
use super::engram::{EngramError, NgramHashState};
use super::experts::ExpertStore;
use super::indexer::IndexerError;
use super::kv::{KvCacheError, WindowKvCache};
use super::schema::{inspect_requirements, DeepseekV41Requirements, SchemaError};
use super::{attention, compressor, config, engram, kv, schema, token_map};
use crate::config::ConfigError;
use crate::models::deepseek_v4::math::DeepseekMathError;
use crate::models::deepseek_v4::{experts, math};
use crate::residency::ExpertTelemetry;
use crate::runtime::RuntimeLoadOptions;
use crate::storage::{StorageError, TensorIndex};
use crate::text::{join, push_decimal};
use crate::{storage, text};
use vstd::prelude::*;
use vstd::string::*;

verus! {

#[derive(Debug)]
pub enum DeepseekV41RuntimeError {
    Config(ConfigError),
    Storage(StorageError),
    DeepseekMath(DeepseekMathError),
    Compressor(CompressorError),
    Engram(EngramError),
    Indexer(IndexerError),
    Kv(KvCacheError),
    Schema(SchemaError),
    Invalid(String),
    Budget { component: &'static str, required: u64, maximum: u64 },
    TokenOutOfRange { token: u32, vocabulary: usize },
    ContextExhausted { position: usize, limit: usize },
}

/// The same error, over plain values.
pub enum RuntimeProblem {
    Config(Seq<char>),
    Storage(storage::StorageProblem),
    DeepseekMath(math::MathProblem),
    Compressor(Seq<char>),
    Engram(engram::EngramProblem),
    Indexer(Seq<char>),
    Kv(Seq<char>),
    Schema(schema::SchemaProblem),
    Invalid(Seq<char>),
    Budget { component: Seq<char>, required: u64, maximum: u64 },
    TokenOutOfRange { token: u32, vocabulary: usize },
    ContextExhausted { position: usize, limit: usize },
}

impl View for DeepseekV41RuntimeError {
    type V = RuntimeProblem;

    open spec fn view(&self) -> RuntimeProblem {
        match *self {
            DeepseekV41RuntimeError::Config(error) => RuntimeProblem::Config(error.reason()),
            DeepseekV41RuntimeError::Storage(error) => RuntimeProblem::Storage(error@),
            DeepseekV41RuntimeError::DeepseekMath(error) => RuntimeProblem::DeepseekMath(error@),
            DeepseekV41RuntimeError::Compressor(error) => RuntimeProblem::Compressor(
                error.reason(),
            ),
            DeepseekV41RuntimeError::Engram(error) => RuntimeProblem::Engram(error@),
            DeepseekV41RuntimeError::Indexer(error) => RuntimeProblem::Indexer(error.0@),
            DeepseekV41RuntimeError::Kv(error) => RuntimeProblem::Kv(error.reason()),
            DeepseekV41RuntimeError::Schema(error) => RuntimeProblem::Schema(error@),
            DeepseekV41RuntimeError::Invalid(reason) => RuntimeProblem::Invalid(reason@),
            DeepseekV41RuntimeError::Budget { component, required, maximum } =>
                RuntimeProblem::Budget { component: component@, required, maximum },
            DeepseekV41RuntimeError::TokenOutOfRange { token, vocabulary } =>
                RuntimeProblem::TokenOutOfRange { token, vocabulary },
            DeepseekV41RuntimeError::ContextExhausted { position, limit } =>
                RuntimeProblem::ContextExhausted { position, limit },
        }
    }
}

/// What a result refuses, if anything.
pub open spec fn problem<T>(result: Result<T, DeepseekV41RuntimeError>) -> Option<RuntimeProblem> {
    match result {
        Ok(_) => None,
        Err(error) => Some(error@),
    }
}

pub open spec fn invalid_if(broken: bool, reason: Seq<char>) -> Option<RuntimeProblem> {
    if broken {
        Some(RuntimeProblem::Invalid(reason))
    } else {
        None
    }
}

/// The earlier of two problems.
pub open spec fn first(earlier: Option<RuntimeProblem>, later: Option<RuntimeProblem>) -> Option<
    RuntimeProblem,
> {
    if earlier is Some {
        earlier
    } else {
        later
    }
}

/// Refuses with this reason.
pub fn invalid<T>(reason: &str) -> (result: Result<T, DeepseekV41RuntimeError>)
    ensures
        problem(result) == Some(RuntimeProblem::Invalid(reason@)),
{
    Err(DeepseekV41RuntimeError::Invalid(reason.to_owned()))
}

impl DeepseekV41RuntimeError {
    /// What the error says. What the storage refuses has no words of its own here.
    pub open spec fn text(self) -> Option<Seq<char>> {
        match self {
            DeepseekV41RuntimeError::Config(error) => Some(error.reason()),
            DeepseekV41RuntimeError::Storage(_) => None,
            DeepseekV41RuntimeError::DeepseekMath(error) => Some(error.text()),
            DeepseekV41RuntimeError::Compressor(error) => Some(error.text()),
            DeepseekV41RuntimeError::Engram(error) => error.text(),
            DeepseekV41RuntimeError::Indexer(error) => Some(error.text()),
            DeepseekV41RuntimeError::Kv(error) => Some(error.text()),
            DeepseekV41RuntimeError::Schema(error) => error.text(),
            DeepseekV41RuntimeError::Invalid(reason) => Some(
                "invalid DeepSeek-V4.1 runtime: "@ + reason@,
            ),
            DeepseekV41RuntimeError::Budget { component, required, maximum } => Some(
                "DeepSeek-V4.1 "@ + component@ + " needs "@ + text::decimal(required as nat)
                    + " bytes, authorized maximum is "@ + text::decimal(maximum as nat),
            ),
            DeepseekV41RuntimeError::TokenOutOfRange { token, vocabulary } => Some(
                "token ID "@ + text::decimal(token as nat) + " is outside vocabulary 0.."@
                    + text::decimal(vocabulary as nat),
            ),
            DeepseekV41RuntimeError::ContextExhausted { position, limit } => Some(
                "runtime position "@ + text::decimal(position as nat)
                    + " reaches context limit "@ + text::decimal(limit as nat),
            ),
        }
    }

    pub fn message(&self) -> (message: Option<String>)
        ensures
            match message {
                Some(text) => self.text() == Some(text@),
                None => self.text() is None,
            },
    {
        match self {
            DeepseekV41RuntimeError::Config(error) => Some(error.message()),
            DeepseekV41RuntimeError::Storage(_) => None,
            DeepseekV41RuntimeError::DeepseekMath(error) => Some(error.message()),
            DeepseekV41RuntimeError::Compressor(error) => Some(error.message()),
            DeepseekV41RuntimeError::Engram(error) => error.message(),
            DeepseekV41RuntimeError::Indexer(error) => Some(error.message()),
            DeepseekV41RuntimeError::Kv(error) => Some(error.message()),
            DeepseekV41RuntimeError::Schema(error) => error.message(),
            DeepseekV41RuntimeError::Invalid(reason) => Some(
                join("invalid DeepSeek-V4.1 runtime: ", reason.as_str()),
            ),
            DeepseekV41RuntimeError::Budget { component, required, maximum } => {
                let mut text = join("DeepSeek-V4.1 ", component);
                text.append(" needs ");
                push_decimal(&mut text, *required);
                text.append(" bytes, authorized maximum is ");
                push_decimal(&mut text, *maximum);
                Some(text)
            },
            DeepseekV41RuntimeError::TokenOutOfRange { token, vocabulary } => {
                let mut text = "token ID ".to_owned();
                push_decimal(&mut text, *token as u64);
                text.append(" is outside vocabulary 0..");
                push_decimal(&mut text, *vocabulary as u64);
                Some(text)
            },
            DeepseekV41RuntimeError::ContextExhausted { position, limit } => {
                let mut text = "runtime position ".to_owned();
                push_decimal(&mut text, *position as u64);
                text.append(" reaches context limit ");
                push_decimal(&mut text, *limit as u64);
                Some(text)
            },
        }
    }
}

pub open spec fn over_budget(component: Seq<char>, required: u64, maximum: u64) -> Option<
    RuntimeProblem,
> {
    if required > maximum {
        Some(RuntimeProblem::Budget { component, required, maximum })
    } else {
        None
    }
}

fn check_budget(component: &'static str, required: u64, maximum: u64) -> (result: Result<
    (),
    DeepseekV41RuntimeError,
>)
    ensures
        problem(result) == over_budget(component@, required, maximum),
{
    if required > maximum {
        Err(DeepseekV41RuntimeError::Budget { component, required, maximum })
    } else {
        Ok(())
    }
}

/// The first budget that a checkpoint with these needs exceeds.
pub open spec fn admission_problem(
    requirements: DeepseekV41Requirements,
    options: RuntimeLoadOptions,
) -> Option<RuntimeProblem> {
    first(
        over_budget(
            "streamed layer peak"@,
            requirements.streamed_layer_bytes,
            options.resident_budget_bytes,
        ),
        first(
            over_budget(
                "KV/state cache"@,
                requirements.kv_cache_bytes,
                options.kv_cache_budget_bytes,
            ),
            first(
                over_budget(
                    "largest routed expert"@,
                    requirements.maximum_expert_bytes,
                    options.maximum_expert_bytes,
                ),
                over_budget(
                    "expert working set"@,
                    requirements.expert_cache_bytes,
                    options.expert_cache_budget_bytes,
                ),
            ),
        ),
    )
}

/// Refuses a checkpoint that exceeds a budget.
pub fn check_needs(requirements: &DeepseekV41Requirements, options: &RuntimeLoadOptions) -> (result:
    Result<(), DeepseekV41RuntimeError>)
    ensures
        problem(result) == admission_problem(*requirements, *options),
{
    check_budget(
        "streamed layer peak",
        requirements.streamed_layer_bytes,
        options.resident_budget_bytes,
    )?;
    check_budget("KV/state cache", requirements.kv_cache_bytes, options.kv_cache_budget_bytes)?;
    check_budget(
        "largest routed expert",
        requirements.maximum_expert_bytes,
        options.maximum_expert_bytes,
    )?;
    check_budget(
        "expert working set",
        requirements.expert_cache_bytes,
        options.expert_cache_budget_bytes,
    )
}

/// What validation leaves open and the account needs: dimensions of the machine.
pub open spec fn open_dimensions_fit(model: DeepseekV41Config) -> bool {
    let text = model.text_config;
    &&& model.vision_config.dimensions_fit()
    &&& text.o_groups * text.o_lora_rank <= usize::MAX
    &&& text.hidden_size + text.dspark_markov_rank <= usize::MAX
    &&& 3 * text.engram_n_heads * text.engram_head_dim <= usize::MAX
}

/// Why a configuration or its checkpoint is refused.
pub open spec fn needs_problem(
    model: DeepseekV41Config,
    index: storage::IndexView,
    context_limit: usize,
    slots: usize,
) -> Option<RuntimeProblem> {
    match model.refusal() {
        Some(reason) => Some(RuntimeProblem::Config(reason)),
        None => match schema::requirements(model, index, context_limit, slots) {
            Err(error) => Some(RuntimeProblem::Schema(error)),
            Ok(_) => None,
        },
    }
}

/// Why a model is not loaded under these options with this token map.
pub open spec fn load_problem(
    model: DeepseekV41Config,
    index: storage::IndexView,
    options: RuntimeLoadOptions,
    token_map: Seq<u32>,
) -> Option<RuntimeProblem> {
    let needs = needs_problem(
        model,
        index,
        options.context_limit,
        options.expert_slots_per_layer,
    );
    if options.lacks_a_budget() {
        Some(
            RuntimeProblem::Invalid(
                "resident/KV/per-expert budgets and context limit must be non-zero"@,
            ),
        )
    } else if needs is Some {
        needs
    } else {
        let requirements = schema::requirements(
            model,
            index,
            options.context_limit,
            options.expert_slots_per_layer,
        )->Ok_0;
        first(
            admission_problem(requirements, options),
            match engram::hasher_problem(model, token_map) {
                Some(error) => Some(RuntimeProblem::Engram(error)),
                None => None,
            },
        )
    }
}

/// A loaded model, but for its weights.
#[derive(Debug)]
pub struct DeepseekV41RuntimeModel {
    instance_id: u64,
    config: DeepseekV41Config,
    engram_hash_prototype: NgramHashState,
    context_limit: usize,
    expert_slots_per_layer: usize,
    maximum_expert_bytes: u64,
}

/// What a [`DeepseekV41RuntimeModel`] holds.
pub struct ModelView {
    pub instance_id: u64,
    pub config: DeepseekV41Config,
    pub hash: engram::HashView,
    pub context_limit: usize,
    pub expert_slots_per_layer: usize,
    pub maximum_expert_bytes: u64,
}

impl View for DeepseekV41RuntimeModel {
    type V = ModelView;

    closed spec fn view(&self) -> ModelView {
        ModelView {
            instance_id: self.instance_id,
            config: self.config,
            hash: self.engram_hash_prototype@,
            context_limit: self.context_limit,
            expert_slots_per_layer: self.expert_slots_per_layer,
            maximum_expert_bytes: self.maximum_expert_bytes,
        }
    }
}

impl ModelView {
    /// An accepted configuration with room for its experts.
    pub open spec fn well_formed(self) -> bool {
        &&& self.config.refusal() is None
        &&& self.hash.well_formed()
        &&& self.hash.max_ngram_size == 4
        &&& self.expert_slots_per_layer <= self.config.text_config.n_routed_experts
        &&& self.maximum_expert_bytes > 0
    }
}

/// The state of one generation.
#[derive(Debug)]
pub struct DeepseekV41RuntimeState {
    pub instance_id: u64,
    pub position: usize,
    pub attention: Vec<WindowKvCache>,
    pub sources: Vec<SourceState>,
    pub engram_hash: NgramHashState,
    pub experts: ExpertStore,
}

pub open spec fn ring_views(list: Seq<WindowKvCache>) -> Seq<kv::WindowView> {
    Seq::new(list.len(), |i: int| list[i]@)
}

/// What a [`DeepseekV41RuntimeState`] holds.
#[verifier::ext_equal]
pub struct StateView {
    pub instance_id: u64,
    pub position: usize,
    pub attention: Seq<kv::WindowView>,
    pub sources: Seq<attention::SourceView>,
    pub hash: engram::HashView,
    pub experts: experts::StoreView,
}

impl View for DeepseekV41RuntimeState {
    type V = StateView;

    open spec fn view(&self) -> StateView {
        StateView {
            instance_id: self.instance_id,
            position: self.position,
            attention: ring_views(self.attention@),
            sources: attention::source_views(self.sources@),
            hash: self.engram_hash@,
            experts: self.experts@,
        }
    }
}

impl DeepseekV41RuntimeState {
    pub open spec fn well_formed(&self) -> bool {
        &&& forall|i: int|
            0 <= i < self.attention@.len() ==> (#[trigger] self.attention@[i]).well_formed()
        &&& attention::sources_well_formed(self.sources@)
        &&& owners_differ(self@.sources)
        &&& self.engram_hash@.well_formed()
        &&& self.experts@.well_formed()
    }
}

/// The sources of the first `count` owners, before any token.
pub open spec fn fresh_sources(model: DeepseekV41Config, count: nat) -> Seq<attention::SourceView> {
    let text = model.text_config;
    Seq::new(
        count,
        |i: int|
            attention::SourceView::fresh(
                text.kv_source_layer_ids@[i],
                text.compress_ratios@[text.kv_source_layer_ids@[i] as int],
                text.head_dim,
                text.index_head_dim,
            ),
    )
}

/// Why the source of an owner cannot be made.
pub open spec fn fresh_source_problem(model: DeepseekV41Config, i: int) -> Option<RuntimeProblem> {
    let text = model.text_config;
    let ratio = text.compress_ratios@[text.kv_source_layer_ids@[i] as int];
    first(
        attention::compressor_problem(compressor::fresh_problem(ratio, text.head_dim)),
        first(
            attention::kv_problem(kv::main_width_problem(text.head_dim)),
            attention::kv_problem(kv::index_width_problem(text.index_head_dim)),
        ),
    )
}

/// The first problem of the sources from `i` on.
pub open spec fn fresh_sources_problem(model: DeepseekV41Config, i: int) -> Option<RuntimeProblem>
    decreases model.text_config.kv_source_layer_ids@.len() - i,
{
    if i < 0 || i >= model.text_config.kv_source_layer_ids@.len() {
        None
    } else {
        first(fresh_source_problem(model, i), fresh_sources_problem(model, i + 1))
    }
}

impl StateView {
    /// The state before any token.
    pub open spec fn fresh(model: ModelView) -> StateView {
        let text = model.config.text_config;
        StateView {
            instance_id: model.instance_id,
            position: 0,
            attention: Seq::new(
                text.num_hidden_layers as nat,
                |i: int| kv::WindowView::fresh(text.head_dim, text.sliding_window),
            ),
            sources: fresh_sources(model.config, text.kv_source_layer_ids@.len()),
            hash: model.hash,
            experts: experts::StoreView::fresh(
                text.num_hidden_layers,
                text.n_routed_experts,
                text.hidden_size,
                model.expert_slots_per_layer,
                model.maximum_expert_bytes,
            ),
        }
    }

    /// What a token changes is marked by its length, or kept.
    pub open spec fn mark(self) -> StateMark {
        StateMark {
            attention: self.attention,
            sources: Seq::new(
                self.sources.len(),
                |i: int|
                    SourceMark {
                        owner: self.sources[i].owner,
                        compressor: self.sources[i].compressor,
                        main: self.sources[i].main.rows.len() as int,
                        index: self.sources[i].index.rows.len() as int,
                    },
            ),
            hash: self.hash.cache.len() as int,
        }
    }
}

/// What undoes the changes of a token to one source.
#[derive(Debug, Clone)]
pub struct SourceCheckpoint {
    pub owner: usize,
    pub compressor: CompressorState,
    pub main: usize,
    pub index: usize,
}

/// What undoes the changes of a token.
#[derive(Debug)]
pub struct StateCheckpoint {
    pub attention: Vec<WindowKvCache>,
    pub sources: Vec<SourceCheckpoint>,
    pub hash: usize,
}

/// A source checkpoint over plain values.
#[verifier::ext_equal]
pub struct SourceMark {
    pub owner: usize,
    pub compressor: compressor::GroupState,
    pub main: int,
    pub index: int,
}

/// A checkpoint over plain values.
#[verifier::ext_equal]
pub struct StateMark {
    pub attention: Seq<kv::WindowView>,
    pub sources: Seq<SourceMark>,
    pub hash: int,
}

impl View for SourceCheckpoint {
    type V = SourceMark;

    open spec fn view(&self) -> SourceMark {
        SourceMark {
            owner: self.owner,
            compressor: self.compressor@,
            main: self.main as int,
            index: self.index as int,
        }
    }
}

pub open spec fn marks(list: Seq<SourceCheckpoint>) -> Seq<SourceMark> {
    Seq::new(list.len(), |i: int| list[i]@)
}

impl View for StateCheckpoint {
    type V = StateMark;

    open spec fn view(&self) -> StateMark {
        StateMark {
            attention: ring_views(self.attention@),
            sources: marks(self.sources@),
            hash: self.hash as int,
        }
    }
}

impl StateCheckpoint {
    pub open spec fn well_formed(&self) -> bool {
        &&& forall|i: int|
            0 <= i < self.attention@.len() ==> (#[trigger] self.attention@[i]).well_formed()
        &&& forall|i: int|
            0 <= i < self.sources@.len() ==> (#[trigger] self.sources@[i]).compressor.well_formed()
    }
}

/// Why a token is refused.
pub open spec fn token_problem(model: ModelView, state: StateView, token: u32) -> Option<
    RuntimeProblem,
> {
    let vocabulary = model.config.text_config.vocab_size;
    if state.instance_id != model.instance_id {
        Some(RuntimeProblem::Invalid("state belongs to another runtime instance"@))
    } else if token >= vocabulary {
        Some(RuntimeProblem::TokenOutOfRange { token, vocabulary })
    } else if state.position >= model.context_limit {
        Some(
            RuntimeProblem::ContextExhausted {
                position: state.position,
                limit: model.context_limit,
            },
        )
    } else {
        None
    }
}

pub open spec fn disappeared_message(owner: usize) -> Seq<char> {
    "KV source "@ + text::decimal(owner as nat)
        + " disappeared while restoring a failed token"@
}

/// What is said of a token that failed and could not be undone.
pub open spec fn both_failed_message(cause: Seq<char>, restore_text: Seq<char>) -> Seq<char> {
    "token execution failed ("@ + cause + "); state rollback also failed ("@ + restore_text
        + ")"@
}

/// What the refusal to undo a token says. No other refusals come from there.
pub open spec fn restore_text(problem: RuntimeProblem) -> Seq<char> {
    match problem {
        RuntimeProblem::Invalid(reason) => "invalid DeepSeek-V4.1 runtime: "@ + reason,
        RuntimeProblem::Kv(reason) => "invalid DeepSeek-V4.1 KV cache: "@ + reason,
        RuntimeProblem::Engram(engram::EngramProblem::Invalid(reason)) =>
            "invalid DeepSeek-V4.1 Engram state: "@ + reason,
        _ => Seq::empty(),
    }
}

/// A source with its changes undone as far as they can be: its group, then its entries, then its
/// keys.
pub open spec fn undone_source(source: attention::SourceView, mark: SourceMark) -> (
    attention::SourceView
) {
    let group = attention::SourceView { compressor: mark.compressor, ..source };
    if mark.main > source.main.rows.len() {
        group
    } else {
        let entries = attention::SourceView { main: source.main.rolled_back(mark.main), ..group };
        if mark.index > source.index.rows.len() {
            entries
        } else {
            attention::SourceView { index: source.index.rolled_back(mark.index), ..entries }
        }
    }
}

/// Why the changes to a source cannot be undone.
pub open spec fn undo_problem(sources: Seq<attention::SourceView>, mark: SourceMark) -> Option<
    RuntimeProblem,
> {
    match attention::place_of(sources, mark.owner, 0) {
        None => Some(RuntimeProblem::Invalid(disappeared_message(mark.owner))),
        Some(place) => if mark.main > sources[place].main.rows.len() {
            Some(RuntimeProblem::Kv("rollback checkpoint is beyond the current cache"@))
        } else if mark.index > sources[place].index.rows.len() {
            Some(
                RuntimeProblem::Kv("index-key rollback checkpoint is beyond the current cache"@),
            )
        } else {
            None
        },
    }
}

/// The sources once one mark was applied.
pub open spec fn with_undone(sources: Seq<attention::SourceView>, mark: SourceMark) -> Seq<
    attention::SourceView,
> {
    match attention::place_of(sources, mark.owner, 0) {
        None => sources,
        Some(place) => sources.update(place, undone_source(sources[place], mark)),
    }
}

/// The sources once the marks from `from` on were applied, up to and with the first that fails.
pub open spec fn all_undone(
    sources: Seq<attention::SourceView>,
    list: Seq<SourceMark>,
    from: int,
) -> Seq<attention::SourceView>
    decreases list.len() - from,
{
    if from < 0 || from >= list.len() {
        sources
    } else if undo_problem(sources, list[from]) is Some {
        with_undone(sources, list[from])
    } else {
        all_undone(with_undone(sources, list[from]), list, from + 1)
    }
}

/// The first problem of the marks from `from` on.
pub open spec fn undo_problems(
    sources: Seq<attention::SourceView>,
    list: Seq<SourceMark>,
    from: int,
) -> Option<RuntimeProblem>
    decreases list.len() - from,
{
    if from < 0 || from >= list.len() {
        None
    } else if undo_problem(sources, list[from]) is Some {
        undo_problem(sources, list[from])
    } else {
        undo_problems(with_undone(sources, list[from]), list, from + 1)
    }
}

impl StateView {
    /// Why a token cannot be undone.
    pub open spec fn restore_problem(self, mark: StateMark) -> Option<RuntimeProblem> {
        first(
            undo_problems(self.sources, mark.sources, 0),
            if mark.hash > self.hash.cache.len() {
                Some(
                    RuntimeProblem::Engram(
                        engram::EngramProblem::Invalid(
                            "Engram rollback checkpoint is beyond the cached token history"@,
                        ),
                    ),
                )
            } else {
                None
            },
        )
    }

    /// The state with a token undone, as far as it can be. The experts that it loaded stay.
    pub open spec fn restored(self, mark: StateMark) -> StateView {
        StateView {
            attention: mark.attention,
            sources: all_undone(self.sources, mark.sources, 0),
            hash: if self.restore_problem(mark) is None {
                self.hash.truncated(mark.hash)
            } else {
                self.hash
            },
            ..self
        }
    }

    /// The mark speaks of sources with the ratios that this state has.
    pub open spec fn owns(self, mark: StateMark) -> bool {
        same_ratios(self.sources, mark.sources)
    }

    /// A later state of the same token: nothing but the ends of its lists, its rings, its groups
    /// and its experts has changed.
    pub open spec fn grew_from(self, before: StateView) -> bool {
        &&& self.instance_id == before.instance_id
        &&& self.position == before.position
        &&& self.sources.len() == before.sources.len()
        &&& forall|i: int|
            0 <= i < before.sources.len() ==> #[trigger] source_grew(
                before.sources[i],
                self.sources[i],
            )
        &&& before.hash.cache.len() <= self.hash.cache.len()
        &&& self.hash.truncated(before.hash.cache.len() as int) == before.hash
    }
}

/// Every mark of an owner keeps a group of the ratio that the owner's source has.
pub open spec fn same_ratios(sources: Seq<attention::SourceView>, list: Seq<SourceMark>) -> bool {
    forall|i: int, j: int|
        0 <= i < sources.len() && 0 <= j < list.len() && (#[trigger] sources[i]).owner == (
        #[trigger] list[j]).owner ==> sources[i].ratio == list[j].compressor.ratio
}

pub open spec fn source_grew(before: attention::SourceView, after: attention::SourceView) -> bool {
    &&& after.owner == before.owner
    &&& after.ratio == before.ratio
    &&& after.main.width == before.main.width
    &&& after.index.width == before.index.width
    &&& before.main.rows.len() <= after.main.rows.len()
    &&& after.main.rows.take(before.main.rows.len() as int) == before.main.rows
    &&& before.index.rows.len() <= after.index.rows.len()
    &&& after.index.rows.take(before.index.rows.len() as int) == before.index.rows
}

/// No two sources have the same owner.
pub open spec fn owners_differ(sources: Seq<attention::SourceView>) -> bool {
    forall|i: int, j: int|
        0 <= i < j < sources.len() ==> (#[trigger] sources[i]).owner != (#[trigger] sources[j]).owner
}

proof fn lemma_place(sources: Seq<attention::SourceView>, i: int, from: int)
    requires
        owners_differ(sources),
        0 <= from <= i < sources.len(),
    ensures
        attention::place_of(sources, sources[i].owner, from) == Some(i),
    decreases i - from,
{
    if from < i {
        assert(sources[from].owner != sources[i].owner);
        lemma_place(sources, i, from + 1);
    }
}

proof fn lemma_undo(
    sources: Seq<attention::SourceView>,
    before: Seq<attention::SourceView>,
    list: Seq<SourceMark>,
    from: int,
)
    requires
        owners_differ(before),
        sources.len() == before.len() == list.len(),
        0 <= from <= list.len(),
        forall|i: int| 0 <= i < from ==> #[trigger] sources[i] == before[i],
        forall|i: int| from <= i < list.len() ==> #[trigger] source_grew(before[i], sources[i]),
        forall|i: int|
            0 <= i < list.len() ==> #[trigger] list[i] == (SourceMark {
                owner: before[i].owner,
                compressor: before[i].compressor,
                main: before[i].main.rows.len() as int,
                index: before[i].index.rows.len() as int,
            }),
    ensures
        undo_problems(sources, list, from) is None,
        all_undone(sources, list, from) == before,
    decreases list.len() - from,
{
    assert forall|i: int, j: int| 0 <= i < j < sources.len() implies (#[trigger] sources[i]).owner
        != (#[trigger] sources[j]).owner by {
        assert(before[i].owner != before[j].owner);
        if i >= from {
            assert(source_grew(before[i], sources[i]));
        }
        if j >= from {
            assert(source_grew(before[j], sources[j]));
        }
    }
    if from < list.len() {
        assert(source_grew(before[from], sources[from]));
        lemma_place(sources, from, 0);
        let undone = undone_source(sources[from], list[from]);
        assert(undone.main.rows =~= before[from].main.rows);
        assert(undone.index.rows =~= before[from].index.rows);
        assert(undone =~= before[from]);
        let next = with_undone(sources, list[from]);
        assert(next =~= sources.update(from, before[from]));
        assert forall|i: int| from + 1 <= i < list.len() implies #[trigger] source_grew(
            before[i],
            next[i],
        ) by {
            assert(source_grew(before[i], sources[i]));
        }
        lemma_undo(next, before, list, from + 1);
    } else {
        assert(sources =~= before);
    }
}

/// Undoing a token that failed gives back the state as it was before it, but for the experts that
/// were loaded and counted meanwhile. The mark that was taken before the token is still the state's
/// own.
pub proof fn a_failed_token_leaves_no_trace(before: StateView, after: StateView)
    requires
        owners_differ(before.sources),
        after.grew_from(before),
    ensures
        before.owns(before.mark()) ==> after.owns(before.mark()),
        after.restore_problem(before.mark()) is None,
        after.restored(before.mark()) == (StateView { experts: after.experts, ..before }),
{
    lemma_undo(after.sources, before.sources, before.mark().sources, 0);
    if before.owns(before.mark()) {
        let list = before.mark().sources;
        assert forall|i: int, j: int|
            0 <= i < after.sources.len() && 0 <= j < list.len() && (
            #[trigger] after.sources[i]).owner == (#[trigger] list[j]).owner implies
            after.sources[i].ratio == list[j].compressor.ratio by {
            assert(source_grew(before.sources[i], after.sources[i]));
            assert(before.sources[i].owner == list[j].owner);
        }
    }
    assert(after.restored(before.mark()) =~= StateView { experts: after.experts, ..before });
}

proof fn lemma_accepted(model: DeepseekV41Config)
    requires
        model.refusal() is None,
    ensures
        ({
            let text = model.text_config;
            &&& text.engram_vocab_size >= 1
            &&& text.engram_max_ngram_size == 4
            &&& text.engram_n_heads * (text.engram_max_ngram_size - 1) <= usize::MAX
            &&& text.engram_layer_ids@.len() <= text.engram_num_embeddings@.len()
            &&& text.engram_pad_token_id < text.vocab_size
            &&& text.num_hidden_layers == 40
            &&& text.compress_ratios@.len() >= 40
            &&& text.kv_source_layer_ids@ == seq![2usize, 8, 14, 20]
        }),
{
    let text = model.text_config;
    assert(text.refusal() is None);
    assert(text.engram_n_heads * (text.engram_max_ngram_size - 1) <= 1024 * 3)
        by (nonlinear_arith)
        requires
            text.engram_n_heads <= 1024,
            text.engram_max_ngram_size == 4,
    ;
}

impl DeepseekV41RuntimeModel {
    /// Accounts for the memory that a checkpoint needs.
    pub fn inspect_requirements(
        config: &DeepseekV41Config,
        index: &TensorIndex,
        context_limit: usize,
        expert_slots_per_layer: usize,
    ) -> (result: Result<DeepseekV41Requirements, DeepseekV41RuntimeError>)
        requires
            open_dimensions_fit(*config),
        ensures
            problem(result) == needs_problem(
                *config,
                index@,
                context_limit,
                expert_slots_per_layer,
            ),
            result matches Ok(found) ==> config.refusal() is None && schema::requirements(
                *config,
                index@,
                context_limit,
                expert_slots_per_layer,
            ) == Ok::<DeepseekV41Requirements, schema::SchemaProblem>(found),
    {
        match config.validate() {
            Ok(_) => {},
            Err(error) => {
                return Err(DeepseekV41RuntimeError::Config(error));
            },
        }
        proof {
            schema::accepted_config_fits(*config);
        }
        match inspect_requirements(config, index, context_limit, expert_slots_per_layer) {
            Ok(found) => Ok(found),
            Err(error) => Err(DeepseekV41RuntimeError::Schema(error)),
        }
    }

    /// Loads a model under budgets and limits. `decoded` and `raw` hold the text and the raw
    /// content of every token. The instance id tells the states of the model from those of others.
    pub fn load(
        config: DeepseekV41Config,
        index: &TensorIndex,
        options: RuntimeLoadOptions,
        instance_id: u64,
        decoded: &Vec<String>,
        raw: &Vec<String>,
    ) -> (result: Result<Self, DeepseekV41RuntimeError>)
        requires
            open_dimensions_fit(config),
            config.refusal() is None ==> engram::buckets_fit(config),
            decoded@.len() == raw@.len(),
            decoded@.len() <= u32::MAX,
        ensures
            ({
                let token_map = token_map::compressed(token_map::token_keys(decoded@, raw@));
                &&& problem(result) == load_problem(config, index@, options, token_map)
                &&& result matches Ok(model) ==> model@.well_formed() && model@ == (ModelView {
                    instance_id,
                    config,
                    hash: engram::fresh_hasher(config, token_map),
                    context_limit: options.context_limit,
                    expert_slots_per_layer: options.expert_slots_per_layer,
                    maximum_expert_bytes: options.maximum_expert_bytes,
                })
            }),
    {
        if options.is_empty() {
            return invalid("resident/KV/per-expert budgets and context limit must be non-zero");
        }
        let requirements = DeepseekV41RuntimeModel::inspect_requirements(
            &config,
            index,
            options.context_limit,
            options.expert_slots_per_layer,
        )?;
        check_needs(&requirements, &options)?;
        proof {
            lemma_accepted(config);
        }
        let prototype = match NgramHashState::new(&config, decoded, raw) {
            Ok(prototype) => prototype,
            Err(error) => {
                return Err(DeepseekV41RuntimeError::Engram(error));
            },
        };
        Ok(
            DeepseekV41RuntimeModel {
                instance_id,
                config,
                engram_hash_prototype: prototype,
                context_limit: options.context_limit,
                expert_slots_per_layer: options.expert_slots_per_layer,
                maximum_expert_bytes: options.maximum_expert_bytes,
            },
        )
    }

    pub fn config(&self) -> (config: &DeepseekV41Config)
        ensures
            *config == self@.config,
    {
        &self.config
    }

    fn fresh_rings(&self) -> (result: Result<Vec<WindowKvCache>, DeepseekV41RuntimeError>)
        requires
            self@.well_formed(),
        ensures
            problem(result) == attention::kv_problem(
                kv::window_problem(
                    self@.config.text_config.head_dim,
                    self@.config.text_config.sliding_window,
                ),
            ),
            result matches Ok(list) ==> {
                &&& ring_views(list@) == StateView::fresh(self@).attention
                &&& forall|i: int| 0 <= i < list@.len() ==> (#[trigger] list@[i]).well_formed()
            },
    {
        let text = &self.config.text_config;
        proof {
            lemma_accepted(self.config);
        }
        let mut list: Vec<WindowKvCache> = Vec::new();
        let mut layer: usize = 0;
        while layer < text.num_hidden_layers
            invariant
                text == &self@.config.text_config,
                layer <= text.num_hidden_layers,
                layer > 0 ==> kv::window_problem(text.head_dim, text.sliding_window) is None,
                list@.len() == layer,
                forall|i: int|
                    0 <= i < layer ==> (#[trigger] list@[i]).well_formed() && list@[i]@
                        == kv::WindowView::fresh(text.head_dim, text.sliding_window),
            decreases text.num_hidden_layers - layer,
        {
            match WindowKvCache::new(text.head_dim, text.sliding_window) {
                Ok(ring) => {
                    list.push(ring);
                },
                Err(error) => {
                    return Err(DeepseekV41RuntimeError::Kv(error));
                },
            }
            layer = layer + 1;
        }
        assert(ring_views(list@) =~= StateView::fresh(self@).attention);
        Ok(list)
    }

    fn fresh_sources(&self) -> (result: Result<Vec<SourceState>, DeepseekV41RuntimeError>)
        requires
            self@.well_formed(),
        ensures
            problem(result) == fresh_sources_problem(self@.config, 0),
            result matches Ok(list) ==> {
                &&& attention::source_views(list@) == StateView::fresh(self@).sources
                &&& attention::sources_well_formed(list@)
            },
    {
        let text = &self.config.text_config;
        proof {
            lemma_accepted(self.config);
        }
        let mut list: Vec<SourceState> = Vec::new();
        let mut i: usize = 0;
        while i < text.kv_source_layer_ids.len()
            invariant
                self@.config == self.config,
                text == &self.config.text_config,
                text.kv_source_layer_ids@ == seq![2usize, 8, 14, 20],
                text.compress_ratios@.len() >= 40,
                i <= text.kv_source_layer_ids@.len(),
                list@.len() == i,
                fresh_sources_problem(self.config, 0) == fresh_sources_problem(
                    self.config,
                    i as int,
                ),
                forall|k: int|
                    0 <= k < i ==> (#[trigger] list@[k]).well_formed() && list@[k]@
                        == fresh_sources(self.config, text.kv_source_layer_ids@.len())[k],
            decreases text.kv_source_layer_ids@.len() - i,
        {
            let owner: usize = text.kv_source_layer_ids[i];
            let source = SourceState::new(
                owner,
                text.compress_ratios[owner],
                text.head_dim,
                text.index_head_dim,
            )?;
            list.push(source);
            i = i + 1;
        }
        assert(attention::source_views(list@) =~= StateView::fresh(self@).sources);
        Ok(list)
    }

    /// The state of a new generation.
    pub fn new_state(&self) -> (result: Result<DeepseekV41RuntimeState, DeepseekV41RuntimeError>)
        requires
            self@.well_formed(),
        ensures
            problem(result) == first(
                attention::kv_problem(
                    kv::window_problem(
                        self@.config.text_config.head_dim,
                        self@.config.text_config.sliding_window,
                    ),
                ),
                fresh_sources_problem(self@.config, 0),
            ),
            result matches Ok(state) ==> state@ == StateView::fresh(self@) && state.well_formed(),
    {
        let rings = self.fresh_rings()?;
        let sources = self.fresh_sources()?;
        let experts = ExpertStore::new(
            &self.config.text_config,
            self.expert_slots_per_layer,
            self.maximum_expert_bytes,
        )?;
        proof {
            fresh_owners_differ(self@);
        }
        Ok(
            DeepseekV41RuntimeState {
                instance_id: self.instance_id,
                position: 0,
                attention: rings,
                sources,
                engram_hash: self.engram_hash_prototype.copy(),
                experts,
            },
        )
    }

    /// Refuses a token that the state cannot take.
    pub fn validate_step(&self, token: u32, state: &DeepseekV41RuntimeState) -> (result: Result<
        (),
        DeepseekV41RuntimeError,
    >)
        ensures
            problem(result) == token_problem(self@, state@, token),
    {
        if state.instance_id != self.instance_id {
            return invalid("state belongs to another runtime instance");
        }
        let vocabulary: usize = self.config.text_config.vocab_size;
        if token as u64 >= vocabulary as u64 {
            return Err(DeepseekV41RuntimeError::TokenOutOfRange { token, vocabulary });
        }
        if state.position >= self.context_limit {
            return Err(
                DeepseekV41RuntimeError::ContextExhausted {
                    position: state.position,
                    limit: self.context_limit,
                },
            );
        }
        Ok(())
    }

    /// Refuses a token, or takes what undoes it.
    pub fn begin_token(&self, token: u32, state: &DeepseekV41RuntimeState) -> (result: Result<
        StateCheckpoint,
        DeepseekV41RuntimeError,
    >)
        requires
            state.well_formed(),
        ensures
            problem(result) == token_problem(self@, state@, token),
            result matches Ok(checkpoint) ==> checkpoint.well_formed() && checkpoint@
                == state@.mark() && state@.owns(checkpoint@),
    {
        self.validate_step(token, state)?;
        Ok(StateCheckpoint::capture(state))
    }

    /// Counts a token that every layer has taken.
    pub fn finish_token(&self, state: &mut DeepseekV41RuntimeState)
        requires
            old(state).well_formed(),
            old(state)@.position < usize::MAX,
        ensures
            final(state).well_formed(),
            final(state)@ == (StateView {
                position: (old(state)@.position + 1) as usize,
                ..old(state)@
            }),
    {
        state.position = state.position + 1;
        assert(state@.sources =~= old(state)@.sources);
    }

    /// Undoes a token that failed with `error`, whose text is `cause`. The experts that it loaded
    /// stay. Where it cannot be undone, the error gives both reasons.
    pub fn fail_token(
        state: &mut DeepseekV41RuntimeState,
        checkpoint: StateCheckpoint,
        error: DeepseekV41RuntimeError,
        cause: &str,
    ) -> (failure: DeepseekV41RuntimeError)
        requires
            old(state).well_formed(),
            checkpoint.well_formed(),
        ensures
            final(state)@ == old(state)@.restored(checkpoint@),
            old(state)@.owns(checkpoint@) ==> final(state).well_formed(),
            match old(state)@.restore_problem(checkpoint@) {
                None => failure == error,
                Some(problem) => failure@ == RuntimeProblem::Invalid(
                    both_failed_message(cause@, restore_text(problem)),
                ),
            },
    {
        let ghost before = state@;
        match checkpoint.restore(state) {
            Ok(_) => error,
            Err(restore_error) => {
                proof {
                    lemma_undo_kinds(before.sources, checkpoint@.sources, 0);
                    assert(restore_error.text() == Some(restore_text(restore_error@)));
                }
                join_failures(cause, &restore_error)
            },
        }
    }
}

/// The error of a token that failed for `cause` and could not be undone for `restore_error`.
pub fn join_failures(cause: &str, restore_error: &DeepseekV41RuntimeError) -> (failure:
    DeepseekV41RuntimeError)
    ensures
        failure@ == RuntimeProblem::Invalid(
            both_failed_message(
                cause@,
                match restore_error.text() {
                    Some(text) => text,
                    None => Seq::empty(),
                },
            ),
        ),
{
    let mut reason = join("token execution failed (", cause);
    reason.append("); state rollback also failed (");
    match restore_error.message() {
        Some(text) => {
            reason.append(text.as_str());
        },
        None => {},
    }
    reason.append(")");
    proof {
        match restore_error.text() {
            Some(text) => {
                assert(reason@ =~= both_failed_message(cause@, text));
            },
            None => {
                assert(reason@ =~= both_failed_message(cause@, Seq::empty()));
            },
        }
    }
    DeepseekV41RuntimeError::Invalid(reason)
}

/// Undoes the changes of a token to one source.
fn restore_source(source: &mut SourceState, checkpoint: SourceCheckpoint) -> (result: Result<
    (),
    DeepseekV41RuntimeError,
>)
    requires
        parts_well_formed(*old(source)),
        checkpoint.compressor.well_formed(),
    ensures
        final(source)@ == undone_source(old(source)@, checkpoint@),
        parts_well_formed(*final(source)),
        problem(result) == (if checkpoint@.main > old(source)@.main.rows.len() {
            Some(RuntimeProblem::Kv("rollback checkpoint is beyond the current cache"@))
        } else if checkpoint@.index > old(source)@.index.rows.len() {
            Some(
                RuntimeProblem::Kv("index-key rollback checkpoint is beyond the current cache"@),
            )
        } else {
            None
        }),
{
    let ghost before = source@;
    let SourceCheckpoint { owner: _, compressor, main, index } = checkpoint;
    source.compressor = compressor;
    match source.main.rollback(main) {
        Ok(_) => {},
        Err(error) => {
            assert(source@ =~= undone_source(before, checkpoint@));
            return Err(DeepseekV41RuntimeError::Kv(error));
        },
    }
    match source.index.rollback(index) {
        Ok(_) => {},
        Err(error) => {
            assert(source@ =~= undone_source(before, checkpoint@));
            return Err(DeepseekV41RuntimeError::Kv(error));
        },
    }
    assert(source@ =~= undone_source(before, checkpoint@));
    Ok(())
}

impl StateCheckpoint {
    /// Marks the state before a token.
    pub fn capture(state: &DeepseekV41RuntimeState) -> (checkpoint: Self)
        requires
            state.well_formed(),
        ensures
            checkpoint.well_formed(),
            checkpoint@ == state@.mark(),
            state@.owns(checkpoint@),
    {
        let mut rings: Vec<WindowKvCache> = Vec::new();
        let mut i: usize = 0;
        while i < state.attention.len()
            invariant
                state.well_formed(),
                i <= state.attention@.len(),
                rings@.len() == i,
                forall|k: int|
                    0 <= k < i ==> (#[trigger] rings@[k])@ == state.attention@[k]@
                        && rings@[k].well_formed(),
            decreases state.attention@.len() - i,
        {
            assert(state.attention@[i as int].well_formed());
            rings.push(state.attention[i].copy());
            i = i + 1;
        }
        let mut sources: Vec<SourceCheckpoint> = Vec::new();
        let mut j: usize = 0;
        while j < state.sources.len()
            invariant
                state.well_formed(),
                j <= state.sources@.len(),
                sources@.len() == j,
                forall|k: int|
                    0 <= k < j ==> (#[trigger] sources@[k])@ == state@.mark().sources[k]
                        && sources@[k].compressor.well_formed(),
            decreases state.sources@.len() - j,
        {
            let source = &state.sources[j];
            assert(source.well_formed());
            assert(state@.sources[j as int] == source@);
            sources.push(
                SourceCheckpoint {
                    owner: source.owner,
                    compressor: source.compressor.copy(),
                    main: source.main.len(),
                    index: source.index.len(),
                },
            );
            j = j + 1;
        }
        let checkpoint = StateCheckpoint {
            attention: rings,
            sources,
            hash: state.engram_hash.checkpoint(),
        };
        proof {
            assert(ring_views(rings@) =~= state@.attention);
            assert(marks(sources@) =~= state@.mark().sources);
            lemma_own_ratios(*state);
        }
        checkpoint
    }

    /// Undoes a token.
    pub fn restore(self, state: &mut DeepseekV41RuntimeState) -> (result: Result<
        (),
        DeepseekV41RuntimeError,
    >)
        requires
            old(state).well_formed(),
            self.well_formed(),
        ensures
            problem(result) == old(state)@.restore_problem(self@),
            final(state)@ == old(state)@.restored(self@),
            old(state)@.owns(self@) ==> final(state).well_formed(),
    {
        let ghost before = state@;
        let ghost mark = self@;
        let StateCheckpoint { attention: rings, sources, hash } = self;
        state.attention = rings;
        restore_sources(&mut state.sources, sources)?;
        match state.engram_hash.rollback(hash) {
            Ok(_) => {
                assert(state@ =~= before.restored(mark));
                Ok(())
            },
            Err(error) => {
                assert(state@ =~= before.restored(mark));
                Err(DeepseekV41RuntimeError::Engram(error))
            },
        }
    }
}

/// Parts of a source are well-formed, whatever ratio its group has.
pub open spec fn parts_well_formed(source: SourceState) -> bool {
    &&& source.compressor.well_formed()
    &&& source.main.well_formed()
    &&& source.index.well_formed()
}

/// The sources belong to the same owners, with the same ratios.
pub open spec fn same_owners(
    before: Seq<attention::SourceView>,
    after: Seq<attention::SourceView>,
) -> bool {
    &&& after.len() == before.len()
    &&& forall|k: int|
        0 <= k < before.len() ==> (#[trigger] after[k]).owner == before[k].owner && after[k].ratio
            == before[k].ratio
}

/// A source that cannot be undone has disappeared, or one of its lists is too short.
proof fn lemma_undo_kinds(
    sources: Seq<attention::SourceView>,
    list: Seq<SourceMark>,
    from: int,
)
    ensures
        undo_problems(sources, list, from) matches Some(problem) ==> problem is Invalid
            || problem is Kv,
    decreases list.len() - from,
{
    if 0 <= from < list.len() && undo_problem(sources, list[from]) is None {
        lemma_undo_kinds(with_undone(sources, list[from]), list, from + 1);
    }
}

/// What is marked in a state is its own.
proof fn lemma_own_ratios(state: DeepseekV41RuntimeState)
    requires
        state.well_formed(),
    ensures
        state@.owns(state@.mark()),
{
    let sources = state@.sources;
    let list = state@.mark().sources;
    assert forall|i: int, j: int|
        0 <= i < sources.len() && 0 <= j < list.len() && (#[trigger] sources[i]).owner == (
        #[trigger] list[j]).owner implies sources[i].ratio == list[j].compressor.ratio by {
        assert(sources[j].owner == list[j].owner);
        assert(i == j);
        assert(state.sources@[i].well_formed());
    }
}

fn restore_sources(sources: &mut Vec<SourceState>, checkpoints: Vec<SourceCheckpoint>) -> (result:
    Result<(), DeepseekV41RuntimeError>)
    requires
        attention::sources_well_formed(old(sources)@),
        forall|i: int|
            0 <= i < checkpoints@.len() ==> (
            #[trigger] checkpoints@[i]).compressor.well_formed(),
    ensures
        problem(result) == undo_problems(
            attention::source_views(old(sources)@),
            marks(checkpoints@),
            0,
        ),
        attention::source_views(final(sources)@) == all_undone(
            attention::source_views(old(sources)@),
            marks(checkpoints@),
            0,
        ),
        same_owners(attention::source_views(old(sources)@), attention::source_views(
            final(sources)@,
        )),
        same_ratios(attention::source_views(old(sources)@), marks(checkpoints@))
            ==> attention::sources_well_formed(final(sources)@),
{
    let ghost list = marks(checkpoints@);
    let ghost start = attention::source_views(sources@);
    let ghost all = checkpoints@;
    let mut rest = checkpoints;
    let count: usize = rest.len();
    let mut i: usize = 0;
    while i < count
        invariant
            all == checkpoints@,
            list == marks(all),
            start == attention::source_views(old(sources)@),
            count == all.len(),
            i <= count,
            rest@ == all.skip(i as int),
            forall|k: int| 0 <= k < all.len() ==> (#[trigger] all[k]).compressor.well_formed(),
            forall|k: int|
                0 <= k < sources@.len() ==> parts_well_formed(#[trigger] sources@[k]),
            same_owners(start, attention::source_views(sources@)),
            same_ratios(start, list) ==> attention::sources_well_formed(sources@),
            undo_problems(start, list, 0) == undo_problems(
                attention::source_views(sources@),
                list,
                i as int,
            ),
            all_undone(start, list, 0) == all_undone(
                attention::source_views(sources@),
                list,
                i as int,
            ),
        decreases count - i,
    {
        let checkpoint = rest.remove(0);
        let ghost views = attention::source_views(sources@);
        proof {
            assert(checkpoint == all[i as int]);
            assert(rest@ =~= all.skip(i + 1));
            assert(list[i as int] == checkpoint@);
        }
        let place: usize = match attention::find_owner(sources, checkpoint.owner) {
            Some(place) => place,
            None => {
                let mut reason = "KV source ".to_owned();
                push_decimal(&mut reason, checkpoint.owner as u64);
                reason.append(" disappeared while restoring a failed token");
                return Err(DeepseekV41RuntimeError::Invalid(reason));
            },
        };
        assert(views[place as int] == sources@[place as int]@);
        assert(parts_well_formed(sources@[place as int]));
        let outcome = restore_source(&mut sources[place], checkpoint);
        proof {
            let now = attention::source_views(sources@);
            assert(now =~= with_undone(views, checkpoint@));
            attention::lemma_place_of(views, checkpoint.owner, 0);
            assert(start[place as int].owner == views[place as int].owner);
            assert(now[place as int] == sources@[place as int]@);
            assert forall|k: int| 0 <= k < start.len() implies (#[trigger] now[k]).owner
                == start[k].owner && now[k].ratio == start[k].ratio by {
                assert(views[k].owner == start[k].owner);
            }
        }
        outcome?;
        i = i + 1;
    }
    Ok(())
}

impl DeepseekV41RuntimeState {
    pub fn position(&self) -> (position: usize)
        ensures
            position == self@.position,
    {
        self.position
    }

    pub fn expert_telemetry(&self) -> (telemetry: &ExpertTelemetry)
        ensures
            *telemetry == self@.experts.telemetry,
    {
        self.experts.telemetry()
    }
}

/// What a token does to a source makes it grow: a group changes, an entry or a key is appended.
pub proof fn steps_grow_a_source(
    before: attention::SourceView,
    now: attention::SourceView,
    group: compressor::GroupState,
    row: kv::RowView,
)
    requires
        source_grew(before, now),
    ensures
        source_grew(before, (attention::SourceView { compressor: group, ..now })),
        source_grew(before, (attention::SourceView { main: now.main.pushed(row), ..now })),
        source_grew(before, (attention::SourceView { index: now.index.pushed(row), ..now })),
{
    let entries = now.main.rows.push(row);
    let keys = now.index.rows.push(row);
    assert(entries.take(before.main.rows.len() as int) =~= now.main.rows.take(
        before.main.rows.len() as int,
    ));
    assert(keys.take(before.index.rows.len() as int) =~= now.index.rows.take(
        before.index.rows.len() as int,
    ));
}

/// The sources of a new generation have different owners.
pub proof fn fresh_owners_differ(model: ModelView)
    requires
        model.well_formed(),
    ensures
        owners_differ(StateView::fresh(model).sources),
{
    lemma_accepted(model.config);
}

/// The bytes of the first `count` rings.
pub open spec fn rings_bytes(rings: Seq<kv::WindowView>, count: nat) -> nat
    decreases count,
{
    if count == 0 {
        0
    } else {
        rings_bytes(rings, (count - 1) as nat) + kv::slots_bytes(rings[count - 1].slots)
    }
}

/// The bytes of one source.
pub open spec fn source_bytes(source: attention::SourceView) -> nat {
    (source.compressor.values.len() + source.compressor.scores.len()) * 4 + kv::rows_bytes(
        source.main.rows,
    ) + kv::rows_bytes(
        source.index.rows,
    )
}

/// The bytes of the first `count` sources.
pub open spec fn sources_bytes(sources: Seq<attention::SourceView>, count: nat) -> nat
    decreases count,
{
    if count == 0 {
        0
    } else {
        sources_bytes(sources, (count - 1) as nat) + source_bytes(sources[count - 1])
    }
}

impl StateView {
    /// The bytes of all caches.
    pub open spec fn bytes(self) -> nat {
        rings_bytes(self.attention, self.attention.len()) + sources_bytes(
            self.sources,
            self.sources.len(),
        )
    }
}

proof fn lemma_rings_grow(rings: Seq<kv::WindowView>, count: nat, more: nat)
    requires
        count <= more,
    ensures
        rings_bytes(rings, count) <= rings_bytes(rings, more),
    decreases more,
{
    if count < more {
        lemma_rings_grow(rings, count, (more - 1) as nat);
    }
}

proof fn lemma_sources_grow(sources: Seq<attention::SourceView>, count: nat, more: nat)
    requires
        count <= more,
    ensures
        sources_bytes(sources, count) <= sources_bytes(sources, more),
    decreases more,
{
    if count < more {
        lemma_sources_grow(sources, count, (more - 1) as nat);
    }
}

impl DeepseekV41RuntimeState {
    /// The bytes of all caches.
    pub fn cache_bytes(&self) -> (bytes: usize)
        requires
            self.well_formed(),
            self@.bytes() <= usize::MAX,
        ensures
            bytes == self@.bytes(),
    {
        let ghost rings = self@.attention;
        let ghost sources = self@.sources;
        let mut bytes: usize = 0;
        let mut i: usize = 0;
        while i < self.attention.len()
            invariant
                self.well_formed(),
                rings == self@.attention,
                rings_bytes(rings, rings.len()) <= usize::MAX,
                i <= rings.len() == self.attention@.len(),
                bytes == rings_bytes(rings, i as nat),
            decreases rings.len() - i,
        {
            proof {
                lemma_rings_grow(rings, (i + 1) as nat, rings.len());
                assert(rings[i as int] == self.attention@[i as int]@);
                assert(self.attention@[i as int].well_formed());
            }
            bytes = bytes + self.attention[i].storage_bytes();
            i = i + 1;
        }
        let mut j: usize = 0;
        while j < self.sources.len()
            invariant
                self.well_formed(),
                sources == self@.sources,
                rings_bytes(rings, rings.len()) + sources_bytes(sources, sources.len())
                    <= usize::MAX,
                j <= sources.len() == self.sources@.len(),
                bytes == rings_bytes(rings, rings.len()) + sources_bytes(sources, j as nat),
            decreases sources.len() - j,
        {
            let source = &self.sources[j];
            proof {
                lemma_sources_grow(sources, (j + 1) as nat, sources.len());
                assert(sources[j as int] == source@);
                assert(source.well_formed());
            }
            bytes = bytes + (source.compressor.state_bytes() + source.main.storage_bytes()
                + source.index.storage_bytes());
            j = j + 1;
        }
        bytes
    }
}

/// A model is admitted exactly where each of its needs is within its budget.
pub proof fn needs_within_their_budgets_are_admitted(
    requirements: DeepseekV41Requirements,
    options: RuntimeLoadOptions,
)
    ensures
        admission_problem(requirements, options) is None <==> {
            &&& requirements.streamed_layer_bytes <= options.resident_budget_bytes
            &&& requirements.kv_cache_bytes <= options.kv_cache_budget_bytes
            &&& requirements.maximum_expert_bytes <= options.maximum_expert_bytes
            &&& requirements.expert_cache_bytes <= options.expert_cache_budget_bytes
        },
{
}

/// A model is loaded exactly where it has its budgets, its configuration is accepted, its checkpoint is
/// that of the release, its needs are within the budgets and its tokens can be hashed.
pub proof fn sound_models_are_loaded(
    model: DeepseekV41Config,
    index: storage::IndexView,
    options: RuntimeLoadOptions,
    token_map: Seq<u32>,
)
    ensures
        load_problem(model, index, options, token_map) is None <==> {
            let needs = schema::requirements(
                model,
                index,
                options.context_limit,
                options.expert_slots_per_layer,
            );
            &&& !options.lacks_a_budget()
            &&& model.refusal() is None
            &&& needs is Ok
            &&& admission_problem(needs->Ok_0, options) is None
            &&& engram::hasher_problem(model, token_map) is None
        },
{
}

/// A token is taken exactly where the state is the model's own, the vocabulary holds it and the
/// context has a place left.
pub proof fn sound_tokens_are_taken(model: ModelView, state: StateView, token: u32)
    ensures
        token_problem(model, state, token) is None <==> state.instance_id == model.instance_id
            && token < model.config.text_config.vocab_size && state.position < model.context_limit,
{
}

/// A fresh state is at the first position, with an empty window for every layer, an empty source for
/// every owner by its ratio, the hasher of the model and no expert resident.
pub proof fn fresh_states_are_empty(model: ModelView, layer: int, i: int)
    requires
        0 <= layer < model.config.text_config.num_hidden_layers,
        0 <= i < model.config.text_config.kv_source_layer_ids@.len(),
    ensures
        ({
            let text = model.config.text_config;
            let fresh = StateView::fresh(model);
            let owner = text.kv_source_layer_ids@[i];
            &&& fresh.instance_id == model.instance_id
            &&& fresh.position == 0
            &&& fresh.attention.len() == text.num_hidden_layers
            &&& fresh.attention[layer].width == text.head_dim
            &&& fresh.attention[layer].next_position == 0
            &&& fresh.attention[layer].slots.len() == text.sliding_window
            &&& fresh.sources.len() == text.kv_source_layer_ids@.len()
            &&& fresh.sources[i].owner == owner
            &&& fresh.sources[i].ratio == text.compress_ratios@[owner as int]
            &&& fresh.sources[i].main.rows.len() == 0 && fresh.sources[i].index.rows.len() == 0
            &&& fresh.sources[i].main.width == text.head_dim
            &&& fresh.sources[i].index.width == text.index_head_dim
            &&& fresh.sources[i].compressor.next_position == 0
            &&& fresh.hash == model.hash
            &&& fresh.experts.cache.len() == text.num_hidden_layers
            &&& fresh.experts.cache[layer].residents.len() == 0
            &&& fresh.experts.cache[layer].capacity == model.expert_slots_per_layer
        }),
{
}

/// The bytes of a state are those of its windows and of its sources; a source takes four for every value
/// in its workspace and what its rows take.
pub proof fn states_take_the_bytes_of_their_parts(
    rings: Seq<kv::WindowView>,
    sources: Seq<attention::SourceView>,
    count: nat,
)
    ensures
        rings_bytes(rings, 0) == 0 && sources_bytes(sources, 0) == 0,
        rings_bytes(rings, count + 1) == rings_bytes(rings, count) + kv::slots_bytes(
            rings[count as int].slots,
        ),
        sources_bytes(sources, count + 1) == sources_bytes(sources, count) + 4 * (
        sources[count as int].compressor.values.len() + sources[count as int].compressor.scores.len())
            + kv::rows_bytes(sources[count as int].main.rows) + kv::rows_bytes(
            sources[count as int].index.rows,
        ),
{
}

} // verus!
