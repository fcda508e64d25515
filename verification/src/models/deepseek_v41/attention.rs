//! What the attention of DeepSeek-V4.1 keeps between tokens and decides within one: the ring of
//! recent positions of each layer, the compressed entries of the layers that own them, and which
//! entries a token attends to.

use super::compressor::{CompressorState, Pushed};
use super::config::{DeepseekV41Config, DeepseekV41TextConfig};
use super::indexer::{select_candidate_blocks, select_positions};
use super::kv::{IndexKeyCache, MainKvCache, WindowKvCache};
use super::runtime::{invalid, DeepseekV41RuntimeError};
use super::{compressor, config, indexer, kv, runtime};
use crate::bits::Float64;
use crate::ranking;
use crate::text;
use crate::text::push_decimal;
use vstd::prelude::*;
use vstd::string::*;

verus! {

/// The positions that a token attends to in the ring: itself and those before it that a window of
/// this size still covers.
pub open spec fn first_in_window(position: usize, window: usize) -> int {
    let end = if position == usize::MAX {
        position as int
    } else {
        position + 1
    };
    if end >= window {
        end - window
    } else {
        0
    }
}

pub open spec fn window_list(position: usize, window: usize) -> Seq<usize> {
    Seq::new(
        (position + 1 - first_in_window(position, window)) as nat,
        |i: int| (first_in_window(position, window) + i) as usize,
    )
}

/// Lists the positions that a token attends to in the ring, in order.
pub fn window_positions(position: usize, window: usize) -> (list: Vec<usize>)
    ensures
        list@ == window_list(position, window),
{
    let start: usize = position.saturating_add(1).saturating_sub(window);
    let mut list: Vec<usize> = Vec::new();
    if start > position {
        assert(list@ =~= window_list(position, window));
        return list;
    }
    let mut next: usize = start;
    while next < position
        invariant
            start == first_in_window(position, window),
            start <= next <= position,
            list@ == window_list(position, window).take(next - start),
        decreases position - next,
    {
        list.push(next);
        next = next + 1;
        assert(list@ =~= window_list(position, window).take(next - start));
    }
    list.push(position);
    assert(list@ =~= window_list(position, window));
    list
}

/// How positions are rotated: the base, and for compressed entries the length and the factor of
/// the extension.
#[derive(Debug, Clone, Copy, PartialEq, Eq, Structural)]
pub struct RopeParameters {
    pub base: Float64,
    pub original_length: Option<usize>,
    pub factor: usize,
}

/// The rotation of a layer with this compression ratio.
pub fn rope_parameters(ratio: usize, text: &DeepseekV41TextConfig) -> (rope: RopeParameters)
    ensures
        ratio == 0 ==> rope == (RopeParameters {
            base: text.rope_theta,
            original_length: None,
            factor: 1,
        }),
        ratio != 0 ==> rope == (RopeParameters {
            base: text.compress_rope_theta,
            original_length: Some(text.rope_scaling.original_max_position_embeddings),
            factor: text.rope_scaling.factor,
        }),
{
    if ratio == 0 {
        RopeParameters { base: text.rope_theta, original_length: None, factor: 1 }
    } else {
        RopeParameters {
            base: text.compress_rope_theta,
            original_length: Some(text.rope_scaling.original_max_position_embeddings),
            factor: text.rope_scaling.factor,
        }
    }
}

/// The compressed entries of a layer that owns them.
#[derive(Debug, Clone)]
pub struct SourceState {
    pub owner: usize,
    pub ratio: usize,
    pub compressor: CompressorState,
    pub main: MainKvCache,
    pub index: IndexKeyCache,
}

/// The same, over plain values.
#[verifier::ext_equal]
pub struct SourceView {
    pub owner: usize,
    pub ratio: usize,
    pub compressor: compressor::GroupState,
    pub main: kv::CacheView,
    pub index: kv::CacheView,
}

impl View for SourceState {
    type V = SourceView;

    open spec fn view(&self) -> SourceView {
        SourceView {
            owner: self.owner,
            ratio: self.ratio,
            compressor: self.compressor@,
            main: self.main@,
            index: self.index@,
        }
    }
}

pub open spec fn source_views(list: Seq<SourceState>) -> Seq<SourceView> {
    Seq::new(list.len(), |i: int| list[i]@)
}

impl SourceState {
    pub open spec fn well_formed(&self) -> bool {
        &&& self.compressor.well_formed()
        &&& self.compressor@.ratio == self.ratio
        &&& self.main.well_formed()
        &&& self.index.well_formed()
    }
}

/// Every source is well-formed.
pub open spec fn sources_well_formed(list: Seq<SourceState>) -> bool {
    forall|i: int| 0 <= i < list.len() ==> (#[trigger] list[i]).well_formed()
}

/// What the layers of one token hand on: which compressed entries were selected, and which blocks
/// are candidates.
#[derive(Debug)]
pub struct SharedAttentionStep {
    pub selected: Vec<usize>,
    pub candidates: Option<Vec<bool>>,
}

/// The same, over plain values.
#[verifier::ext_equal]
pub struct SharedView {
    pub selected: Seq<usize>,
    pub candidates: Option<Seq<bool>>,
}

impl View for SharedAttentionStep {
    type V = SharedView;

    open spec fn view(&self) -> SharedView {
        SharedView {
            selected: self.selected@,
            candidates: match self.candidates {
                Some(mask) => Some(mask@),
                None => None,
            },
        }
    }
}

impl SharedAttentionStep {
    /// What a token begins with.
    pub fn new() -> (step: Self)
        ensures
            step@ == (SharedView { selected: Seq::empty(), candidates: None }),
    {
        SharedAttentionStep { selected: Vec::new(), candidates: None }
    }
}

impl Default for SharedAttentionStep {
    fn default() -> (step: Self)
        ensures
            step@ == (SharedView { selected: Seq::empty(), candidates: None }),
    {
        SharedAttentionStep::new()
    }
}

pub open spec fn window_expected_message(layer: usize, next: nat, position: usize) -> Seq<char> {
    "layer "@ + text::decimal(layer as nat) + " window expected position "@ + text::decimal(next)
        + ", got "@ + text::decimal(position as nat)
}

/// Refuses a token that is not the next one of the layer's ring.
pub fn check_window(layer: usize, window: &WindowKvCache, position: usize) -> (result: Result<
    (),
    DeepseekV41RuntimeError,
>)
    ensures
        runtime::problem(result) == runtime::invalid_if(
            window@.next_position != position,
            window_expected_message(layer, window@.next_position, position),
        ),
{
    let next: usize = window.next_position();
    if next != position {
        let mut reason = "layer ".to_owned();
        push_decimal(&mut reason, layer as u64);
        reason.append(" window expected position ");
        push_decimal(&mut reason, next as u64);
        reason.append(", got ");
        push_decimal(&mut reason, position as u64);
        return Err(DeepseekV41RuntimeError::Invalid(reason));
    }
    Ok(())
}

/// The place of the state of an owner.
pub open spec fn place_of(sources: Seq<SourceView>, owner: usize, from: int) -> Option<int>
    decreases sources.len() - from,
{
    if from < 0 || from >= sources.len() {
        None
    } else if sources[from].owner == owner {
        Some(from)
    } else {
        place_of(sources, owner, from + 1)
    }
}

/// A place that is found lies in the list and holds the owner.
pub(crate) proof fn lemma_place_of(sources: Seq<SourceView>, owner: usize, from: int)
    ensures
        place_of(sources, owner, from) matches Some(place) ==> 0 <= place < sources.len()
            && sources[place].owner == owner,
    decreases sources.len() - from,
{
    if 0 <= from < sources.len() && sources[from].owner != owner {
        lemma_place_of(sources, owner, from + 1);
    }
}

pub open spec fn no_source_message(layer: usize, ratio: usize) -> Seq<char> {
    "layer "@ + text::decimal(layer as nat) + " has compression ratio "@ + text::decimal(
        ratio as nat,
    ) + " but no preceding KV source"@
}

pub open spec fn missing_state_message(owner: usize) -> Seq<char> {
    "missing state for KV source "@ + text::decimal(owner as nat)
}

/// The owner whose compressed entries a layer reads.
pub open spec fn owner_of(model: DeepseekV41Config, layer: usize) -> Option<usize> {
    if layer < model.text_config.num_hidden_layers {
        config::latest_source(model.text_config.kv_source_layer_ids@, layer)
    } else {
        None
    }
}

/// Why a compressed layer cannot find the entries that it reads.
pub open spec fn source_problem(
    model: DeepseekV41Config,
    layer: usize,
    ratio: usize,
    sources: Seq<SourceView>,
) -> Option<runtime::RuntimeProblem> {
    match owner_of(model, layer) {
        None => Some(runtime::RuntimeProblem::Invalid(no_source_message(layer, ratio))),
        Some(owner) => match place_of(sources, owner, 0) {
            None => Some(runtime::RuntimeProblem::Invalid(missing_state_message(owner))),
            Some(place) => runtime::invalid_if(
                sources[place].ratio != ratio,
                "consumer compression ratio differs from its KV source"@,
            ),
        },
    }
}

/// Finds the state of an owner.
pub fn find_owner(sources: &Vec<SourceState>, owner: usize) -> (place: Option<usize>)
    ensures
        match place {
            Some(at) => place_of(source_views(sources@), owner, 0) == Some(at as int) && at
                < sources@.len(),
            None => place_of(source_views(sources@), owner, 0) is None,
        },
{
    let ghost views = source_views(sources@);
    let mut at: usize = 0;
    while at < sources.len()
        invariant
            views == source_views(sources@),
            at <= sources@.len(),
            place_of(views, owner, 0) == place_of(views, owner, at as int),
        decreases sources@.len() - at,
    {
        assert(views[at as int] == sources@[at as int]@);
        if sources[at].owner == owner {
            return Some(at);
        }
        at = at + 1;
    }
    None
}

/// Finds the compressed entries that a layer with this ratio reads.
pub fn find_source(
    model: &DeepseekV41Config,
    layer: usize,
    ratio: usize,
    sources: &Vec<SourceState>,
) -> (result: Result<usize, DeepseekV41RuntimeError>)
    ensures
        runtime::problem(result) == source_problem(*model, layer, ratio, source_views(sources@)),
        result matches Ok(place) ==> {
            &&& place < sources@.len()
            &&& owner_of(*model, layer) is Some
            &&& place_of(source_views(sources@), owner_of(*model, layer)->0, 0) == Some(
                place as int,
            )
            &&& sources@[place as int].ratio == ratio
        },
{
    let owner: usize = match model.kv_source_for(layer) {
        Some(owner) => owner,
        None => {
            let mut reason = "layer ".to_owned();
            push_decimal(&mut reason, layer as u64);
            reason.append(" has compression ratio ");
            push_decimal(&mut reason, ratio as u64);
            reason.append(" but no preceding KV source");
            return Err(DeepseekV41RuntimeError::Invalid(reason));
        },
    };
    let place: usize = match find_owner(sources, owner) {
        Some(place) => place,
        None => {
            let mut reason = "missing state for KV source ".to_owned();
            push_decimal(&mut reason, owner as u64);
            return Err(DeepseekV41RuntimeError::Invalid(reason));
        },
    };
    assert(source_views(sources@)[place as int] == sources@[place as int]@);
    if sources[place].ratio != ratio {
        return invalid("consumer compression ratio differs from its KV source");
    }
    Ok(place)
}

/// A row of values with the codes and scales that it was rounded to.
#[derive(Debug)]
pub struct RoundedRow {
    pub values: Vec<u32>,
    pub codes: Vec<u8>,
    pub scales: Vec<u8>,
}

impl RoundedRow {
    /// The codes are right for the values, wherever the values can be a row at all.
    pub open spec fn sound(self, group: usize) -> bool {
        kv::row_problem(self.values@, group) is None ==> kv::rounded(
            self.values@.len(),
            self.codes@,
            self.scales@,
            group,
        )
    }

    pub open spec fn row(self) -> kv::RowView {
        kv::RowView::of(self.codes@, self.scales@)
    }
}

/// A problem of a packed cache.
pub open spec fn kv_problem(problem: Option<Seq<char>>) -> Option<runtime::RuntimeProblem> {
    match problem {
        Some(reason) => Some(runtime::RuntimeProblem::Kv(reason)),
        None => None,
    }
}

pub open spec fn compressor_problem(problem: Option<Seq<char>>) -> Option<
    runtime::RuntimeProblem,
> {
    match problem {
        Some(reason) => Some(runtime::RuntimeProblem::Compressor(reason)),
        None => None,
    }
}

pub open spec fn indexer_problem(problem: Option<Seq<char>>) -> Option<runtime::RuntimeProblem> {
    match problem {
        Some(reason) => Some(runtime::RuntimeProblem::Indexer(reason)),
        None => None,
    }
}

pub open spec fn keys_message(layer: usize, keys: nat, position: usize, expected: int) -> Seq<char> {
    "index source "@ + text::decimal(layer as nat) + " has "@ + text::decimal(keys)
        + " keys at position "@ + text::decimal(position as nat) + ", expected "@ + text::decimal(
        expected as nat,
    )
}

/// How many groups of `ratio` tokens are complete behind a position.
pub open spec fn complete_groups(position: usize, ratio: usize) -> int {
    (position + 1) / (ratio as int)
}

impl SourceView {
    /// A source that holds nothing.
    pub open spec fn fresh(owner: usize, ratio: usize, head_dim: usize, index_dim: usize) -> (
        SourceView
    ) {
        SourceView {
            owner,
            ratio,
            compressor: compressor::GroupState::fresh(ratio, head_dim),
            main: kv::CacheView { width: head_dim as nat, rows: Seq::empty() },
            index: kv::CacheView { width: index_dim as nat, rows: Seq::empty() },
        }
    }

    /// Why the key of a compressed entry is not taken.
    pub open spec fn key_problem(self, owns_key: bool, latent: bool, key: Option<RoundedRow>) -> (
        Option<runtime::RuntimeProblem>
    ) {
        if owns_key && latent {
            kv_problem(
                IndexKeyCache::push_problem(self.index, key->0.values@),
            )
        } else {
            runtime::invalid_if(
                latent,
                "index owner has incomplete key projection weights"@,
            )
        }
    }

    /// The source with the key of a compressed entry.
    pub open spec fn with_key(self, owns_key: bool, latent: bool, key: Option<RoundedRow>) -> (
        SourceView
    ) {
        if owns_key && latent {
            SourceView { index: self.index.pushed(key->0.row()), ..self }
        } else {
            self
        }
    }

    /// Why a layer cannot select at a position: there is not one key for every complete group.
    pub open spec fn count_problem(self, layer: usize, position: usize) -> Option<
        runtime::RuntimeProblem,
    > {
        runtime::invalid_if(
            self.index.rows.len() != complete_groups(position, self.ratio),
            keys_message(
                layer,
                self.index.rows.len(),
                position,
                complete_groups(position, self.ratio),
            ),
        )
    }
}

impl SourceState {
    pub fn new(owner: usize, ratio: usize, head_dim: usize, index_dim: usize) -> (result: Result<
        Self,
        DeepseekV41RuntimeError,
    >)
        ensures
            ({
                let group = compressor::fresh_problem(ratio, head_dim);
                let main = kv::main_width_problem(head_dim);
                let index = kv::index_width_problem(index_dim);
                runtime::problem(result) == runtime::first(
                    compressor_problem(group),
                    runtime::first(kv_problem(main), kv_problem(index)),
                )
            }),
            result matches Ok(source) ==> {
                &&& source.well_formed()
                &&& source@ == SourceView::fresh(owner, ratio, head_dim, index_dim)
            },
    {
        let group = match CompressorState::new(ratio, head_dim) {
            Ok(group) => group,
            Err(error) => {
                return Err(DeepseekV41RuntimeError::Compressor(error));
            },
        };
        let main = match MainKvCache::new(head_dim) {
            Ok(main) => main,
            Err(error) => {
                return Err(DeepseekV41RuntimeError::Kv(error));
            },
        };
        let index = match IndexKeyCache::new(index_dim) {
            Ok(index) => index,
            Err(error) => {
                return Err(DeepseekV41RuntimeError::Kv(error));
            },
        };
        Ok(SourceState { owner, ratio, compressor: group, main, index })
    }

    /// Takes the projections of a token. What is emitted, if anything, is a compressed entry.
    pub fn compress(&mut self, position: usize, projected: &[u32], gate_scores: Option<&[u32]>) -> (
        result: Result<Pushed, DeepseekV41RuntimeError>)
        requires
            old(self).well_formed(),
            position < usize::MAX,
        ensures
            final(self).well_formed(),
            ({
                let gates = compressor::gate_view(gate_scores);
                &&& runtime::problem(result) == compressor_problem(
                    old(self)@.compressor.push_problem(position, projected@, gates),
                )
                &&& match result {
                    Ok(outcome) => {
                        let (group, emitted) = old(self)@.compressor.after_token(
                            projected@,
                            gates,
                        );
                        &&& outcome@ == emitted
                        &&& final(self)@ == (SourceView { compressor: group, ..old(self)@ })
                    },
                    Err(_) => final(self)@ == old(self)@,
                }
            }),
    {
        match self.compressor.push(position, projected, gate_scores) {
            Ok(outcome) => Ok(outcome),
            Err(error) => Err(DeepseekV41RuntimeError::Compressor(error)),
        }
    }

    /// The position that the key of the next compressed entry is rotated to.
    pub fn key_position(&self) -> (position: usize)
        requires
            self@.index.rows.len() * self.ratio <= usize::MAX,
        ensures
            position == self@.index.rows.len() * self.ratio,
    {
        self.index.len() * self.ratio
    }

    /// The position that the next compressed entry is rotated to.
    pub fn entry_position(&self) -> (position: usize)
        requires
            self@.main.rows.len() * self.ratio <= usize::MAX,
        ensures
            position == self@.main.rows.len() * self.ratio,
    {
        self.main.len() * self.ratio
    }

    /// Takes the key of a compressed entry, where the token emitted one, and counts the keys. The
    /// result is how many entries can be selected from; where there are none yet, the selection of
    /// the token is emptied.
    pub fn record_key(
        &mut self,
        layer: usize,
        position: usize,
        owns_key: bool,
        latent: bool,
        key: Option<RoundedRow>,
        shared: &mut SharedAttentionStep,
    ) -> (result: Result<usize, DeepseekV41RuntimeError>)
        requires
            old(self).well_formed(),
            position < usize::MAX,
            owns_key && latent ==> key is Some && key->0.sound(kv::INDEX_KEY_GROUP_SIZE),
        ensures
            final(self).well_formed(),
            ({
                let refused = old(self)@.key_problem(owns_key, latent, key);
                let held = old(self)@.with_key(owns_key, latent, key);
                let expected = complete_groups(position, old(self)@.ratio);
                &&& runtime::problem(result) == runtime::first(
                    refused,
                    held.count_problem(layer, position),
                )
                &&& final(self)@ == (if refused is Some {
                    old(self)@
                } else {
                    held
                })
                &&& result matches Ok(count) ==> count == expected
                &&& final(shared)@ == (if result is Ok && expected == 0 {
                    SharedView { selected: Seq::empty(), ..old(shared)@ }
                } else {
                    old(shared)@
                })
            }),
    {
        let ghost before = self@;
        if owns_key && latent {
            match key {
                Some(row) => {
                    match self.index.push(
                        row.values.as_slice(),
                        row.codes.as_slice(),
                        row.scales,
                    ) {
                        Ok(_) => {},
                        Err(error) => {
                            return Err(DeepseekV41RuntimeError::Kv(error));
                        },
                    }
                },
                None => {},
            }
        } else if latent {
            return invalid("index owner has incomplete key projection weights");
        }
        assert(self@ =~= before.with_key(owns_key, latent, key));
        let expected: usize = (position + 1) / self.ratio;
        if self.index.len() != expected {
            let mut reason = "index source ".to_owned();
            push_decimal(&mut reason, layer as u64);
            reason.append(" has ");
            push_decimal(&mut reason, self.index.len() as u64);
            reason.append(" keys at position ");
            push_decimal(&mut reason, position as u64);
            reason.append(", expected ");
            push_decimal(&mut reason, expected as u64);
            return Err(DeepseekV41RuntimeError::Invalid(reason));
        }
        if expected == 0 {
            shared.selected.clear();
        }
        Ok(expected)
    }

    /// Takes a compressed entry.
    pub fn record_entry(&mut self, row: RoundedRow) -> (result: Result<
        (),
        DeepseekV41RuntimeError,
    >)
        requires
            old(self).well_formed(),
            row.sound(kv::MAIN_KV_GROUP_SIZE),
        ensures
            final(self).well_formed(),
            runtime::problem(result) == kv_problem(
                MainKvCache::push_problem(old(self)@.main, row.values@, row.scales@),
            ),
            final(self)@ == (if result is Ok {
                SourceView { main: old(self)@.main.pushed(row.row()), ..old(self)@ }
            } else {
                old(self)@
            }),
    {
        let ghost before = self@;
        match self.main.push(row.values.as_slice(), row.codes.as_slice(), row.scales) {
            Ok(_) => {
                assert(self@ =~= SourceView { main: before.main.pushed(row.row()), ..before });
                Ok(())
            },
            Err(error) => Err(DeepseekV41RuntimeError::Kv(error)),
        }
    }
}

/// The positions as choices.
pub open spec fn chosen(list: Seq<usize>) -> Seq<Option<usize>> {
    Seq::new(list.len(), |i: int| Some(list[i]))
}

/// `list` is what the best `count` reachable positions come to.
pub open spec fn is_selection(
    scores: Seq<u32>,
    visible: usize,
    candidates: Option<Seq<bool>>,
    count: usize,
    list: Seq<Option<usize>>,
) -> bool {
    let keys = indexer::position_keys(scores, visible, candidates);
    exists|order: Seq<usize>| #[trigger]
        ranking::ranking(keys, order) && list == indexer::choices(
            keys,
            indexer::leading(order, count),
            0,
            scores.len(),
        )
}

/// Why blocks cannot be ranked.
pub open spec fn blocks_problem(scores: Seq<u32>, visible: usize, text: DeepseekV41TextConfig) -> (
    Option<Seq<char>>
) {
    if indexer::scores_problem(scores, visible) is Some {
        indexer::scores_problem(scores, visible)
    } else if text.candidate_block_size == 0 || text.candidate_topk_blocks == 0 {
        Some("candidate block size and count must be non-zero"@)
    } else {
        None
    }
}

/// `mask` marks the positions of the best blocks.
pub open spec fn is_candidate_mask(
    scores: Seq<u32>,
    visible: usize,
    text: DeepseekV41TextConfig,
    mask: Seq<bool>,
) -> bool {
    if visible == 0 {
        mask == Seq::new(scores.len(), |i: int| false)
    } else {
        indexer::candidate_mask(
            scores,
            visible,
            text.candidate_topk_blocks,
            text.candidate_block_size,
            mask,
        )
    }
}

/// Why positions cannot be ranked.
pub open spec fn positions_problem(
    scores: Seq<u32>,
    visible: usize,
    candidates: Option<Seq<bool>>,
) -> Option<Seq<char>> {
    if indexer::scores_problem(scores, visible) is Some {
        indexer::scores_problem(scores, visible)
    } else if candidates is Some && candidates->0.len() != scores.len() {
        Some("candidate mask length differs from index score width"@)
    } else {
        None
    }
}

/// What the layer that ranks the blocks publishes, or refuses.
pub open spec fn publishes(
    text: DeepseekV41TextConfig,
    layer: usize,
    scores: Seq<u32>,
    visible: usize,
    before: Option<Seq<bool>>,
    after: Option<Seq<bool>>,
) -> bool {
    if layer == text.candidate_source_layer_id && blocks_problem(scores, visible, text) is None {
        after is Some && is_candidate_mask(scores, visible, text, after->0)
    } else {
        after == before
    }
}

/// The candidates that a layer selects among: those that were published, behind their source.
pub open spec fn mask_for(
    text: DeepseekV41TextConfig,
    layer: usize,
    candidates: Option<Seq<bool>>,
) -> Option<Seq<bool>> {
    if layer > text.candidate_source_layer_id {
        candidates
    } else {
        None
    }
}

/// Some choice came to nothing.
pub open spec fn lacks_an_entry(list: Seq<Option<usize>>) -> bool {
    exists|i: int| 0 <= i < list.len() && #[trigger] list[i] is None
}

fn take_reachable(list: &Vec<Option<usize>>) -> (result: Result<
    Vec<usize>,
    DeepseekV41RuntimeError,
>)
    ensures
        runtime::problem(result) == runtime::invalid_if(
            lacks_an_entry(list@),
            "tokenwise index selection produced an unreachable slot"@,
        ),
        result matches Ok(selected) ==> chosen(selected@) == list@,
{
    let mut selected: Vec<usize> = Vec::new();
    let mut i: usize = 0;
    while i < list.len()
        invariant
            i <= list@.len(),
            selected@.len() == i,
            forall|k: int| 0 <= k < i ==> #[trigger] list@[k] == Some(selected@[k]),
        decreases list@.len() - i,
    {
        match list[i] {
            Some(position) => {
                selected.push(position);
            },
            None => {
                assert(list@[i as int] is None);
                return invalid("tokenwise index selection produced an unreachable slot");
            },
        }
        i = i + 1;
    }
    assert(chosen(selected@) =~= list@);
    Ok(selected)
}

/// Publishes the candidate blocks where the layer is their source, and selects the entries that
/// the layer and its consumers attend to. Layers behind the source select among its candidates.
pub fn select_entries(
    text: &DeepseekV41TextConfig,
    layer: usize,
    scores: &Vec<u32>,
    visible: usize,
    shared: &mut SharedAttentionStep,
) -> (result: Result<(), DeepseekV41RuntimeError>)
    ensures
        publishes(
            *text,
            layer,
            scores@,
            visible,
            old(shared)@.candidates,
            final(shared)@.candidates,
        ),
        ({
            let source = text.candidate_source_layer_id;
            let blocks = if layer == source {
                blocks_problem(scores@, visible, *text)
            } else {
                None
            };
            let mask = mask_for(*text, layer, old(shared)@.candidates);
            let unpublished = layer > source && old(shared)@.candidates is None;
            let ranked = positions_problem(scores@, visible, mask);
            &&& result is Err ==> final(shared)@.selected == old(shared)@.selected
            &&& if blocks is Some {
                runtime::problem(result) == indexer_problem(blocks)
            } else if unpublished {
                runtime::problem(result) == Some(
                    runtime::RuntimeProblem::Invalid(
                        "decoder index source ran before candidate source publication"@,
                    ),
                )
            } else if ranked is Some {
                runtime::problem(result) == indexer_problem(ranked)
            } else {
                exists|list: Seq<Option<usize>>| #[trigger]
                    is_selection(scores@, visible, mask, text.index_topk, list)
                        && runtime::problem(result) == runtime::invalid_if(
                        lacks_an_entry(list),
                        "tokenwise index selection produced an unreachable slot"@,
                    ) && (result is Ok ==> chosen(final(shared)@.selected) == list)
            }
        }),
{
    let source: usize = text.candidate_source_layer_id;
    let ghost before = shared@;
    if layer == source {
        match select_candidate_blocks(
            scores.as_slice(),
            visible,
            text.candidate_topk_blocks,
            text.candidate_block_size,
        ) {
            Ok(mask) => {
                shared.candidates = Some(mask);
            },
            Err(error) => {
                return Err(DeepseekV41RuntimeError::Indexer(error));
            },
        }
    }
    let ghost mask = mask_for(*text, layer, before.candidates);
    let outcome = if layer > source {
        match &shared.candidates {
            Some(candidates) => select_positions(
                scores.as_slice(),
                visible,
                text.index_topk,
                0,
                Some(candidates.as_slice()),
            ),
            None => {
                return invalid("decoder index source ran before candidate source publication");
            },
        }
    } else {
        select_positions(scores.as_slice(), visible, text.index_topk, 0, None)
    };
    let list = match outcome {
        Ok(list) => list,
        Err(error) => {
            proof {
                assert(positions_problem(scores@, visible, mask) is Some);
            }
            return Err(DeepseekV41RuntimeError::Indexer(error));
        },
    };
    assert(is_selection(scores@, visible, mask, text.index_topk, list@));
    shared.selected = take_reachable(&list)?;
    Ok(())
}

/// A row that a token attends to.
#[derive(Debug, Clone, Copy, PartialEq, Eq, Structural)]
pub enum RowPlace {
    /// The row of a position in the ring.
    Window(usize),
    /// A compressed entry of the source.
    Entry(usize),
}

pub open spec fn absent_message(position: usize) -> Seq<char> {
    "window slot for absolute position "@ + text::decimal(position as nat) + " is absent"@
}

pub open spec fn unavailable_message(entry: usize, owner: usize) -> Seq<char> {
    "selected compressed row "@ + text::decimal(entry as nat) + " is unavailable from source "@
        + text::decimal(owner as nat)
}

/// Why the row of a position cannot be read.
pub open spec fn slot_problem(ring: kv::WindowView, position: usize) -> Option<
    runtime::RuntimeProblem,
> {
    match ring.at(position as nat) {
        None => Some(runtime::RuntimeProblem::Invalid(absent_message(position))),
        Some(row) => match kv::first_nan(row.values) {
            Some(column) => Some(
                runtime::RuntimeProblem::Kv(
                    "window KV column "@ + text::decimal(column as nat)
                        + " contains an E4M3 NaN"@,
                ),
            ),
            None => None,
        },
    }
}

/// The first problem of the positions from `from` on.
pub open spec fn slots_problem(ring: kv::WindowView, positions: Seq<usize>, from: int) -> Option<
    runtime::RuntimeProblem,
>
    decreases positions.len() - from,
{
    if from < 0 || from >= positions.len() {
        None
    } else {
        runtime::first(
            slot_problem(ring, positions[from]),
            slots_problem(ring, positions, from + 1),
        )
    }
}

/// The first selected entry from `from` on that the source does not hold.
pub open spec fn entries_problem(
    source: SourceView,
    selected: Seq<usize>,
    from: int,
) -> Option<runtime::RuntimeProblem>
    decreases selected.len() - from,
{
    if from < 0 || from >= selected.len() {
        None
    } else if selected[from] >= source.main.rows.len() {
        Some(
            runtime::RuntimeProblem::Invalid(unavailable_message(selected[from], source.owner)),
        )
    } else {
        entries_problem(source, selected, from + 1)
    }
}

/// The rows of a token: those of the ring, then the selected entries.
pub open spec fn attended(positions: Seq<usize>, selected: Seq<usize>) -> Seq<RowPlace> {
    Seq::new(positions.len(), |i: int| RowPlace::Window(positions[i])) + Seq::new(
        selected.len(),
        |i: int| RowPlace::Entry(selected[i]),
    )
}

fn check_slot(ring: &WindowKvCache, position: usize) -> (result: Result<
    (),
    DeepseekV41RuntimeError,
>)
    requires
        ring.well_formed(),
    ensures
        runtime::problem(result) == slot_problem(ring@, position),
{
    let row = match ring.get(position) {
        Some(row) => row,
        None => {
            let mut reason = "window slot for absolute position ".to_owned();
            push_decimal(&mut reason, position as u64);
            reason.append(" is absent");
            return Err(DeepseekV41RuntimeError::Invalid(reason));
        },
    };
    match row.codes() {
        Ok(_) => Ok(()),
        Err(error) => Err(DeepseekV41RuntimeError::Kv(error)),
    }
}

/// Lists the rows that a token attends to. A layer without compression has no source.
pub fn gather_rows(
    ring: &WindowKvCache,
    position: usize,
    window: usize,
    source: Option<&SourceState>,
    shared: &SharedAttentionStep,
) -> (result: Result<Vec<RowPlace>, DeepseekV41RuntimeError>)
    requires
        ring.well_formed(),
    ensures
        ({
            let positions = window_list(position, window);
            let later = match source {
                Some(source) => entries_problem(source@, shared@.selected, 0),
                None => None,
            };
            let entries = if source is Some {
                shared@.selected
            } else {
                Seq::empty()
            };
            &&& runtime::problem(result) == runtime::first(
                slots_problem(ring@, positions, 0),
                later,
            )
            &&& result matches Ok(rows) ==> rows@ == attended(positions, entries)
        }),
{
    let positions = window_positions(position, window);
    let ghost list = positions@;
    let mut rows: Vec<RowPlace> = Vec::new();
    let mut i: usize = 0;
    while i < positions.len()
        invariant
            ring.well_formed(),
            list == positions@,
            list == window_list(position, window),
            i <= list.len(),
            slots_problem(ring@, list, 0) == slots_problem(ring@, list, i as int),
            rows@ == attended(list.take(i as int), Seq::empty()),
        decreases list.len() - i,
    {
        check_slot(ring, positions[i])?;
        rows.push(RowPlace::Window(positions[i]));
        i = i + 1;
        assert(rows@ =~= attended(list.take(i as int), Seq::empty()));
    }
    assert(list.take(i as int) =~= list);
    match source {
        None => {},
        Some(held) => {
            let selected = &shared.selected;
            let mut j: usize = 0;
            assert(selected@.take(0) =~= Seq::<usize>::empty());
            while j < selected.len()
                invariant
                    source == Some(held),
                    selected@ == shared@.selected,
                    j <= selected@.len(),
                    slots_problem(ring@, list, 0) is None,
                    list == window_list(position, window),
                    entries_problem(held@, selected@, 0) == entries_problem(
                        held@,
                        selected@,
                        j as int,
                    ),
                    rows@ == attended(list, selected@.take(j as int)),
                decreases selected@.len() - j,
            {
                if selected[j] >= held.main.len() {
                    let mut reason = "selected compressed row ".to_owned();
                    push_decimal(&mut reason, selected[j] as u64);
                    reason.append(" is unavailable from source ");
                    push_decimal(&mut reason, held.owner as u64);
                    return Err(DeepseekV41RuntimeError::Invalid(reason));
                }
                rows.push(RowPlace::Entry(selected[j]));
                j = j + 1;
                assert(rows@ =~= attended(list, selected@.take(j as int)));
            }
            assert(selected@.take(j as int) =~= selected@);
        },
    }
    Ok(rows)
}

/// In a ring as large as the window that was filled from the beginning, no row of the window is
/// absent behind the write of a position.
pub proof fn no_window_row_is_absent(ring: kv::WindowView, position: usize, window: usize, i: int)
    requires
        ring.well_formed(),
        ring.complete(),
        ring.slots.len() == window,
        ring.next_position == position + 1,
        position < usize::MAX,
        0 <= i < window_list(position, window).len(),
    ensures
        ring.at(window_list(position, window)[i] as nat) is Some,
{
}

/// Every entry that a layer selects is held by a source with one entry for each complete group.
pub proof fn selected_entries_are_available(
    source: SourceView,
    scores: Seq<u32>,
    visible: usize,
    candidates: Option<Seq<bool>>,
    count: usize,
    selected: Seq<usize>,
    i: int,
)
    requires
        is_selection(scores, visible, candidates, count, chosen(selected)),
        scores.len() <= usize::MAX,
        source.main.rows.len() >= visible,
        0 <= i < selected.len(),
    ensures
        selected[i] < source.main.rows.len(),
{
    let keys = indexer::position_keys(scores, visible, candidates);
    let order = choose|order: Seq<usize>| #[trigger]
        ranking::ranking(keys, order) && chosen(selected) == indexer::choices(
            keys,
            indexer::leading(order, count),
            0,
            scores.len(),
        );
    indexer::a_choice_is_reachable(
        scores,
        visible,
        candidates,
        indexer::leading(order, count),
        scores.len(),
        i,
    );
    assert(chosen(selected)[i] == Some(selected[i]));
}

/// The window of a token holds the token and the positions before it that are nearer than the window
/// is wide, each once and in order.
pub proof fn the_window_covers_the_latest_positions(
    position: usize,
    window: usize,
    other: usize,
    i: int,
)
    requires
        position < usize::MAX,
    ensures
        ({
            let list = window_list(position, window);
            &&& list.contains(other) <==> other <= position && position < other + window
            &&& 0 <= i && i + 1 < list.len() ==> list[i + 1] == list[i] + 1
            &&& window > 0 ==> list.len() > 0 && list.last() == position
        }),
{
    let list = window_list(position, window);
    if other <= position && position < other + window {
        assert(list[other - first_in_window(position, window)] == other);
    }
}

/// The rows of a token are those of its window, in order, and behind them the selected entries, in
/// order.
pub proof fn window_rows_stand_before_entries(
    positions: Seq<usize>,
    selected: Seq<usize>,
    i: int,
    j: int,
)
    requires
        0 <= i < positions.len(),
        0 <= j < selected.len(),
    ensures
        attended(positions, selected).len() == positions.len() + selected.len(),
        attended(positions, selected)[i] == RowPlace::Window(positions[i]),
        attended(positions, selected)[positions.len() + j] == RowPlace::Entry(selected[j]),
{
}

/// The groups that are complete behind a position are those that end with it or before.
pub proof fn complete_groups_end_behind_no_position(position: usize, ratio: usize, group: int)
    requires
        ratio > 0,
    ensures
        complete_groups(position, ratio) >= 0,
        group < complete_groups(position, ratio) <==> (group + 1) * ratio <= position + 1,
{
    let count = complete_groups(position, ratio);
    let rest = (position + 1) % ratio as int;
    vstd::arithmetic::div_mod::lemma_fundamental_div_mod(position + 1, ratio as int);
    vstd::arithmetic::div_mod::lemma_mod_bound(position + 1, ratio as int);
    assert(count >= 0 && (group < count <==> (group + 1) * ratio <= position + 1))
        by (nonlinear_arith)
        requires
            position + 1 == ratio * count + rest,
            0 <= rest < ratio,
            position + 1 > 0,
    ;
}

/// A layer reads the entries of the nearest owner at or before it.
pub proof fn layers_read_from_the_nearest_owner(
    model: DeepseekV41Config,
    layer: usize,
    other: int,
)
    requires
        layer < model.text_config.num_hidden_layers,
        0 <= other < model.text_config.kv_source_layer_ids@.len(),
        forall|i: int, j: int|
            0 <= i < j < model.text_config.kv_source_layer_ids@.len()
                ==> model.text_config.kv_source_layer_ids@[i]
                < model.text_config.kv_source_layer_ids@[j],
    ensures
        ({
            let owners = model.text_config.kv_source_layer_ids@;
            &&& owner_of(model, layer) matches Some(owner) ==> owners.contains(owner) && owner
                <= layer && (owners[other] <= layer ==> owners[other] <= owner)
            &&& owner_of(model, layer) is None ==> owners[other] > layer
        }),
{
    lemma_nearest(model.text_config.kv_source_layer_ids@, layer, other);
}

proof fn lemma_nearest(owners: Seq<usize>, layer: usize, other: int)
    requires
        0 <= other < owners.len(),
        forall|i: int, j: int| 0 <= i < j < owners.len() ==> owners[i] < owners[j],
    ensures
        config::latest_source(owners, layer) matches Some(owner) ==> owners.contains(owner) && owner
            <= layer && (owners[other] <= layer ==> owners[other] <= owner),
        config::latest_source(owners, layer) is None ==> owners[other] > layer,
    decreases owners.len(),
{
    let front = owners.drop_last();
    if owners.last() <= layer {
        assert(owners[owners.len() - 1] == owners.last());
        assert(owners.contains(owners.last()));
    } else if other < front.len() {
        assert forall|i: int, j: int| 0 <= i < j < front.len() implies front[i] < front[j] by {
            assert(owners[i] < owners[j]);
        }
        lemma_nearest(front, layer, other);
        assert(front[other] == owners[other]);
        if config::latest_source(front, layer) is Some {
            let owner = config::latest_source(front, layer)->0;
            let at = choose|at: int| 0 <= at < front.len() && front[at] == owner;
            assert(owners[at] == owner);
        }
    } else if front.len() > 0 {
        assert forall|i: int, j: int| 0 <= i < j < front.len() implies front[i] < front[j] by {
            assert(owners[i] < owners[j]);
        }
        lemma_nearest(front, layer, 0);
        if config::latest_source(front, layer) is Some {
            let owner = config::latest_source(front, layer)->0;
            let at = choose|at: int| 0 <= at < front.len() && front[at] == owner;
            assert(owners[at] == owner);
        }
    }
}

/// Up to the layer that ranks the blocks a layer selects among all entries; behind it, among the
/// candidates that it published.
pub proof fn candidates_bind_the_layers_behind_their_source(
    text: DeepseekV41TextConfig,
    layer: usize,
    candidates: Option<Seq<bool>>,
)
    ensures
        layer <= text.candidate_source_layer_id ==> mask_for(text, layer, candidates) is None,
        layer > text.candidate_source_layer_id ==> mask_for(text, layer, candidates) == candidates,
{
}

/// The place of an owner is where its source stands first.
pub proof fn sources_stand_at_their_place(
    sources: Seq<SourceView>,
    owner: usize,
    from: int,
    i: int,
)
    requires
        0 <= from <= i < sources.len(),
    ensures
        place_of(sources, owner, from) is None ==> sources[i].owner != owner,
        place_of(sources, owner, from) matches Some(at) ==> from <= at < sources.len()
            && sources[at].owner == owner && (i < at ==> sources[i].owner != owner),
    decreases sources.len() - from,
{
    if sources[from].owner != owner && from + 1 < sources.len() {
        sources_stand_at_their_place(
            sources,
            owner,
            from + 1,
            if i > from {
                i
            } else {
                from + 1
            },
        );
    } else if sources[from].owner != owner {
        assert(place_of(sources, owner, from + 1) is None);
    }
}

/// A layer finds its source exactly where some owner at or before it has one, of the same ratio.
pub proof fn layers_find_their_source(
    model: DeepseekV41Config,
    layer: usize,
    ratio: usize,
    sources: Seq<SourceView>,
)
    ensures
        source_problem(model, layer, ratio, sources) is None <==> {
            &&& owner_of(model, layer) is Some
            &&& place_of(sources, owner_of(model, layer)->0, 0) is Some
            &&& sources[place_of(sources, owner_of(model, layer)->0, 0)->0].ratio == ratio
        },
{
}

/// A key is kept exactly behind an entry of a layer that owns keys, as the last row; nothing else of the
/// source changes.
pub proof fn keys_follow_their_entries(
    source: SourceView,
    owns_key: bool,
    latent: bool,
    key: Option<RoundedRow>,
)
    ensures
        ({
            let after = source.with_key(owns_key, latent, key);
            &&& owns_key && latent ==> after.index.rows.len() == source.index.rows.len() + 1
                && after.index.rows.last() == key->0.row() && after.index.rows.drop_last()
                == source.index.rows
            &&& !(owns_key && latent) ==> after == source
            &&& after.main == source.main && after.compressor == source.compressor
            &&& !owns_key && latent ==> source.key_problem(owns_key, latent, key) is Some
            &&& !latent ==> source.key_problem(owns_key, latent, key) is None
        }),
{
    if owns_key && latent {
        let after = source.with_key(owns_key, latent, key);
        assert(after.index.rows.drop_last() =~= source.index.rows);
    }
}

/// Keys are complete exactly where there is one for every complete group.
pub proof fn keys_are_complete_with_their_groups(source: SourceView, layer: usize, position: usize)
    requires
        source.ratio > 0,
    ensures
        source.count_problem(layer, position) is None <==> source.index.rows.len() == (position + 1)
            / (source.ratio as int),
{
}

/// A layer's selection is the best: as many entries as asked for, or as there are scores. One that is
/// visible and a candidate, with a score above the bottom, is selected unless every place is taken by
/// one whose score is no lower.
pub proof fn the_best_entries_are_selected(
    scores: Seq<u32>,
    visible: usize,
    candidates: Option<Seq<bool>>,
    count: usize,
    list: Seq<Option<usize>>,
    entry: int,
    i: int,
)
    requires
        scores.len() <= usize::MAX,
        positions_problem(scores, visible, candidates) is None,
        is_selection(scores, visible, candidates, count, list),
        0 <= entry < visible,
        candidates is Some ==> candidates->0[entry],
        !indexer::is_bottom(scores[entry]),
        0 <= i < list.len(),
    ensures
        list.len() == (if count < scores.len() {
            count as int
        } else {
            scores.len() as int
        }),
        list[i] matches Some(other) ==> other < visible && (candidates is Some
            ==> candidates->0[other as int]) && !indexer::is_bottom(scores[other as int]),
        !list.contains(Some(entry as usize)) ==> list[i] is Some && !indexer::is_lower(
            scores[list[i]->0 as int],
            scores[entry],
        ),
{
    let keys = indexer::position_keys(scores, visible, candidates);
    let order = choose|order: Seq<usize>| #[trigger]
        ranking::ranking(keys, order) && list == indexer::choices(
            keys,
            indexer::leading(order, count),
            0,
            scores.len(),
        );
    indexer::the_best_positions_are_selected(
        scores,
        visible,
        count,
        candidates,
        order,
        0,
        entry,
        i,
    );
}

/// Scores are ranked exactly where they are numbers, no more are visible than there are, and a mask has
/// an entry for each; blocks are ranked exactly where they have a size and some are asked for.
pub proof fn sound_scores_are_ranked(
    scores: Seq<u32>,
    visible: usize,
    candidates: Option<Seq<bool>>,
    text: DeepseekV41TextConfig,
)
    ensures
        positions_problem(scores, visible, candidates) is None <==> indexer::scores_problem(
            scores,
            visible,
        ) is None && (candidates is Some ==> candidates->0.len() == scores.len()),
        blocks_problem(scores, visible, text) is None <==> indexer::scores_problem(
            scores,
            visible,
        ) is None && text.candidate_block_size > 0 && text.candidate_topk_blocks > 0,
{
}

/// Candidates are published by their source layer alone; any other leaves them as they are.
pub proof fn only_the_source_publishes_candidates(
    text: DeepseekV41TextConfig,
    layer: usize,
    scores: Seq<u32>,
    visible: usize,
    before: Option<Seq<bool>>,
    after: Option<Seq<bool>>,
)
    requires
        publishes(text, layer, scores, visible, before, after),
    ensures
        layer != text.candidate_source_layer_id ==> after == before,
        layer == text.candidate_source_layer_id && blocks_problem(scores, visible, text) is None
            && visible > 0 ==> after is Some && indexer::candidate_mask(
            scores,
            visible,
            text.candidate_topk_blocks,
            text.candidate_block_size,
            after->0,
        ),
{
}

/// Where nothing is visible no entry is a candidate, and a selection lacks an entry exactly where one of
/// its places is empty.
pub proof fn nothing_is_chosen_from_nothing(
    scores: Seq<u32>,
    text: DeepseekV41TextConfig,
    mask: Seq<bool>,
    list: Seq<Option<usize>>,
    i: int,
)
    requires
        is_candidate_mask(scores, 0, text, mask),
        0 <= i < scores.len(),
    ensures
        mask.len() == scores.len() && !mask[i],
        !lacks_an_entry(list) <==> forall|j: int| 0 <= j < list.len() ==> #[trigger] list[j] is Some,
{
}

} // verus!
