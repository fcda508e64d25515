//! The attention cache of one DeepSeek-V4 layer: its sliding window, its compressed entries, and
//! which of them a token attends to.

use super::compressor::{
    CompressorCheckpoint, CompressorState, CompressorWeights, PreparedCompressor,
};
use super::config::DeepseekV4Config;
use super::runtime::{invalid, DeepseekRuntimeError};
use super::{compressor, runtime};
use crate::bits::Float64;
use crate::{accounting, ranking};
use crate::ranking::{rank, total_order_keys};
use vstd::prelude::*;
use vstd::string::*;

verus! {

/// How positions are rotated: the base, for compressed entries the length and the factor of the
/// extension, and the two ends of the ramp between them.
#[derive(Debug, Clone, Copy, PartialEq, Eq, Structural)]
pub struct RopeParameters {
    pub base: Float64,
    pub original_length: Option<usize>,
    pub factor: Float64,
    pub beta_fast: usize,
    pub beta_slow: usize,
}

/// The bits of one.
pub const UNIT_FACTOR: u64 = 0x3ff0_0000_0000_0000;

/// The rotation of a layer with this compression ratio.
pub fn rope_parameters(ratio: usize, config: &DeepseekV4Config) -> (rope: RopeParameters)
    ensures
        ratio == 0 ==> rope == (RopeParameters {
            base: config.rope_theta,
            original_length: None,
            factor: Float64 { bits: UNIT_FACTOR },
            beta_fast: config.rope_scaling.beta_fast,
            beta_slow: config.rope_scaling.beta_slow,
        }),
        ratio != 0 ==> rope == (RopeParameters {
            base: config.compress_rope_theta,
            original_length: Some(config.rope_scaling.original_max_position_embeddings),
            factor: config.rope_scaling.factor,
            beta_fast: config.rope_scaling.beta_fast,
            beta_slow: config.rope_scaling.beta_slow,
        }),
{
    let scaling = &config.rope_scaling;
    if ratio == 0 {
        RopeParameters {
            base: config.rope_theta,
            original_length: None,
            factor: Float64 { bits: UNIT_FACTOR },
            beta_fast: scaling.beta_fast,
            beta_slow: scaling.beta_slow,
        }
    } else {
        RopeParameters {
            base: config.compress_rope_theta,
            original_length: Some(scaling.original_max_position_embeddings),
            factor: scaling.factor,
            beta_fast: scaling.beta_fast,
            beta_slow: scaling.beta_slow,
        }
    }
}

/// How many of the latest positions a window holds.
pub open spec fn window_fill(position: usize, window: usize) -> int {
    accounting::smaller(position + 1, window as int)
}

/// The slots of the positions in the window, the oldest first. A position stands in the slot of
/// its remainder by the window.
pub open spec fn window_slots(position: usize, window: usize) -> Seq<usize> {
    let count = window_fill(position, window);
    Seq::new(count as nat, |i: int| ((position + 1 - count + i) % window as int) as usize)
}

proof fn lemma_slot(position: int, window: int, i: int)
    requires
        window > 0,
        position >= window - 1,
        0 <= i < window,
    ensures
        (position + 1 - window + i) % window == if position % window + 1 + i < window {
            position % window + 1 + i
        } else {
            position % window + 1 + i - window
        },
{
    let quotient = position / window;
    let current = position % window;
    vstd::arithmetic::div_mod::lemma_fundamental_div_mod(position, window);
    vstd::arithmetic::div_mod::lemma_mod_bound(position, window);
    if current + 1 + i < window {
        assert(position + 1 - window + i == window * (quotient - 1) + (current + 1 + i))
            by (nonlinear_arith)
            requires
                position == window * quotient + current,
        ;
        vstd::arithmetic::div_mod::lemma_fundamental_div_mod_converse(
            position + 1 - window + i,
            window,
            quotient - 1,
            current + 1 + i,
        );
    } else {
        vstd::arithmetic::div_mod::lemma_fundamental_div_mod_converse(
            position + 1 - window + i,
            window,
            quotient,
            current + 1 + i - window,
        );
    }
}

/// The slots of the positions in the window, the oldest first.
pub fn window_indices(position: usize, window: usize) -> (slots: Vec<usize>)
    requires
        window > 0,
        position < usize::MAX,
    ensures
        slots@ == window_slots(position, window),
{
    let mut slots: Vec<usize> = Vec::new();
    if position >= window - 1 {
        let current: usize = position % window;
        let mut slot: usize = current + 1;
        while slot < window
            invariant
                current == position as int % window as int,
                current < window,
                current + 1 <= slot <= window,
                slots@.len() == slot - current - 1,
                forall|i: int| 0 <= i < slots@.len() ==> slots@[i] == current + 1 + i,
            decreases window - slot,
        {
            slots.push(slot);
            slot = slot + 1;
        }
        slot = 0;
        while slot <= current
            invariant
                current == position as int % window as int,
                current < window,
                slot <= current + 1,
                slots@.len() == window - current - 1 + slot,
                forall|i: int|
                    0 <= i < slots@.len() ==> slots@[i] == if current + 1 + i < window {
                        current + 1 + i
                    } else {
                        current + 1 + i - window
                    },
            decreases current + 1 - slot,
        {
            slots.push(slot);
            slot = slot + 1;
        }
        proof {
            let wanted = window_slots(position, window);
            assert forall|i: int| 0 <= i < window implies slots@[i] == wanted[i] by {
                lemma_slot(position as int, window as int, i);
            }
            assert(slots@ =~= wanted);
        }
    } else {
        let mut slot: usize = 0;
        while slot <= position
            invariant
                position < window - 1,
                slot <= position + 1,
                slots@.len() == slot,
                forall|i: int| 0 <= i < slots@.len() ==> slots@[i] == i,
            decreases position + 1 - slot,
        {
            slots.push(slot);
            slot = slot + 1;
        }
        proof {
            let wanted = window_slots(position, window);
            assert forall|i: int| 0 <= i <= position implies slots@[i] == wanted[i] by {
                vstd::arithmetic::div_mod::lemma_small_mod(i as nat, window as nat);
            }
            assert(slots@ =~= wanted);
        }
    }
    slots
}

/// The window never lists a slot twice, lists only its own slots, and ends with the slot of the
/// current position.
pub proof fn window_slots_are_distinct(position: usize, window: usize)
    requires
        window > 0,
    ensures
        window_slots(position, window).no_duplicates(),
        forall|i: int|
            0 <= i < window_slots(position, window).len() ==> #[trigger] window_slots(
                position,
                window,
            )[i] < window,
        window_slots(position, window).last() == position as int % window as int,
{
    let slots = window_slots(position, window);
    let count = window_fill(position, window);
    let width = window as int;
    assert forall|i: int| 0 <= i < slots.len() implies #[trigger] slots[i] < window by {
        vstd::arithmetic::div_mod::lemma_mod_bound(position + 1 - count + i, width);
    }
    assert forall|i: int, j: int|
        0 <= i < slots.len() && 0 <= j < slots.len() && i != j implies slots[i] != slots[j] by {
        if position >= window - 1 {
            vstd::arithmetic::div_mod::lemma_mod_bound(position as int, width);
            lemma_slot(position as int, width, i);
            lemma_slot(position as int, width, j);
        } else {
            vstd::arithmetic::div_mod::lemma_small_mod(i as nat, window as nat);
            vstd::arithmetic::div_mod::lemma_small_mod(j as nat, window as nat);
        }
    }
    vstd::arithmetic::div_mod::lemma_mod_bound(position as int, width);
}

/// The cache entries that a token attends to: the window, then its compressed entries. Where the
/// ratio is four the indexer chose them; elsewhere they are all that are complete. Compressed
/// entries stand in the cache behind the window.
pub open spec fn selected_entries(
    position: usize,
    ratio: usize,
    window: usize,
    chosen: Seq<usize>,
) -> Seq<usize> {
    let slots = window_slots(position, window);
    if ratio == 4 {
        slots + chosen
    } else if ratio > 0 {
        slots + Seq::new(
            ((position + 1) / ratio as int) as nat,
            |i: int| (window + i) as usize,
        )
    } else {
        slots
    }
}

/// Lists the cache entries that a token attends to.
pub fn select_entries(position: usize, ratio: usize, window: usize, chosen: Vec<usize>) -> (list:
    Vec<usize>)
    requires
        window > 0,
        position < usize::MAX,
        window + position < usize::MAX,
    ensures
        list@ == selected_entries(position, ratio, window, chosen@),
{
    let mut list = window_indices(position, window);
    let ghost slots = list@;
    if ratio == 4 {
        let mut chosen = chosen;
        list.append(&mut chosen);
    } else if ratio > 0 {
        let count: usize = (position + 1) / ratio;
        proof {
            vstd::arithmetic::div_mod::lemma_div_is_ordered_by_denominator(
                position + 1,
                1,
                ratio as int,
            );
        }
        let mut index: usize = 0;
        while index < count
            invariant
                index <= count,
                count <= position + 1,
                window + position < usize::MAX,
                list@ == slots + Seq::new(index as nat, |i: int| (window + i) as usize),
            decreases count - index,
        {
            list.push(window + index);
            index = index + 1;
            assert(list@ =~= slots + Seq::new(index as nat, |i: int| (window + i) as usize));
        }
    }
    list
}

/// `list` holds the best of the scored entries, at most `limit`, the best first and earlier
/// entries first among equals, each moved behind the window.
pub open spec fn best_entries(
    scores: Seq<u32>,
    limit: usize,
    window: usize,
    list: Seq<usize>,
) -> bool {
    exists|order: Seq<usize>|
        #[trigger] ranking::ranking(ranking::keys_of(scores), order) && list == Seq::new(
            accounting::smaller(limit as int, order.len() as int) as nat,
            |i: int| (window + order[i]) as usize,
        )
}

/// Chooses the compressed entries that an indexer scored best.
pub fn choose_entries(scores: &[u32], limit: usize, window: usize) -> (list: Vec<usize>)
    requires
        window + scores@.len() <= usize::MAX,
    ensures
        best_entries(scores@, limit, window, list@),
{
    let keys = total_order_keys(scores);
    let order = rank(&keys);
    let count: usize = if limit < order.len() {
        limit
    } else {
        order.len()
    };
    let mut list: Vec<usize> = Vec::new();
    let mut index: usize = 0;
    while index < count
        invariant
            index <= count <= order@.len(),
            keys@.len() == scores@.len(),
            ranking::ranking(keys@, order@),
            window + scores@.len() <= usize::MAX,
            list@ == Seq::new(index as nat, |i: int| (window + order@[i]) as usize),
        decreases count - index,
    {
        assert(order@[index as int] < keys@.len());
        list.push(window + order[index]);
        index = index + 1;
        assert(list@ =~= Seq::new(index as nat, |i: int| (window + order@[i]) as usize));
    }
    assert(ranking::ranking(ranking::keys_of(scores@), order@));
    list
}

/// The cache of one attention layer.
#[derive(Debug, Clone)]
pub struct AttentionState {
    ratio: usize,
    next_position: usize,
    local: Vec<Option<Vec<u32>>>,
    compressor: Option<CompressorState>,
    indexer: Option<CompressorState>,
}

/// What an [`AttentionState`] holds.
#[verifier::ext_equal]
pub struct AttentionView {
    pub ratio: usize,
    pub next_position: usize,
    pub local: Seq<Option<Seq<u32>>>,
    pub compressor: Option<compressor::CompressorView>,
    pub indexer: Option<compressor::CompressorView>,
}

pub open spec fn row_view(row: Option<Vec<u32>>) -> Option<Seq<u32>> {
    match row {
        Some(values) => Some(values@),
        None => None,
    }
}

pub open spec fn local_view(rows: Seq<Option<Vec<u32>>>) -> Seq<Option<Seq<u32>>> {
    Seq::new(rows.len(), |i: int| row_view(rows[i]))
}

pub open spec fn state_view(state: Option<CompressorState>) -> Option<compressor::CompressorView> {
    match state {
        Some(state) => Some(state@),
        None => None,
    }
}

impl View for AttentionState {
    type V = AttentionView;

    closed spec fn view(&self) -> AttentionView {
        AttentionView {
            ratio: self.ratio,
            next_position: self.next_position,
            local: local_view(self.local@),
            compressor: state_view(self.compressor),
            indexer: state_view(self.indexer),
        }
    }
}

/// What undoes one token of an [`AttentionState`].
#[derive(Debug)]
pub struct AttentionStateCheckpoint {
    next_position: usize,
    local_slot: usize,
    previous_local: Option<Vec<u32>>,
    compressor: Option<CompressorCheckpoint>,
    indexer: Option<CompressorCheckpoint>,
}

/// What an [`AttentionStateCheckpoint`] holds.
pub struct AttentionSnapshot {
    pub next_position: usize,
    pub local_slot: int,
    pub previous_local: Option<Seq<u32>>,
    pub compressor: Option<compressor::SnapshotView>,
    pub indexer: Option<compressor::SnapshotView>,
}

pub open spec fn snapshot_view(snapshot: Option<CompressorCheckpoint>) -> Option<
    compressor::SnapshotView,
> {
    match snapshot {
        Some(snapshot) => Some(snapshot@),
        None => None,
    }
}

impl View for AttentionStateCheckpoint {
    type V = AttentionSnapshot;

    closed spec fn view(&self) -> AttentionSnapshot {
        AttentionSnapshot {
            next_position: self.next_position,
            local_slot: self.local_slot as int,
            previous_local: row_view(self.previous_local),
            compressor: snapshot_view(self.compressor),
            indexer: snapshot_view(self.indexer),
        }
    }
}

pub open spec fn snapshot_of(state: Option<compressor::CompressorView>) -> Option<
    compressor::SnapshotView,
> {
    match state {
        Some(state) => Some(state.snapshot()),
        None => None,
    }
}

pub open spec fn restored_from(
    state: Option<compressor::CompressorView>,
    snapshot: Option<compressor::SnapshotView>,
) -> Option<compressor::CompressorView> {
    match (state, snapshot) {
        (Some(state), Some(snapshot)) => Some(state.restored(snapshot)),
        _ => state,
    }
}

pub open spec fn fresh_state(present: bool, ratio: usize, head_dim: usize) -> Option<
    compressor::CompressorView,
> {
    if present {
        Some(compressor::CompressorView::fresh(ratio, head_dim))
    } else {
        None
    }
}

pub open spec fn part_well_formed(state: Option<compressor::CompressorView>) -> bool {
    state is Some ==> state->Some_0.well_formed()
}

impl AttentionView {
    /// There is a window, and the compressors have their shape.
    pub open spec fn well_formed(self) -> bool {
        &&& self.local.len() > 0
        &&& part_well_formed(self.compressor)
        &&& part_well_formed(self.indexer)
    }

    /// The state of a layer that has seen nothing.
    pub open spec fn fresh(config: DeepseekV4Config, ratio: usize) -> AttentionView {
        AttentionView {
            ratio,
            next_position: 0,
            local: Seq::new(config.sliding_window as nat, |i: int| None),
            compressor: fresh_state(ratio > 0, ratio, config.head_dim),
            indexer: fresh_state(ratio == 4, ratio, config.index_head_dim),
        }
    }

    /// The slot of the next position.
    pub open spec fn slot(self) -> int {
        self.next_position as int % self.local.len() as int
    }

    /// The state whose slot for the next position has been taken over by a snapshot.
    pub open spec fn emptied(self) -> AttentionView {
        AttentionView { local: self.local.update(self.slot(), None), ..self }
    }

    pub open spec fn snapshot(self) -> AttentionSnapshot {
        AttentionSnapshot {
            next_position: self.next_position,
            local_slot: self.slot(),
            previous_local: self.local[self.slot()],
            compressor: snapshot_of(self.compressor),
            indexer: snapshot_of(self.indexer),
        }
    }

    pub open spec fn restored(self, snapshot: AttentionSnapshot) -> AttentionView {
        AttentionView {
            ratio: self.ratio,
            next_position: snapshot.next_position,
            local: self.local.update(snapshot.local_slot, snapshot.previous_local),
            compressor: restored_from(self.compressor, snapshot.compressor),
            indexer: restored_from(self.indexer, snapshot.indexer),
        }
    }

    /// The state whose window holds the values of the next position.
    pub open spec fn with_local(self, values: Seq<u32>) -> AttentionView {
        AttentionView { local: self.local.update(self.slot(), Some(values)), ..self }
    }

    /// The state that has seen the position through.
    pub open spec fn advanced(self) -> AttentionView {
        AttentionView { next_position: (self.next_position + 1) as usize, ..self }
    }
}

/// A compressor behind one token: as it was, behind the position, or behind the position and the
/// entry that it completes.
pub open spec fn token_effect(
    before: Option<compressor::CompressorView>,
    after: Option<compressor::CompressorView>,
) -> bool {
    match before {
        None => after is None,
        Some(state) => ({
            ||| after == before
            ||| exists|kv: Seq<u32>, score: Seq<u32>|
                after == Some(#[trigger] state.after_position(kv, score))
            ||| exists|kv: Seq<u32>, score: Seq<u32>, entry: Seq<u32>|
                after == Some(
                    #[trigger] state.after_position(kv, score).after_emission(entry),
                )
        }),
    }
}

proof fn lemma_part_restored(
    before: Option<compressor::CompressorView>,
    after: Option<compressor::CompressorView>,
)
    requires
        token_effect(before, after),
    ensures
        restored_from(after, snapshot_of(before)) == before,
{
    if before is Some {
        let state = before->Some_0;
        if after == before {
            compressor::snapshot_undoes_a_token(state, Seq::empty(), Seq::empty(), Seq::empty());
        } else if exists|kv: Seq<u32>, score: Seq<u32>|
            after == Some(#[trigger] state.after_position(kv, score)) {
            let (kv, score) = choose|kv: Seq<u32>, score: Seq<u32>|
                after == Some(#[trigger] state.after_position(kv, score));
            compressor::snapshot_undoes_a_token(state, kv, score, Seq::empty());
        } else {
            let (kv, score, entry) = choose|kv: Seq<u32>, score: Seq<u32>, entry: Seq<u32>|
                after == Some(
                    #[trigger] state.after_position(kv, score).after_emission(entry),
                );
            compressor::snapshot_undoes_a_token(state, kv, score, entry);
        }
    }
}

/// A failed token leaves no trace: wherever it stopped, what it may have changed is the slot of its
/// position, its compressors and the position, and the snapshot taken before it gives all of them
/// back.
pub proof fn snapshot_undoes_a_token(before: AttentionView, after: AttentionView)
    requires
        before.well_formed(),
        after.ratio == before.ratio,
        after.local.len() == before.local.len(),
        forall|i: int|
            0 <= i < before.local.len() && i != before.slot() ==> after.local[i]
                == before.local[i],
        token_effect(before.compressor, after.compressor),
        token_effect(before.indexer, after.indexer),
    ensures
        after.restored(before.snapshot()) == before,
{
    lemma_part_restored(before.compressor, after.compressor);
    lemma_part_restored(before.indexer, after.indexer);
    vstd::arithmetic::div_mod::lemma_mod_bound(
        before.next_position as int,
        before.local.len() as int,
    );
    assert(after.restored(before.snapshot()).local =~= before.local);
}

pub open spec fn part_problem(present: bool, ratio: usize, head_dim: usize) -> Option<
    runtime::RuntimeProblem,
> {
    if !present {
        None
    } else if head_dim == 0 {
        Some(
            runtime::RuntimeProblem::Compressor("ratio and head dimension must be non-zero"@),
        )
    } else if compressor::span_of(ratio) * compressor::width_of(ratio, head_dim) > usize::MAX {
        Some(runtime::RuntimeProblem::Compressor("state size overflows"@))
    } else {
        None
    }
}

fn new_part(present: bool, ratio: usize, head_dim: usize) -> (result: Result<
    Option<CompressorState>,
    DeepseekRuntimeError,
>)
    requires
        2 * ratio <= usize::MAX,
        2 * head_dim <= usize::MAX,
        present ==> ratio > 0,
    ensures
        runtime::problem(result) == part_problem(present, ratio, head_dim),
        result is Ok ==> state_view(result->Ok_0) == fresh_state(present, ratio, head_dim)
            && part_well_formed(state_view(result->Ok_0)),
{
    if present {
        match CompressorState::new(ratio, head_dim) {
            Ok(state) => Ok(Some(state)),
            Err(error) => Err(DeepseekRuntimeError::Compressor(error)),
        }
    } else {
        Ok(None)
    }
}

fn copy_local(rows: &Vec<Option<Vec<u32>>>) -> (copy: Vec<Option<Vec<u32>>>)
    ensures
        local_view(copy@) == local_view(rows@),
{
    let mut copy: Vec<Option<Vec<u32>>> = Vec::new();
    let mut index: usize = 0;
    while index < rows.len()
        invariant
            index <= rows@.len(),
            copy@.len() == index,
            forall|i: int| 0 <= i < index ==> row_view(#[trigger] copy@[i]) == row_view(rows@[i]),
        decreases rows@.len() - index,
    {
        let row: Option<Vec<u32>> = match &rows[index] {
            Some(values) => Some(values.clone()),
            None => None,
        };
        proof {
            if rows@[index as int] is Some {
                assert(row->Some_0@ =~= rows@[index as int]->Some_0@);
            }
        }
        copy.push(row);
        index = index + 1;
    }
    assert(local_view(copy@) =~= local_view(rows@));
    copy
}

/// How many values the window holds.
pub open spec fn local_values(rows: Seq<Option<Seq<u32>>>) -> nat
    decreases rows.len(),
{
    if rows.len() == 0 {
        0
    } else {
        local_values(rows.drop_last()) + match rows.last() {
            Some(values) => values.len(),
            None => 0nat,
        }
    }
}

pub open spec fn part_values(state: Option<compressor::CompressorView>) -> int {
    match state {
        Some(state) => compressor::stored(state),
        None => 0,
    }
}

pub open spec fn values_held(state: AttentionView) -> int {
    local_values(state.local) + part_values(state.compressor) + part_values(state.indexer)
}

proof fn lemma_local_grows(rows: Seq<Option<Seq<u32>>>, count: int)
    requires
        0 <= count <= rows.len(),
    ensures
        local_values(rows.take(count)) <= local_values(rows),
    decreases rows.len(),
{
    if count == rows.len() {
        assert(rows.take(count) =~= rows);
    } else {
        assert(rows.drop_last().take(count) =~= rows.take(count));
        lemma_local_grows(rows.drop_last(), count);
    }
}

fn count_part(state: &Option<CompressorState>) -> (count: usize)
    requires
        part_values(state_view(*state)) <= usize::MAX,
    ensures
        count == part_values(state_view(*state)),
{
    match state {
        Some(state) => state.stored_f32_elements(),
        None => 0,
    }
}

impl AttentionState {
    /// The state of a layer with this compression ratio.
    pub fn new(config: &DeepseekV4Config, ratio: usize) -> (result: Result<
        Self,
        DeepseekRuntimeError,
    >)
        requires
            config.sliding_window > 0,
            2 * ratio <= usize::MAX,
            2 * config.head_dim <= usize::MAX,
            2 * config.index_head_dim <= usize::MAX,
        ensures
            match result {
                Ok(state) => part_problem(ratio > 0, ratio, config.head_dim) is None
                    && part_problem(ratio == 4, ratio, config.index_head_dim) is None && state@
                    == AttentionView::fresh(*config, ratio) && state@.well_formed(),
                Err(error) => if part_problem(ratio > 0, ratio, config.head_dim) is Some {
                    part_problem(ratio > 0, ratio, config.head_dim) == Some(error@)
                } else {
                    part_problem(ratio == 4, ratio, config.index_head_dim) == Some(error@)
                },
            },
    {
        let compressor = new_part(ratio > 0, ratio, config.head_dim)?;
        let indexer = new_part(ratio == 4, ratio, config.index_head_dim)?;
        let mut local: Vec<Option<Vec<u32>>> = Vec::new();
        let mut index: usize = 0;
        while index < config.sliding_window
            invariant
                index <= config.sliding_window,
                local@.len() == index,
                forall|i: int| 0 <= i < index ==> #[trigger] local@[i] is None,
            decreases config.sliding_window - index,
        {
            local.push(None);
            index = index + 1;
        }
        let state = AttentionState { ratio, next_position: 0, local, compressor, indexer };
        proof {
            assert(state@.local =~= AttentionView::fresh(*config, ratio).local);
        }
        Ok(state)
    }

    pub fn next_position(&self) -> (position: usize)
        ensures
            position == self@.next_position,
    {
        self.next_position
    }

    pub fn ratio(&self) -> (ratio: usize)
        ensures
            ratio == self@.ratio,
    {
        self.ratio
    }

    /// How many values the state holds.
    pub fn stored_f32_elements(&self) -> (count: usize)
        requires
            values_held(self@) <= usize::MAX,
        ensures
            count == values_held(self@),
    {
        let ghost rows = self@.local;
        let mut count: usize = 0;
        let mut index: usize = 0;
        proof {
            lemma_part_nonnegative(self@.compressor);
            lemma_part_nonnegative(self@.indexer);
        }
        while index < self.local.len()
            invariant
                rows == local_view(self.local@),
                local_values(rows) <= usize::MAX,
                index <= rows.len(),
                count == local_values(rows.take(index as int)),
            decreases rows.len() - index,
        {
            proof {
                assert(rows.take(index + 1).drop_last() =~= rows.take(index as int));
                assert(rows.take(index + 1).last() == row_view(self.local@[index as int]));
                lemma_local_grows(rows, index + 1);
            }
            match &self.local[index] {
                Some(values) => {
                    count = count + values.len();
                },
                None => {},
            }
            index = index + 1;
        }
        proof {
            assert(rows.take(rows.len() as int) =~= rows);
        }
        count + count_part(&self.compressor) + count_part(&self.indexer)
    }

    /// Takes what undoes the next token. The slot that the token will write is moved out.
    pub fn checkpoint_next_token(&mut self) -> (checkpoint: AttentionStateCheckpoint)
        requires
            old(self)@.well_formed(),
        ensures
            checkpoint@ == old(self)@.snapshot(),
            final(self)@ == old(self)@.emptied(),
            final(self)@.well_formed(),
    {
        let ghost before = self@;
        let local_slot: usize = self.next_position % self.local.len();
        let previous_local = self.local[local_slot].take();
        let compressor = match &self.compressor {
            Some(state) => Some(state.checkpoint()),
            None => None,
        };
        let indexer = match &self.indexer {
            Some(state) => Some(state.checkpoint()),
            None => None,
        };
        proof {
            assert(self@.local =~= before.emptied().local);
        }
        AttentionStateCheckpoint {
            next_position: self.next_position,
            local_slot,
            previous_local,
            compressor,
            indexer,
        }
    }

    /// Gives back the state that a checkpoint was taken of.
    pub fn restore(&mut self, checkpoint: AttentionStateCheckpoint)
        requires
            checkpoint@.local_slot < old(self)@.local.len(),
        ensures
            final(self)@ == old(self)@.restored(checkpoint@),
    {
        let ghost before = self@;
        let AttentionStateCheckpoint {
            next_position,
            local_slot,
            previous_local,
            compressor,
            indexer,
        } = checkpoint;
        self.next_position = next_position;
        self.local.set(local_slot, previous_local);
        match (&mut self.compressor, compressor) {
            (Some(state), Some(snapshot)) => {
                state.restore(snapshot);
            },
            _ => {},
        }
        match (&mut self.indexer, indexer) {
            (Some(state), Some(snapshot)) => {
                state.restore(snapshot);
            },
            _ => {},
        }
        proof {
            assert(self@.local =~= before.restored(checkpoint@).local);
        }
    }
}

pub proof fn lemma_held_nonnegative(state: AttentionView)
    ensures
        values_held(state) >= 0,
{
    lemma_part_nonnegative(state.compressor);
    lemma_part_nonnegative(state.indexer);
}

proof fn lemma_part_nonnegative(state: Option<compressor::CompressorView>)
    ensures
        part_values(state) >= 0,
{
    if state is Some {
        compressor::lemma_stored_nonnegative(state->Some_0);
    }
}

/// Why a token cannot be attended to here.
pub open spec fn position_problem(
    state: AttentionView,
    position: usize,
    ratio: usize,
) -> Option<runtime::RuntimeProblem> {
    runtime::invalid_if(
        state.next_position != position || state.ratio != ratio,
        "attention state position/ratio mismatch"@,
    )
}

fn copy_part(state: &Option<CompressorState>) -> (copy: Option<CompressorState>)
    ensures
        state_view(copy) == state_view(*state),
{
    match state {
        Some(state) => Some(state.copy()),
        None => None,
    }
}

/// What a part of the state comes to when a position is written to it.
pub open spec fn part_after(
    before: Option<compressor::CompressorView>,
    weights: Option<CompressorWeights>,
    prepared: Option<PreparedCompressor>,
    disagreement: Seq<char>,
) -> Result<Option<compressor::CompressorView>, runtime::RuntimeProblem> {
    match (weights, before, prepared) {
        (Some(weights), Some(state), Some(prepared)) => if state.ratio != weights.ratio
            || state.head_dim != weights.head_dim {
            Err(
                runtime::RuntimeProblem::Compressor(
                    compressor::mismatch_message(state.next_position),
                ),
            )
        } else if prepared.kv@.len() != compressor::width_of(weights.ratio, weights.head_dim)
            || prepared.score@.len() != compressor::width_of(weights.ratio, weights.head_dim) {
            Err(
                runtime::RuntimeProblem::Compressor(
                    "prepared projection has invalid output geometry"@,
                ),
            )
        } else {
            Ok(Some(state.after_position(prepared.kv@, prepared.score@)))
        },
        (None, None, None) => Ok(before),
        _ => Err(runtime::RuntimeProblem::Invalid(disagreement)),
    }
}

/// Where a group of positions that ends here begins.
pub open spec fn group_start(ratio: usize, position: usize) -> Option<usize> {
    if (position + 1) % ratio as int == 0 {
        Some((position + 1 - ratio) as usize)
    } else {
        None
    }
}

fn write_part(
    state: &mut Option<CompressorState>,
    weights: &Option<CompressorWeights>,
    prepared: Option<PreparedCompressor>,
    position: usize,
    disagreement: &str,
) -> (result: Result<Option<usize>, DeepseekRuntimeError>)
    requires
        position < usize::MAX,
        part_well_formed(state_view(*old(state))),
        *old(state) is Some ==> state_view(*old(state))->Some_0.next_position == position,
    ensures
        part_well_formed(state_view(*final(state))),
        match result {
            Ok(due) => part_after(
                state_view(*old(state)),
                *weights,
                prepared,
                disagreement@,
            ) == Ok::<Option<compressor::CompressorView>, runtime::RuntimeProblem>(
                state_view(*final(state)),
            ) && due == match *weights {
                Some(weights) => group_start(weights.ratio, position),
                None => None,
            },
            Err(error) => part_after(
                state_view(*old(state)),
                *weights,
                prepared,
                disagreement@,
            ) == Err::<Option<compressor::CompressorView>, runtime::RuntimeProblem>(error@)
                && state_view(*final(state)) == state_view(*old(state)),
        },
{
    match (weights, state, prepared) {
        (Some(weights), Some(state), Some(prepared)) => {
            match state.accept(weights, prepared, position) {
                Ok(due) => Ok(due),
                Err(error) => Err(DeepseekRuntimeError::Compressor(error)),
            }
        },
        (None, None, None) => Ok(None),
        _ => invalid(disagreement),
    }
}

/// The parts of the state stand at the position that the state stands at.
pub open spec fn in_step(state: AttentionView) -> bool {
    &&& state.compressor is Some ==> state.compressor->Some_0.next_position
        == state.next_position
    &&& state.indexer is Some ==> state.indexer->Some_0.next_position == state.next_position
}

impl AttentionState {
    /// The same state once more.
    pub fn copy(&self) -> (copy: Self)
        ensures
            copy@ == self@,
    {
        AttentionState {
            ratio: self.ratio,
            next_position: self.next_position,
            local: copy_local(&self.local),
            compressor: copy_part(&self.compressor),
            indexer: copy_part(&self.indexer),
        }
    }

    /// Refuses a position or a ratio that is not this state's, before anything is computed.
    pub fn check_position(&self, position: usize, ratio: usize) -> (result: Result<
        (),
        DeepseekRuntimeError,
    >)
        ensures
            runtime::problem(result) == position_problem(self@, position, ratio),
    {
        if self.next_position != position || self.ratio != ratio {
            return invalid("attention state position/ratio mismatch");
        }
        Ok(())
    }

    /// Writes the values of the current position into the window.
    pub fn write_local(&mut self, values: Vec<u32>)
        requires
            old(self)@.well_formed(),
        ensures
            final(self)@ == old(self)@.with_local(values@),
            final(self)@.well_formed(),
    {
        let ghost before = self@;
        let slot: usize = self.next_position % self.local.len();
        self.local.set(slot, Some(values));
        proof {
            assert(self@.local =~= before.with_local(values@).local);
        }
    }

    /// Writes the current position into the indexer's compressor. The outcome says where the group
    /// starts whose entry is due.
    pub fn write_index(
        &mut self,
        weights: &Option<CompressorWeights>,
        prepared: Option<PreparedCompressor>,
    ) -> (result: Result<Option<usize>, DeepseekRuntimeError>)
        requires
            old(self)@.well_formed(),
            in_step(old(self)@),
            old(self)@.next_position < usize::MAX,
        ensures
            final(self)@.well_formed(),
            match result {
                Ok(due) => part_after(
                    old(self)@.indexer,
                    *weights,
                    prepared,
                    "indexer weights, state, and prepared projection disagree"@,
                ) == Ok::<Option<compressor::CompressorView>, runtime::RuntimeProblem>(
                    final(self)@.indexer,
                ) && final(self)@ == (AttentionView {
                    indexer: final(self)@.indexer,
                    ..old(self)@
                }) && due == match *weights {
                    Some(weights) => group_start(weights.ratio, old(self)@.next_position),
                    None => None,
                },
                Err(error) => part_after(
                    old(self)@.indexer,
                    *weights,
                    prepared,
                    "indexer weights, state, and prepared projection disagree"@,
                ) == Err::<Option<compressor::CompressorView>, runtime::RuntimeProblem>(error@)
                    && final(self)@ == old(self)@,
            },
    {
        write_part(
            &mut self.indexer,
            weights,
            prepared,
            self.next_position,
            "indexer weights, state, and prepared projection disagree",
        )
    }

    /// Appends the entry that the indexer's compressor owes.
    pub fn emit_index(&mut self, entry: Vec<u32>)
        requires
            old(self)@.well_formed(),
            old(self)@.indexer is Some,
        ensures
            final(self)@.well_formed(),
            final(self)@ == (AttentionView {
                indexer: Some(old(self)@.indexer->Some_0.after_emission(entry@)),
                ..old(self)@
            }),
    {
        match &mut self.indexer {
            Some(state) => state.emit(entry),
            None => {},
        }
    }

    /// Writes the current position into the compressor. The outcome says where the group starts
    /// whose entry is due.
    pub fn write_compressed(
        &mut self,
        weights: &Option<CompressorWeights>,
        prepared: Option<PreparedCompressor>,
    ) -> (result: Result<Option<usize>, DeepseekRuntimeError>)
        requires
            old(self)@.well_formed(),
            old(self)@.next_position < usize::MAX,
            old(self)@.compressor is Some ==> old(self)@.compressor->Some_0.next_position == old(
                self,
            )@.next_position,
        ensures
            final(self)@.well_formed(),
            match result {
                Ok(due) => part_after(
                    old(self)@.compressor,
                    *weights,
                    prepared,
                    "compressor weights, state, and prepared projection disagree"@,
                ) == Ok::<Option<compressor::CompressorView>, runtime::RuntimeProblem>(
                    final(self)@.compressor,
                ) && final(self)@ == (AttentionView {
                    compressor: final(self)@.compressor,
                    ..old(self)@
                }) && due == match *weights {
                    Some(weights) => group_start(weights.ratio, old(self)@.next_position),
                    None => None,
                },
                Err(error) => part_after(
                    old(self)@.compressor,
                    *weights,
                    prepared,
                    "compressor weights, state, and prepared projection disagree"@,
                ) == Err::<Option<compressor::CompressorView>, runtime::RuntimeProblem>(error@)
                    && final(self)@ == old(self)@,
            },
    {
        write_part(
            &mut self.compressor,
            weights,
            prepared,
            self.next_position,
            "compressor weights, state, and prepared projection disagree",
        )
    }

    /// Appends the entry that the compressor owes.
    pub fn emit_compressed(&mut self, entry: Vec<u32>)
        requires
            old(self)@.well_formed(),
            old(self)@.compressor is Some,
        ensures
            final(self)@.well_formed(),
            final(self)@ == (AttentionView {
                compressor: Some(old(self)@.compressor->Some_0.after_emission(entry@)),
                ..old(self)@
            }),
    {
        match &mut self.compressor {
            Some(state) => state.emit(entry),
            None => {},
        }
    }

    /// The compressor of a layer that has one.
    pub fn compressor_state(&self) -> (state: Option<&CompressorState>)
        ensures
            state is Some == self@.compressor is Some,
            state matches Some(held) ==> held@ == self@.compressor->Some_0,
    {
        match &self.compressor {
            Some(held) => Some(held),
            None => None,
        }
    }

    /// The compressor of the indexer of a layer that has one.
    pub fn indexer_state(&self) -> (state: Option<&CompressorState>)
        ensures
            state is Some == self@.indexer is Some,
            state matches Some(held) ==> held@ == self@.indexer->Some_0,
    {
        match &self.indexer {
            Some(held) => Some(held),
            None => None,
        }
    }

    /// The rows to attend over: the window, zeros where a slot is empty, then the compressed
    /// entries.
    pub fn cache_rows(&self, head_dim: usize) -> (rows: Vec<Vec<u32>>)
        ensures
            compressor::rows_of(rows@) == attended_rows(self@, head_dim),
    {
        let mut rows: Vec<Vec<u32>> = Vec::new();
        let mut index: usize = 0;
        let ghost local = self@.local;
        while index < self.local.len()
            invariant
                local == local_view(self.local@),
                index <= local.len(),
                compressor::rows_of(rows@) == window_rows(local, head_dim).take(index as int),
            decreases local.len() - index,
        {
            let row: Vec<u32> = match &self.local[index] {
                Some(values) => {
                    let copy = values.clone();
                    assert(copy@ =~= values@);
                    copy
                },
                None => vec![0u32; head_dim],
            };
            let ghost before = compressor::rows_of(rows@);
            assert(window_rows(local, head_dim)[index as int] =~= row@);
            rows.push(row);
            index = index + 1;
            proof {
                assert(compressor::rows_of(rows@) =~= before.push(row@));
                assert(compressor::rows_of(rows@) =~= window_rows(local, head_dim).take(
                    index as int,
                ));
            }
        }
        proof {
            assert(window_rows(local, head_dim).take(local.len() as int) =~= window_rows(
                local,
                head_dim,
            ));
        }
        match &self.compressor {
            Some(state) => {
                let entries = state.compressed();
                let ghost kept = compressor::rows_of(entries@);
                let mut next: usize = 0;
                proof {
                    assert(compressor::rows_of(rows@) =~= window_rows(local, head_dim)
                        + kept.take(0));
                }
                while next < entries.len()
                    invariant
                        kept == compressor::rows_of(entries@),
                        next <= entries@.len(),
                        compressor::rows_of(rows@) == window_rows(local, head_dim) + kept.take(
                            next as int,
                        ),
                    decreases entries@.len() - next,
                {
                    let copy = entries[next].clone();
                    assert(copy@ =~= entries@[next as int]@);
                    let ghost before = compressor::rows_of(rows@);
                    rows.push(copy);
                    proof {
                        assert(compressor::rows_of(rows@) =~= before.push(copy@));
                        assert(kept.take(next + 1) =~= kept.take(next as int).push(
                            kept[next as int],
                        ));
                        assert(compressor::rows_of(rows@) =~= window_rows(local, head_dim)
                            + kept.take(next + 1));
                    }
                    next = next + 1;
                }
                proof {
                    assert(kept.take(kept.len() as int) =~= kept);
                }
            },
            None => {},
        }
        rows
    }

    /// Moves on to the next position.
    pub fn advance(&mut self)
        requires
            old(self)@.next_position < usize::MAX,
        ensures
            final(self)@ == old(self)@.advanced(),
    {
        self.next_position = self.next_position + 1;
    }
}

/// The rows of the window, zeros where a slot is empty.
pub open spec fn window_rows(local: Seq<Option<Seq<u32>>>, head_dim: usize) -> Seq<Seq<u32>> {
    Seq::new(
        local.len(),
        |i: int|
            match local[i] {
                Some(values) => values,
                None => Seq::new(head_dim as nat, |j: int| 0u32),
            },
    )
}

/// The rows that a token attends over.
pub open spec fn attended_rows(state: AttentionView, head_dim: usize) -> Seq<Seq<u32>> {
    match state.compressor {
        Some(part) => window_rows(state.local, head_dim) + part.compressed,
        None => window_rows(state.local, head_dim),
    }
}

/// The window holds the latest positions, as many as it has slots: the oldest of them first, each in
/// the slot of its remainder.
pub proof fn the_window_lists_the_latest_positions(position: usize, window: usize, earlier: usize)
    requires
        window > 0,
        earlier <= position,
        position < earlier + window,
    ensures
        ({
            let oldest = if position + 1 < window {
                0
            } else {
                position + 1 - window
            };
            let slots = window_slots(position, window);
            &&& slots.len() == position + 1 - oldest
            &&& slots[earlier - oldest] == earlier as int % window as int
        }),
{
    vstd::arithmetic::div_mod::lemma_mod_bound(earlier as int, window as int);
}

/// A layer attends to its window and to nothing else where it does not compress; where it compresses
/// by four, to the window and to what was chosen; by any other ratio, to the window and to the entry
/// of every complete group, each exactly once, behind the window.
pub proof fn every_complete_group_is_attended_to(
    position: usize,
    ratio: usize,
    window: usize,
    chosen: Seq<usize>,
    group: int,
)
    requires
        window > 0,
        window + position < usize::MAX,
        ratio > 0,
        ratio != 4,
        0 <= group,
    ensures
        ({
            let list = selected_entries(position, ratio, window, chosen);
            let filled = if position + 1 < window {
                position + 1
            } else {
                window as int
            };
            &&& list.len() == filled + (position + 1) / ratio as int
            &&& list.no_duplicates()
            &&& (group + 1) * ratio <= position + 1 ==> list[filled + group] == window + group
            &&& (group + 1) * ratio > position + 1 && window + group <= usize::MAX
                ==> !list.contains((window + group) as usize)
            &&& forall|i: int| 0 <= i < filled ==> (#[trigger] list[i]) < window && list[i]
                == window_slots(position, window)[i]
        }),
{
    let list = selected_entries(position, ratio, window, chosen);
    let slots = window_slots(position, window);
    let count = (position + 1) / ratio as int;
    window_slots_are_distinct(position, window);
    vstd::arithmetic::div_mod::lemma_fundamental_div_mod(position + 1, ratio as int);
    vstd::arithmetic::div_mod::lemma_mod_bound(position + 1, ratio as int);
    vstd::arithmetic::div_mod::lemma_div_is_ordered_by_denominator(position + 1, 1, ratio as int);
    let rest = (position + 1) % ratio as int;
    assert(0 <= count) by (nonlinear_arith)
        requires
            position + 1 == ratio * count + rest,
            rest < ratio,
            position + 1 > 0,
            ratio > 0,
    ;
    assert((group + 1) * ratio <= position + 1 <==> group < count) by (nonlinear_arith)
        requires
            position + 1 == ratio * count + rest,
            0 <= rest < ratio,
    ;
    if (group + 1) * ratio > position + 1 && window + group <= usize::MAX {
        if list.contains((window + group) as usize) {
            let at = choose|at: int| 0 <= at < list.len() && list[at] == (window + group) as usize;
            if at < slots.len() {
                assert(slots[at] < window);
            } else {
                assert(list[at] == window + (at - slots.len()));
            }
        }
    }
    assert forall|i: int, j: int| 0 <= i < list.len() && 0 <= j < list.len() && i != j implies list[i]
        != list[j] by {
        if i < slots.len() {
            assert(slots[i] < window);
        }
        if j < slots.len() {
            assert(slots[j] < window);
        }
    }
    assert forall|i: int| 0 <= i < slots.len() implies (#[trigger] list[i]) < window && list[i]
        == slots[i] by {
        assert(slots[i] < window);
    }
}

/// A layer that does not compress attends to its window alone, and one that compresses by four to
/// its window and, behind it, to what was chosen.
pub proof fn chosen_entries_stand_behind_the_window(
    position: usize,
    window: usize,
    chosen: Seq<usize>,
)
    ensures
        selected_entries(position, 0, window, chosen) == window_slots(position, window),
        selected_entries(position, 4, window, chosen) == window_slots(position, window) + chosen,
{
}

/// The entries that are chosen by their scores are the best: as many as there are, up to the limit,
/// each behind the window and listed once, none in front of one with a greater score, and none left
/// out whose score is greater than that of one that was chosen. Among equal scores the earlier entry
/// comes first.
pub proof fn chosen_entries_score_best(
    scores: Seq<u32>,
    limit: usize,
    window: usize,
    list: Seq<usize>,
    i: int,
    other: int,
)
    requires
        window + scores.len() <= usize::MAX,
        best_entries(scores, limit, window, list),
        0 <= i < list.len(),
        0 <= other < scores.len(),
    ensures
        list.len() == (if limit < scores.len() {
            limit as int
        } else {
            scores.len() as int
        }),
        window <= list[i] < window + scores.len(),
        ({
            let score = scores[list[i] - window];
            &&& !list.contains((window + other) as usize) ==> !ranking::lies_below(
                score,
                scores[other],
            ) && (score == scores[other] ==> list[i] < window + other)
            &&& forall|j: int|
                i < j < list.len() ==> !ranking::lies_below(score, scores[#[trigger] list[j] - window])
                    && list[i] != list[j] && (score == scores[list[j] - window] ==> list[i]
                    < list[j])
        }),
{
    let order = choose|order: Seq<usize>|
        #[trigger] ranking::ranking(ranking::keys_of(scores), order) && list == Seq::new(
            accounting::smaller(limit as int, order.len() as int) as nat,
            |i: int| (window + order[i]) as usize,
        );
    assert(order[i] < scores.len());
    assert forall|j: int| i < j < list.len() implies !ranking::lies_below(
        scores[list[i] - window],
        scores[#[trigger] list[j] - window],
    ) && list[i] != list[j] && (scores[list[i] - window] == scores[list[j] - window] ==> list[i]
        < list[j]) by {
        ranking::rankings_descend(scores, order, i, j);
    }
    if !list.contains((window + other) as usize) {
        assert(order.contains(other as usize));
        let at = choose|at: int| 0 <= at < order.len() && order[at] == other as usize;
        if at < list.len() {
            assert(list[at] == (window + other) as usize);
        }
        ranking::rankings_descend(scores, order, i, at);
    }
}

/// A row is kept at its position's place in the ring and changes no other; the next position follows.
pub proof fn rows_are_kept_in_a_ring(state: AttentionView, values: Seq<u32>, i: int)
    requires
        state.well_formed(),
        state.next_position < usize::MAX,
        0 <= i < state.local.len(),
    ensures
        ({
            let after = state.with_local(values).advanced();
            let at = state.next_position as int % state.local.len() as int;
            &&& after.local.len() == state.local.len()
            &&& after.local[at] == Some(values)
            &&& i != at ==> after.local[i] == state.local[i]
            &&& after.next_position == state.next_position + 1
            &&& after.compressor == state.compressor && after.indexer == state.indexer
        }),
{
    vstd::arithmetic::div_mod::lemma_mod_bound(
        state.next_position as int,
        state.local.len() as int,
    );
}

/// The rows that attention reads are those of the ring, with zeros where a place is empty, and behind
/// them the compressed entries.
pub proof fn entries_stand_behind_the_ring(
    state: AttentionView,
    head_dim: usize,
    i: int,
    column: int,
)
    requires
        0 <= i < state.local.len(),
        0 <= column < head_dim,
    ensures
        ({
            let rows = attended_rows(state, head_dim);
            &&& state.local[i] matches Some(values) ==> rows[i] == values
            &&& state.local[i] is None ==> rows[i].len() == head_dim && rows[i][column] == 0
            &&& state.compressor is None ==> rows.len() == state.local.len()
            &&& state.compressor matches Some(part) ==> rows.len() == state.local.len()
                + part.compressed.len() && rows.skip(state.local.len() as int) == part.compressed
        }),
{
    if state.compressor is Some {
        let part = state.compressor->0;
        assert(attended_rows(state, head_dim).skip(state.local.len() as int) =~= part.compressed);
    }
}

/// A group ends with its last position: it starts at a multiple of the ratio and is that long.
pub proof fn groups_start_at_multiples(ratio: usize, position: usize)
    requires
        ratio > 0,
    ensures
        group_start(ratio, position) is Some <==> (position + 1) % ratio as int == 0,
        group_start(ratio, position) matches Some(start) ==> start + ratio == position + 1 && start
            as int % ratio as int == 0,
{
    if (position + 1) % ratio as int == 0 {
        let groups = (position + 1) / ratio as int;
        vstd::arithmetic::div_mod::lemma_fundamental_div_mod(position + 1, ratio as int);
        assert(groups >= 1 && position + 1 >= ratio && position + 1 - ratio == (groups - 1) * ratio
            + 0) by (nonlinear_arith)
            requires
                position + 1 == ratio * groups,
                position + 1 > 0,
                ratio > 0,
        ;
        vstd::arithmetic::div_mod::lemma_fundamental_div_mod_converse(
            position + 1 - ratio,
            ratio as int,
            groups - 1,
            0,
        );
    }
}

/// A fresh cache has an empty ring as wide as the window, a compressor exactly where it compresses and
/// an indexer exactly where it compresses by four.
pub proof fn fresh_caches_follow_the_ratio(config: DeepseekV4Config, ratio: usize, i: int)
    requires
        0 <= i < config.sliding_window,
    ensures
        ({
            let fresh = AttentionView::fresh(config, ratio);
            &&& fresh.ratio == ratio && fresh.next_position == 0
            &&& fresh.local.len() == config.sliding_window && fresh.local[i] is None
            &&& fresh.compressor is Some <==> ratio > 0
            &&& fresh.indexer is Some <==> ratio == 4
            &&& fresh.compressor matches Some(part) ==> part.head_dim == config.head_dim && part.ratio
                == ratio && part.compressed.len() == 0 && part.next_position == 0
            &&& fresh.indexer matches Some(part) ==> part.head_dim == config.index_head_dim
                && part.ratio == ratio && part.compressed.len() == 0 && part.next_position == 0
        }),
{
}

/// A compressor takes a token exactly where its weights, its state and what was prepared come together
/// and are of one geometry; without any of them nothing changes.
pub proof fn prepared_tokens_are_taken(
    before: Option<compressor::CompressorView>,
    weights: Option<CompressorWeights>,
    prepared: Option<PreparedCompressor>,
    disagreement: Seq<char>,
)
    ensures
        before is None && weights is None && prepared is None ==> part_after(
            before,
            weights,
            prepared,
            disagreement,
        ) == Ok::<Option<compressor::CompressorView>, runtime::RuntimeProblem>(None),
        before is Some || weights is Some || prepared is Some ==> (part_after(
            before,
            weights,
            prepared,
            disagreement,
        ) is Ok <==> {
            let width = if weights->0.ratio == 4 {
                2 * weights->0.head_dim
            } else {
                weights->0.head_dim as int
            };
            &&& before is Some && weights is Some && prepared is Some
            &&& before->0.ratio == weights->0.ratio && before->0.head_dim == weights->0.head_dim
            &&& prepared->0.kv@.len() == width && prepared->0.score@.len() == width
        }),
        before is Some && part_after(before, weights, prepared, disagreement) is Ok ==> part_after(
            before,
            weights,
            prepared,
            disagreement,
        )->Ok_0 == Some(before->0.after_position(prepared->0.kv@, prepared->0.score@)),
{
}

/// The values of a cache are those of the rows in its ring and of its parts.
pub proof fn held_values_add_up(
    rows: Seq<Option<Seq<u32>>>,
    values: Seq<u32>,
    state: AttentionView,
)
    ensures
        local_values(Seq::empty()) == 0,
        local_values(rows.push(Some(values))) == local_values(rows) + values.len(),
        local_values(rows.push(None)) == local_values(rows),
        values_held(state) == local_values(state.local) + (if state.compressor is Some {
            compressor::stored(state.compressor->0)
        } else {
            0
        }) + (if state.indexer is Some {
            compressor::stored(state.indexer->0)
        } else {
            0
        }),
{
    assert(rows.push(Some(values)).drop_last() =~= rows);
    assert(rows.push(None).drop_last() =~= rows);
}

} // verus!
