//! Native checkpoint schema and memory accounting for DeepSeek-V4.1-Flash, from headers alone.

use super::blueprint;
use super::blueprint::{count_parts, list_body, list_roots, Blueprint, Category, Logical};
use super::config::DeepseekV41Config;
use crate::accounting;
use crate::accounting::{checked_sum_of, count_unexpected, find_largest, push_shape};
use crate::config::quote;
use crate::storage::{DType, StorageError, TensorIndex};
use crate::text::{join, push_decimal};
use crate::{config, storage, text};
use vstd::hash_set::StringHashSet;
use crate::lists::same_shape;
use vstd::prelude::*;
use vstd::string::*;

verus! {

#[derive(Debug)]
pub enum SchemaError {
    Checkpoint(StorageError),
    Invalid(String),
}

/// The same error, over plain values.
pub enum SchemaProblem {
    Checkpoint(storage::StorageProblem),
    Invalid(Seq<char>),
}

impl View for SchemaError {
    type V = SchemaProblem;

    open spec fn view(&self) -> SchemaProblem {
        match self {
            SchemaError::Checkpoint(error) => SchemaProblem::Checkpoint(error@),
            SchemaError::Invalid(reason) => SchemaProblem::Invalid(reason@),
        }
    }
}

impl SchemaError {
    /// What the schema itself says. An error of the checkpoint speaks for itself and has none.
    pub open spec fn text(self) -> Option<Seq<char>> {
        match self {
            SchemaError::Checkpoint(_) => None,
            SchemaError::Invalid(reason) => Some("invalid DeepSeek-V4.1 checkpoint: "@ + reason@),
        }
    }

    pub fn message(&self) -> (message: Option<String>)
        ensures
            match message {
                Some(text) => self.text() == Some(text@),
                None => self.text() is None,
            },
    {
        match self {
            SchemaError::Checkpoint(_) => None,
            SchemaError::Invalid(reason) => Some(
                join("invalid DeepSeek-V4.1 checkpoint: ", reason.as_str()),
            ),
        }
    }
}

pub open spec fn problem<T>(result: Result<T, SchemaError>) -> Option<SchemaProblem> {
    match result {
        Ok(_) => None,
        Err(error) => Some(error@),
    }
}

fn invalid<T>(reason: &str) -> (result: Result<T, SchemaError>)
    ensures
        result is Err,
        problem(result) == Some(SchemaProblem::Invalid(reason@)),
{
    Err(SchemaError::Invalid(reason.to_owned()))
}

#[derive(Debug, Clone, Copy)]
pub struct DeepseekV41Requirements {
    pub required_tensor_count: usize,
    pub checkpoint_tensor_count: usize,
    pub checkpoint_shard_count: usize,
    pub checkpoint_file_bytes: u64,
    pub checkpoint_payload_bytes: u64,
    pub backbone_logical_parameters: u64,
    pub engram_logical_parameters: u64,
    pub vision_logical_parameters: u64,
    pub dspark_logical_parameters: u64,
    /// Largest native non-expert layer payload used by the streaming fallback.
    pub streamed_layer_bytes: u64,
    /// Exact native bytes required to retain all backbone layers.
    pub backbone_layer_bytes: u64,
    pub backbone_layer_count: usize,
    pub streamed_embedding_bytes: u64,
    pub streamed_lm_head_bytes: u64,
    /// Resident representation used when the vocabulary projection is pinned.
    pub lm_head_resident_bytes: u64,
    pub engram_table_bytes: u64,
    pub engram_lookup_bytes_per_token: u64,
    pub maximum_expert_bytes: u64,
    pub transient_expert_bytes: u64,
    pub expert_cache_bytes: u64,
    pub expert_slots_per_layer: usize,
    pub global_kv_cache_bytes: u64,
    pub sliding_window_cache_bytes: u64,
    pub kv_cache_bytes: u64,
    pub context_limit: usize,
    pub exact_context_ceiling: usize,
    pub encoder_layer_count: usize,
    pub decoder_layer_count: usize,
    pub kv_source_layer_count: usize,
    pub index_source_layer_count: usize,
    pub approximate_replay_window: usize,
}

impl DeepseekV41Requirements {
    /// How many leading layers fit into a resident budget above the one that is streamed.
    pub open spec fn cached_layers(self, resident_budget: u64) -> int {
        let spare = accounting::larger(resident_budget - self.streamed_layer_bytes, 0);
        if spare >= self.backbone_layer_bytes {
            self.backbone_layer_count as int
        } else if self.streamed_layer_bytes == 0 {
            0
        } else {
            accounting::smaller(
                spare / self.streamed_layer_bytes as int,
                self.backbone_layer_count as int,
            )
        }
    }

    /// Number of leading layers that fit above the mandatory one-layer streaming allowance.
    /// Partial residency is conservatively rounded by the largest layer; complete residency uses
    /// the exact sum.
    pub fn cached_backbone_layers_for_resident_budget(&self, resident_budget: u64) -> (count: usize)
        ensures
            count == self.cached_layers(resident_budget),
            count <= self.backbone_layer_count,
    {
        let spare: u64 = resident_budget.saturating_sub(self.streamed_layer_bytes);
        if spare >= self.backbone_layer_bytes {
            self.backbone_layer_count
        } else if self.streamed_layer_bytes == 0 {
            0
        } else {
            let layers: u64 = spare / self.streamed_layer_bytes;
            if layers < self.backbone_layer_count as u64 {
                layers as usize
            } else {
                self.backbone_layer_count
            }
        }
    }

    /// The vocabulary projection fits a resident budget above all layers.
    pub open spec fn caches_lm_head(self, resident_budget: u64) -> bool {
        resident_budget >= accounting::smaller(
            self.streamed_layer_bytes + self.backbone_layer_bytes + self.lm_head_resident_bytes,
            u64::MAX as int,
        )
    }

    pub fn caches_lm_head_for_resident_budget(&self, resident_budget: u64) -> (result: bool)
        ensures
            result == self.caches_lm_head(resident_budget),
    {
        resident_budget >= self.streamed_layer_bytes.saturating_add(
            self.backbone_layer_bytes,
        ).saturating_add(self.lm_head_resident_bytes)
    }
}

/// Cached layers never exceed the budget: together with the streamed one they fit it, each taken as
/// large as the largest.
pub proof fn cached_layers_fit_the_budget(needs: DeepseekV41Requirements, resident_budget: u64)
    requires
        needs.cached_layers(resident_budget) < needs.backbone_layer_count,
    ensures
        needs.cached_layers(resident_budget) > 0 ==> needs.streamed_layer_bytes * (
        needs.cached_layers(resident_budget) + 1) <= resident_budget,
{
    let spare = accounting::larger(resident_budget - needs.streamed_layer_bytes, 0);
    let size = needs.streamed_layer_bytes as int;
    let count = needs.cached_layers(resident_budget);
    if count > 0 {
        assert(count == spare / size);
        vstd::arithmetic::div_mod::lemma_fundamental_div_mod(spare, size);
        vstd::arithmetic::div_mod::lemma_mod_bound(spare, size);
        assert(size * (count + 1) == size * count + size) by (nonlinear_arith);
        assert(size * count <= spare);
        assert(spare > 0) by (nonlinear_arith)
            requires
                size * count <= spare,
                size > 0,
                count > 0,
        ;
    }
}

/// A tensor that the release has.
#[derive(Debug, Clone)]
pub struct TensorSpec {
    pub name: String,
    pub dtype: DType,
    pub shape: Vec<u64>,
    pub category: Category,
    pub logical_elements: u64,
}

/// The same, over plain values.
pub struct SpecView {
    pub name: Seq<char>,
    pub dtype: DType,
    pub shape: Seq<u64>,
    pub category: Category,
    pub logical_elements: u64,
}

impl View for TensorSpec {
    type V = SpecView;

    open spec fn view(&self) -> SpecView {
        SpecView {
            name: self.name@,
            dtype: self.dtype,
            shape: self.shape@,
            category: self.category,
            logical_elements: self.logical_elements,
        }
    }
}

pub open spec fn specs_view(list: Seq<TensorSpec>) -> Seq<SpecView> {
    Seq::new(list.len(), |i: int| list[i]@)
}

/// How many elements a shape has, multiplied from the left, where that is a 64-bit number at every
/// step.
pub open spec fn elements(shape: Seq<usize>) -> Option<u64>
    decreases shape.len(),
{
    if shape.len() == 0 {
        Some(1)
    } else {
        match elements(shape.drop_last()) {
            None => None,
            Some(count) => if count * shape.last() > u64::MAX {
                None
            } else {
                Some((count * shape.last()) as u64)
            },
        }
    }
}

pub open spec fn wide(shape: Seq<usize>) -> Seq<u64> {
    Seq::new(shape.len(), |i: int| shape[i] as u64)
}

/// The tensor that a line of the release stands for.
pub open spec fn spec_of(line: blueprint::Line) -> Result<SpecView, SchemaProblem> {
    match elements(line.shape) {
        None => Err(SchemaProblem::Invalid("tensor logical element count overflows"@)),
        Some(count) => {
            let made = SpecView {
                name: line.name,
                dtype: line.dtype,
                shape: wide(line.shape),
                category: line.category,
                logical_elements: count,
            };
            match line.logical {
                Logical::Elements => Ok(made),
                Logical::Scale => Ok(SpecView { logical_elements: 0, ..made }),
                Logical::Packed { rows, cols } => if rows * cols > u64::MAX {
                    Err(SchemaProblem::Invalid("FP4 logical element count overflows"@))
                } else {
                    Ok(SpecView { logical_elements: (rows * cols) as u64, ..made })
                },
            }
        },
    }
}

/// The tensors that lines of the release stand for, or the first problem.
pub open spec fn specs_of(list: Seq<blueprint::Line>) -> Result<Seq<SpecView>, SchemaProblem>
    decreases list.len(),
{
    if list.len() == 0 {
        Ok(Seq::empty())
    } else {
        match specs_of(list.drop_last()) {
            Err(error) => Err(error),
            Ok(front) => match spec_of(list.last()) {
                Err(error) => Err(error),
                Ok(made) => Ok(front.push(made)),
            },
        }
    }
}

/// The width of image patches behind the downsampling.
pub open spec fn unshuffle_width(config: DeepseekV41Config) -> int {
    let vision = config.vision_config;
    vision.hidden_size * (vision.downsample_ratio * vision.downsample_ratio)
}

/// All tensors of the release.
pub open spec fn release(config: DeepseekV41Config) -> Result<Seq<SpecView>, SchemaProblem> {
    match specs_of(blueprint::root_lines(config.text_config)) {
        Err(error) => Err(error),
        Ok(roots) => if unshuffle_width(config) > usize::MAX {
            Err(SchemaProblem::Invalid("vision unshuffle width overflows"@))
        } else {
            match specs_of(blueprint::body_lines(config, unshuffle_width(config) as usize)) {
                Err(error) => Err(error),
                Ok(body) => Ok(roots + body),
            }
        },
    }
}

fn count_elements(shape: &Vec<usize>) -> (count: Option<u64>)
    ensures
        count == elements(shape@),
{
    let mut count: u64 = 1;
    let mut at: usize = 0;
    while at < shape.len()
        invariant
            at <= shape@.len(),
            elements(shape@.take(at as int)) == Some(count),
        decreases shape@.len() - at,
    {
        proof {
            let longer = shape@.take(at + 1);
            assert(longer.drop_last() =~= shape@.take(at as int));
            assert(longer.last() == shape@[at as int]);
            if elements(longer) is None {
                lemma_elements(shape@, at + 1);
            }
        }
        match count.checked_mul(shape[at] as u64) {
            Some(next) => {
                count = next;
            },
            None => {
                return None;
            },
        }
        at = at + 1;
    }
    assert(shape@.take(shape@.len() as int) =~= shape@);
    Some(count)
}

proof fn lemma_elements(shape: Seq<usize>, count: int)
    requires
        0 <= count <= shape.len(),
        elements(shape.take(count)) is None,
    ensures
        elements(shape) is None,
    decreases shape.len(),
{
    if count < shape.len() {
        assert(shape.drop_last().take(count) =~= shape.take(count));
        lemma_elements(shape.drop_last(), count);
    } else {
        assert(shape.take(count) =~= shape);
    }
}

impl TensorSpec {
    fn new(line: Blueprint) -> (result: Result<Self, SchemaError>)
        ensures
            match result {
                Ok(made) => spec_of(line@) == Ok::<SpecView, SchemaProblem>(made@),
                Err(error) => spec_of(line@) == Err::<SpecView, SchemaProblem>(error@),
            },
    {
        let count = match count_elements(&line.shape) {
            Some(count) => count,
            None => {
                return invalid("tensor logical element count overflows");
            },
        };
        let logical_elements: u64 = match line.logical {
            Logical::Elements => count,
            Logical::Scale => 0,
            Logical::Packed { rows, cols } => match (rows as u64).checked_mul(cols as u64) {
                Some(product) => product,
                None => {
                    return invalid("FP4 logical element count overflows");
                },
            },
        };
        let mut shape: Vec<u64> = Vec::new();
        let mut at: usize = 0;
        while at < line.shape.len()
            invariant
                at <= line.shape@.len(),
                shape@ == wide(line.shape@).take(at as int),
            decreases line.shape@.len() - at,
        {
            shape.push(line.shape[at] as u64);
            at = at + 1;
            assert(shape@ =~= wide(line.shape@).take(at as int));
        }
        assert(shape@ =~= wide(line.shape@));
        Ok(
            TensorSpec {
                name: line.name,
                dtype: line.dtype,
                shape,
                category: line.category,
                logical_elements,
            },
        )
    }
}

proof fn lemma_specs_error(list: Seq<blueprint::Line>, count: int)
    requires
        0 <= count <= list.len(),
        specs_of(list.take(count)) is Err,
    ensures
        specs_of(list) == specs_of(list.take(count)),
    decreases list.len(),
{
    if count < list.len() {
        assert(list.drop_last().take(count) =~= list.take(count));
        lemma_specs_error(list.drop_last(), count);
    } else {
        assert(list.take(count) =~= list);
    }
}

fn append_specs(specs: &mut Vec<TensorSpec>, list: Vec<Blueprint>) -> (result: Result<
    (),
    SchemaError,
>)
    ensures
        match result {
            Ok(_) => specs_of(blueprint::lines(list@)) is Ok && specs_view(final(specs)@)
                == specs_view(old(specs)@) + specs_of(blueprint::lines(list@))->Ok_0,
            Err(error) => specs_of(blueprint::lines(list@)) == Err::<
                Seq<SpecView>,
                SchemaProblem,
            >(error@),
        },
{
    let ghost before = specs_view(specs@);
    let ghost all = blueprint::lines(list@);
    let ghost entries = list@;
    let mut rest = list;
    let mut reversed: Vec<Blueprint> = Vec::new();
    while rest.len() > 0
        invariant
            rest@.len() <= entries.len(),
            rest@ == entries.take(rest@.len() as int),
            reversed@.len() == entries.len() - rest@.len(),
            forall|i: int|
                0 <= i < reversed@.len() ==> reversed@[i] == entries[entries.len() - 1 - i],
        decreases rest@.len(),
    {
        let ghost held = rest@.len();
        match rest.pop() {
            Some(line) => {
                assert(line == entries[held - 1]);
                assert(rest@ =~= entries.take(held - 1));
                reversed.push(line);
            },
            None => {},
        }
    }
    let ghost mut done: int = 0;
    proof {
        assert(all.take(0) =~= Seq::<blueprint::Line>::empty());
        assert(before + Seq::<SpecView>::empty() =~= before);
    }
    while reversed.len() > 0
        invariant
            all == blueprint::lines(entries),
            entries == list@,
            before == specs_view(old(specs)@),
            0 <= done <= entries.len(),
            reversed@.len() == entries.len() - done,
            forall|i: int|
                0 <= i < reversed@.len() ==> reversed@[i] == entries[entries.len() - 1 - i],
            specs_of(all.take(done)) is Ok,
            specs_view(specs@) == before + specs_of(all.take(done))->Ok_0,
        decreases reversed@.len(),
    {
        match reversed.pop() {
            Some(line) => {
                proof {
                    assert(line == entries[done]);
                    let longer = all.take(done + 1);
                    assert(longer.drop_last() =~= all.take(done));
                    assert(longer.last() == line@);
                    if specs_of(longer) is Err {
                        lemma_specs_error(all, done + 1);
                    }
                }
                let made = TensorSpec::new(line)?;
                let ghost so_far = specs@;
                specs.push(made);
                proof {
                    assert(specs_view(specs@) =~= specs_view(so_far).push(made@));
                    let front = specs_of(all.take(done))->Ok_0;
                    assert(before + front.push(made@) =~= (before + front).push(made@));
                    done = done + 1;
                }
            },
            None => {},
        }
    }
    assert(all.take(all.len() as int) =~= all);
    Ok(())
}

/// Lists all tensors of the release.
pub fn official_tensor_specs(config: &DeepseekV41Config) -> (result: Result<
    Vec<TensorSpec>,
    SchemaError,
>)
    requires
        blueprint::dimensions_fit(*config),
    ensures
        match result {
            Ok(specs) => release(*config) == Ok::<Seq<SpecView>, SchemaProblem>(
                specs_view(specs@),
            ),
            Err(error) => release(*config) == Err::<Seq<SpecView>, SchemaProblem>(error@),
        },
{
    let vision = &config.vision_config;
    let mut specs: Vec<TensorSpec> = Vec::new();
    append_specs(&mut specs, list_roots(config))?;
    assert(specs_view(specs@) =~= specs_of(blueprint::root_lines(config.text_config))->Ok_0);
    let square: usize = vision.downsample_ratio * vision.downsample_ratio;
    let unshuffle: usize = match vision.hidden_size.checked_mul(square) {
        Some(width) => width,
        None => {
            return invalid("vision unshuffle width overflows");
        },
    };
    append_specs(&mut specs, list_body(config, unshuffle))?;
    Ok(specs)
}

pub open spec fn mismatch_message(spec: SpecView, found: storage::TensorInfo) -> Seq<char> {
    "tensor "@ + config::quoted(spec.name) + " must be "@ + spec.dtype.label() + " ["@
        + accounting::shown(spec.shape) + "], got "@ + found.dtype.label() + " ["@
        + accounting::shown(found.shape@) + "]"@
}

pub open spec fn twice_message(name: Seq<char>) -> Seq<char> {
    "internal schema generated tensor "@ + config::quoted(name) + " twice"@
}

/// What is wrong with one tensor, the ones before it being expected already.
pub open spec fn tensor_problem(
    index: storage::IndexView,
    expected: Set<Seq<char>>,
    spec: SpecView,
) -> Option<SchemaProblem> {
    if expected.contains(spec.name) {
        Some(SchemaProblem::Invalid(twice_message(spec.name)))
    } else {
        match index.require(spec.name) {
            Err(error) => Some(SchemaProblem::Checkpoint(error)),
            Ok(found) => if found.dtype != spec.dtype || found.shape@ != spec.shape {
                Some(SchemaProblem::Invalid(mismatch_message(spec, found)))
            } else {
                None
            },
        }
    }
}

/// The first tensor that is wrong.
pub open spec fn tensors_problem(index: storage::IndexView, specs: Seq<SpecView>) -> Option<
    SchemaProblem,
>
    decreases specs.len(),
{
    if specs.len() == 0 {
        None
    } else if tensors_problem(index, specs.drop_last()) is Some {
        tensors_problem(index, specs.drop_last())
    } else {
        tensor_problem(index, expected_names(specs.drop_last()), specs.last())
    }
}

/// The names of tensors, as a set.
pub open spec fn expected_names(specs: Seq<SpecView>) -> Set<Seq<char>>
    decreases specs.len(),
{
    if specs.len() == 0 {
        Set::empty()
    } else {
        expected_names(specs.drop_last()).insert(specs.last().name)
    }
}

pub open spec fn count_message(required: nat, held: nat, surplus: nat) -> Seq<char> {
    "schema requires "@ + text::decimal(required) + " exact tensors, checkpoint has "@
        + text::decimal(held) + " with "@ + text::decimal(surplus) + " unexpected"@
}

/// Why a checkpoint is not the release.
pub open spec fn specs_problem(index: storage::IndexView, specs: Seq<SpecView>) -> Option<
    SchemaProblem,
> {
    let surplus = accounting::unexpected(index.names, expected_names(specs));
    if tensors_problem(index, specs) is Some {
        tensors_problem(index, specs)
    } else if index.names.len() != specs.len() || surplus != 0 {
        Some(SchemaProblem::Invalid(count_message(specs.len(), index.names.len(), surplus)))
    } else {
        None
    }
}

proof fn lemma_tensors_problem(index: storage::IndexView, specs: Seq<SpecView>, count: int)
    requires
        0 <= count <= specs.len(),
        tensors_problem(index, specs.take(count)) is Some,
    ensures
        tensors_problem(index, specs) == tensors_problem(index, specs.take(count)),
    decreases specs.len(),
{
    if count < specs.len() {
        assert(specs.drop_last().take(count) =~= specs.take(count));
        lemma_tensors_problem(index, specs.drop_last(), count);
    } else {
        assert(specs.take(count) =~= specs);
    }
}

/// Refuses a checkpoint that is not exactly the release.
pub fn validate_specs(index: &TensorIndex, specs: &Vec<TensorSpec>) -> (result: Result<
    (),
    SchemaError,
>)
    ensures
        problem(result) == specs_problem(index@, specs_view(specs@)),
{
    let ghost all = specs_view(specs@);
    let mut expected = StringHashSet::new();
    let mut at: usize = 0;
    assert(expected@ =~= expected_names(all.take(0)));
    while at < specs.len()
        invariant
            all == specs_view(specs@),
            at <= specs@.len(),
            expected@ == expected_names(all.take(at as int)),
            tensors_problem(index@, all.take(at as int)) is None,
        decreases specs@.len() - at,
    {
        let spec = &specs[at];
        proof {
            let longer = all.take(at + 1);
            assert(longer.drop_last() =~= all.take(at as int));
            assert(longer.last() == spec@);
            if tensors_problem(index@, longer) is Some {
                lemma_tensors_problem(index@, all, at + 1);
            }
        }
        let name = spec.name.as_str();
        if expected.contains(name) {
            let mut reason = join("internal schema generated tensor ", quote(name).as_str());
            reason.append(" twice");
            return Err(SchemaError::Invalid(reason));
        }
        expected.insert(name.to_owned());
        let found = match index.require(name) {
            Ok(found) => found,
            Err(error) => {
                return Err(SchemaError::Checkpoint(error));
            },
        };
        if found.dtype != spec.dtype || !same_shape(found.shape.as_slice(), spec.shape.as_slice()) {
            let mut reason = join("tensor ", quote(name).as_str());
            reason.append(" must be ");
            reason.append(spec.dtype.name());
            reason.append(" [");
            push_shape(&mut reason, &spec.shape);
            reason.append("], got ");
            reason.append(found.dtype.name());
            reason.append(" [");
            push_shape(&mut reason, &found.shape);
            reason.append("]");
            return Err(SchemaError::Invalid(reason));
        }
        at = at + 1;
    }
    assert(all.take(all.len() as int) =~= all);
    let held = index.names().len();
    let surplus = count_unexpected(index.names(), &expected);
    assert(held == index@.names.len());
    if held != specs.len() || surplus != 0 {
        let mut reason = "schema requires ".to_owned();
        push_decimal(&mut reason, specs.len() as u64);
        reason.append(" exact tensors, checkpoint has ");
        push_decimal(&mut reason, held as u64);
        reason.append(" with ");
        push_decimal(&mut reason, surplus as u64);
        reason.append(" unexpected");
        return Err(SchemaError::Invalid(reason));
    }
    Ok(())
}

/// Two numbers together, under a name for the message.
pub open spec fn total(left: u64, right: u64, label: Seq<char>) -> Result<u64, SchemaProblem> {
    if left + right > u64::MAX {
        Err(SchemaProblem::Invalid(label + " overflow"@))
    } else {
        Ok((left + right) as u64)
    }
}

/// Adds two numbers up.
pub fn add(left: u64, right: u64, label: &str) -> (result: Result<u64, SchemaError>)
    ensures
        match result {
            Ok(sum) => total(left, right, label@) == Ok::<u64, SchemaProblem>(sum),
            Err(error) => total(left, right, label@) == Err::<u64, SchemaProblem>(error@),
        },
{
    match left.checked_add(right) {
        Some(sum) => Ok(sum),
        None => Err(SchemaError::Invalid(join(label, " overflow"))),
    }
}

/// What tensors have been counted towards so far.
#[derive(Debug)]
struct Tally {
    layer_bytes: Vec<u64>,
    expert_bytes: Vec<Vec<u64>>,
    roots: u64,
    backbone: u64,
    engram: u64,
    vision: u64,
    dspark: u64,
    tables: u64,
}

/// The same, over plain values.
#[verifier::ext_equal]
pub struct TallyView {
    pub layer_bytes: Seq<u64>,
    pub expert_bytes: Seq<Seq<u64>>,
    pub roots: u64,
    pub backbone: u64,
    pub engram: u64,
    pub vision: u64,
    pub dspark: u64,
    pub tables: u64,
}

pub open spec fn rows_view(rows: Seq<Vec<u64>>) -> Seq<Seq<u64>> {
    Seq::new(rows.len(), |i: int| rows[i]@)
}

impl View for Tally {
    type V = TallyView;

    closed spec fn view(&self) -> TallyView {
        TallyView {
            layer_bytes: self.layer_bytes@,
            expert_bytes: rows_view(self.expert_bytes@),
            roots: self.roots,
            backbone: self.backbone,
            engram: self.engram,
            vision: self.vision,
            dspark: self.dspark,
            tables: self.tables,
        }
    }
}

pub open spec fn empty_tally(layers: nat, experts: nat) -> TallyView {
    TallyView {
        layer_bytes: Seq::new(layers, |i: int| 0u64),
        expert_bytes: Seq::new(layers, |i: int| Seq::new(experts, |j: int| 0u64)),
        roots: 0,
        backbone: 0,
        engram: 0,
        vision: 0,
        dspark: 0,
        tables: 0,
    }
}

/// The parameters of the backbone with one more tensor.
pub open spec fn with_backbone(tally: TallyView, count: u64) -> Result<TallyView, SchemaProblem> {
    match total(tally.backbone, count, "backbone params"@) {
        Err(error) => Err(error),
        Ok(backbone) => Ok(TallyView { backbone, ..tally }),
    }
}

pub open spec fn with_engram(tally: TallyView, count: u64) -> Result<TallyView, SchemaProblem> {
    match total(tally.engram, count, "Engram params"@) {
        Err(error) => Err(error),
        Ok(engram) => Ok(TallyView { engram, ..tally }),
    }
}

pub open spec fn with_layer(
    tally: TallyView,
    layer: int,
    bytes: u64,
    label: Seq<char>,
) -> Result<TallyView, SchemaProblem> {
    match total(tally.layer_bytes[layer], bytes, label) {
        Err(error) => Err(error),
        Ok(sum) => Ok(TallyView { layer_bytes: tally.layer_bytes.update(layer, sum), ..tally }),
    }
}

pub open spec fn with_expert(
    tally: TallyView,
    layer: int,
    expert: int,
    bytes: u64,
) -> Result<TallyView, SchemaProblem> {
    match total(tally.expert_bytes[layer][expert], bytes, "expert bytes"@) {
        Err(error) => Err(error),
        Ok(sum) => Ok(
            TallyView {
                expert_bytes: tally.expert_bytes.update(
                    layer,
                    tally.expert_bytes[layer].update(expert, sum),
                ),
                ..tally
            },
        ),
    }
}

/// The tally behind one more tensor with this payload.
pub open spec fn after_spec(tally: TallyView, spec: SpecView, bytes: u64) -> Result<
    TallyView,
    SchemaProblem,
> {
    let count = spec.logical_elements;
    match spec.category {
        Category::TokenRows => with_backbone(tally, count),
        Category::BackboneRoot => match total(tally.roots, bytes, "root bytes"@) {
            Err(error) => Err(error),
            Ok(roots) => with_backbone(TallyView { roots, ..tally }, count),
        },
        Category::BackboneLayer(layer) => match with_layer(
            tally,
            layer as int,
            bytes,
            "layer bytes"@,
        ) {
            Err(error) => Err(error),
            Ok(next) => with_backbone(next, count),
        },
        Category::Expert(layer, expert) => match with_expert(
            tally,
            layer as int,
            expert as int,
            bytes,
        ) {
            Err(error) => Err(error),
            Ok(next) => with_backbone(next, count),
        },
        Category::EngramTable => match total(tally.tables, bytes, "Engram table bytes"@) {
            Err(error) => Err(error),
            Ok(tables) => with_engram(TallyView { tables, ..tally }, count),
        },
        Category::EngramOther(layer) => match with_layer(
            tally,
            layer as int,
            bytes,
            "Engram projection bytes"@,
        ) {
            Err(error) => Err(error),
            Ok(next) => with_engram(next, count),
        },
        Category::Vision => match total(tally.vision, count, "vision params"@) {
            Err(error) => Err(error),
            Ok(vision) => Ok(TallyView { vision, ..tally }),
        },
        Category::DSpark => match total(tally.dspark, count, "DSpark params"@) {
            Err(error) => Err(error),
            Ok(dspark) => Ok(TallyView { dspark, ..tally }),
        },
    }
}

/// The tally of tensors, or the first problem.
pub open spec fn after_specs(
    tally: TallyView,
    index: storage::IndexView,
    specs: Seq<SpecView>,
) -> Result<TallyView, SchemaProblem>
    decreases specs.len(),
{
    if specs.len() == 0 {
        Ok(tally)
    } else {
        match after_specs(tally, index, specs.drop_last()) {
            Err(error) => Err(error),
            Ok(next) => match index.require(specs.last().name) {
                Err(error) => Err(SchemaProblem::Checkpoint(error)),
                Ok(found) => after_spec(next, specs.last(), found.data_len),
            },
        }
    }
}

/// The tally counts these layers and experts.
pub open spec fn shaped(tally: TallyView, layers: nat, experts: nat) -> bool {
    &&& tally.layer_bytes.len() == layers
    &&& tally.expert_bytes.len() == layers
    &&& forall|i: int| 0 <= i < layers ==> (#[trigger] tally.expert_bytes[i]).len() == experts
}

spec fn outcome(
    result: Result<(), SchemaError>,
    after: TallyView,
    wanted: Result<TallyView, SchemaProblem>,
) -> bool {
    match result {
        Ok(_) => wanted == Ok::<TallyView, SchemaProblem>(after),
        Err(error) => wanted == Err::<TallyView, SchemaProblem>(error@),
    }
}

impl Tally {
    fn new(layers: usize, experts: usize) -> (tally: Self)
        ensures
            tally@ == empty_tally(layers as nat, experts as nat),
            shaped(tally@, layers as nat, experts as nat),
    {
        let mut expert_bytes: Vec<Vec<u64>> = Vec::new();
        let mut layer: usize = 0;
        while layer < layers
            invariant
                layer <= layers,
                expert_bytes@.len() == layer,
                forall|i: int|
                    0 <= i < layer ==> (#[trigger] expert_bytes@[i])@ == Seq::new(
                        experts as nat,
                        |j: int| 0u64,
                    ),
            decreases layers - layer,
        {
            let row = vec![0u64; experts];
            assert(row@ =~= Seq::new(experts as nat, |j: int| 0u64));
            expert_bytes.push(row);
            layer = layer + 1;
        }
        let tally = Tally {
            layer_bytes: vec![0u64; layers],
            expert_bytes,
            roots: 0,
            backbone: 0,
            engram: 0,
            vision: 0,
            dspark: 0,
            tables: 0,
        };
        proof {
            let wanted = empty_tally(layers as nat, experts as nat);
            assert(tally@.layer_bytes =~= wanted.layer_bytes);
            assert(tally@.expert_bytes =~= wanted.expert_bytes);
        }
        tally
    }

    fn add_backbone(&mut self, count: u64) -> (result: Result<(), SchemaError>)
        ensures
            outcome(result, final(self)@, with_backbone(old(self)@, count)),
    {
        self.backbone = self::add(self.backbone, count, "backbone params")?;
        Ok(())
    }

    fn add_engram(&mut self, count: u64) -> (result: Result<(), SchemaError>)
        ensures
            outcome(result, final(self)@, with_engram(old(self)@, count)),
    {
        self.engram = self::add(self.engram, count, "Engram params")?;
        Ok(())
    }

    fn add_layer(&mut self, layer: usize, bytes: u64, label: &str) -> (result: Result<
        (),
        SchemaError,
    >)
        requires
            layer < old(self)@.layer_bytes.len(),
        ensures
            outcome(result, final(self)@, with_layer(old(self)@, layer as int, bytes, label@)),
    {
        let sum = self::add(self.layer_bytes[layer], bytes, label)?;
        self.layer_bytes.set(layer, sum);
        Ok(())
    }

    fn add_expert(&mut self, layer: usize, expert: usize, bytes: u64) -> (result: Result<
        (),
        SchemaError,
    >)
        requires
            layer < old(self)@.expert_bytes.len(),
            expert < old(self)@.expert_bytes[layer as int].len(),
        ensures
            outcome(
                result,
                final(self)@,
                with_expert(old(self)@, layer as int, expert as int, bytes),
            ),
    {
        let ghost before = self@;
        let sum = self::add(self.expert_bytes[layer][expert], bytes, "expert bytes")?;
        self.expert_bytes[layer].set(expert, sum);
        proof {
            assert(self@.expert_bytes =~= before.expert_bytes.update(
                layer as int,
                before.expert_bytes[layer as int].update(expert as int, sum),
            ));
        }
        Ok(())
    }

    fn count(&mut self, spec: &TensorSpec, bytes: u64) -> (result: Result<(), SchemaError>)
        requires
            exists|layers: nat, experts: nat|
                #[trigger] shaped(old(self)@, layers, experts) && blueprint::counted(
                    spec@.category,
                    layers,
                    experts,
                ),
        ensures
            outcome(result, final(self)@, after_spec(old(self)@, spec@, bytes)),
    {
        let count = spec.logical_elements;
        match spec.category {
            Category::TokenRows => self.add_backbone(count),
            Category::BackboneRoot => {
                self.roots = self::add(self.roots, bytes, "root bytes")?;
                self.add_backbone(count)
            },
            Category::BackboneLayer(layer) => {
                self.add_layer(layer, bytes, "layer bytes")?;
                self.add_backbone(count)
            },
            Category::Expert(layer, expert) => {
                self.add_expert(layer, expert, bytes)?;
                self.add_backbone(count)
            },
            Category::EngramTable => {
                self.tables = self::add(self.tables, bytes, "Engram table bytes")?;
                self.add_engram(count)
            },
            Category::EngramOther(layer) => {
                self.add_layer(layer, bytes, "Engram projection bytes")?;
                self.add_engram(count)
            },
            Category::Vision => {
                self.vision = self::add(self.vision, count, "vision params")?;
                Ok(())
            },
            Category::DSpark => {
                self.dspark = self::add(self.dspark, count, "DSpark params")?;
                Ok(())
            },
        }
    }
}

proof fn lemma_shape_kept(tally: TallyView, spec: SpecView, bytes: u64, layers: nat, experts: nat)
    requires
        shaped(tally, layers, experts),
        blueprint::counted(spec.category, layers, experts),
        after_spec(tally, spec, bytes) is Ok,
    ensures
        shaped(after_spec(tally, spec, bytes)->Ok_0, layers, experts),
{
    let next = after_spec(tally, spec, bytes)->Ok_0;
    assert forall|i: int| 0 <= i < layers implies (#[trigger] next.expert_bytes[i]).len()
        == experts by {
        assert(tally.expert_bytes[i].len() == experts);
        if let Category::Expert(layer, expert) = spec.category {
            assert(tally.expert_bytes[layer as int].len() == experts);
        }
    }
}

proof fn lemma_tally_error(
    tally: TallyView,
    index: storage::IndexView,
    specs: Seq<SpecView>,
    count: int,
)
    requires
        0 <= count <= specs.len(),
        after_specs(tally, index, specs.take(count)) is Err,
    ensures
        after_specs(tally, index, specs) == after_specs(tally, index, specs.take(count)),
    decreases specs.len(),
{
    if count < specs.len() {
        assert(specs.drop_last().take(count) =~= specs.take(count));
        lemma_tally_error(tally, index, specs.drop_last(), count);
    } else {
        assert(specs.take(count) =~= specs);
    }
}

/// Every tensor counts towards layers and experts that there are.
pub open spec fn all_counted(specs: Seq<SpecView>, layers: nat, experts: nat) -> bool {
    forall|i: int| 0 <= i < specs.len() ==> blueprint::counted((#[trigger] specs[i]).category, layers, experts)
}

fn tally_specs(index: &TensorIndex, specs: &Vec<TensorSpec>, layers: usize, experts: usize) -> (
    result: Result<Tally, SchemaError>)
    requires
        all_counted(specs_view(specs@), layers as nat, experts as nat),
    ensures
        ({
            let wanted = after_specs(
                empty_tally(layers as nat, experts as nat),
                index@,
                specs_view(specs@),
            );
            match result {
                Ok(tally) => wanted == Ok::<TallyView, SchemaProblem>(tally@) && shaped(
                    tally@,
                    layers as nat,
                    experts as nat,
                ),
                Err(error) => wanted == Err::<TallyView, SchemaProblem>(error@),
            }
        }),
{
    let ghost all = specs_view(specs@);
    let ghost start = empty_tally(layers as nat, experts as nat);
    let mut tally = Tally::new(layers, experts);
    let mut at: usize = 0;
    while at < specs.len()
        invariant
            all == specs_view(specs@),
            start == empty_tally(layers as nat, experts as nat),
            all_counted(all, layers as nat, experts as nat),
            at <= specs@.len(),
            shaped(tally@, layers as nat, experts as nat),
            after_specs(start, index@, all.take(at as int)) == Ok::<TallyView, SchemaProblem>(
                tally@,
            ),
        decreases specs@.len() - at,
    {
        let spec = &specs[at];
        let ghost before = tally@;
        proof {
            let longer = all.take(at + 1);
            assert(longer.drop_last() =~= all.take(at as int));
            assert(longer.last() == spec@);
            assert(blueprint::counted(all[at as int].category, layers as nat, experts as nat));
            if after_specs(start, index@, longer) is Err {
                lemma_tally_error(start, index@, all, at + 1);
            }
        }
        let bytes: u64 = match index.require(spec.name.as_str()) {
            Ok(found) => found.data_len,
            Err(error) => {
                return Err(SchemaError::Checkpoint(error));
            },
        };
        tally.count(spec, bytes)?;
        proof {
            lemma_shape_kept(before, spec@, bytes, layers as nat, experts as nat);
        }
        at = at + 1;
    }
    assert(all.take(all.len() as int) =~= all);
    Ok(tally)
}

/// The largest of all items of all rows, or zero.
pub open spec fn largest_of(rows: Seq<Seq<u64>>) -> u64
    decreases rows.len(),
{
    if rows.len() == 0 {
        0
    } else {
        accounting::larger(
            largest_of(rows.drop_last()) as int,
            accounting::largest(rows.last()) as int,
        ) as u64
    }
}

fn find_largest_of(rows: &Vec<Vec<u64>>) -> (best: u64)
    ensures
        best == largest_of(rows_view(rows@)),
{
    let ghost all = rows_view(rows@);
    let mut best: u64 = 0;
    let mut at: usize = 0;
    while at < rows.len()
        invariant
            all == rows_view(rows@),
            at <= rows@.len(),
            best == largest_of(all.take(at as int)),
        decreases rows@.len() - at,
    {
        proof {
            assert(all.take(at + 1).drop_last() =~= all.take(at as int));
            assert(all.take(at + 1).last() == rows@[at as int]@);
        }
        let row = find_largest(&rows[at]);
        if row > best {
            best = row;
        }
        at = at + 1;
    }
    assert(all.take(all.len() as int) =~= all);
    best
}

/// The bytes of one owned cache entry: packed 4-bit values and their scales, of the attention and
/// of the indexer.
pub open spec fn entry_bytes(config: DeepseekV41Config) -> int {
    let text = config.text_config;
    blueprint::parts(text.head_dim, 2) + blueprint::parts(text.head_dim, 16) + blueprint::parts(
        text.index_head_dim,
        2,
    ) + blueprint::parts(text.index_head_dim, 32)
}

/// The bytes of the owned caches of the first `sources` owners.
pub open spec fn owned_bytes(config: DeepseekV41Config, context: usize, sources: nat) -> Result<
    u64,
    SchemaProblem,
>
    decreases sources,
{
    let text = config.text_config;
    if sources == 0 {
        Ok(0)
    } else {
        match owned_bytes(config, context, (sources - 1) as nat) {
            Err(error) => Err(error),
            Ok(sum) => {
                let layer = text.kv_source_layer_ids@[sources - 1];
                let ratio = text.compress_ratios@[layer as int];
                let bytes = blueprint::parts(context, ratio) * entry_bytes(config);
                if bytes > u64::MAX {
                    Err(SchemaProblem::Invalid("global KV bytes overflow"@))
                } else {
                    total(sum, bytes as u64, "global KV bytes"@)
                }
            },
        }
    }
}

/// The bytes of all owned caches.
pub open spec fn owned_cache(config: DeepseekV41Config, context: usize) -> Result<
    u64,
    SchemaProblem,
> {
    if entry_bytes(config) > usize::MAX {
        Err(SchemaProblem::Invalid("global KV entry bytes overflow"@))
    } else {
        owned_bytes(config, context, config.text_config.kv_source_layer_ids@.len())
    }
}

/// Every owner of a cache is a layer with a compression ratio.
pub open spec fn owners_compress(config: DeepseekV41Config) -> bool {
    let text = config.text_config;
    forall|i: int|
        0 <= i < text.kv_source_layer_ids@.len() ==> (#[trigger] text.kv_source_layer_ids@[i])
            < text.compress_ratios@.len()
            && text.compress_ratios@[text.kv_source_layer_ids@[i] as int] > 0
}

proof fn lemma_owned_error(config: DeepseekV41Config, context: usize, count: nat, sources: nat)
    requires
        count <= sources,
        owned_bytes(config, context, count) is Err,
    ensures
        owned_bytes(config, context, sources) == owned_bytes(config, context, count),
    decreases sources,
{
    if count < sources {
        lemma_owned_error(config, context, count, (sources - 1) as nat);
    }
}

/// The bytes of all owned caches for a context.
pub fn global_kv_cache_bytes(config: &DeepseekV41Config, context: usize) -> (result: Result<
    u64,
    SchemaError,
>)
    requires
        owners_compress(*config),
        blueprint::parts(config.text_config.head_dim, 2) + blueprint::parts(
            config.text_config.head_dim,
            16,
        ) <= usize::MAX,
        blueprint::parts(config.text_config.index_head_dim, 2) + blueprint::parts(
            config.text_config.index_head_dim,
            32,
        ) <= usize::MAX,
    ensures
        match result {
            Ok(bytes) => owned_cache(*config, context) == Ok::<u64, SchemaProblem>(bytes),
            Err(error) => owned_cache(*config, context) == Err::<u64, SchemaProblem>(error@),
        },
{
    let text = &config.text_config;
    let main: usize = count_parts(text.head_dim, 2) + count_parts(text.head_dim, 16);
    let indexed: usize = count_parts(text.index_head_dim, 2) + count_parts(
        text.index_head_dim,
        32,
    );
    let per_entry: usize = match main.checked_add(indexed) {
        Some(bytes) => bytes,
        None => {
            return invalid("global KV entry bytes overflow");
        },
    };
    let mut sum: u64 = 0;
    let mut at: usize = 0;
    while at < text.kv_source_layer_ids.len()
        invariant
            *text == config.text_config,
            owners_compress(*config),
            per_entry == entry_bytes(*config),
            at <= text.kv_source_layer_ids@.len(),
            owned_bytes(*config, context, at as nat) == Ok::<u64, SchemaProblem>(sum),
        decreases text.kv_source_layer_ids@.len() - at,
    {
        let layer = text.kv_source_layer_ids[at];
        assert(text.kv_source_layer_ids@[at as int] == layer);
        let ratio = text.compress_ratios[layer];
        let entries = count_parts(context, ratio);
        proof {
            if owned_bytes(*config, context, (at + 1) as nat) is Err {
                lemma_owned_error(
                    *config,
                    context,
                    (at + 1) as nat,
                    text.kv_source_layer_ids@.len(),
                );
            }
        }
        let bytes: u64 = match (entries as u64).checked_mul(per_entry as u64) {
            Some(bytes) => bytes,
            None => {
                return invalid("global KV bytes overflow");
            },
        };
        sum = self::add(sum, bytes, "global KV bytes")?;
        at = at + 1;
    }
    Ok(sum)
}

/// The bytes of all sliding windows: 8-bit values with a scale for every 32.
pub open spec fn window_cache(config: DeepseekV41Config) -> Result<u64, SchemaProblem> {
    let text = config.text_config;
    let entries = text.num_hidden_layers * text.sliding_window;
    let bytes = entries * (text.head_dim + blueprint::parts(text.head_dim, 32));
    if entries > u64::MAX || bytes > u64::MAX {
        Err(SchemaProblem::Invalid("sliding-window cache bytes overflow"@))
    } else {
        Ok(bytes as u64)
    }
}

/// The bytes of all sliding windows.
pub fn sliding_window_cache_bytes(config: &DeepseekV41Config) -> (result: Result<u64, SchemaError>)
    requires
        config.text_config.head_dim + blueprint::parts(config.text_config.head_dim, 32)
            <= usize::MAX,
    ensures
        match result {
            Ok(bytes) => window_cache(*config) == Ok::<u64, SchemaProblem>(bytes),
            Err(error) => window_cache(*config) == Err::<u64, SchemaProblem>(error@),
        },
{
    let text = &config.text_config;
    let per_entry: usize = text.head_dim + count_parts(text.head_dim, 32);
    let entries: u64 = match (text.num_hidden_layers as u64).checked_mul(
        text.sliding_window as u64,
    ) {
        Some(entries) => entries,
        None => {
            return invalid("sliding-window cache bytes overflow");
        },
    };
    match entries.checked_mul(per_entry as u64) {
        Some(bytes) => Ok(bytes),
        None => invalid("sliding-window cache bytes overflow"),
    }
}

/// The bytes that looking up one token's n-grams reads: in every module one row for each n-gram
/// size and head, of 8-bit values with a scale for every 32.
pub open spec fn lookup_bytes(config: DeepseekV41Config) -> Result<u64, SchemaProblem> {
    let text = config.text_config;
    let rows = (text.engram_max_ngram_size - 1) * text.engram_n_heads;
    let row = text.engram_head_dim + blueprint::parts(text.engram_head_dim, 32);
    let modules = text.engram_layer_ids@.len();
    if rows > usize::MAX {
        Err(SchemaProblem::Invalid("Engram rows/token overflow"@))
    } else if row > usize::MAX {
        Err(SchemaProblem::Invalid("Engram row bytes overflow"@))
    } else if modules * rows > u64::MAX || modules * rows * row > u64::MAX {
        Err(SchemaProblem::Invalid("Engram lookup bytes/token overflow"@))
    } else {
        Ok((modules * rows * row) as u64)
    }
}

fn count_lookup_bytes(config: &DeepseekV41Config) -> (result: Result<u64, SchemaError>)
    requires
        config.text_config.engram_max_ngram_size > 0,
    ensures
        match result {
            Ok(bytes) => lookup_bytes(*config) == Ok::<u64, SchemaProblem>(bytes),
            Err(error) => lookup_bytes(*config) == Err::<u64, SchemaProblem>(error@),
        },
{
    let text = &config.text_config;
    let rows: usize = match (text.engram_max_ngram_size - 1).checked_mul(text.engram_n_heads) {
        Some(rows) => rows,
        None => {
            return invalid("Engram rows/token overflow");
        },
    };
    let row: usize = match text.engram_head_dim.checked_add(
        count_parts(text.engram_head_dim, 32),
    ) {
        Some(row) => row,
        None => {
            return invalid("Engram row bytes overflow");
        },
    };
    let modules: u64 = text.engram_layer_ids.len() as u64;
    match modules.checked_mul(rows as u64) {
        Some(all) => match all.checked_mul(row as u64) {
            Some(bytes) => Ok(bytes),
            None => invalid("Engram lookup bytes/token overflow"),
        },
        None => invalid("Engram lookup bytes/token overflow"),
    }
}

/// The expert cache, unless its size exceeds 64 bits.
pub open spec fn cache_bytes(maximum: u64, slots: usize, layers: usize) -> Result<
    u64,
    SchemaProblem,
> {
    if maximum * slots > u64::MAX || maximum * slots * layers > u64::MAX {
        Err(SchemaProblem::Invalid("expert cache bytes overflow"@))
    } else {
        Ok((maximum * slots * layers) as u64)
    }
}

/// What the sizes of all parts come to.
pub open spec fn summary(
    config: DeepseekV41Config,
    index: storage::IndexView,
    specs: Seq<SpecView>,
    tally: TallyView,
    context_limit: usize,
    slots: usize,
) -> Result<DeepseekV41Requirements, SchemaProblem> {
    let text = config.text_config;
    let maximum = largest_of(tally.expert_bytes);
    let layers = accounting::sum_of(tally.layer_bytes);
    if maximum == 0 {
        Err(SchemaProblem::Invalid("routed experts have no payload"@))
    } else {
        match cache_bytes(maximum, slots, text.num_hidden_layers) {
            Err(error) => Err(error),
            Ok(cache) => if layers > u64::MAX {
                Err(SchemaProblem::Invalid("backbone layer bytes overflow"@))
            } else {
                match owned_cache(config, context_limit) {
                    Err(error) => Err(error),
                    Ok(owned) => match window_cache(config) {
                        Err(error) => Err(error),
                        Ok(windows) => match total(owned, windows, "total KV bytes"@) {
                            Err(error) => Err(error),
                            Ok(kv) => match lookup_bytes(config) {
                                Err(error) => Err(error),
                                Ok(lookup) => match index.require("embed.weight"@) {
                                    Err(error) => Err(SchemaProblem::Checkpoint(error)),
                                    Ok(embedding) => match index.require("head.weight"@) {
                                        Err(error) => Err(SchemaProblem::Checkpoint(error)),
                                        Ok(head) => Ok(
                                            DeepseekV41Requirements {
                                                required_tensor_count: specs.len() as usize,
                                                checkpoint_tensor_count: index.names.len() as usize,
                                                checkpoint_shard_count: index.shard_count,
                                                checkpoint_file_bytes: index.file_bytes,
                                                checkpoint_payload_bytes: index.payload_bytes,
                                                backbone_logical_parameters: tally.backbone,
                                                engram_logical_parameters: tally.engram,
                                                vision_logical_parameters: tally.vision,
                                                dspark_logical_parameters: tally.dspark,
                                                streamed_layer_bytes: accounting::larger(
                                                    accounting::largest(tally.layer_bytes) as int,
                                                    tally.roots as int,
                                                ) as u64,
                                                backbone_layer_bytes: layers as u64,
                                                backbone_layer_count: text.num_hidden_layers,
                                                streamed_embedding_bytes: embedding.data_len,
                                                streamed_lm_head_bytes: head.data_len,
                                                lm_head_resident_bytes: head.data_len,
                                                engram_table_bytes: tally.tables,
                                                engram_lookup_bytes_per_token: lookup,
                                                maximum_expert_bytes: maximum,
                                                transient_expert_bytes: maximum,
                                                expert_cache_bytes: accounting::larger(
                                                    cache as int,
                                                    maximum as int,
                                                ) as u64,
                                                expert_slots_per_layer: slots,
                                                global_kv_cache_bytes: owned,
                                                sliding_window_cache_bytes: windows,
                                                kv_cache_bytes: kv,
                                                context_limit,
                                                exact_context_ceiling:
                                                    text.max_position_embeddings,
                                                encoder_layer_count: 20,
                                                decoder_layer_count: (text.num_hidden_layers
                                                    - 20) as usize,
                                                kv_source_layer_count:
                                                    text.kv_source_layer_ids@.len() as usize,
                                                index_source_layer_count:
                                                    text.index_source_layer_ids@.len() as usize,
                                                approximate_replay_window: text.sliding_window,
                                            },
                                        ),
                                    },
                                },
                            },
                        },
                    },
                }
            },
        }
    }
}

/// What a checkpoint needs, or why it is refused.
pub open spec fn requirements(
    config: DeepseekV41Config,
    index: storage::IndexView,
    context_limit: usize,
    slots: usize,
) -> Result<DeepseekV41Requirements, SchemaProblem> {
    let text = config.text_config;
    if context_limit == 0 || context_limit > text.max_position_embeddings {
        Err(
            SchemaProblem::Invalid(
                "context_limit="@ + text::decimal(context_limit as nat) + " is outside 1..="@
                    + text::decimal(text.max_position_embeddings as nat),
            ),
        )
    } else if slots > text.n_routed_experts {
        Err(
            SchemaProblem::Invalid(
                "expert_slots_per_layer="@ + text::decimal(slots as nat) + " exceeds "@
                    + text::decimal(text.n_routed_experts as nat),
            ),
        )
    } else {
        match release(config) {
            Err(error) => Err(error),
            Ok(specs) => match specs_problem(index, specs) {
                Some(error) => Err(error),
                None => match after_specs(
                    empty_tally(text.num_hidden_layers as nat, text.n_routed_experts as nat),
                    index,
                    specs,
                ) {
                    Err(error) => Err(error),
                    Ok(tally) => summary(config, index, specs, tally, context_limit, slots),
                },
            },
        }
    }
}

proof fn lemma_specs_counted(list: Seq<blueprint::Line>, layers: nat, experts: nat)
    requires
        blueprint::all_counted(list, layers, experts),
        specs_of(list) is Ok,
    ensures
        specs_of(list)->Ok_0.len() == list.len(),
        all_counted(specs_of(list)->Ok_0, layers, experts),
    decreases list.len(),
{
    if list.len() > 0 {
        let front = list.drop_last();
        assert forall|i: int| 0 <= i < front.len() implies blueprint::counted(
            (#[trigger] front[i]).category,
            layers,
            experts,
        ) by {
            assert(list[i] == front[i]);
        }
        lemma_specs_counted(front, layers, experts);
        assert(blueprint::counted(list[list.len() - 1].category, layers, experts));
    }
}

proof fn lemma_release_counted(config: DeepseekV41Config)
    requires
        release(config) is Ok,
    ensures
        all_counted(
            release(config)->Ok_0,
            config.text_config.num_hidden_layers as nat,
            config.text_config.n_routed_experts as nat,
        ),
{
    let layers = config.text_config.num_hidden_layers as nat;
    let experts = config.text_config.n_routed_experts as nat;
    let width = unshuffle_width(config) as usize;
    blueprint::release_lines_are_counted(config, width);
    lemma_specs_counted(blueprint::root_lines(config.text_config), layers, experts);
    lemma_specs_counted(blueprint::body_lines(config, width), layers, experts);
    let roots = specs_of(blueprint::root_lines(config.text_config))->Ok_0;
    let body = specs_of(blueprint::body_lines(config, width))->Ok_0;
    let all = release(config)->Ok_0;
    assert forall|i: int| 0 <= i < all.len() implies blueprint::counted(
        (#[trigger] all[i]).category,
        layers,
        experts,
    ) by {
        if i < roots.len() {
            assert(all[i] == roots[i]);
        } else {
            assert(all[i] == body[i - roots.len()]);
        }
    }
}

/// What the account computes without a check is a number of the machine, the owners of caches have
/// a ratio, and there are the encoder's layers.
pub open spec fn account_fits(config: DeepseekV41Config) -> bool {
    let text = config.text_config;
    &&& blueprint::dimensions_fit(config)
    &&& owners_compress(config)
    &&& text.num_hidden_layers >= 20
    &&& blueprint::parts(text.head_dim, 2) + blueprint::parts(text.head_dim, 16) <= usize::MAX
    &&& blueprint::parts(text.index_head_dim, 2) + blueprint::parts(text.index_head_dim, 32)
        <= usize::MAX
    &&& text.head_dim + blueprint::parts(text.head_dim, 32) <= usize::MAX
}

fn summarize(
    config: &DeepseekV41Config,
    index: &TensorIndex,
    specs: &Vec<TensorSpec>,
    tally: &Tally,
    context_limit: usize,
    expert_slots_per_layer: usize,
) -> (result: Result<DeepseekV41Requirements, SchemaError>)
    requires
        account_fits(*config),
    ensures
        ({
            let wanted = summary(
                *config,
                index@,
                specs_view(specs@),
                tally@,
                context_limit,
                expert_slots_per_layer,
            );
            match result {
                Ok(found) => wanted == Ok::<DeepseekV41Requirements, SchemaProblem>(found),
                Err(error) => wanted == Err::<DeepseekV41Requirements, SchemaProblem>(error@),
            }
        }),
{
    let text = &config.text_config;
    let maximum_expert_bytes = find_largest_of(&tally.expert_bytes);
    if maximum_expert_bytes == 0 {
        return invalid("routed experts have no payload");
    }
    let slots: u64 = expert_slots_per_layer as u64;
    let layers: u64 = text.num_hidden_layers as u64;
    let cache: u64 = match maximum_expert_bytes.checked_mul(slots) {
        Some(bytes) => match bytes.checked_mul(layers) {
            Some(all) => all,
            None => {
                return invalid("expert cache bytes overflow");
            },
        },
        None => {
            return invalid("expert cache bytes overflow");
        },
    };
    let largest_layer = find_largest(&tally.layer_bytes);
    let backbone_layer_bytes = match checked_sum_of(&tally.layer_bytes) {
        Some(sum) => sum,
        None => {
            return invalid("backbone layer bytes overflow");
        },
    };
    let owned = global_kv_cache_bytes(config, context_limit)?;
    let windows = sliding_window_cache_bytes(config)?;
    let kv_cache_bytes = self::add(owned, windows, "total KV bytes")?;
    let lookup = count_lookup_bytes(config)?;
    let embedding: u64 = match index.require("embed.weight") {
        Ok(found) => found.data_len,
        Err(error) => {
            return Err(SchemaError::Checkpoint(error));
        },
    };
    let head: u64 = match index.require("head.weight") {
        Ok(found) => found.data_len,
        Err(error) => {
            return Err(SchemaError::Checkpoint(error));
        },
    };
    Ok(
        DeepseekV41Requirements {
            required_tensor_count: specs.len(),
            checkpoint_tensor_count: index.names().len(),
            checkpoint_shard_count: index.shards(),
            checkpoint_file_bytes: index.total_file_bytes(),
            checkpoint_payload_bytes: index.total_payload_bytes(),
            backbone_logical_parameters: tally.backbone,
            engram_logical_parameters: tally.engram,
            vision_logical_parameters: tally.vision,
            dspark_logical_parameters: tally.dspark,
            streamed_layer_bytes: if largest_layer >= tally.roots {
                largest_layer
            } else {
                tally.roots
            },
            backbone_layer_bytes,
            backbone_layer_count: text.num_hidden_layers,
            streamed_embedding_bytes: embedding,
            streamed_lm_head_bytes: head,
            lm_head_resident_bytes: head,
            engram_table_bytes: tally.tables,
            engram_lookup_bytes_per_token: lookup,
            maximum_expert_bytes,
            transient_expert_bytes: maximum_expert_bytes,
            expert_cache_bytes: if cache >= maximum_expert_bytes {
                cache
            } else {
                maximum_expert_bytes
            },
            expert_slots_per_layer,
            global_kv_cache_bytes: owned,
            sliding_window_cache_bytes: windows,
            kv_cache_bytes,
            context_limit,
            exact_context_ceiling: text.max_position_embeddings,
            encoder_layer_count: config.encoder_layer_count(),
            decoder_layer_count: config.decoder_layer_count(),
            kv_source_layer_count: text.kv_source_layer_ids.len(),
            index_source_layer_count: text.index_source_layer_ids.len(),
            approximate_replay_window: text.sliding_window,
        },
    )
}

/// Checks a checkpoint against the release and accounts for its memory.
pub fn inspect_requirements(
    config: &DeepseekV41Config,
    index: &TensorIndex,
    context_limit: usize,
    expert_slots_per_layer: usize,
) -> (result: Result<DeepseekV41Requirements, SchemaError>)
    requires
        account_fits(*config),
    ensures
        ({
            let wanted = requirements(*config, index@, context_limit, expert_slots_per_layer);
            match result {
                Ok(found) => wanted == Ok::<DeepseekV41Requirements, SchemaProblem>(found),
                Err(error) => wanted == Err::<DeepseekV41Requirements, SchemaProblem>(error@),
            }
        }),
{
    let text = &config.text_config;
    if context_limit == 0 || context_limit > text.max_position_embeddings {
        let mut reason = "context_limit=".to_owned();
        push_decimal(&mut reason, context_limit as u64);
        reason.append(" is outside 1..=");
        push_decimal(&mut reason, text.max_position_embeddings as u64);
        return Err(SchemaError::Invalid(reason));
    }
    if expert_slots_per_layer > text.n_routed_experts {
        let mut reason = "expert_slots_per_layer=".to_owned();
        push_decimal(&mut reason, expert_slots_per_layer as u64);
        reason.append(" exceeds ");
        push_decimal(&mut reason, text.n_routed_experts as u64);
        return Err(SchemaError::Invalid(reason));
    }
    let specs = official_tensor_specs(config)?;
    validate_specs(index, &specs)?;
    proof {
        lemma_release_counted(*config);
    }
    let tally = tally_specs(index, &specs, text.num_hidden_layers, text.n_routed_experts)?;
    summarize(config, index, &specs, &tally, context_limit, expert_slots_per_layer)
}

/// An accepted checkpoint holds exactly the tensors of the release: each of them, in its type and
/// shape, and none besides.
pub proof fn accepted_checkpoints_are_the_release(
    config: DeepseekV41Config,
    index: storage::IndexView,
    context_limit: usize,
    slots: usize,
    i: int,
)
    requires
        requirements(config, index, context_limit, slots) is Ok,
        0 <= i < release(config)->Ok_0.len(),
    ensures
        ({
            let spec = release(config)->Ok_0[i];
            &&& index.tensors.contains_key(spec.name)
            &&& index.tensors[spec.name].dtype == spec.dtype
            &&& index.tensors[spec.name].shape@ == spec.shape
            &&& index.names.len() == release(config)->Ok_0.len()
            &&& accounting::unexpected(
                index.names,
                expected_names(release(config)->Ok_0),
            ) == 0
        }),
{
    lemma_each_tensor(index, release(config)->Ok_0, i);
}

proof fn lemma_each_tensor(index: storage::IndexView, specs: Seq<SpecView>, i: int)
    requires
        tensors_problem(index, specs) is None,
        0 <= i < specs.len(),
    ensures
        index.require(specs[i].name) is Ok,
        index.tensors[specs[i].name].dtype == specs[i].dtype,
        index.tensors[specs[i].name].shape@ == specs[i].shape,
    decreases specs.len(),
{
    if i < specs.len() - 1 {
        lemma_each_tensor(index, specs.drop_last(), i);
    }
}

proof fn lemma_names_expected(specs: Seq<SpecView>, i: int)
    requires
        0 <= i < specs.len(),
    ensures
        expected_names(specs).contains(specs[i].name),
    decreases specs.len(),
{
    if i < specs.len() - 1 {
        lemma_names_expected(specs.drop_last(), i);
    }
}

/// An accepted release never names a tensor twice.
pub proof fn accepted_names_differ(
    index: storage::IndexView,
    specs: Seq<SpecView>,
    i: int,
    j: int,
)
    requires
        specs_problem(index, specs) is None,
        0 <= i < j < specs.len(),
    ensures
        specs[i].name != specs[j].name,
{
    lemma_names_differ(index, specs, i, j);
}

proof fn lemma_names_differ(index: storage::IndexView, specs: Seq<SpecView>, i: int, j: int)
    requires
        tensors_problem(index, specs) is None,
        0 <= i < j < specs.len(),
    ensures
        specs[i].name != specs[j].name,
    decreases specs.len(),
{
    if j < specs.len() - 1 {
        lemma_names_differ(index, specs.drop_last(), i, j);
    } else {
        lemma_names_expected(specs.drop_last(), i);
    }
}

/// The parameters of tensors of one kind.
pub open spec fn parameters_of(specs: Seq<SpecView>, kind: spec_fn(Category) -> bool) -> nat
    decreases specs.len(),
{
    if specs.len() == 0 {
        0
    } else {
        parameters_of(specs.drop_last(), kind) + if kind(specs.last().category) {
            specs.last().logical_elements as nat
        } else {
            0
        }
    }
}

pub open spec fn in_backbone(category: Category) -> bool {
    category is TokenRows || category is BackboneRoot || category is BackboneLayer
        || category is Expert
}

pub open spec fn in_engram(category: Category) -> bool {
    category is EngramTable || category is EngramOther
}

/// Every parameter is counted once: a tally that succeeds holds, for the backbone, the n-gram
/// memory, the image encoder and the draft stages, the sum over their tensors, and nothing is left
/// out.
pub proof fn tallies_count_every_parameter(
    layers: nat,
    experts: nat,
    index: storage::IndexView,
    specs: Seq<SpecView>,
)
    requires
        after_specs(empty_tally(layers, experts), index, specs) is Ok,
    ensures
        ({
            let tally = after_specs(empty_tally(layers, experts), index, specs)->Ok_0;
            &&& tally.backbone == parameters_of(specs, |c: Category| in_backbone(c))
            &&& tally.engram == parameters_of(specs, |c: Category| in_engram(c))
            &&& tally.vision == parameters_of(specs, |c: Category| c is Vision)
            &&& tally.dspark == parameters_of(specs, |c: Category| c is DSpark)
        }),
    decreases specs.len(),
{
    if specs.len() > 0 {
        tallies_count_every_parameter(layers, experts, index, specs.drop_last());
    }
}

/// An accepted configuration leaves the account within the machine's numbers, as long as the
/// dimensions that validation does not bound, and some widths where pointers have 32 bits, do so
/// themselves.
pub proof fn accepted_config_fits(config: DeepseekV41Config)
    requires
        config.refusal() is None,
        config.vision_config.dimensions_fit(),
        config.text_config.o_groups * config.text_config.o_lora_rank <= usize::MAX,
        config.text_config.hidden_size + config.text_config.dspark_markov_rank <= usize::MAX,
        3 * config.text_config.engram_n_heads * config.text_config.engram_head_dim <= usize::MAX,
    ensures
        account_fits(config),
{
    let text = config.text_config;
    assert(text.refusal() is None);
    assert((2 + text.hc_mult) * text.hc_mult <= 66 * 64) by (nonlinear_arith)
        requires
            text.hc_mult <= 64,
    ;
    assert(text.hc_mult * text.hidden_size <= 64 * 1048576) by (nonlinear_arith)
        requires
            text.hc_mult <= 64,
            text.hidden_size <= 1048576,
    ;
    assert(text.hidden_size * (text.hc_mult + 1) <= 1048576 * 65) by (nonlinear_arith)
        requires
            text.hc_mult <= 64,
            text.hidden_size <= 1048576,
    ;
    assert(text.num_attention_heads * text.head_dim <= 4096 * 65536) by (nonlinear_arith)
        requires
            text.num_attention_heads <= 4096,
            text.head_dim <= 65536,
    ;
    assert(text.index_n_heads * text.index_head_dim <= 4096 * 65536) by (nonlinear_arith)
        requires
            text.index_n_heads <= 4096,
            text.index_head_dim <= 65536,
    ;
    assert((text.engram_max_ngram_size - 1) * text.engram_n_heads == 3 * text.engram_n_heads)
        by (nonlinear_arith)
        requires
            text.engram_max_ngram_size == 4,
    ;
    assert(text.hidden_size * text.dspark_target_layer_ids@.len() <= 1048576 * 3)
        by (nonlinear_arith)
        requires
            text.hidden_size <= 1048576,
            text.dspark_target_layer_ids@.len() == 3,
    ;
    blueprint::lemma_parts_small(text.head_dim, 2);
    blueprint::lemma_parts_small(text.head_dim, 16);
    blueprint::lemma_parts_small(text.head_dim, 32);
    blueprint::lemma_parts_small(text.index_head_dim, 2);
    blueprint::lemma_parts_small(text.index_head_dim, 32);
    assert forall|i: int| 0 <= i < text.kv_source_layer_ids@.len() implies (
    #[trigger] text.kv_source_layer_ids@[i]) < text.compress_ratios@.len()
        && text.compress_ratios@[text.kv_source_layer_ids@[i] as int] > 0 by {
        let layer = text.kv_source_layer_ids@[i];
        assert(layer == 2 || layer == 8 || layer == 14 || layer == 20);
        text.lemma_ratio(0, layer as nat);
    }
}

/// As many layers are cached as fit beside the largest one: all of them where all fit, and otherwise
/// as many of its size as there is room for.
pub proof fn layers_are_cached_while_they_fit(
    requirements: DeepseekV41Requirements,
    resident_budget: u64,
)
    requires
        requirements.streamed_layer_bytes > 0,
    ensures
        ({
            let count = requirements.cached_layers(resident_budget);
            let size = requirements.streamed_layer_bytes as int;
            let spare = resident_budget - size;
            &&& 0 <= count <= requirements.backbone_layer_count
            &&& spare >= requirements.backbone_layer_bytes ==> count
                == requirements.backbone_layer_count
            &&& 0 <= spare < requirements.backbone_layer_bytes ==> count * size <= spare
            &&& count < requirements.backbone_layer_count ==> spare < (count + 1) * size
        }),
{
    let size = requirements.streamed_layer_bytes as int;
    let spare = accounting::larger(resident_budget - size, 0);
    let whole = spare / size;
    let rest = spare % size;
    let count = requirements.cached_layers(resident_budget);
    vstd::arithmetic::div_mod::lemma_fundamental_div_mod(spare, size);
    vstd::arithmetic::div_mod::lemma_mod_bound(spare, size);
    assert(whole >= 0) by (nonlinear_arith)
        requires
            spare == size * whole + rest,
            0 <= rest < size,
            0 <= spare,
    ;
    assert(count <= whole ==> count * size <= spare) by (nonlinear_arith)
        requires
            spare == size * whole + rest,
            0 <= rest,
            0 < size,
    ;
    assert(count == whole ==> spare < (count + 1) * size) by (nonlinear_arith)
        requires
            spare == size * whole + rest,
            rest < size,
    ;
}

/// The projection onto the vocabulary is kept exactly where it fits beside all layers and one more.
pub proof fn the_head_is_kept_beside_all_layers(
    requirements: DeepseekV41Requirements,
    resident_budget: u64,
)
    requires
        requirements.streamed_layer_bytes + requirements.backbone_layer_bytes
            + requirements.lm_head_resident_bytes <= u64::MAX,
    ensures
        requirements.caches_lm_head(resident_budget) <==> requirements.streamed_layer_bytes
            + requirements.backbone_layer_bytes + requirements.lm_head_resident_bytes
            <= resident_budget,
{
}

/// An entry is kept as its main row and its index key: half a byte for every value of both, a scale for
/// every sixteen of the one and for every thirty-two of the other.
pub proof fn entries_take_their_packed_rows(config: DeepseekV41Config)
    requires
        config.text_config.head_dim as int % 16 == 0,
        config.text_config.index_head_dim as int % 32 == 0,
    ensures
        ({
            let head = config.text_config.head_dim as int;
            let index = config.text_config.index_head_dim as int;
            entry_bytes(config) == head / 2 + head / 16 + index / 2 + index / 32
        }),
{
    let head = config.text_config.head_dim;
    let index = config.text_config.index_head_dim;
    assert(head as int == 2 * (8 * (head as int / 16)));
    assert(index as int == 2 * (16 * (index as int / 32)));
    lemma_exact_parts(head, 2);
    lemma_exact_parts(head, 16);
    lemma_exact_parts(index, 2);
    lemma_exact_parts(index, 32);
}

proof fn lemma_exact_parts(value: usize, size: usize)
    requires
        size > 0,
        value as int % size as int == 0,
    ensures
        blueprint::parts(value, size) == value as int / size as int,
{
    let whole = value as int / size as int;
    vstd::arithmetic::div_mod::lemma_fundamental_div_mod(value as int, size as int);
    assert(value + size - 1 == whole * size + (size - 1) && 0 <= whole <= value)
        by (nonlinear_arith)
        requires
            value == size * whole,
            size > 0,
            value >= 0,
    ;
    vstd::arithmetic::div_mod::lemma_fundamental_div_mod_converse(
        value + size - 1,
        size as int,
        whole,
        size - 1,
    );
}

/// Every owner keeps an entry for each group of the context, an unfinished one too.
pub proof fn owners_keep_their_groups(config: DeepseekV41Config, context: usize, sources: nat)
    requires
        owned_bytes(config, context, sources + 1) is Ok,
    ensures
        ({
            let text = config.text_config;
            let ratio = text.compress_ratios@[text.kv_source_layer_ids@[sources as int] as int];
            &&& owned_bytes(config, context, 0) == Ok::<u64, SchemaProblem>(0)
            &&& owned_bytes(config, context, sources) is Ok
            &&& owned_bytes(config, context, sources + 1)->Ok_0 == owned_bytes(
                config,
                context,
                sources,
            )->Ok_0 + ((context + ratio - 1) / ratio as int) as usize * entry_bytes(config)
        }),
{
    let text = config.text_config;
    let ratio = text.compress_ratios@[text.kv_source_layer_ids@[sources as int] as int];
    let count = blueprint::parts(context, ratio);
    let entry = entry_bytes(config);
    assert(count * entry >= 0) by (nonlinear_arith)
        requires
            count >= 0,
            entry >= 0,
    ;
}

/// Every layer keeps a window, a byte for every value and a scale for every thirty-two; a token looks up
/// a row for every n-gram from two tokens on and every head, in each of the tables, with a byte for
/// every value and a scale for every thirty-two.
pub proof fn windows_and_lookups_take_their_rows(config: DeepseekV41Config)
    requires
        config.text_config.head_dim as int % 32 == 0,
        config.text_config.engram_head_dim as int % 32 == 0,
        config.text_config.engram_max_ngram_size >= 1,
    ensures
        ({
            let text = config.text_config;
            let head = text.head_dim as int;
            let row = text.engram_head_dim as int;
            &&& window_cache(config) matches Ok(bytes) ==> bytes == text.num_hidden_layers
                * text.sliding_window * (head + head / 32)
            &&& lookup_bytes(config) matches Ok(bytes) ==> bytes == text.engram_layer_ids@.len() * ((
            text.engram_max_ngram_size - 1) * text.engram_n_heads) * (row + row / 32)
        }),
{
    let text = config.text_config;
    lemma_exact_parts(text.head_dim, 32);
    lemma_exact_parts(text.engram_head_dim, 32);
    let entries = text.num_hidden_layers * text.sliding_window;
    let wide = text.head_dim + blueprint::parts(text.head_dim, 32);
    assert(entries * wide >= 0) by (nonlinear_arith)
        requires
            entries == text.num_hidden_layers * text.sliding_window,
            wide >= 0,
    ;
    let modules = text.engram_layer_ids@.len();
    let rows = (text.engram_max_ngram_size - 1) * text.engram_n_heads;
    let row = text.engram_head_dim + blueprint::parts(text.engram_head_dim, 32);
    assert(rows >= 0) by (nonlinear_arith)
        requires
            rows == (text.engram_max_ngram_size - 1) * text.engram_n_heads,
            text.engram_max_ngram_size >= 1,
    ;
    assert(modules * rows * row >= 0) by (nonlinear_arith)
        requires
            modules >= 0,
            rows >= 0,
            row >= 0,
    ;
}

/// A tensor is expected as the release lists it. It counts as many parameters as it has elements, but a
/// packed one as its matrix has, and scales none.
pub proof fn tensors_are_expected_as_listed(line: blueprint::Line)
    ensures
        spec_of(line) matches Ok(made) ==> {
            &&& made.name == line.name && made.dtype == line.dtype
            &&& made.category == line.category
            &&& made.shape.len() == line.shape.len()
            &&& forall|i: int| 0 <= i < line.shape.len() ==> #[trigger] made.shape[i] == line.shape[i]
            &&& line.logical is Scale ==> made.logical_elements == 0
            &&& line.logical matches Logical::Packed { rows, cols } ==> made.logical_elements == rows
                * cols
            &&& line.logical is Elements && line.shape.len() == 1 ==> made.logical_elements
                == line.shape[0]
            &&& line.logical is Elements && line.shape.len() == 2 ==> made.logical_elements
                == line.shape[0] * line.shape[1]
        },
{
    let shape = line.shape;
    reveal_with_fuel(elements, 3);
    if line.logical is Packed {
        let rows = line.logical->rows;
        let cols = line.logical->cols;
        assert(rows * cols >= 0) by (nonlinear_arith);
    }
    assert(elements(Seq::<usize>::empty()) == Some(1u64));
    if shape.len() == 1 {
        assert(shape.drop_last() =~= Seq::<usize>::empty());
        assert(1u64 * shape[0] == shape[0]);
        assert(elements(shape) == Some(shape[0] as u64));
    }
    if shape.len() == 2 {
        let front = shape.drop_last();
        assert(front.drop_last() =~= Seq::<usize>::empty());
        assert(front.last() == shape[0]);
        assert(1u64 * shape[0] == shape[0]);
        assert(elements(front) == Some(shape[0] as u64));
        assert(shape[0] * shape[1] >= 0) by (nonlinear_arith);
    }
}

/// The tensors of a list are expected one for one, in its order.
pub proof fn lists_are_expected_in_order(list: Seq<blueprint::Line>, i: int)
    requires
        0 <= i < list.len(),
    ensures
        specs_of(list) matches Ok(specs) ==> specs.len() == list.len() && spec_of(list[i]) == Ok::<
            SpecView,
            SchemaProblem,
        >(specs[i]),
    decreases list.len(),
{
    let front = list.drop_last();
    if front.len() > 0 {
        lists_are_expected_in_order(
            front,
            if i < front.len() {
                i
            } else {
                0
            },
        );
        if i < front.len() {
            assert(front[i] == list[i]);
        }
    } else {
        assert(specs_of(front) == Ok::<Seq<SpecView>, SchemaProblem>(Seq::empty()));
    }
}

/// The payload of a tensor is charged to its own place and to no other.
pub proof fn payloads_are_charged_to_their_place(
    tally: TallyView,
    spec: SpecView,
    bytes: u64,
    layers: nat,
    experts: nat,
    layer: int,
    expert: int,
)
    requires
        shaped(tally, layers, experts),
        blueprint::counted(spec.category, layers, experts),
        0 <= layer < layers <= usize::MAX,
        0 <= expert < experts <= usize::MAX,
    ensures
        after_spec(tally, spec, bytes) matches Ok(after) ==> {
            let to_layer = spec.category == Category::BackboneLayer(layer as usize) || spec.category
                == Category::EngramOther(layer as usize);
            let to_expert = spec.category == Category::Expert(layer as usize, expert as usize);
            &&& after.layer_bytes[layer] == tally.layer_bytes[layer] + if to_layer {
                bytes as int
            } else {
                0
            }
            &&& after.expert_bytes[layer][expert] == tally.expert_bytes[layer][expert] + if to_expert {
                bytes as int
            } else {
                0
            }
            &&& after.roots == tally.roots + if spec.category is BackboneRoot {
                bytes as int
            } else {
                0
            }
            &&& after.tables == tally.tables + if spec.category is EngramTable {
                bytes as int
            } else {
                0
            }
        },
{
}

/// The largest of some rows of numbers is one of them, and none is greater.
pub proof fn no_expert_is_larger(rows: Seq<Seq<u64>>, row: int, at: int)
    requires
        0 <= row < rows.len(),
        0 <= at < rows[row].len(),
    ensures
        rows[row][at] <= largest_of(rows),
        exists|i: int, j: int|
            #![trigger rows[i][j]]
            0 <= i < rows.len() && 0 <= j < rows[i].len() && rows[i][j] == largest_of(rows),
{
    lemma_largest_of(rows, row, at);
    lemma_largest_is_held(rows);
    if largest_of(rows) == 0 {
        assert(rows[row][at] == largest_of(rows));
    }
}

proof fn lemma_largest_of(rows: Seq<Seq<u64>>, row: int, at: int)
    requires
        0 <= row < rows.len(),
        0 <= at < rows[row].len(),
    ensures
        rows[row][at] <= largest_of(rows),
    decreases rows.len(),
{
    let front = rows.drop_last();
    if row < front.len() {
        assert(front[row] == rows[row]);
        lemma_largest_of(front, row, at);
    } else {
        accounting::no_number_is_greater(rows.last(), at);
    }
}

proof fn lemma_largest_is_held(rows: Seq<Seq<u64>>)
    ensures
        largest_of(rows) > 0 ==> exists|i: int, j: int|
            #![trigger rows[i][j]]
            0 <= i < rows.len() && 0 <= j < rows[i].len() && rows[i][j] == largest_of(rows),
    decreases rows.len(),
{
    if rows.len() > 0 && largest_of(rows) > 0 {
        let front = rows.drop_last();
        let last = rows.len() - 1;
        lemma_largest_is_held(front);
        if largest_of(front) == largest_of(rows) {
            let (i, j) = choose|i: int, j: int|
                #![trigger front[i][j]]
                0 <= i < front.len() && 0 <= j < front[i].len() && front[i][j] == largest_of(front);
            assert(rows[i][j] == largest_of(rows));
        } else {
            assert(accounting::largest(rows[last]) == largest_of(rows));
            assert(rows[last].len() > 0);
            accounting::no_number_is_greater(rows[last], 0);
            let j = choose|j: int|
                0 <= j < rows[last].len() && rows[last][j] == accounting::largest(rows[last]);
            assert(rows[last][j] == largest_of(rows));
        }
    }
}

/// What a model needs is what was tallied: the largest layer or the root tensors are streamed, the
/// cached experts take the largest one's bytes in every slot of every layer or at least once, and the
/// cache is that of the owners and of the windows.
pub proof fn needs_follow_from_the_tally(
    config: DeepseekV41Config,
    index: storage::IndexView,
    specs: Seq<SpecView>,
    tally: TallyView,
    context_limit: usize,
    slots: usize,
)
    ensures
        summary(config, index, specs, tally, context_limit, slots) matches Ok(needs) ==> {
            let text = config.text_config;
            let maximum = largest_of(tally.expert_bytes);
            let cached = maximum * slots * text.num_hidden_layers;
            let layer = accounting::largest(tally.layer_bytes);
            &&& maximum > 0
            &&& needs.maximum_expert_bytes == maximum && needs.transient_expert_bytes == maximum
            &&& needs.expert_cache_bytes >= cached && needs.expert_cache_bytes >= maximum
            &&& needs.expert_cache_bytes == cached || needs.expert_cache_bytes == maximum
            &&& needs.streamed_layer_bytes >= layer && needs.streamed_layer_bytes >= tally.roots
            &&& needs.streamed_layer_bytes == layer || needs.streamed_layer_bytes == tally.roots
            &&& needs.backbone_layer_bytes == accounting::sum_of(tally.layer_bytes)
            &&& needs.backbone_layer_count == text.num_hidden_layers
            &&& owned_cache(config, context_limit) == Ok::<u64, SchemaProblem>(
                needs.global_kv_cache_bytes,
            )
            &&& window_cache(config) == Ok::<u64, SchemaProblem>(needs.sliding_window_cache_bytes)
            &&& needs.kv_cache_bytes == needs.global_kv_cache_bytes
                + needs.sliding_window_cache_bytes
            &&& lookup_bytes(config) == Ok::<u64, SchemaProblem>(
                needs.engram_lookup_bytes_per_token,
            )
            &&& needs.engram_table_bytes == tally.tables
            &&& needs.lm_head_resident_bytes == index.tensors["head.weight"@].data_len
            &&& needs.streamed_lm_head_bytes == index.tensors["head.weight"@].data_len
            &&& needs.streamed_embedding_bytes == index.tensors["embed.weight"@].data_len
            &&& needs.backbone_logical_parameters == tally.backbone
            &&& needs.engram_logical_parameters == tally.engram
            &&& needs.vision_logical_parameters == tally.vision
            &&& needs.dspark_logical_parameters == tally.dspark
            &&& needs.context_limit == context_limit && needs.expert_slots_per_layer == slots
            &&& needs.exact_context_ceiling == text.max_position_embeddings
        },
{
    let maximum = largest_of(tally.expert_bytes);
    let layers = config.text_config.num_hidden_layers;
    assert(maximum * slots >= 0) by (nonlinear_arith);
    assert(maximum * slots * layers >= 0) by (nonlinear_arith)
        requires
            maximum * slots >= 0,
    ;
}

/// Requirements are stated only for a context within the positions of the model and for no more slots
/// than experts.
pub proof fn requests_stay_within_the_model(
    config: DeepseekV41Config,
    index: storage::IndexView,
    context_limit: usize,
    slots: usize,
)
    ensures
        requirements(config, index, context_limit, slots) is Ok ==> 0 < context_limit
            <= config.text_config.max_position_embeddings && slots
            <= config.text_config.n_routed_experts,
{
}

/// An unshuffled patch holds the hidden values of every pixel of a square.
pub proof fn unshuffled_patches_hold_a_square(config: DeepseekV41Config)
    ensures
        unshuffle_width(config) == config.vision_config.hidden_size
            * config.vision_config.downsample_ratio * config.vision_config.downsample_ratio,
{
    let hidden = config.vision_config.hidden_size as int;
    let ratio = config.vision_config.downsample_ratio as int;
    assert(hidden * (ratio * ratio) == hidden * ratio * ratio) by (nonlinear_arith);
}

} // verus!
