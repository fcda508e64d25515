//! What a GLM checkpoint has to hold: its resident core in the order in which it is read, the sizes
//! of its experts, and the account of what loading takes.

use super::config::GlmConfig;
use super::experts;
use super::experts::{name_expert, Projection};
use super::runtime;
use super::runtime::RuntimeError;
use crate::accounting;
use crate::accounting::push_shape;
use crate::config;
use crate::config::quote;
use crate::storage;
use crate::storage::{inspect_weight_matrix, DType, TensorIndex};
use crate::text;
use crate::text::{join, join_number, push_decimal};
use vstd::prelude::*;
use vstd::string::*;

verus! {

/// One thing that the checkpoint has to hold.
#[derive(Debug)]
pub enum Need {
    Matrix { name: String, rows: usize, cols: usize },
    Vector { name: String, length: usize },
    /// The routed experts of a layer, each of which is loaded on demand.
    Experts { layer: usize, count: usize, hidden: usize, intermediate: usize },
}

/// The same, over plain values.
pub enum NeedView {
    Matrix { name: Seq<char>, rows: usize, cols: usize },
    Vector { name: Seq<char>, length: usize },
    Experts { layer: usize, count: usize, hidden: usize, intermediate: usize },
}

impl View for Need {
    type V = NeedView;

    open spec fn view(&self) -> NeedView {
        match *self {
            Need::Matrix { name, rows, cols } => NeedView::Matrix { name: name@, rows, cols },
            Need::Vector { name, length } => NeedView::Vector { name: name@, length },
            Need::Experts { layer, count, hidden, intermediate } => NeedView::Experts {
                layer,
                count,
                hidden,
                intermediate,
            },
        }
    }
}

pub open spec fn needs(list: Seq<Need>) -> Seq<NeedView> {
    Seq::new(list.len(), |i: int| list[i]@)
}

pub open spec fn matrix(name: Seq<char>, rows: int, cols: int) -> NeedView {
    NeedView::Matrix { name, rows: rows as usize, cols: cols as usize }
}

pub open spec fn vector(name: Seq<char>, length: int) -> NeedView {
    NeedView::Vector { name, length: length as usize }
}

pub open spec fn layer_prefix(layer: usize) -> Seq<char> {
    "model.layers."@ + text::decimal(layer as nat)
}

/// The norms and the attention of a layer.
pub open spec fn attention_needs(config: GlmConfig, layer: usize) -> Seq<NeedView> {
    let prefix = layer_prefix(layer);
    let attention = prefix + ".self_attn"@;
    let hidden = config.hidden_size as int;
    let heads = config.num_attention_heads as int;
    let rank = config.q_lora_rank->0 as int;
    seq![
        vector(prefix + ".input_layernorm.weight"@, hidden),
        vector(prefix + ".post_attention_layernorm.weight"@, hidden),
        matrix(attention + ".q_a_proj.weight"@, rank, hidden),
        vector(attention + ".q_a_layernorm.weight"@, rank),
        matrix(attention + ".q_b_proj.weight"@, heads * config.qk_head_dim, rank),
        matrix(
            attention + ".kv_a_proj_with_mqa.weight"@,
            config.kv_lora_rank + config.qk_rope_head_dim,
            hidden,
        ),
        vector(attention + ".kv_a_layernorm.weight"@, config.kv_lora_rank as int),
        matrix(
            attention + ".kv_b_proj.weight"@,
            heads * (config.qk_nope_head_dim + config.v_head_dim),
            config.kv_lora_rank as int,
        ),
        matrix(attention + ".o_proj.weight"@, hidden, heads * config.v_head_dim),
    ]
}

/// A gated feed-forward part.
pub open spec fn mlp_needs(prefix: Seq<char>, hidden: int, intermediate: int) -> Seq<NeedView> {
    seq![
        matrix(prefix + ".gate_proj.weight"@, intermediate, hidden),
        matrix(prefix + ".up_proj.weight"@, intermediate, hidden),
        matrix(prefix + ".down_proj.weight"@, hidden, intermediate),
    ]
}

/// The feed-forward part of a layer.
pub open spec fn feed_forward_needs(config: GlmConfig, layer: usize) -> Seq<NeedView> {
    let prefix = layer_prefix(layer);
    let hidden = config.hidden_size as int;
    if config.sparse(layer as nat) {
        seq![
            matrix(prefix + ".mlp.gate.weight"@, config.n_routed_experts as int, hidden),
            vector(
                prefix + ".mlp.gate.e_score_correction_bias"@,
                config.n_routed_experts as int,
            ),
        ] + mlp_needs(
            prefix + ".mlp.shared_experts"@,
            hidden,
            config.moe_intermediate_size * config.n_shared_experts,
        ) + seq![expert_need(config, layer)]
    } else {
        mlp_needs(prefix + ".mlp"@, hidden, config.intermediate_size as int)
    }
}

/// The routed experts of a layer.
pub open spec fn expert_need(config: GlmConfig, layer: usize) -> NeedView {
    NeedView::Experts {
        layer,
        count: config.n_routed_experts,
        hidden: config.hidden_size,
        intermediate: config.moe_intermediate_size,
    }
}

/// The first `layers` layers.
pub open spec fn layers_needs(config: GlmConfig, layers: nat) -> Seq<NeedView>
    decreases layers,
{
    if layers == 0 {
        Seq::empty()
    } else {
        layers_needs(config, (layers - 1) as nat) + attention_needs(config, (layers - 1) as usize)
            + feed_forward_needs(config, (layers - 1) as usize)
    }
}

/// Everything that the checkpoint has to hold, in the order in which it is read.
pub open spec fn core_needs(config: GlmConfig) -> Seq<NeedView> {
    seq![
        matrix(
            "model.embed_tokens.weight"@,
            config.vocab_size as int,
            config.hidden_size as int,
        ),
    ] + layers_needs(config, config.num_hidden_layers as nat) + seq![
        vector("model.norm.weight"@, config.hidden_size as int),
        matrix("lm_head.weight"@, config.vocab_size as int, config.hidden_size as int),
    ]
}

fn push_matrix(list: &mut Vec<Need>, name: String, rows: usize, cols: usize)
    ensures
        needs(final(list)@) == needs(old(list)@).push(matrix(name@, rows as int, cols as int)),
{
    let ghost before = list@;
    list.push(Need::Matrix { name, rows, cols });
    assert(needs(list@) =~= needs(before).push(matrix(name@, rows as int, cols as int)));
}

fn push_vector(list: &mut Vec<Need>, name: String, length: usize)
    ensures
        needs(final(list)@) == needs(old(list)@).push(vector(name@, length as int)),
{
    let ghost before = list@;
    list.push(Need::Vector { name, length });
    assert(needs(list@) =~= needs(before).push(vector(name@, length as int)));
}

/// The dimensions that the core multiplies are numbers of the machine.
pub proof fn accepted_dimensions_fit(config: GlmConfig)
    requires
        config.refusal() is None,
    ensures
        config.q_lora_rank is Some,
        config.num_hidden_layers <= 256,
        config.num_attention_heads * config.qk_head_dim <= u32::MAX,
        config.num_attention_heads * (config.qk_nope_head_dim + config.v_head_dim) <= u32::MAX,
        config.num_attention_heads * config.v_head_dim <= u32::MAX,
        config.kv_lora_rank + config.qk_rope_head_dim <= u32::MAX,
        config.moe_intermediate_size * config.n_shared_experts <= usize::MAX,
{
    let heads = config.num_attention_heads as int;
    let nope = config.qk_nope_head_dim as int;
    let v = config.v_head_dim as int;
    let wide = config.qk_head_dim as int;
    assert(heads * wide <= 4096 * 131072) by (nonlinear_arith)
        requires
            0 <= heads <= 4096,
            0 <= wide <= 131072,
    ;
    assert(heads * (nope + v) <= 4096 * 131072) by (nonlinear_arith)
        requires
            0 <= heads <= 4096,
            0 <= nope + v <= 131072,
    ;
    assert(heads * v <= 4096 * 65536) by (nonlinear_arith)
        requires
            0 <= heads <= 4096,
            0 <= v <= 65536,
    ;
    let hidden = config.hidden_size as int;
    let size = config.moe_intermediate_size as int;
    let shared = config.n_shared_experts as int;
    let factors = seq![config.hidden_size, config.moe_intermediate_size, config.n_shared_experts];
    assert(config::products_fit(factors));
    assert(factors.take(3) =~= factors);
    assert(config::product(factors) <= usize::MAX);
    let two = factors.drop_last();
    let one = two.drop_last();
    assert(one.drop_last() =~= Seq::<usize>::empty());
    let unit = config::product(one.drop_last());
    assert(config::product(one) == unit * one.last() as nat);
    assert(unit * hidden == hidden) by (nonlinear_arith)
        requires
            unit == 1,
    ;
    assert(config::product(two) == hidden * size);
    assert(config::product(factors) == hidden * size * shared);
    assert(size * shared <= hidden * size * shared) by (nonlinear_arith)
        requires
            hidden >= 1,
            size >= 0,
            shared >= 0,
    ;
}

fn list_attention(list: &mut Vec<Need>, config: &GlmConfig, layer: usize)
    requires
        config.refusal() is None,
    ensures
        needs(final(list)@) == needs(old(list)@) + attention_needs(*config, layer),
{
    proof {
        accepted_dimensions_fit(*config);
    }
    let ghost before = needs(list@);
    let prefix = join_number("model.layers.", layer);
    let attention = join(prefix.as_str(), ".self_attn");
    let hidden: usize = config.hidden_size;
    let heads: usize = config.num_attention_heads;
    let rank: usize = config.q_lora_rank_value();
    push_vector(list, join(prefix.as_str(), ".input_layernorm.weight"), hidden);
    push_vector(list, join(prefix.as_str(), ".post_attention_layernorm.weight"), hidden);
    push_matrix(list, join(attention.as_str(), ".q_a_proj.weight"), rank, hidden);
    push_vector(list, join(attention.as_str(), ".q_a_layernorm.weight"), rank);
    push_matrix(
        list,
        join(attention.as_str(), ".q_b_proj.weight"),
        heads * config.qk_head_dim,
        rank,
    );
    push_matrix(
        list,
        join(attention.as_str(), ".kv_a_proj_with_mqa.weight"),
        config.kv_lora_rank + config.qk_rope_head_dim,
        hidden,
    );
    push_vector(list, join(attention.as_str(), ".kv_a_layernorm.weight"), config.kv_lora_rank);
    push_matrix(
        list,
        join(attention.as_str(), ".kv_b_proj.weight"),
        heads * (config.qk_nope_head_dim + config.v_head_dim),
        config.kv_lora_rank,
    );
    push_matrix(
        list,
        join(attention.as_str(), ".o_proj.weight"),
        hidden,
        heads * config.v_head_dim,
    );
    assert(needs(list@) =~= before + attention_needs(*config, layer));
}

fn list_mlp(list: &mut Vec<Need>, prefix: &str, hidden: usize, intermediate: usize)
    ensures
        needs(final(list)@) == needs(old(list)@) + mlp_needs(
            prefix@,
            hidden as int,
            intermediate as int,
        ),
{
    let ghost before = needs(list@);
    push_matrix(list, join(prefix, ".gate_proj.weight"), intermediate, hidden);
    push_matrix(list, join(prefix, ".up_proj.weight"), intermediate, hidden);
    push_matrix(list, join(prefix, ".down_proj.weight"), hidden, intermediate);
    assert(needs(list@) =~= before + mlp_needs(prefix@, hidden as int, intermediate as int));
}

fn list_feed_forward(list: &mut Vec<Need>, config: &GlmConfig, layer: usize)
    requires
        config.refusal() is None,
    ensures
        needs(final(list)@) == needs(old(list)@) + feed_forward_needs(*config, layer),
{
    proof {
        accepted_dimensions_fit(*config);
    }
    let ghost before = needs(list@);
    let prefix = join_number("model.layers.", layer);
    if config.layer_is_sparse(layer) {
        push_matrix(
            list,
            join(prefix.as_str(), ".mlp.gate.weight"),
            config.n_routed_experts,
            config.hidden_size,
        );
        push_vector(
            list,
            join(prefix.as_str(), ".mlp.gate.e_score_correction_bias"),
            config.n_routed_experts,
        );
        let shared: usize = config.moe_intermediate_size * config.n_shared_experts;
        list_mlp(
            list,
            join(prefix.as_str(), ".mlp.shared_experts").as_str(),
            config.hidden_size,
            shared,
        );
        let ghost most = list@;
        list.push(
            Need::Experts {
                layer,
                count: config.n_routed_experts,
                hidden: config.hidden_size,
                intermediate: config.moe_intermediate_size,
            },
        );
        proof {
            assert(needs(list@) =~= needs(most).push(expert_need(*config, layer)));
            assert(needs(list@) =~= before + feed_forward_needs(*config, layer));
        }
    } else {
        list_mlp(
            list,
            join(prefix.as_str(), ".mlp").as_str(),
            config.hidden_size,
            config.intermediate_size,
        );
    }
}

/// Lists everything that the checkpoint has to hold.
pub fn list_core(config: &GlmConfig) -> (list: Vec<Need>)
    requires
        config.refusal() is None,
    ensures
        needs(list@) == core_needs(*config),
{
    let mut list: Vec<Need> = Vec::new();
    push_matrix(
        &mut list,
        "model.embed_tokens.weight".to_owned(),
        config.vocab_size,
        config.hidden_size,
    );
    let ghost front = needs(list@);
    proof {
        assert(front =~= seq![
            matrix(
                "model.embed_tokens.weight"@,
                config.vocab_size as int,
                config.hidden_size as int,
            ),
        ]);
        assert(front =~= front + layers_needs(*config, 0));
    }
    let mut layer: usize = 0;
    while layer < config.num_hidden_layers
        invariant
            layer <= config.num_hidden_layers,
            config.refusal() is None,
            needs(list@) == front + layers_needs(*config, layer as nat),
        decreases config.num_hidden_layers - layer,
    {
        list_attention(&mut list, config, layer);
        list_feed_forward(&mut list, config, layer);
        layer = layer + 1;
        assert(needs(list@) =~= front + layers_needs(*config, layer as nat));
    }
    push_vector(&mut list, "model.norm.weight".to_owned(), config.hidden_size);
    push_matrix(&mut list, "lm_head.weight".to_owned(), config.vocab_size, config.hidden_size);
    assert(needs(list@) =~= core_needs(*config));
    list
}

/// The account of a checkpoint.
#[derive(Debug, Clone, Copy, PartialEq, Eq, Structural)]
pub struct RuntimeManifest {
    pub resident_bytes: u64,
    pub maximum_expert_bytes: u64,
    /// The largest expert of every sparse layer, added up: what one slot in each layer takes.
    pub expert_slot_bytes_all_layers: u64,
}

pub open spec fn empty_manifest() -> RuntimeManifest {
    RuntimeManifest {
        resident_bytes: 0,
        maximum_expert_bytes: 0,
        expert_slot_bytes_all_layers: 0,
    }
}

pub open spec fn sum(left: u64, right: int, label: Seq<char>) -> Result<
    u64,
    runtime::RuntimeProblem,
> {
    if left + right > u64::MAX {
        Err(runtime::RuntimeProblem::Invalid(label + " byte count overflows"@))
    } else {
        Ok((left + right) as u64)
    }
}

fn checked_add_bytes(left: u64, right: u64, label: &str) -> (result: Result<u64, RuntimeError>)
    ensures
        runtime::outcome(result) == sum(left, right as int, label@),
{
    match left.checked_add(right) {
        Some(total) => Ok(total),
        None => Err(RuntimeError::Invalid(join(label, " byte count overflows"))),
    }
}

/// Why a tensor is no resident vector.
pub open spec fn vector_problem(index: storage::IndexView, name: Seq<char>, length: usize) -> (
    Option<runtime::RuntimeProblem>
) {
    match index.require(name) {
        Err(problem) => Some(runtime::RuntimeProblem::Checkpoint(problem)),
        Ok(found) => {
            let subject = "resident vector "@ + config::quoted(name);
            if found.shape@ != seq![length as u64] {
                Some(
                    runtime::RuntimeProblem::Invalid(
                        subject + " must declare ["@ + text::decimal(length as nat) + "], got ["@
                            + accounting::shown(found.shape@) + "]"@,
                    ),
                )
            } else if !(found.dtype is F16 || found.dtype is Bf16 || found.dtype is F32) {
                Some(
                    runtime::RuntimeProblem::Invalid(
                        subject + " has unsupported dtype "@ + found.dtype.label(),
                    ),
                )
            } else if index.tensors.contains_key(name + ".qs"@) {
                Some(
                    runtime::RuntimeProblem::Invalid(
                        subject + " unexpectedly has a .qs sidecar"@,
                    ),
                )
            } else if length * 4 > u64::MAX {
                Some(runtime::RuntimeProblem::Invalid("resident vector bytes overflow"@))
            } else {
                None
            }
        },
    }
}

fn refused_vector(name: &str, rest: &str) -> (result: Result<u64, RuntimeError>)
    ensures
        runtime::outcome(result) == Err::<u64, _>(
            runtime::RuntimeProblem::Invalid(
                "resident vector "@ + config::quoted(name@) + rest@,
            ),
        ),
{
    let mut reason = join("resident vector ", quote(name).as_str());
    reason.append(rest);
    Err(RuntimeError::Invalid(reason))
}

/// How many bytes a resident vector takes.
fn measure_vector(index: &TensorIndex, name: &str, length: usize) -> (result: Result<
    u64,
    RuntimeError,
>)
    ensures
        match vector_problem(index@, name@, length) {
            Some(problem) => runtime::outcome(result) == Err::<u64, _>(problem),
            None => result is Ok && result->Ok_0 == length * 4,
        },
{
    let tensor = match index.require(name) {
        Ok(tensor) => tensor,
        Err(error) => {
            return Err(RuntimeError::Checkpoint(error));
        },
    };
    let fits = tensor.shape.len() == 1 && tensor.shape[0] == length as u64;
    proof {
        if fits {
            assert(tensor.shape@ =~= seq![length as u64]);
        } else if tensor.shape@ == seq![length as u64] {
            assert(tensor.shape@[0] == length as u64);
        }
    }
    if !fits {
        let mut rest = " must declare [".to_owned();
        push_decimal(&mut rest, length as u64);
        rest.append("], got [");
        push_shape(&mut rest, &tensor.shape);
        rest.append("]");
        let result = refused_vector(name, rest.as_str());
        proof {
            let subject = "resident vector "@ + config::quoted(name@);
            assert(subject + rest@ =~= subject + " must declare ["@ + text::decimal(length as nat)
                + "], got ["@ + accounting::shown(tensor.shape@) + "]"@);
        }
        return result;
    }
    let readable = match tensor.dtype {
        DType::F16 => true,
        DType::Bf16 => true,
        DType::F32 => true,
        _ => false,
    };
    if !readable {
        let rest = join(" has unsupported dtype ", tensor.dtype.name());
        let result = refused_vector(name, rest.as_str());
        proof {
            let subject = "resident vector "@ + config::quoted(name@);
            assert(subject + rest@ =~= subject + " has unsupported dtype "@
                + tensor.dtype.label());
        }
        return result;
    }
    let sidecar = join(name, ".qs");
    if index.get(sidecar.as_str()).is_some() {
        return refused_vector(name, " unexpectedly has a .qs sidecar");
    }
    match (length as u64).checked_mul(4) {
        Some(bytes) => Ok(bytes),
        None => Err(RuntimeError::Invalid("resident vector bytes overflow".to_owned())),
    }
}

/// How many bytes an expert takes.
pub open spec fn expert_bytes(
    index: storage::IndexView,
    layer: usize,
    expert: usize,
    hidden: usize,
    intermediate: usize,
) -> Result<u64, runtime::RuntimeProblem> {
    let gate = index.inspect(
        experts::expert_name(layer, expert, Projection::Gate),
        intermediate,
        hidden,
    );
    let up = index.inspect(
        experts::expert_name(layer, expert, Projection::Up),
        intermediate,
        hidden,
    );
    let down = index.inspect(
        experts::expert_name(layer, expert, Projection::Down),
        hidden,
        intermediate,
    );
    if gate is Err {
        Err(runtime::RuntimeProblem::Checkpoint(gate->Err_0))
    } else if up is Err {
        Err(runtime::RuntimeProblem::Checkpoint(up->Err_0))
    } else {
        match sum(
            gate->Ok_0.resident_bytes,
            up->Ok_0.resident_bytes as int,
            "routed expert"@,
        ) {
            Err(problem) => Err(problem),
            Ok(both) => if down is Err {
                Err(runtime::RuntimeProblem::Checkpoint(down->Err_0))
            } else {
                sum(both, down->Ok_0.resident_bytes as int, "routed expert"@)
            },
        }
    }
}

/// The largest of the first `count` experts of a layer.
pub open spec fn expert_peak(
    index: storage::IndexView,
    layer: usize,
    count: nat,
    hidden: usize,
    intermediate: usize,
) -> Result<u64, runtime::RuntimeProblem>
    decreases count,
{
    if count == 0 {
        Ok(0)
    } else {
        match expert_peak(index, layer, (count - 1) as nat, hidden, intermediate) {
            Err(problem) => Err(problem),
            Ok(peak) => match expert_bytes(
                index,
                layer,
                (count - 1) as usize,
                hidden,
                intermediate,
            ) {
                Err(problem) => Err(problem),
                Ok(bytes) => Ok(
                    if bytes > peak {
                        bytes
                    } else {
                        peak
                    },
                ),
            },
        }
    }
}

proof fn lemma_peak_problem_stays(
    index: storage::IndexView,
    layer: usize,
    few: nat,
    count: nat,
    hidden: usize,
    intermediate: usize,
)
    requires
        few <= count,
        expert_peak(index, layer, few, hidden, intermediate) is Err,
    ensures
        expert_peak(index, layer, count, hidden, intermediate) == expert_peak(
            index,
            layer,
            few,
            hidden,
            intermediate,
        ),
    decreases count,
{
    if few < count {
        lemma_peak_problem_stays(index, layer, few, (count - 1) as nat, hidden, intermediate);
    }
}

fn inspect(index: &TensorIndex, name: &str, rows: usize, cols: usize) -> (result: Result<
    u64,
    RuntimeError,
>)
    ensures
        match result {
            Ok(bytes) => index@.inspect(name@, rows, cols) is Ok && bytes == index@.inspect(
                name@,
                rows,
                cols,
            )->Ok_0.resident_bytes,
            Err(error) => index@.inspect(name@, rows, cols) is Err && error@
                == runtime::RuntimeProblem::Checkpoint(index@.inspect(name@, rows, cols)->Err_0),
        },
{
    match inspect_weight_matrix(index, name, rows, cols) {
        Ok(layout) => Ok(layout.resident_bytes),
        Err(error) => Err(RuntimeError::Checkpoint(error)),
    }
}

fn measure_expert(
    index: &TensorIndex,
    layer: usize,
    expert: usize,
    hidden: usize,
    intermediate: usize,
) -> (result: Result<u64, RuntimeError>)
    ensures
        runtime::outcome(result) == expert_bytes(index@, layer, expert, hidden, intermediate),
{
    let gate = name_expert(layer, expert, Projection::Gate);
    let up = name_expert(layer, expert, Projection::Up);
    let down = name_expert(layer, expert, Projection::Down);
    let first: u64 = inspect(index, gate.as_str(), intermediate, hidden)?;
    let second: u64 = inspect(index, up.as_str(), intermediate, hidden)?;
    let both: u64 = checked_add_bytes(first, second, "routed expert")?;
    let third: u64 = inspect(index, down.as_str(), hidden, intermediate)?;
    checked_add_bytes(both, third, "routed expert")
}

fn measure_experts(
    index: &TensorIndex,
    layer: usize,
    count: usize,
    hidden: usize,
    intermediate: usize,
) -> (result: Result<u64, RuntimeError>)
    ensures
        runtime::outcome(result) == expert_peak(index@, layer, count as nat, hidden, intermediate),
{
    let mut peak: u64 = 0;
    let mut expert: usize = 0;
    while expert < count
        invariant
            expert <= count,
            expert_peak(index@, layer, expert as nat, hidden, intermediate) == Ok::<
                u64,
                runtime::RuntimeProblem,
            >(peak),
        decreases count - expert,
    {
        match measure_expert(index, layer, expert, hidden, intermediate) {
            Ok(bytes) => {
                if bytes > peak {
                    peak = bytes;
                }
            },
            Err(error) => {
                proof {
                    lemma_peak_problem_stays(
                        index@,
                        layer,
                        expert as nat + 1,
                        count as nat,
                        hidden,
                        intermediate,
                    );
                }
                return Err(error);
            },
        }
        expert = expert + 1;
    }
    Ok(peak)
}

/// The account with one need more.
pub open spec fn after_need(
    manifest: RuntimeManifest,
    index: storage::IndexView,
    need: NeedView,
) -> Result<RuntimeManifest, runtime::RuntimeProblem> {
    match need {
        NeedView::Matrix { name, rows, cols } => match index.inspect(name, rows, cols) {
            Err(problem) => Err(runtime::RuntimeProblem::Checkpoint(problem)),
            Ok(layout) => with_resident(manifest, layout.resident_bytes as int),
        },
        NeedView::Vector { name, length } => match vector_problem(index, name, length) {
            Some(problem) => Err(problem),
            None => with_resident(manifest, length * 4),
        },
        NeedView::Experts { layer, count, hidden, intermediate } => match expert_peak(
            index,
            layer,
            count as nat,
            hidden,
            intermediate,
        ) {
            Err(problem) => Err(problem),
            Ok(peak) => match sum(
                manifest.expert_slot_bytes_all_layers,
                peak as int,
                "expert cache slot"@,
            ) {
                Err(problem) => Err(problem),
                Ok(slots) => Ok(
                    RuntimeManifest {
                        maximum_expert_bytes: if peak > manifest.maximum_expert_bytes {
                            peak
                        } else {
                            manifest.maximum_expert_bytes
                        },
                        expert_slot_bytes_all_layers: slots,
                        ..manifest
                    },
                ),
            },
        },
    }
}

/// The account with more resident bytes.
pub open spec fn with_resident(manifest: RuntimeManifest, bytes: int) -> Result<
    RuntimeManifest,
    runtime::RuntimeProblem,
> {
    match sum(manifest.resident_bytes, bytes, "resident core"@) {
        Err(problem) => Err(problem),
        Ok(resident_bytes) => Ok(RuntimeManifest { resident_bytes, ..manifest }),
    }
}

/// The account of a list of needs.
pub open spec fn account(index: storage::IndexView, list: Seq<NeedView>) -> Result<
    RuntimeManifest,
    runtime::RuntimeProblem,
>
    decreases list.len(),
{
    if list.len() == 0 {
        Ok(empty_manifest())
    } else {
        match account(index, list.drop_last()) {
            Err(problem) => Err(problem),
            Ok(manifest) => after_need(manifest, index, list.last()),
        }
    }
}

proof fn lemma_problem_stays(index: storage::IndexView, list: Seq<NeedView>, few: int)
    requires
        0 <= few <= list.len(),
        account(index, list.take(few)) is Err,
    ensures
        account(index, list) == account(index, list.take(few)),
    decreases list.len(),
{
    if few < list.len() {
        assert(list.drop_last().take(few) =~= list.take(few));
        lemma_problem_stays(index, list.drop_last(), few);
    } else {
        assert(list.take(few) =~= list);
    }
}

fn count_need(manifest: &RuntimeManifest, index: &TensorIndex, need: &Need) -> (result: Result<
    RuntimeManifest,
    RuntimeError,
>)
    ensures
        runtime::outcome(result) == after_need(*manifest, index@, need@),
{
    let mut next = *manifest;
    match need {
        Need::Matrix { name, rows, cols } => {
            let bytes: u64 = inspect(index, name.as_str(), *rows, *cols)?;
            next.resident_bytes = checked_add_bytes(
                manifest.resident_bytes,
                bytes,
                "resident core",
            )?;
        },
        Need::Vector { name, length } => {
            let bytes: u64 = measure_vector(index, name.as_str(), *length)?;
            next.resident_bytes = checked_add_bytes(
                manifest.resident_bytes,
                bytes,
                "resident core",
            )?;
        },
        Need::Experts { layer, count, hidden, intermediate } => {
            let peak: u64 = measure_experts(index, *layer, *count, *hidden, *intermediate)?;
            if peak > next.maximum_expert_bytes {
                next.maximum_expert_bytes = peak;
            }
            next.expert_slot_bytes_all_layers = checked_add_bytes(
                manifest.expert_slot_bytes_all_layers,
                peak,
                "expert cache slot",
            )?;
        },
    }
    Ok(next)
}

/// Inspects everything that the checkpoint has to hold, without reading payloads.
pub fn preflight_runtime(config: &GlmConfig, index: &TensorIndex) -> (result: Result<
    RuntimeManifest,
    RuntimeError,
>)
    requires
        config.refusal() is None,
    ensures
        runtime::outcome(result) == account(index@, core_needs(*config)),
{
    let list = list_core(config);
    let ghost all = needs(list@);
    let mut manifest = RuntimeManifest {
        resident_bytes: 0,
        maximum_expert_bytes: 0,
        expert_slot_bytes_all_layers: 0,
    };
    let mut i: usize = 0;
    while i < list.len()
        invariant
            i <= list@.len(),
            all == needs(list@),
            all == core_needs(*config),
            account(index@, all.take(i as int)) == Ok::<RuntimeManifest, runtime::RuntimeProblem>(
                manifest,
            ),
        decreases list@.len() - i,
    {
        proof {
            let longer = all.take(i + 1);
            assert(longer.drop_last() =~= all.take(i as int));
            assert(longer.last() == list@[i as int]@);
        }
        match count_need(&manifest, index, &list[i]) {
            Ok(next) => {
                manifest = next;
            },
            Err(error) => {
                proof {
                    lemma_problem_stays(index@, all, i + 1);
                }
                return Err(error);
            },
        }
        i = i + 1;
    }
    proof {
        assert(all.take(i as int) =~= all);
    }
    Ok(manifest)
}

/// Counts what has been loaded against a budget.
#[derive(Debug, Clone, Copy, PartialEq, Eq, Structural)]
pub struct ResidentLoader {
    pub maximum: u64,
    pub used: u64,
}

impl ResidentLoader {
    pub open spec fn left(self) -> u64 {
        if self.used > self.maximum {
            0
        } else {
            (self.maximum - self.used) as u64
        }
    }

    /// Why so many bytes more are not loaded.
    pub open spec fn charge_problem(self, name: Seq<char>, bytes: int) -> Option<
        runtime::RuntimeProblem,
    > {
        if bytes > self.left() {
            Some(
                runtime::RuntimeProblem::ResidentBudget {
                    name,
                    required: bytes as u64,
                    remaining: self.left(),
                },
            )
        } else {
            None
        }
    }

    pub fn new(maximum: u64) -> (loader: Self)
        ensures
            loader == (ResidentLoader { maximum, used: 0 }),
    {
        ResidentLoader { maximum, used: 0 }
    }

    pub fn remaining(&self) -> (bytes: u64)
        ensures
            bytes == self.left(),
    {
        self.maximum.saturating_sub(self.used)
    }

    /// How many bytes a vector takes, before it is read.
    pub fn check_vector(&self, name: &str, length: usize) -> (result: Result<u64, RuntimeError>)
        ensures
            runtime::problem(result) == (if length * 4 > u64::MAX {
                Some(
                    runtime::RuntimeProblem::Invalid(
                        "resident vector "@ + config::quoted(name@) + " byte count overflows"@,
                    ),
                )
            } else {
                self.charge_problem(name@, length * 4)
            }),
            result matches Ok(bytes) ==> bytes == length * 4,
    {
        let bytes: u64 = match (length as u64).checked_mul(4) {
            Some(bytes) => bytes,
            None => {
                return refused_vector(name, " byte count overflows");
            },
        };
        if bytes > self.remaining() {
            return Err(
                RuntimeError::ResidentBudget {
                    name: name.to_owned(),
                    required: bytes,
                    remaining: self.remaining(),
                },
            );
        }
        Ok(bytes)
    }

    /// Counts what has been read.
    pub fn charge(&mut self, name: &str, bytes: u64) -> (result: Result<(), RuntimeError>)
        ensures
            runtime::problem(result) == old(self).charge_problem(name@, bytes as int),
            *final(self) == (if result is Ok {
                ResidentLoader { used: (old(self).used + bytes) as u64, ..*old(self) }
            } else {
                *old(self)
            }),
            result is Ok && old(self).used <= old(self).maximum ==> final(self).used
                <= final(self).maximum,
    {
        if bytes > self.remaining() {
            return Err(
                RuntimeError::ResidentBudget {
                    name: name.to_owned(),
                    required: bytes,
                    remaining: self.remaining(),
                },
            );
        }
        self.used = self.used.saturating_add(bytes);
        Ok(())
    }
}

/// What a need takes of the resident budget.
pub open spec fn charge_of(index: storage::IndexView, need: NeedView) -> int {
    match need {
        NeedView::Matrix { name, rows, cols } => match index.inspect(name, rows, cols) {
            Ok(layout) => layout.resident_bytes as int,
            Err(_) => 0,
        },
        NeedView::Vector { name, length } => length * 4,
        NeedView::Experts { layer, count, hidden, intermediate } => 0,
    }
}

pub open spec fn need_name(need: NeedView) -> Seq<char> {
    match need {
        NeedView::Matrix { name, rows, cols } => name,
        NeedView::Vector { name, length } => name,
        NeedView::Experts { layer, count, hidden, intermediate } => Seq::empty(),
    }
}

/// A loader that has been charged with every need of a list, where none is refused.
pub open spec fn charged(loader: ResidentLoader, index: storage::IndexView, list: Seq<NeedView>) -> (
    Option<ResidentLoader>
)
    decreases list.len(),
{
    if list.len() == 0 {
        Some(loader)
    } else {
        match charged(loader, index, list.drop_last()) {
            None => None,
            Some(before) => {
                let bytes = charge_of(index, list.last());
                if before.charge_problem(need_name(list.last()), bytes) is Some {
                    None
                } else {
                    Some(ResidentLoader { used: (before.used + bytes) as u64, ..before })
                }
            },
        }
    }
}

/// A core that an account admits to a budget is loaded in full, and takes what the account says.
pub proof fn an_admitted_core_is_charged_in_full(
    index: storage::IndexView,
    list: Seq<NeedView>,
    maximum: u64,
)
    requires
        account(index, list) is Ok,
        account(index, list)->Ok_0.resident_bytes <= maximum,
    ensures
        charged(ResidentLoader { maximum, used: 0 }, index, list) == Some(
            ResidentLoader { maximum, used: account(index, list)->Ok_0.resident_bytes },
        ),
    decreases list.len(),
{
    if list.len() > 0 {
        an_admitted_core_is_charged_in_full(index, list.drop_last(), maximum);
    }
}

proof fn lemma_peak_covers(
    index: storage::IndexView,
    layer: usize,
    expert: nat,
    count: nat,
    hidden: usize,
    intermediate: usize,
)
    requires
        expert < count <= usize::MAX,
        expert_peak(index, layer, count, hidden, intermediate) is Ok,
    ensures
        expert_bytes(index, layer, expert as usize, hidden, intermediate) is Ok,
        expert_bytes(index, layer, expert as usize, hidden, intermediate)->Ok_0 <= expert_peak(
            index,
            layer,
            count,
            hidden,
            intermediate,
        )->Ok_0,
    decreases count,
{
    if expert < count - 1 {
        lemma_peak_covers(index, layer, expert, (count - 1) as nat, hidden, intermediate);
    }
}

proof fn lemma_account_covers(index: storage::IndexView, list: Seq<NeedView>, i: int)
    requires
        account(index, list) is Ok,
        0 <= i < list.len(),
        list[i] is Experts,
    ensures
        ({
            let peak = expert_peak(
                index,
                list[i]->layer,
                list[i]->count as nat,
                list[i]->hidden,
                list[i]->intermediate,
            );
            peak is Ok && peak->Ok_0 <= account(index, list)->Ok_0.maximum_expert_bytes
        }),
    decreases list.len(),
{
    if i < list.len() - 1 {
        lemma_account_covers(index, list.drop_last(), i);
        assert(list.drop_last()[i] == list[i]);
    }
}

proof fn lemma_layer_needs_experts(config: GlmConfig, layer: usize, layers: nat) -> (i: int)
    requires
        layer < layers <= usize::MAX,
        config.sparse(layer as nat),
    ensures
        0 <= i < layers_needs(config, layers).len(),
        layers_needs(config, layers)[i] == expert_need(config, layer),
    decreases layers,
{
    let last = (layers - 1) as nat;
    let front = layers_needs(config, last);
    let attention = attention_needs(config, last as usize);
    let rest = feed_forward_needs(config, last as usize);
    if layer == last {
        let at = front.len() + attention.len() + rest.len() - 1;
        assert(rest[rest.len() - 1] == expert_need(config, layer));
        assert((front + attention + rest)[at] == rest[rest.len() - 1]);
        at
    } else {
        let at = lemma_layer_needs_experts(config, layer, last);
        assert((front + attention + rest)[at] == front[at]);
        at
    }
}

/// Every routed expert of an accepted checkpoint can be fetched under a limit that admits the
/// largest one.
pub proof fn every_expert_can_be_fetched(
    config: GlmConfig,
    index: storage::IndexView,
    layer: usize,
    expert: usize,
    maximum: u64,
)
    requires
        account(index, core_needs(config)) is Ok,
        account(index, core_needs(config))->Ok_0.maximum_expert_bytes <= maximum,
        layer < config.num_hidden_layers,
        config.sparse(layer as nat),
        expert < config.n_routed_experts,
    ensures
        experts::measure(
            index,
            layer,
            expert,
            config.hidden_size,
            config.moe_intermediate_size,
            maximum,
        ) is Ok,
{
    let list = core_needs(config);
    let at = lemma_layer_needs_experts(config, layer, config.num_hidden_layers as nat);
    let front = seq![
        matrix(
            "model.embed_tokens.weight"@,
            config.vocab_size as int,
            config.hidden_size as int,
        ),
    ];
    assert(list[at + 1] == layers_needs(config, config.num_hidden_layers as nat)[at]);
    lemma_account_covers(index, list, at + 1);
    lemma_peak_covers(
        index,
        layer,
        expert as nat,
        config.n_routed_experts as nat,
        config.hidden_size,
        config.moe_intermediate_size,
    );
}

/// Whether a list asks for a matrix.
pub open spec fn needs_matrix(list: Seq<NeedView>, name: Seq<char>, rows: int, cols: int) -> bool {
    exists|j: int|
        0 <= j < list.len() && #[trigger] list[j] == (NeedView::Matrix {
            name,
            rows: rows as usize,
            cols: cols as usize,
        })
}

/// Whether a list asks for a vector.
pub open spec fn needs_vector(list: Seq<NeedView>, name: Seq<char>, length: int) -> bool {
    exists|j: int|
        0 <= j < list.len() && #[trigger] list[j] == (NeedView::Vector {
            name,
            length: length as usize,
        })
}

/// What a layer asks for, its attention before its feed-forward part.
pub open spec fn layer_needs(config: GlmConfig, layer: usize) -> Seq<NeedView> {
    attention_needs(config, layer) + feed_forward_needs(config, layer)
}

proof fn lemma_need_stands(config: GlmConfig, layers: nat, layer: usize, i: int) -> (at: int)
    requires
        layer < layers <= usize::MAX,
        0 <= i < layer_needs(config, layer).len(),
    ensures
        0 <= at < layers_needs(config, layers).len(),
        layers_needs(config, layers)[at] == layer_needs(config, layer)[i],
    decreases layers,
{
    let before = (layers - 1) as nat;
    let front = layers_needs(config, before);
    if layer < before {
        let at = lemma_need_stands(config, before, layer, i);
        at
    } else {
        assert(layers_needs(config, layers) =~= front + layer_needs(config, layer));
        front.len() + i
    }
}

/// The core asks for the embedding, the last norm and the head, and for the norms and the attention of
/// every layer, under their names and in their shapes.
pub proof fn the_core_needs_every_layer(config: GlmConfig, layer: usize)
    requires
        layer < config.num_hidden_layers,
    ensures
        ({
            let list = core_needs(config);
            let prefix = "model.layers."@ + text::decimal(layer as nat);
            let attention = prefix + ".self_attn"@;
            let hidden = config.hidden_size as int;
            let heads = config.num_attention_heads as int;
            let rank = config.q_lora_rank->0 as int;
            &&& needs_matrix(list, "model.embed_tokens.weight"@, config.vocab_size as int, hidden)
            &&& needs_vector(list, "model.norm.weight"@, hidden)
            &&& needs_matrix(list, "lm_head.weight"@, config.vocab_size as int, hidden)
            &&& needs_vector(list, prefix + ".input_layernorm.weight"@, hidden)
            &&& needs_vector(list, prefix + ".post_attention_layernorm.weight"@, hidden)
            &&& needs_matrix(list, attention + ".q_a_proj.weight"@, rank, hidden)
            &&& needs_vector(list, attention + ".q_a_layernorm.weight"@, rank)
            &&& needs_matrix(list, attention + ".q_b_proj.weight"@, heads * config.qk_head_dim, rank)
            &&& needs_matrix(list, attention + ".kv_a_proj_with_mqa.weight"@, config.kv_lora_rank + config.qk_rope_head_dim, hidden)
            &&& needs_vector(list, attention + ".kv_a_layernorm.weight"@, config.kv_lora_rank as int)
            &&& needs_matrix(list, attention + ".kv_b_proj.weight"@, heads * (config.qk_nope_head_dim + config.v_head_dim), config.kv_lora_rank as int)
            &&& needs_matrix(list, attention + ".o_proj.weight"@, hidden, heads * config.v_head_dim)
        }),
{
    let list = core_needs(config);
    let layers = layers_needs(config, config.num_hidden_layers as nat);
    let own = layer_needs(config, layer);
    let hidden = config.hidden_size as int;
    assert(list[0] == matrix("model.embed_tokens.weight"@, config.vocab_size as int, hidden));
    assert(list[1 + layers.len() as int] == vector("model.norm.weight"@, hidden));
    assert(list[2 + layers.len() as int] == matrix("lm_head.weight"@, config.vocab_size as int, hidden));
    assert(own.take(9) =~= attention_needs(config, layer));
    let at0 = lemma_need_stands(config, config.num_hidden_layers as nat, layer, 0);
    assert(list[1 + at0] == own[0]);
    let at1 = lemma_need_stands(config, config.num_hidden_layers as nat, layer, 1);
    assert(list[1 + at1] == own[1]);
    let at2 = lemma_need_stands(config, config.num_hidden_layers as nat, layer, 2);
    assert(list[1 + at2] == own[2]);
    let at3 = lemma_need_stands(config, config.num_hidden_layers as nat, layer, 3);
    assert(list[1 + at3] == own[3]);
    let at4 = lemma_need_stands(config, config.num_hidden_layers as nat, layer, 4);
    assert(list[1 + at4] == own[4]);
    let at5 = lemma_need_stands(config, config.num_hidden_layers as nat, layer, 5);
    assert(list[1 + at5] == own[5]);
    let at6 = lemma_need_stands(config, config.num_hidden_layers as nat, layer, 6);
    assert(list[1 + at6] == own[6]);
    let at7 = lemma_need_stands(config, config.num_hidden_layers as nat, layer, 7);
    assert(list[1 + at7] == own[7]);
    let at8 = lemma_need_stands(config, config.num_hidden_layers as nat, layer, 8);
    assert(list[1 + at8] == own[8]);
}

/// The core asks for the router, the corrections, the shared and the routed experts of every sparse
/// layer, and for the feed-forward part of every other.
pub proof fn the_core_needs_every_feed_forward(config: GlmConfig, layer: usize)
    requires
        layer < config.num_hidden_layers,
    ensures
        ({
            let list = core_needs(config);
            let mlp = "model.layers."@ + text::decimal(layer as nat) + ".mlp"@;
            let hidden = config.hidden_size as int;
            let part = feed_forward_needs(config, layer);
            let routed = config.n_routed_experts as int;
            let wide = config.moe_intermediate_size * config.n_shared_experts;
            let stem = "model.layers."@ + text::decimal(layer as nat);
            let shared = stem + ".mlp.shared_experts"@;
            &&& config.sparse(layer as nat) ==> {
                &&& part.len() == 6
                &&& needs_matrix(list, stem + ".mlp.gate.weight"@, routed, hidden)
                &&& needs_vector(list, stem + ".mlp.gate.e_score_correction_bias"@, routed)
                &&& needs_matrix(list, shared + ".gate_proj.weight"@, wide, hidden)
                &&& needs_matrix(list, shared + ".up_proj.weight"@, wide, hidden)
                &&& needs_matrix(list, shared + ".down_proj.weight"@, hidden, wide)
                &&& list.contains(
                    NeedView::Experts {
                        layer,
                        count: config.n_routed_experts,
                        hidden: config.hidden_size,
                        intermediate: config.moe_intermediate_size,
                    },
                )
            }
            &&& !config.sparse(layer as nat) ==> {
                let inner = config.intermediate_size as int;
                &&& part.len() == 3
                &&& needs_matrix(list, mlp + ".gate_proj.weight"@, inner, hidden)
                &&& needs_matrix(list, mlp + ".up_proj.weight"@, inner, hidden)
                &&& needs_matrix(list, mlp + ".down_proj.weight"@, hidden, inner)
            }
        }),
{
    let list = core_needs(config);
    let layers = layers_needs(config, config.num_hidden_layers as nat);
    let own = layer_needs(config, layer);
    let part = feed_forward_needs(config, layer);
    assert(attention_needs(config, layer).len() == 9);
    assert forall|k: int| 0 <= k < part.len() implies #[trigger] list.contains(part[k]) by {
        let at = lemma_need_stands(config, config.num_hidden_layers as nat, layer, 9 + k);
        assert(own[9 + k] == part[k]);
        assert(list[1 + at] == part[k]);
    }
    assert(list.contains(part[0]) && list.contains(part[1]) && list.contains(part[2]));
    if config.sparse(layer as nat) {
        assert(list.contains(part[3]) && list.contains(part[4]) && list.contains(part[5]));
        assert(part[5] == expert_need(config, layer));
    }
}

/// An expert takes what its three matrices take together.
pub proof fn experts_take_their_three_matrices(
    index: storage::IndexView,
    layer: usize,
    expert: usize,
    hidden: usize,
    intermediate: usize,
)
    ensures
        ({
            let stem = "model.layers."@ + text::decimal(layer as nat) + ".mlp.experts."@
                + text::decimal(expert as nat);
            let gate = index.inspect(stem + ".gate_proj.weight"@, intermediate, hidden);
            let up = index.inspect(stem + ".up_proj.weight"@, intermediate, hidden);
            let down = index.inspect(stem + ".down_proj.weight"@, hidden, intermediate);
            let total = gate->Ok_0.resident_bytes + up->Ok_0.resident_bytes
                + down->Ok_0.resident_bytes;
            let taken = expert_bytes(index, layer, expert, hidden, intermediate);
            &&& taken is Ok <==> gate is Ok && up is Ok && down is Ok && total <= u64::MAX
            &&& taken is Ok ==> taken->Ok_0 == total
        }),
{
}

/// The peak of a layer's experts is what one of them takes, and none takes more.
pub proof fn no_expert_takes_more(
    index: storage::IndexView,
    layer: usize,
    count: nat,
    hidden: usize,
    intermediate: usize,
    expert: nat,
)
    requires
        expert < count <= usize::MAX,
        expert_peak(index, layer, count, hidden, intermediate) is Ok,
    ensures
        ({
            let peak = expert_peak(index, layer, count, hidden, intermediate)->Ok_0;
            let taken = expert_bytes(index, layer, expert as usize, hidden, intermediate);
            &&& taken is Ok && taken->Ok_0 <= peak
            &&& exists|other: usize|
                other < count && #[trigger] expert_bytes(index, layer, other, hidden, intermediate)
                    == Ok::<u64, runtime::RuntimeProblem>(peak)
        }),
    decreases count,
{
    let before = (count - 1) as nat;
    let last = expert_bytes(index, layer, before as usize, hidden, intermediate);
    assert(last is Ok);
    if before > 0 {
        no_expert_takes_more(
            index,
            layer,
            before,
            hidden,
            intermediate,
            if expert < before {
                expert
            } else {
                0
            },
        );
    } else {
        assert(expert_peak(index, layer, 0, hidden, intermediate) == Ok::<
            u64,
            runtime::RuntimeProblem,
        >(0));
    }
    let peak = expert_peak(index, layer, count, hidden, intermediate)->Ok_0;
    if peak == last->Ok_0 {
        assert(expert_bytes(index, layer, before as usize, hidden, intermediate) == Ok::<
            u64,
            runtime::RuntimeProblem,
        >(peak));
    }
}

/// A matrix or vector adds to what is resident, a layer of experts adds its peak to the slots and raises
/// the largest expert where its peak is larger; neither changes the other.
pub proof fn needs_add_to_their_own_account(
    index: storage::IndexView,
    list: Seq<NeedView>,
    need: NeedView,
)
    requires
        account(index, list.push(need)) is Ok,
    ensures
        ({
            let before = account(index, list)->Ok_0;
            let after = account(index, list.push(need))->Ok_0;
            &&& account(index, list) is Ok
            &&& need matches NeedView::Matrix { name, rows, cols } ==> after.resident_bytes
                == before.resident_bytes + index.layouts[name].resident_bytes
            &&& need matches NeedView::Vector { name, length } ==> after.resident_bytes
                == before.resident_bytes + 4 * length
            &&& !(need is Experts) ==> after.maximum_expert_bytes == before.maximum_expert_bytes
                && after.expert_slot_bytes_all_layers == before.expert_slot_bytes_all_layers
            &&& need matches NeedView::Experts { layer, count, hidden, intermediate } ==> {
                let peak = expert_peak(index, layer, count as nat, hidden, intermediate)->Ok_0;
                &&& after.resident_bytes == before.resident_bytes
                &&& after.expert_slot_bytes_all_layers == before.expert_slot_bytes_all_layers + peak
                &&& after.maximum_expert_bytes >= peak && after.maximum_expert_bytes
                    >= before.maximum_expert_bytes
                &&& after.maximum_expert_bytes == peak || after.maximum_expert_bytes
                    == before.maximum_expert_bytes
            }
        }),
{
    assert(list.push(need).drop_last() =~= list);
    assert(list.push(need).last() == need);
}

/// An empty list needs nothing. A loader takes bytes exactly while its maximum is not passed.
pub proof fn loaders_take_what_is_left(index: storage::IndexView, loader: ResidentLoader, name: Seq<char>, bytes: u64)
    requires
        loader.used <= loader.maximum,
    ensures
        account(index, Seq::empty()) == Ok::<RuntimeManifest, runtime::RuntimeProblem>(
            RuntimeManifest {
                resident_bytes: 0,
                maximum_expert_bytes: 0,
                expert_slot_bytes_all_layers: 0,
            },
        ),
        loader.charge_problem(name, bytes as int) is None <==> loader.used + bytes
            <= loader.maximum,
{
}

/// A vector is taken exactly where it is declared with its length, as plain floats and without row
/// scales.
pub proof fn plain_vectors_are_taken(index: storage::IndexView, name: Seq<char>, length: usize)
    requires
        length * 4 <= u64::MAX,
    ensures
        vector_problem(index, name, length) is None <==> {
            &&& index.tensors.contains_key(name)
            &&& index.tensors[name].shape@ == seq![length as u64]
            &&& index.tensors[name].dtype == DType::F16 || index.tensors[name].dtype == DType::Bf16
                || index.tensors[name].dtype == DType::F32
            &&& !index.tensors.contains_key(name + ".qs"@)
        },
{
}

} // verus!
