//! Which tensors a layer of DeepSeek-V4.1 reads from the checkpoint, in which order, and what an
//! expert costs to load.

use super::blueprint;
use super::config::{holds, DeepseekV41TextConfig};
use super::runtime;
use super::runtime::{invalid, DeepseekV41RuntimeError};
use crate::config;
use crate::config::quote;
use crate::storage;
use crate::storage::{inspect_weight_matrix, TensorIndex};
use crate::text;
use crate::text::{join, join_number, push_decimal, strip_suffix};
use vstd::prelude::*;
use vstd::string::*;

verus! {

/// How a tensor is read.
#[derive(Debug, Clone, Copy, PartialEq, Eq, Structural)]
pub enum ReadKind {
    /// A weight matrix in whatever format it is stored.
    Matrix { rows: usize, cols: usize },
    /// A vector.
    Vector { length: usize },
    /// So many values, whatever their shape.
    Values { count: usize },
}

/// One tensor that a layer reads.
#[derive(Debug)]
pub struct TensorRead {
    pub name: String,
    pub kind: ReadKind,
}

/// The same, over plain values.
pub struct ReadView {
    pub name: Seq<char>,
    pub kind: ReadKind,
}

impl View for TensorRead {
    type V = ReadView;

    open spec fn view(&self) -> ReadView {
        ReadView { name: self.name@, kind: self.kind }
    }
}

pub open spec fn reads(list: Seq<TensorRead>) -> Seq<ReadView> {
    Seq::new(list.len(), |i: int| list[i]@)
}

pub open spec fn matrix(name: Seq<char>, rows: usize, cols: usize) -> ReadView {
    ReadView { name, kind: ReadKind::Matrix { rows, cols } }
}

/// A matrix that the name of its module stands for.
pub open spec fn weight(base: Seq<char>, rows: usize, cols: usize) -> ReadView {
    matrix(base + ".weight"@, rows, cols)
}

pub open spec fn vector(name: Seq<char>, length: usize) -> ReadView {
    ReadView { name, kind: ReadKind::Vector { length } }
}

pub open spec fn values(name: Seq<char>, count: usize) -> ReadView {
    ReadView { name, kind: ReadKind::Values { count } }
}

fn push_read(list: &mut Vec<TensorRead>, name: String, kind: ReadKind)
    ensures
        reads(final(list)@) == reads(old(list)@).push((ReadView { name: name@, kind })),
{
    let ghost before = list@;
    list.push(TensorRead { name, kind });
    assert(reads(list@) =~= reads(before).push(ReadView { name: name@, kind }));
}

fn push_matrix(list: &mut Vec<TensorRead>, prefix: &str, suffix: &str, rows: usize, cols: usize)
    ensures
        reads(final(list)@) == reads(old(list)@).push(matrix(prefix@ + suffix@, rows, cols)),
{
    push_read(list, join(prefix, suffix), ReadKind::Matrix { rows, cols });
}

fn push_weight(list: &mut Vec<TensorRead>, prefix: &str, suffix: &str, rows: usize, cols: usize)
    ensures
        reads(final(list)@) == reads(old(list)@).push(weight(prefix@ + suffix@, rows, cols)),
{
    let base = join(prefix, suffix);
    push_read(list, join(base.as_str(), ".weight"), ReadKind::Matrix { rows, cols });
}

fn push_vector(list: &mut Vec<TensorRead>, prefix: &str, suffix: &str, length: usize)
    ensures
        reads(final(list)@) == reads(old(list)@).push(vector(prefix@ + suffix@, length)),
{
    push_read(list, join(prefix, suffix), ReadKind::Vector { length });
}

fn push_values(list: &mut Vec<TensorRead>, prefix: &str, suffix: &str, count: usize)
    ensures
        reads(final(list)@) == reads(old(list)@).push(values(prefix@ + suffix@, count)),
{
    push_read(list, join(prefix, suffix), ReadKind::Values { count });
}

/// The hyper-connections of both sublayers and their norms.
pub open spec fn front_reads(text: DeepseekV41TextConfig, prefix: Seq<char>) -> Seq<ReadView> {
    let mix = text.mix_width();
    let wide = text.stream_width();
    seq![
        matrix(prefix + ".hc_attn_fn"@, mix, wide),
        vector(prefix + ".hc_attn_base"@, mix),
        vector(prefix + ".hc_attn_scale"@, 3),
        matrix(prefix + ".hc_ffn_fn"@, mix, wide),
        vector(prefix + ".hc_ffn_base"@, mix),
        vector(prefix + ".hc_ffn_scale"@, 3),
        vector(prefix + ".attn_norm.weight"@, text.hidden_size),
        vector(prefix + ".ffn_norm.weight"@, text.hidden_size),
    ]
}

/// The attention that every layer has.
pub open spec fn attention_reads(text: DeepseekV41TextConfig, prefix: Seq<char>) -> Seq<ReadView> {
    let width = (text.num_attention_heads * text.head_dim) as usize;
    let low_rank = (text.o_groups * text.o_lora_rank) as usize;
    let group = (width as int / text.o_groups as int) as usize;
    seq![
        vector(prefix + ".attn.attn_sink"@, text.num_attention_heads),
        weight(prefix + ".attn.wq_a"@, text.q_lora_rank, text.hidden_size),
        vector(prefix + ".attn.q_norm.weight"@, text.q_lora_rank),
        weight(prefix + ".attn.wq_b"@, width, text.q_lora_rank),
        weight(prefix + ".attn.wkv"@, text.head_dim, text.hidden_size),
        vector(prefix + ".attn.kv_norm.weight"@, text.head_dim),
        weight(prefix + ".attn.wo_a"@, low_rank, group),
        weight(prefix + ".attn.wo_b"@, text.hidden_size, low_rank),
    ]
}

/// The compressor of a layer that owns compressed entries.
pub open spec fn compressor_reads(text: DeepseekV41TextConfig, layer: usize) -> Seq<ReadView> {
    let prefix = blueprint::layer_name(layer as nat) + ".attn.compressor"@;
    if !text.kv_source_layer_ids@.contains(layer) {
        Seq::empty()
    } else {
        seq![matrix(prefix + ".wkv.weight"@, text.head_dim, text.hidden_size)] + (if text
            .compress_ratios@[layer as int] > 1 {
            seq![matrix(prefix + ".wgate.weight"@, text.head_dim, text.hidden_size)]
        } else {
            Seq::empty()
        }) + seq![vector(prefix + ".norm.weight"@, text.head_dim)]
    }
}

/// The indexer of a layer that selects compressed entries.
pub open spec fn indexer_reads(text: DeepseekV41TextConfig, layer: usize) -> Seq<ReadView> {
    let prefix = blueprint::layer_name(layer as nat) + ".attn.indexer"@;
    if !text.index_source_layer_ids@.contains(layer) {
        Seq::empty()
    } else {
        seq![
            weight(
                prefix + ".wq_b"@,
                (text.index_n_heads * text.index_head_dim) as usize,
                text.q_lora_rank,
            ),
            matrix(prefix + ".weights_proj.weight"@, text.index_n_heads, text.hidden_size),
        ] + if text.kv_source_layer_ids@.contains(layer) {
            seq![
                matrix(prefix + ".wk.weight"@, text.index_head_dim, text.head_dim),
                vector(prefix + ".k_norm.weight"@, text.index_head_dim),
            ]
        } else {
            Seq::empty()
        }
    }
}

/// The matrices of one expert.
pub open spec fn expert_reads(text: DeepseekV41TextConfig, base: Seq<char>) -> Seq<ReadView> {
    seq![
        weight(base + ".w1"@, text.moe_intermediate_size, text.hidden_size),
        weight(base + ".w2"@, text.hidden_size, text.moe_intermediate_size),
        weight(base + ".w3"@, text.moe_intermediate_size, text.hidden_size),
    ]
}

/// The router and the shared expert.
pub open spec fn moe_reads(text: DeepseekV41TextConfig, prefix: Seq<char>) -> Seq<ReadView> {
    seq![
        matrix(prefix + ".ffn.gate.weight"@, text.n_routed_experts, text.hidden_size),
        vector(prefix + ".ffn.gate.bias"@, text.n_routed_experts),
    ] + expert_reads(text, prefix + ".ffn.shared_experts"@)
}

/// The gates and the projection of a layer with an n-gram memory; its table is read row by row.
pub open spec fn engram_reads(text: DeepseekV41TextConfig, layer: usize) -> Seq<ReadView> {
    let prefix = blueprint::layer_name(layer as nat) + ".engram"@;
    let columns = (text.engram_max_ngram_size - 1) * text.engram_n_heads;
    if !text.engram_layer_ids@.contains(layer) {
        Seq::empty()
    } else {
        seq![
            values(prefix + ".q_weight"@, text.stream_width()),
            values(prefix + ".k_weight"@, text.stream_width()),
            weight(
                prefix + ".wkv"@,
                (text.hidden_size * (text.hc_mult + 1)) as usize,
                (columns * text.engram_head_dim) as usize,
            ),
        ]
    }
}

/// Everything that a layer reads when it is loaded, in order.
pub open spec fn layer_reads(text: DeepseekV41TextConfig, layer: usize) -> Seq<ReadView> {
    let prefix = blueprint::layer_name(layer as nat);
    front_reads(text, prefix) + attention_reads(text, prefix) + compressor_reads(text, layer)
        + indexer_reads(text, layer) + moe_reads(text, prefix) + engram_reads(text, layer)
}

fn multiply_sum(a: usize, more: usize) -> (product: usize)
    requires
        a * (more + 1) <= usize::MAX,
    ensures
        product == a * (more + 1),
{
    if a == 0 {
        assert(a * (more + 1) == 0) by (nonlinear_arith)
            requires
                a == 0,
        ;
        0
    } else {
        assert(a * (more + 1) >= more + 1) by (nonlinear_arith)
            requires
                a >= 1,
        ;
        a * (more + 1)
    }
}

fn find_mix_width(text: &DeepseekV41TextConfig) -> (width: usize)
    requires
        text.dimensions_fit(),
    ensures
        width == text.mix_width(),
{
    let count: usize = text.hc_mult;
    if count == 0 {
        assert((2 + count) * count == 0) by (nonlinear_arith)
            requires
                count == 0,
        ;
        0
    } else {
        assert((2 + count) * count >= 2 + count) by (nonlinear_arith)
            requires
                count >= 1,
        ;
        (2 + count) * count
    }
}

fn append_front(list: &mut Vec<TensorRead>, text: &DeepseekV41TextConfig, prefix: &str)
    requires
        text.dimensions_fit(),
    ensures
        reads(final(list)@) == reads(old(list)@) + front_reads(*text, prefix@),
{
    let ghost before = reads(list@);
    let mix: usize = find_mix_width(text);
    let wide: usize = text.hc_mult * text.hidden_size;
    push_matrix(list, prefix, ".hc_attn_fn", mix, wide);
    push_vector(list, prefix, ".hc_attn_base", mix);
    push_vector(list, prefix, ".hc_attn_scale", 3);
    push_matrix(list, prefix, ".hc_ffn_fn", mix, wide);
    push_vector(list, prefix, ".hc_ffn_base", mix);
    push_vector(list, prefix, ".hc_ffn_scale", 3);
    push_vector(list, prefix, ".attn_norm.weight", text.hidden_size);
    push_vector(list, prefix, ".ffn_norm.weight", text.hidden_size);
    assert(reads(list@) =~= before + front_reads(*text, prefix@));
}

fn append_attention(list: &mut Vec<TensorRead>, text: &DeepseekV41TextConfig, prefix: &str)
    requires
        text.dimensions_fit(),
    ensures
        reads(final(list)@) == reads(old(list)@) + attention_reads(*text, prefix@),
{
    let ghost before = reads(list@);
    let width: usize = text.num_attention_heads * text.head_dim;
    let low_rank: usize = text.o_groups * text.o_lora_rank;
    push_vector(list, prefix, ".attn.attn_sink", text.num_attention_heads);
    push_weight(list, prefix, ".attn.wq_a", text.q_lora_rank, text.hidden_size);
    push_vector(list, prefix, ".attn.q_norm.weight", text.q_lora_rank);
    push_weight(list, prefix, ".attn.wq_b", width, text.q_lora_rank);
    push_weight(list, prefix, ".attn.wkv", text.head_dim, text.hidden_size);
    push_vector(list, prefix, ".attn.kv_norm.weight", text.head_dim);
    push_weight(list, prefix, ".attn.wo_a", low_rank, width / text.o_groups);
    push_weight(list, prefix, ".attn.wo_b", text.hidden_size, low_rank);
    assert(reads(list@) =~= before + attention_reads(*text, prefix@));
}

fn append_compressor(list: &mut Vec<TensorRead>, text: &DeepseekV41TextConfig, layer: usize)
    requires
        text.dimensions_fit(),
        layer < text.num_hidden_layers,
    ensures
        reads(final(list)@) == reads(old(list)@) + compressor_reads(*text, layer),
{
    let ghost before = reads(list@);
    if holds(&text.kv_source_layer_ids, layer) {
        let prefix = join(join_number("layers.", layer).as_str(), ".attn.compressor");
        push_matrix(list, prefix.as_str(), ".wkv.weight", text.head_dim, text.hidden_size);
        if text.compress_ratios[layer] > 1 {
            push_matrix(list, prefix.as_str(), ".wgate.weight", text.head_dim, text.hidden_size);
        }
        push_vector(list, prefix.as_str(), ".norm.weight", text.head_dim);
    }
    assert(reads(list@) =~= before + compressor_reads(*text, layer));
}

fn append_indexer(list: &mut Vec<TensorRead>, text: &DeepseekV41TextConfig, layer: usize)
    requires
        text.dimensions_fit(),
    ensures
        reads(final(list)@) == reads(old(list)@) + indexer_reads(*text, layer),
{
    let ghost before = reads(list@);
    if holds(&text.index_source_layer_ids, layer) {
        let prefix = join(join_number("layers.", layer).as_str(), ".attn.indexer");
        push_weight(
            list,
            prefix.as_str(),
            ".wq_b",
            text.index_n_heads * text.index_head_dim,
            text.q_lora_rank,
        );
        push_matrix(
            list,
            prefix.as_str(),
            ".weights_proj.weight",
            text.index_n_heads,
            text.hidden_size,
        );
        if holds(&text.kv_source_layer_ids, layer) {
            push_matrix(list, prefix.as_str(), ".wk.weight", text.index_head_dim, text.head_dim);
            push_vector(list, prefix.as_str(), ".k_norm.weight", text.index_head_dim);
        }
    }
    assert(reads(list@) =~= before + indexer_reads(*text, layer));
}

fn append_expert(list: &mut Vec<TensorRead>, text: &DeepseekV41TextConfig, base: &str)
    ensures
        reads(final(list)@) == reads(old(list)@) + expert_reads(*text, base@),
{
    let ghost before = reads(list@);
    push_weight(list, base, ".w1", text.moe_intermediate_size, text.hidden_size);
    push_weight(list, base, ".w2", text.hidden_size, text.moe_intermediate_size);
    push_weight(list, base, ".w3", text.moe_intermediate_size, text.hidden_size);
    assert(reads(list@) =~= before + expert_reads(*text, base@));
}

fn append_moe(list: &mut Vec<TensorRead>, text: &DeepseekV41TextConfig, prefix: &str)
    ensures
        reads(final(list)@) == reads(old(list)@) + moe_reads(*text, prefix@),
{
    let ghost before = reads(list@);
    push_matrix(list, prefix, ".ffn.gate.weight", text.n_routed_experts, text.hidden_size);
    push_vector(list, prefix, ".ffn.gate.bias", text.n_routed_experts);
    let shared = join(prefix, ".ffn.shared_experts");
    append_expert(list, text, shared.as_str());
    assert(reads(list@) =~= before + moe_reads(*text, prefix@));
}

fn append_engram(list: &mut Vec<TensorRead>, text: &DeepseekV41TextConfig, layer: usize)
    requires
        text.dimensions_fit(),
    ensures
        reads(final(list)@) == reads(old(list)@) + engram_reads(*text, layer),
{
    let ghost before = reads(list@);
    if holds(&text.engram_layer_ids, layer) {
        let prefix = join(join_number("layers.", layer).as_str(), ".engram");
        let gates: usize = text.hc_mult * text.hidden_size;
        let columns: usize = (text.engram_max_ngram_size - 1) * text.engram_n_heads;
        push_values(list, prefix.as_str(), ".q_weight", gates);
        push_values(list, prefix.as_str(), ".k_weight", gates);
        push_weight(
            list,
            prefix.as_str(),
            ".wkv",
            multiply_sum(text.hidden_size, text.hc_mult),
            columns * text.engram_head_dim,
        );
    }
    assert(reads(list@) =~= before + engram_reads(*text, layer));
}

/// Lists everything that a layer reads when it is loaded, in order.
pub fn list_layer_reads(text: &DeepseekV41TextConfig, layer: usize) -> (list: Vec<TensorRead>)
    requires
        text.dimensions_fit(),
        layer < text.num_hidden_layers,
    ensures
        reads(list@) == layer_reads(*text, layer),
{
    let mut list: Vec<TensorRead> = Vec::new();
    let prefix = join_number("layers.", layer);
    assert(reads(list@) =~= Seq::<ReadView>::empty());
    append_front(&mut list, text, prefix.as_str());
    append_attention(&mut list, text, prefix.as_str());
    append_compressor(&mut list, text, layer);
    append_indexer(&mut list, text, layer);
    append_moe(&mut list, text, prefix.as_str());
    append_engram(&mut list, text, layer);
    assert(reads(list@) =~= layer_reads(*text, layer));
    list
}

/// A read of a tensor of the release, in its shape.
pub open spec fn is_release_read(lines: Seq<blueprint::Line>, read: ReadView) -> bool {
    exists|j: int|
        0 <= j < lines.len() && (#[trigger] lines[j]).name == read.name && match read.kind {
            ReadKind::Matrix { rows, cols } => lines[j].shape == seq![rows, cols],
            ReadKind::Vector { length } => lines[j].shape == seq![length],
            ReadKind::Values { count } => lines[j].shape.len() == 2 && lines[j].shape[0]
                * lines[j].shape[1] == count,
        }
}

/// What stands in a part of a list stands in the list.
proof fn lemma_within(
    before: Seq<blueprint::Line>,
    part: Seq<blueprint::Line>,
    after: Seq<blueprint::Line>,
    read: ReadView,
)
    requires
        is_release_read(part, read),
    ensures
        is_release_read(before + part + after, read),
{
    let j = choose|j: int|
        0 <= j < part.len() && (#[trigger] part[j]).name == read.name && match read.kind {
            ReadKind::Matrix { rows, cols } => part[j].shape == seq![rows, cols],
            ReadKind::Vector { length } => part[j].shape == seq![length],
            ReadKind::Values { count } => part[j].shape.len() == 2 && part[j].shape[0]
                * part[j].shape[1] == count,
        };
    assert((before + part + after)[before.len() + j] == part[j]);
}

proof fn lemma_front(text: DeepseekV41TextConfig, prefix: Seq<char>, category: blueprint::Category)
    ensures
        all_within(blueprint::front_lines(text, prefix, category), front_reads(text, prefix)),
{
    reveal(all_within);
    let lines = blueprint::front_lines(text, prefix, category);
    let list = front_reads(text, prefix);
    assert forall|i: int| 0 <= i < list.len() implies is_release_read(
        lines,
        #[trigger] list[i],
    ) by {
        assert(lines[i].name == list[i].name);
    }
}

proof fn lemma_attention(
    text: DeepseekV41TextConfig,
    prefix: Seq<char>,
    category: blueprint::Category,
)
    ensures
        all_within(blueprint::front_lines(text, prefix, category) + blueprint::attention_lines(text, prefix, category), attention_reads(text, prefix)),
{
    reveal(all_within);
    let front = blueprint::front_lines(text, prefix, category);
    let rest = blueprint::attention_lines(text, prefix, category);
    let lines = front + rest;
    let list = attention_reads(text, prefix);
    assert(front.len() == 11);
    assert(rest.len() == 10);
    assert forall|i: int| 0 <= i < list.len() implies is_release_read(
        lines,
        #[trigger] list[i],
    ) by {
        let j: int = if i == 0 {
            10
        } else if i == 1 {
            11
        } else if i == 2 {
            8
        } else if i == 3 {
            13
        } else if i == 4 {
            15
        } else if i == 5 {
            9
        } else if i == 6 {
            17
        } else {
            19
        };
        if j >= 11 {
            assert(lines[j] == rest[j - 11]);
        }
        assert(lines[j].name == list[i].name);
        assert(list[i].kind is Matrix ==> lines[j].shape =~= seq![
            list[i].kind->rows,
            list[i].kind->cols,
        ]);
    }
}

proof fn lemma_shared_names(prefix: Seq<char>)
    ensures
        prefix + ".ffn.shared_experts"@ + ".w1"@ == prefix + ".ffn.shared_experts.w1"@,
        prefix + ".ffn.shared_experts"@ + ".w2"@ == prefix + ".ffn.shared_experts.w2"@,
        prefix + ".ffn.shared_experts"@ + ".w3"@ == prefix + ".ffn.shared_experts.w3"@,
{
    reveal_strlit(".ffn.shared_experts");
    reveal_strlit(".w1");
    reveal_strlit(".w2");
    reveal_strlit(".w3");
    reveal_strlit(".ffn.shared_experts.w1");
    reveal_strlit(".ffn.shared_experts.w2");
    reveal_strlit(".ffn.shared_experts.w3");
    assert(prefix + ".ffn.shared_experts"@ + ".w1"@ =~= prefix + ".ffn.shared_experts.w1"@);
    assert(prefix + ".ffn.shared_experts"@ + ".w2"@ =~= prefix + ".ffn.shared_experts.w2"@);
    assert(prefix + ".ffn.shared_experts"@ + ".w3"@ =~= prefix + ".ffn.shared_experts.w3"@);
}

proof fn lemma_moe(text: DeepseekV41TextConfig, prefix: Seq<char>, category: blueprint::Category)
    ensures
        all_within(blueprint::router_lines(text, prefix, category, text.n_routed_experts), moe_reads(text, prefix)),
{
    reveal(all_within);
    let lines = blueprint::router_lines(text, prefix, category, text.n_routed_experts);
    let list = moe_reads(text, prefix);
    lemma_shared_names(prefix);
    assert(lines.len() == 9);
    assert forall|i: int| 0 <= i < list.len() implies is_release_read(
        lines,
        #[trigger] list[i],
    ) by {
        let j: int = if i < 2 {
            i
        } else if i == 2 {
            3
        } else if i == 3 {
            7
        } else {
            5
        };
        assert(lines[j].name == list[i].name);
        assert(list[i].kind is Matrix ==> lines[j].shape =~= seq![
            list[i].kind->rows,
            list[i].kind->cols,
        ]);
    }
}

proof fn lemma_sources(text: DeepseekV41TextConfig, layer: usize)
    ensures
        all_within(blueprint::source_lines(text, layer), compressor_reads(text, layer)),
{
    reveal(all_within);
    let lines = blueprint::source_lines(text, layer);
    let list = compressor_reads(text, layer);
    assert forall|i: int| 0 <= i < list.len() implies is_release_read(
        lines,
        #[trigger] list[i],
    ) by {
        let j: int = if i == 0 {
            1
        } else if i == list.len() - 1 {
            0
        } else {
            2
        };
        assert(lines[j].name == list[i].name);
        assert(list[i].kind is Matrix ==> lines[j].shape =~= seq![
            list[i].kind->rows,
            list[i].kind->cols,
        ]);
    }
}

proof fn lemma_indexer(text: DeepseekV41TextConfig, layer: usize)
    ensures
        all_within(blueprint::indexer_lines(text, layer), indexer_reads(text, layer)),
{
    reveal(all_within);
    let lines = blueprint::indexer_lines(text, layer);
    let list = indexer_reads(text, layer);
    assert forall|i: int| 0 <= i < list.len() implies is_release_read(
        lines,
        #[trigger] list[i],
    ) by {
        let j: int = if i == 0 {
            0
        } else {
            i + 1
        };
        assert(lines[j].name == list[i].name);
        assert(list[i].kind is Matrix ==> lines[j].shape =~= seq![
            list[i].kind->rows,
            list[i].kind->cols,
        ]);
    }
}

proof fn lemma_place(list: Seq<usize>, value: usize)
    requires
        list.contains(value),
    ensures
        blueprint::first_place(list, value) is Some,
    decreases list.len(),
{
    let at = choose|at: int| 0 <= at < list.len() && list[at] == value;
    if at < list.len() - 1 {
        assert(list.drop_last()[at] == value);
        lemma_place(list.drop_last(), value);
    }
}

proof fn lemma_engram(text: DeepseekV41TextConfig, layer: usize)
    requires
        text.dimensions_fit(),
    ensures
        all_within(blueprint::engram_lines(text, layer), engram_reads(text, layer)),
{
    reveal(all_within);
    let lines = blueprint::engram_lines(text, layer);
    let list = engram_reads(text, layer);
    if text.engram_layer_ids@.contains(layer) {
        lemma_place(text.engram_layer_ids@, layer);
        assert(lines.len() == 6);
        assert forall|i: int| 0 <= i < list.len() implies is_release_read(
            lines,
            #[trigger] list[i],
        ) by {
            let j: int = i + 2;
            assert(lines[j].name == list[i].name);
            assert(list[i].kind is Matrix ==> lines[j].shape =~= seq![
                list[i].kind->rows,
                list[i].kind->cols,
            ]);
        }
    }
}

#[verifier::opaque]
pub open spec fn all_within(lines: Seq<blueprint::Line>, list: Seq<ReadView>) -> bool {
    forall|i: int| 0 <= i < list.len() ==> is_release_read(lines, #[trigger] list[i])
}

proof fn lemma_assemble(
    lines: Seq<Seq<blueprint::Line>>,
    list: Seq<Seq<ReadView>>,
    i: int,
)
    requires
        lines.len() == 7,
        list.len() == 6,
        all_within(lines[0], list[0]),
        all_within(lines[0] + lines[1], list[1]),
        all_within(lines[4], list[2]),
        all_within(lines[5], list[3]),
        all_within(lines[2], list[4]),
        all_within(lines[6], list[5]),
        0 <= i < (list[0] + list[1] + list[2] + list[3] + list[4] + list[5]).len(),
    ensures
        is_release_read(
            lines[0] + lines[1] + lines[2] + lines[3] + lines[4] + lines[5] + lines[6],
            (list[0] + list[1] + list[2] + list[3] + list[4] + list[5])[i],
        ),
{
    reveal(all_within);
    let (front, attention, router, experts) = (lines[0], lines[1], lines[2], lines[3]);
    let (source, indexer, engram) = (lines[4], lines[5], lines[6]);
    let all = front + attention + router + experts + source + indexer + engram;
    let none = Seq::<blueprint::Line>::empty();
    let (a, b, c) = (list[0], list[1], list[2]);
    let (d, e, f) = (list[3], list[4], list[5]);
    let read = (a + b + c + d + e + f)[i];
    if i < a.len() {
        assert(read == a[i]);
        let after = attention + router + experts + source + indexer + engram;
        lemma_within(none, front, after, read);
        assert(none + front + after =~= all);
    } else if i < a.len() + b.len() {
        assert(read == b[i - a.len()]);
        let after = router + experts + source + indexer + engram;
        lemma_within(none, front + attention, after, read);
        assert(none + (front + attention) + after =~= all);
    } else if i < a.len() + b.len() + c.len() {
        assert(read == c[i - a.len() - b.len()]);
        let before = front + attention + router + experts;
        lemma_within(before, source, indexer + engram, read);
        assert(before + source + (indexer + engram) =~= all);
    } else if i < a.len() + b.len() + c.len() + d.len() {
        assert(read == d[i - a.len() - b.len() - c.len()]);
        let before = front + attention + router + experts + source;
        lemma_within(before, indexer, engram, read);
        assert(before + indexer + engram =~= all);
    } else if i < a.len() + b.len() + c.len() + d.len() + e.len() {
        assert(read == e[i - a.len() - b.len() - c.len() - d.len()]);
        let after = experts + source + indexer + engram;
        lemma_within(front + attention, router, after, read);
        assert(front + attention + router + after =~= all);
    } else {
        assert(read == f[i - a.len() - b.len() - c.len() - d.len() - e.len()]);
        let before = front + attention + router + experts + source + indexer;
        lemma_within(before, engram, none, read);
        assert(before + engram + none =~= all);
    }
}

/// Every tensor that a layer reads is a tensor of the release, in the shape that the release has
/// it in.
pub proof fn layer_reads_are_release_lines(text: DeepseekV41TextConfig, layer: usize, i: int)
    requires
        text.dimensions_fit(),
        0 <= i < layer_reads(text, layer).len(),
    ensures
        is_release_read(blueprint::layer_lines(text, layer), layer_reads(text, layer)[i]),
{
    let prefix = blueprint::layer_name(layer as nat);
    let category = blueprint::Category::BackboneLayer(layer);
    let routed = text.n_routed_experts;
    lemma_front(text, prefix, category);
    lemma_attention(text, prefix, category);
    lemma_moe(text, prefix, category);
    lemma_sources(text, layer);
    lemma_indexer(text, layer);
    lemma_engram(text, layer);
    let lines = seq![
        blueprint::front_lines(text, prefix, category),
        blueprint::attention_lines(text, prefix, category),
        blueprint::router_lines(text, prefix, category, routed),
        blueprint::experts_lines(text, prefix, routed as nat, Some(layer)),
        blueprint::source_lines(text, layer),
        blueprint::indexer_lines(text, layer),
        blueprint::engram_lines(text, layer),
    ];
    let list = seq![
        front_reads(text, prefix),
        attention_reads(text, prefix),
        compressor_reads(text, layer),
        indexer_reads(text, layer),
        moe_reads(text, prefix),
        engram_reads(text, layer),
    ];
    lemma_assemble(lines, list, i);
}

/// The elements of a tensor of this shape.
pub open spec fn elements(shape: Seq<u64>) -> nat
    decreases shape.len(),
{
    if shape.len() == 0 {
        1
    } else {
        elements(shape.drop_last()) * (shape.last() as nat)
    }
}

proof fn lemma_elements_zero(shape: Seq<u64>, i: int)
    requires
        0 <= i < shape.len(),
        shape[i] == 0,
    ensures
        elements(shape) == 0,
    decreases shape.len(),
{
    let front = elements(shape.drop_last());
    if i < shape.len() - 1 {
        lemma_elements_zero(shape.drop_last(), i);
        assert(0 * shape.last() == 0);
    } else {
        assert(front * 0 == 0);
    }
}

proof fn lemma_elements_grow(shape: Seq<u64>, count: int)
    requires
        0 <= count <= shape.len(),
        forall|i: int| 0 <= i < shape.len() ==> shape[i] > 0,
    ensures
        elements(shape.take(count)) <= elements(shape),
    decreases shape.len(),
{
    if count == shape.len() {
        assert(shape.take(count) =~= shape);
    } else {
        let front = shape.drop_last();
        lemma_elements_grow(front, count);
        assert(front.take(count) =~= shape.take(count));
        let last = shape.last();
        assert(shape[shape.len() - 1] > 0);
        assert(elements(front) <= elements(front) * last) by (nonlinear_arith)
            requires
                last >= 1,
        ;
    }
}

/// Counts the elements of a tensor, where their number has 64 bits.
fn count_elements(shape: &Vec<u64>) -> (count: Option<u64>)
    ensures
        match count {
            Some(count) => count == elements(shape@),
            None => elements(shape@) > u64::MAX,
        },
{
    let mut zero: usize = 0;
    while zero < shape.len()
        invariant
            zero <= shape@.len(),
            forall|i: int| 0 <= i < zero ==> shape@[i] > 0,
        decreases shape@.len() - zero,
    {
        if shape[zero] == 0 {
            proof {
                lemma_elements_zero(shape@, zero as int);
            }
            return Some(0);
        }
        zero = zero + 1;
    }
    let mut count: u64 = 1;
    let mut i: usize = 0;
    while i < shape.len()
        invariant
            forall|k: int| 0 <= k < shape@.len() ==> shape@[k] > 0,
            i <= shape@.len(),
            count == elements(shape@.take(i as int)),
        decreases shape@.len() - i,
    {
        proof {
            assert(shape@.take(i + 1).drop_last() =~= shape@.take(i as int));
            lemma_elements_grow(shape@, i + 1);
        }
        match count.checked_mul(shape[i]) {
            Some(product) => {
                count = product;
            },
            None => {
                return None;
            },
        }
        i = i + 1;
    }
    assert(shape@.take(i as int) =~= shape@);
    Some(count)
}

pub open spec fn values_message(name: Seq<char>, count: usize) -> Seq<char> {
    "tensor "@ + config::quoted(name) + " must contain "@ + text::decimal(count as nat)
        + " elements"@
}

/// Why a tensor does not hold exactly so many values.
pub open spec fn values_problem(index: storage::IndexView, name: Seq<char>, count: usize) -> Option<
    runtime::RuntimeProblem,
> {
    match index.require(name) {
        Err(error) => Some(runtime::RuntimeProblem::Storage(error)),
        Ok(tensor) => runtime::invalid_if(
            elements(tensor.shape@) != count,
            values_message(name, count),
        ),
    }
}

/// Refuses a tensor that does not hold exactly so many values.
pub fn check_values(index: &TensorIndex, name: &str, count: usize) -> (result: Result<
    (),
    DeepseekV41RuntimeError,
>)
    ensures
        runtime::problem(result) == values_problem(index@, name@, count),
{
    let tensor = match index.require(name) {
        Ok(tensor) => tensor,
        Err(error) => {
            return Err(DeepseekV41RuntimeError::Storage(error));
        },
    };
    let exact: bool = match count_elements(&tensor.shape) {
        Some(found) => found == count as u64,
        None => false,
    };
    if !exact {
        let mut reason = "tensor ".to_owned();
        let name_text = quote(name);
        reason.append(name_text.as_str());
        reason.append(" must contain ");
        push_decimal(&mut reason, count as u64);
        reason.append(" elements");
        return Err(DeepseekV41RuntimeError::Invalid(reason));
    }
    Ok(())
}

/// One number more in a sum.
pub open spec fn added(sum: u64, more: u64, reason: Seq<char>) -> Result<
    u64,
    runtime::RuntimeProblem,
> {
    if sum + more > u64::MAX {
        Err(runtime::RuntimeProblem::Invalid(reason))
    } else {
        Ok((sum + more) as u64)
    }
}

/// A result over plain values.
pub open spec fn outcome<T>(result: Result<T, DeepseekV41RuntimeError>) -> Result<
    T,
    runtime::RuntimeProblem,
> {
    match result {
        Ok(value) => Ok(value),
        Err(error) => Err(error@),
    }
}

fn sum_bytes(sum: u64, more: u64, reason: &str) -> (result: Result<u64, DeepseekV41RuntimeError>)
    ensures
        outcome(result) == added(sum, more, reason@),
{
    match sum.checked_add(more) {
        Some(total) => Ok(total),
        None => invalid(reason),
    }
}

/// The bytes that a weight takes in the checkpoint, with its scales.
pub open spec fn stored_bytes(index: storage::IndexView, name: Seq<char>) -> Result<
    u64,
    runtime::RuntimeProblem,
> {
    match index.require(name) {
        Err(error) => Err(runtime::RuntimeProblem::Storage(error)),
        Ok(tensor) => {
            let scales = name.take(name.len() - ".weight"@.len()) + ".scale"@;
            if text::ends_in(name, ".weight"@) && index.tensors.contains_key(scales) {
                added(
                    tensor.data_len,
                    index.tensors[scales].data_len,
                    "weight payload bytes overflow"@,
                )
            } else {
                Ok(tensor.data_len)
            }
        },
    }
}

/// The bytes that a weight takes in the checkpoint, with its scales.
pub fn weight_storage_bytes(index: &TensorIndex, name: &str) -> (result: Result<
    u64,
    DeepseekV41RuntimeError,
>)
    ensures
        outcome(result) == stored_bytes(index@, name@),
{
    let bytes: u64 = match index.require(name) {
        Ok(tensor) => tensor.data_len,
        Err(error) => {
            return Err(DeepseekV41RuntimeError::Storage(error));
        },
    };
    match strip_suffix(name, ".weight") {
        Some(prefix) => {
            let scales = join(prefix, ".scale");
            match index.get(scales.as_str()) {
                Some(scale) => sum_bytes(bytes, scale.data_len, "weight payload bytes overflow"),
                None => Ok(bytes),
            }
        },
        None => Ok(bytes),
    }
}

/// The bytes that the matrices of a list take once they are resident.
pub open spec fn resident_bytes(index: storage::IndexView, list: Seq<ReadView>) -> Result<
    u64,
    runtime::RuntimeProblem,
>
    decreases list.len(),
{
    if list.len() == 0 {
        Ok(0)
    } else {
        let line = list.last();
        match resident_bytes(index, list.drop_last()) {
            Err(error) => Err(error),
            Ok(sum) => match index.inspect(line.name, line.kind->rows, line.kind->cols) {
                Err(error) => Err(runtime::RuntimeProblem::Storage(error)),
                Ok(layout) => added(sum, layout.resident_bytes, "expert resident bytes overflow"@),
            },
        }
    }
}

/// The bytes that the matrices of a list take in the checkpoint.
pub open spec fn payload_bytes(index: storage::IndexView, list: Seq<ReadView>) -> Result<
    u64,
    runtime::RuntimeProblem,
>
    decreases list.len(),
{
    if list.len() == 0 {
        Ok(0)
    } else {
        match payload_bytes(index, list.drop_last()) {
            Err(error) => Err(error),
            Ok(sum) => match stored_bytes(index, list.last().name) {
                Err(error) => Err(error),
                Ok(bytes) => added(sum, bytes, "expert payload bytes overflow"@),
            },
        }
    }
}

/// What loading an expert costs: the bytes that it keeps resident and those that are read for it.
pub open spec fn expert_cost(
    index: storage::IndexView,
    text: DeepseekV41TextConfig,
    base: Seq<char>,
    maximum: u64,
) -> Result<(u64, u64), runtime::RuntimeProblem> {
    let list = expert_reads(text, base);
    match resident_bytes(index, list) {
        Err(error) => Err(error),
        Ok(resident) => match payload_bytes(index, list) {
            Err(error) => Err(error),
            Ok(payload) => if resident > maximum {
                Err(
                    runtime::RuntimeProblem::Budget {
                        component: "routed expert"@,
                        required: resident,
                        maximum,
                    },
                )
            } else {
                Ok((resident, payload))
            },
        },
    }
}

fn add_matrix(index: &TensorIndex, sum: u64, read: &TensorRead) -> (result: Result<
    u64,
    DeepseekV41RuntimeError,
>)
    requires
        read.kind is Matrix,
    ensures
        outcome(result) == match index@.inspect(read.name@, read.kind->rows, read.kind->cols) {
            Err(error) => Err(runtime::RuntimeProblem::Storage(error)),
            Ok(layout) => added(sum, layout.resident_bytes, "expert resident bytes overflow"@),
        },
{
    let (rows, cols): (usize, usize) = match read.kind {
        ReadKind::Matrix { rows, cols } => (rows, cols),
        _ => (0, 0),
    };
    let layout = match inspect_weight_matrix(index, read.name.as_str(), rows, cols) {
        Ok(layout) => layout,
        Err(error) => {
            return Err(DeepseekV41RuntimeError::Storage(error));
        },
    };
    sum_bytes(sum, layout.resident_bytes, "expert resident bytes overflow")
}

fn add_payload(index: &TensorIndex, sum: u64, read: &TensorRead) -> (result: Result<
    u64,
    DeepseekV41RuntimeError,
>)
    ensures
        outcome(result) == match stored_bytes(index@, read.name@) {
            Err(error) => Err(error),
            Ok(bytes) => added(sum, bytes, "expert payload bytes overflow"@),
        },
{
    let bytes: u64 = weight_storage_bytes(index, read.name.as_str())?;
    sum_bytes(sum, bytes, "expert payload bytes overflow")
}

/// What loading the expert of this name costs, unless it exceeds what one expert may take.
pub fn plan_expert(
    index: &TensorIndex,
    base: &str,
    text: &DeepseekV41TextConfig,
    maximum: u64,
) -> (result: Result<(u64, u64), DeepseekV41RuntimeError>)
    ensures
        outcome(result) == expert_cost(index@, *text, base@, maximum),
{
    let mut list: Vec<TensorRead> = Vec::new();
    append_expert(&mut list, text, base);
    let ghost views = expert_reads(*text, base@);
    proof {
        assert(reads(list@) =~= views);
        assert(views[0] == list@[0]@ && views[1] == list@[1]@ && views[2] == list@[2]@);
        let none = Seq::<ReadView>::empty();
        let one = seq![views[0]];
        let two = seq![views[0], views[1]];
        assert(one.drop_last() =~= none && two.drop_last() =~= one && views.drop_last() =~= two);
        assert(resident_bytes(index@, none) == Ok::<u64, runtime::RuntimeProblem>(0));
        assert(payload_bytes(index@, none) == Ok::<u64, runtime::RuntimeProblem>(0));
        reveal_with_fuel(resident_bytes, 4);
        reveal_with_fuel(payload_bytes, 4);
    }
    let first: u64 = add_matrix(index, 0, &list[0])?;
    let second: u64 = add_matrix(index, first, &list[1])?;
    let resident: u64 = add_matrix(index, second, &list[2])?;
    let first: u64 = add_payload(index, 0, &list[0])?;
    let second: u64 = add_payload(index, first, &list[1])?;
    let payload: u64 = add_payload(index, second, &list[2])?;
    if resident > maximum {
        return Err(
            DeepseekV41RuntimeError::Budget {
                component: "routed expert",
                required: resident,
                maximum,
            },
        );
    }
    Ok((resident, payload))
}

/// The name of a routed expert.
pub open spec fn expert_name(layer: nat, expert: nat) -> Seq<char> {
    blueprint::layer_name(layer) + ".ffn.experts."@ + text::decimal(expert)
}

pub fn name_expert(layer: usize, expert: usize) -> (name: String)
    ensures
        name@ == expert_name(layer as nat, expert as nat),
{
    let prefix = join(join_number("layers.", layer).as_str(), ".ffn.experts.");
    join_number(prefix.as_str(), expert)
}

/// The matrices of a routed expert are those that the release packs for it.
pub proof fn expert_reads_are_release_lines(
    text: DeepseekV41TextConfig,
    layer: usize,
    expert: nat,
    i: int,
)
    requires
        0 <= i < 3,
    ensures
        ({
            let read = expert_reads(text, expert_name(layer as nat, expert))[i];
            let line = blueprint::expert_lines(
                text,
                blueprint::layer_name(layer as nat),
                expert,
                Some(layer),
            )[2 * i];
            &&& line.name == read.name
            &&& line.logical == blueprint::Logical::Packed {
                rows: read.kind->rows,
                cols: read.kind->cols,
            }
        }),
{
}

/// The payload of a weight is its own and that of its scales, where the checkpoint has some; any other
/// tensor has its own alone.
pub proof fn payloads_hold_their_scales(index: storage::IndexView, stem: Seq<char>)
    requires
        index.tensors.contains_key(stem + ".weight"@),
    ensures
        stored_bytes(index, stem + ".weight"@) matches Ok(bytes) ==> bytes == index.tensors[stem
            + ".weight"@].data_len + if index.tensors.contains_key(stem + ".scale"@) {
            index.tensors[stem + ".scale"@].data_len as int
        } else {
            0
        },
{
    reveal_strlit(".weight");
    let name = stem + ".weight"@;
    assert(text::ends_in(name, ".weight"@)) by {
        assert(name.skip(name.len() - ".weight"@.len()) =~= ".weight"@);
    }
    assert(name.take(name.len() - ".weight"@.len()) =~= stem);
}

/// An expert is planned with what its three matrices take in memory and what is read for them, and only
/// where the former is within the limit.
pub proof fn experts_cost_their_three_matrices(
    index: storage::IndexView,
    text: DeepseekV41TextConfig,
    base: Seq<char>,
    maximum: u64,
)
    ensures
        expert_cost(index, text, base, maximum) matches Ok((resident, payload)) ==> {
            let inner = text.moe_intermediate_size;
            let hidden = text.hidden_size;
            let one = base + ".w1"@ + ".weight"@;
            let two = base + ".w2"@ + ".weight"@;
            let three = base + ".w3"@ + ".weight"@;
            &&& resident <= maximum
            &&& index.inspect(one, inner, hidden) is Ok
            &&& index.inspect(two, hidden, inner) is Ok
            &&& index.inspect(three, inner, hidden) is Ok
            &&& resident == index.layouts[one].resident_bytes + index.layouts[two].resident_bytes
                + index.layouts[three].resident_bytes
            &&& stored_bytes(index, one) is Ok && stored_bytes(index, two) is Ok && stored_bytes(
                index,
                three,
            ) is Ok
            &&& payload == stored_bytes(index, one)->Ok_0 + stored_bytes(index, two)->Ok_0
                + stored_bytes(index, three)->Ok_0
        },
{
    let list = expert_reads(text, base);
    reveal_with_fuel(resident_bytes, 4);
    reveal_with_fuel(payload_bytes, 4);
    assert(list.drop_last().last() == list[1]);
    assert(list.drop_last().drop_last().last() == list[0]);
    assert(list.drop_last().drop_last().drop_last().len() == 0);
}

/// The elements of a tensor are the product of its dimensions.
pub proof fn elements_are_the_product_of_dimensions(shape: Seq<u64>, last: u64)
    ensures
        elements(Seq::empty()) == 1,
        elements(shape.push(last)) == elements(shape) * last,
{
    assert(shape.push(last).drop_last() =~= shape);
}

/// Whether a list reads a matrix.
pub open spec fn reads_matrix(list: Seq<ReadView>, name: Seq<char>, rows: usize, cols: usize) -> bool {
    exists|j: int|
        0 <= j < list.len() && (#[trigger] list[j]).name == name && list[j].kind == (
        ReadKind::Matrix { rows, cols })
}

/// Whether a list reads a vector.
pub open spec fn reads_vector(list: Seq<ReadView>, name: Seq<char>, length: usize) -> bool {
    exists|j: int|
        0 <= j < list.len() && (#[trigger] list[j]).name == name && list[j].kind == (
        ReadKind::Vector { length })
}

/// Every layer reads its mixing functions, its norms and sinks, its attention, its router and its shared
/// expert.
pub proof fn layers_read_all_of_their_weights(text: DeepseekV41TextConfig, layer: usize)
    ensures
        ({
            let list = layer_reads(text, layer);
            let prefix = "layers."@ + text::decimal(layer as nat);
            let mix = ((2 + text.hc_mult) * text.hc_mult) as usize;
            let wide = (text.hc_mult * text.hidden_size) as usize;
            let width = (text.num_attention_heads * text.head_dim) as usize;
            let low_rank = (text.o_groups * text.o_lora_rank) as usize;
            let group = (width as int / text.o_groups as int) as usize;
            &&& reads_matrix(list, prefix + ".hc_attn_fn"@, mix, wide)
            &&& reads_vector(list, prefix + ".hc_attn_base"@, mix)
            &&& reads_vector(list, prefix + ".hc_attn_scale"@, 3)
            &&& reads_matrix(list, prefix + ".hc_ffn_fn"@, mix, wide)
            &&& reads_vector(list, prefix + ".hc_ffn_base"@, mix)
            &&& reads_vector(list, prefix + ".hc_ffn_scale"@, 3)
            &&& reads_vector(list, prefix + ".attn_norm.weight"@, text.hidden_size)
            &&& reads_vector(list, prefix + ".ffn_norm.weight"@, text.hidden_size)
            &&& reads_vector(list, prefix + ".attn.attn_sink"@, text.num_attention_heads)
            &&& reads_matrix(list, prefix + ".attn.wq_a"@ + ".weight"@, text.q_lora_rank, text.hidden_size)
            &&& reads_vector(list, prefix + ".attn.q_norm.weight"@, text.q_lora_rank)
            &&& reads_matrix(list, prefix + ".attn.wq_b"@ + ".weight"@, width, text.q_lora_rank)
            &&& reads_matrix(list, prefix + ".attn.wkv"@ + ".weight"@, text.head_dim, text.hidden_size)
            &&& reads_vector(list, prefix + ".attn.kv_norm.weight"@, text.head_dim)
            &&& reads_matrix(list, prefix + ".attn.wo_a"@ + ".weight"@, low_rank, group)
            &&& reads_matrix(list, prefix + ".attn.wo_b"@ + ".weight"@, text.hidden_size, low_rank)
            &&& reads_matrix(list, prefix + ".ffn.gate.weight"@, text.n_routed_experts, text.hidden_size)
            &&& reads_vector(list, prefix + ".ffn.gate.bias"@, text.n_routed_experts)
            &&& reads_matrix(list, prefix + ".ffn.shared_experts"@ + ".w1"@ + ".weight"@, text.moe_intermediate_size, text.hidden_size)
            &&& reads_matrix(list, prefix + ".ffn.shared_experts"@ + ".w2"@ + ".weight"@, text.hidden_size, text.moe_intermediate_size)
            &&& reads_matrix(list, prefix + ".ffn.shared_experts"@ + ".w3"@ + ".weight"@, text.moe_intermediate_size, text.hidden_size)
        }),
{
    let list = layer_reads(text, layer);
    let prefix = blueprint::layer_name(layer as nat);
    let front = front_reads(text, prefix);
    let own = attention_reads(text, prefix);
    let experts = moe_reads(text, prefix);
    let at: int = 16 + compressor_reads(text, layer).len() as int + indexer_reads(
        text,
        layer,
    ).len() as int;
    let shared = expert_reads(text, prefix + ".ffn.shared_experts"@);
    assert(experts[2] == shared[0] && experts[3] == shared[1] && experts[4] == shared[2]);
    assert(list[0] == front[0]);
    assert(list[1] == front[1]);
    assert(list[2] == front[2]);
    assert(list[3] == front[3]);
    assert(list[4] == front[4]);
    assert(list[5] == front[5]);
    assert(list[6] == front[6]);
    assert(list[7] == front[7]);
    assert(list[8] == own[0]);
    assert(list[9] == own[1]);
    assert(list[10] == own[2]);
    assert(list[11] == own[3]);
    assert(list[12] == own[4]);
    assert(list[13] == own[5]);
    assert(list[14] == own[6]);
    assert(list[15] == own[7]);
    assert(list[at] == experts[0]);
    assert(list[at + 1] == experts[1]);
    assert(list[at + 2] == experts[2]);
    assert(list[at + 3] == experts[3]);
    assert(list[at + 4] == experts[4]);
}

/// A layer that owns entries reads its compressor, with a gate where it compresses; one that ranks them
/// reads its indexer, with its keys where it owns them; one that reads n-grams reads the weights of its
/// gates and its projection. No other layer reads any of them.
pub proof fn layers_read_what_they_own(text: DeepseekV41TextConfig, layer: usize)
    ensures
        ({
            let prefix = "layers."@ + text::decimal(layer as nat);
            let owns = text.kv_source_layer_ids@.contains(layer);
            let ranks = text.index_source_layer_ids@.contains(layer);
            let compressor = compressor_reads(text, layer);
            let indexer = indexer_reads(text, layer);
            let engram = engram_reads(text, layer);
            let streams = (text.hc_mult * text.hidden_size) as usize;
            let columns = (text.engram_max_ngram_size - 1) * text.engram_n_heads;
            let gated = text.compress_ratios@[layer as int] > 1;
            &&& compressor.len() == (if !owns {
                0int
            } else if gated {
                3
            } else {
                2
            })
            &&& owns ==> reads_matrix(compressor, prefix + ".attn.compressor"@ + ".wkv.weight"@, text.head_dim, text.hidden_size)
            &&& owns && gated ==> reads_matrix(compressor, prefix + ".attn.compressor"@ + ".wgate.weight"@, text.head_dim, text.hidden_size)
            &&& owns ==> reads_vector(compressor, prefix + ".attn.compressor"@ + ".norm.weight"@, text.head_dim)
            &&& indexer.len() == (if !ranks {
                0int
            } else if owns {
                4
            } else {
                2
            })
            &&& ranks ==> reads_matrix(indexer, prefix + ".attn.indexer"@ + ".wq_b"@ + ".weight"@, (text.index_n_heads * text.index_head_dim) as usize, text.q_lora_rank)
            &&& ranks ==> reads_matrix(indexer, prefix + ".attn.indexer"@ + ".weights_proj.weight"@, text.index_n_heads, text.hidden_size)
            &&& ranks && owns ==> reads_matrix(indexer, prefix + ".attn.indexer"@ + ".wk.weight"@, text.index_head_dim, text.head_dim)
            &&& ranks && owns ==> reads_vector(indexer, prefix + ".attn.indexer"@ + ".k_norm.weight"@, text.index_head_dim)
            &&& !text.engram_layer_ids@.contains(layer) ==> engram.len() == 0
            &&& text.engram_layer_ids@.contains(layer) ==> {
                &&& engram.len() == 3
                &&& engram[0].name == prefix + ".engram"@ + ".q_weight"@ && engram[0].kind == (
                ReadKind::Values { count: streams })
                &&& engram[1].name == prefix + ".engram"@ + ".k_weight"@ && engram[1].kind == (
                ReadKind::Values { count: streams })
                &&& reads_matrix(engram, prefix + ".engram"@ + ".wkv"@ + ".weight"@, (text.hidden_size * (text.hc_mult + 1)) as usize, (columns * text.engram_head_dim) as usize)
            }
        }),
{
    let prefix = blueprint::layer_name(layer as nat);
    let compressor = compressor_reads(text, layer);
    let indexer = indexer_reads(text, layer);
    let engram = engram_reads(text, layer);
    if text.kv_source_layer_ids@.contains(layer) {
        assert(compressor[0].name == prefix + ".attn.compressor"@ + ".wkv.weight"@);
        if text.compress_ratios@[layer as int] > 1 {
            assert(compressor[1].name == prefix + ".attn.compressor"@ + ".wgate.weight"@);
            assert(compressor[2].name == prefix + ".attn.compressor"@ + ".norm.weight"@);
        } else {
            assert(compressor[1].name == prefix + ".attn.compressor"@ + ".norm.weight"@);
        }
    }
    if text.index_source_layer_ids@.contains(layer) {
        assert(indexer[0].name == prefix + ".attn.indexer"@ + ".wq_b"@ + ".weight"@);
        assert(indexer[1].name == prefix + ".attn.indexer"@ + ".weights_proj.weight"@);
        if text.kv_source_layer_ids@.contains(layer) {
            assert(indexer[2].name == prefix + ".attn.indexer"@ + ".wk.weight"@);
            assert(indexer[3].name == prefix + ".attn.indexer"@ + ".k_norm.weight"@);
        }
    }
    if text.engram_layer_ids@.contains(layer) {
        assert(engram[2].name == prefix + ".engram"@ + ".wkv"@ + ".weight"@);
    }
}

} // verus!
