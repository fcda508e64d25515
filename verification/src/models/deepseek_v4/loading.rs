//! What the DeepSeek-V4 runtime reads of a checkpoint: the vectors it pins, the matrices of a
//! layer, the sizes of an expert, and which buffers it reads into again.

use super::config::DeepseekV4Config;
use super::runtime::{invalid, DeepseekRuntimeError};
use super::schema::native_scale_name;
use super::{runtime, schema};
use crate::config::quote;
use crate::storage::{inspect_weight_matrix, TensorIndex, WeightFormat, WeightLayout};
use crate::text::{join, join_number, strip_suffix};
use crate::{config, storage, text};
use vstd::prelude::*;
use vstd::string::*;

verus! {

/// A tensor to read, with its shape.
#[derive(Debug)]
pub struct MatrixRead {
    pub name: String,
    pub rows: usize,
    pub cols: usize,
}

/// The same, over plain values.
pub struct ReadView {
    pub name: Seq<char>,
    pub rows: usize,
    pub cols: usize,
}

impl View for MatrixRead {
    type V = ReadView;

    open spec fn view(&self) -> ReadView {
        ReadView { name: self.name@, rows: self.rows, cols: self.cols }
    }
}

pub open spec fn reads(list: Seq<MatrixRead>) -> Seq<ReadView> {
    Seq::new(list.len(), |i: int| list[i]@)
}

pub open spec fn read(name: Seq<char>, rows: int, cols: int) -> ReadView {
    ReadView { name, rows: rows as usize, cols: cols as usize }
}

pub open spec fn layer_prefix(layer: usize) -> Seq<char> {
    "layers."@ + text::decimal(layer as nat)
}

/// The compression ratio of a layer.
pub open spec fn ratio_of(config: DeepseekV4Config, layer: usize) -> usize {
    match config.base_ratio(layer as nat) {
        Some(ratio) => ratio,
        None => 0,
    }
}

fn layer_ratio(config: &DeepseekV4Config, layer: usize) -> (ratio: usize)
    requires
        layer < config.num_hidden_layers ==> layer < config.compress_ratios@.len(),
    ensures
        ratio == ratio_of(*config, layer),
{
    match config.base_compress_ratio(layer) {
        Some(ratio) => ratio,
        None => 0,
    }
}

fn push_read(list: &mut Vec<MatrixRead>, name: String, rows: usize, cols: usize)
    ensures
        reads(final(list)@) == reads(old(list)@).push(read(name@, rows as int, cols as int)),
{
    let ghost before = list@;
    list.push(MatrixRead { name, rows, cols });
    assert(reads(list@) =~= reads(before).push(read(name@, rows as int, cols as int)));
}

/// The small vectors that stay resident for every layer, with their lengths, in the order in which
/// they are read. A vector is a matrix of one row here.
pub open spec fn vector_reads(config: DeepseekV4Config, layer: usize) -> Seq<ReadView> {
    let prefix = layer_prefix(layer);
    let attention = prefix + ".attn"@;
    let mix = config.mix_width() as int;
    let ratio = ratio_of(config, layer);
    seq![
        read(prefix + ".hc_attn_base"@, 1, mix),
        read(prefix + ".hc_attn_scale"@, 1, 3),
        read(prefix + ".hc_ffn_base"@, 1, mix),
        read(prefix + ".hc_ffn_scale"@, 1, 3),
        read(prefix + ".attn_norm.weight"@, 1, config.hidden_size as int),
        read(prefix + ".ffn_norm.weight"@, 1, config.hidden_size as int),
        read(attention + ".attn_sink"@, 1, config.num_attention_heads as int),
        read(attention + ".q_norm.weight"@, 1, config.q_lora_rank as int),
        read(attention + ".kv_norm.weight"@, 1, config.head_dim as int),
    ] + optional_read(
        ratio > 0,
        read(attention + ".compressor.norm.weight"@, 1, config.head_dim as int),
    ) + optional_read(
        ratio == 4,
        read(attention + ".indexer.compressor.norm.weight"@, 1, config.index_head_dim as int),
    ) + optional_read(
        layer >= config.num_hash_layers,
        read(prefix + ".ffn"@ + ".gate.bias"@, 1, config.n_routed_experts as int),
    )
}

pub open spec fn optional_read(wanted: bool, line: ReadView) -> Seq<ReadView> {
    if wanted {
        seq![line]
    } else {
        Seq::empty()
    }
}

fn stem(prefix: &String, suffix: &str) -> (name: String)
    ensures
        name@ == prefix@ + suffix@,
{
    join(prefix.as_str(), suffix)
}

/// Lists the vectors of a layer.
pub fn list_vectors(config: &DeepseekV4Config, layer: usize) -> (list: Vec<MatrixRead>)
    requires
        layer < config.num_hidden_layers ==> layer < config.compress_ratios@.len(),
        config.schema_fits(),
    ensures
        reads(list@) == vector_reads(*config, layer),
{
    let prefix = join_number("layers.", layer);
    let attention = stem(&prefix, ".attn");
    let ffn = stem(&prefix, ".ffn");
    assert((2 + config.hc_mult) * config.hc_mult >= config.hc_mult) by (nonlinear_arith)
        requires
            config.hc_mult >= 0,
    ;
    let mix: usize = if config.hc_mult == 0 {
        0
    } else {
        assert((2 + config.hc_mult) * config.hc_mult >= 2 + config.hc_mult) by (nonlinear_arith)
            requires
                config.hc_mult >= 1,
        ;
        (2 + config.hc_mult) * config.hc_mult
    };
    let ratio = layer_ratio(config, layer);
    let mut list: Vec<MatrixRead> = Vec::new();
    push_read(&mut list, stem(&prefix, ".hc_attn_base"), 1, mix);
    push_read(&mut list, stem(&prefix, ".hc_attn_scale"), 1, 3);
    push_read(&mut list, stem(&prefix, ".hc_ffn_base"), 1, mix);
    push_read(&mut list, stem(&prefix, ".hc_ffn_scale"), 1, 3);
    push_read(&mut list, stem(&prefix, ".attn_norm.weight"), 1, config.hidden_size);
    push_read(&mut list, stem(&prefix, ".ffn_norm.weight"), 1, config.hidden_size);
    push_read(&mut list, stem(&attention, ".attn_sink"), 1, config.num_attention_heads);
    push_read(&mut list, stem(&attention, ".q_norm.weight"), 1, config.q_lora_rank);
    push_read(&mut list, stem(&attention, ".kv_norm.weight"), 1, config.head_dim);
    if ratio > 0 {
        push_read(&mut list, stem(&attention, ".compressor.norm.weight"), 1, config.head_dim);
    }
    if ratio == 4 {
        push_read(
            &mut list,
            stem(&attention, ".indexer.compressor.norm.weight"),
            1,
            config.index_head_dim,
        );
    }
    if layer >= config.num_hash_layers {
        push_read(&mut list, stem(&ffn, ".gate.bias"), 1, config.n_routed_experts);
    }
    assert(reads(list@) =~= vector_reads(*config, layer));
    list
}

/// The matrices of a compressor.
pub open spec fn compressor_reads(
    config: DeepseekV4Config,
    prefix: Seq<char>,
    ratio: usize,
    head_dim: usize,
) -> Seq<ReadView> {
    let width: int = if ratio == 4 {
        2 * head_dim
    } else {
        head_dim as int
    };
    seq![
        read(prefix + ".ape"@, ratio as int, width),
        read(prefix + ".wkv.weight"@, width, config.hidden_size as int),
        read(prefix + ".wgate.weight"@, width, config.hidden_size as int),
    ]
}

/// The matrices of an indexer.
pub open spec fn indexer_reads(config: DeepseekV4Config, prefix: Seq<char>) -> Seq<ReadView> {
    seq![
        read(
            prefix + ".wq_b.weight"@,
            config.index_n_heads * config.index_head_dim,
            config.q_lora_rank as int,
        ),
        read(
            prefix + ".weights_proj.weight"@,
            config.index_n_heads as int,
            config.hidden_size as int,
        ),
    ] + compressor_reads(config, prefix + ".compressor"@, 4, config.index_head_dim)
}

/// The matrices of the attention itself.
pub open spec fn attention_reads(config: DeepseekV4Config, prefix: Seq<char>) -> Seq<ReadView> {
    let width = config.num_attention_heads * config.head_dim;
    let low_rank = config.o_groups * config.o_lora_rank;
    let hidden = config.hidden_size as int;
    seq![
        read(prefix + ".wq_a.weight"@, config.q_lora_rank as int, hidden),
        read(prefix + ".wq_b.weight"@, width, config.q_lora_rank as int),
        read(prefix + ".wkv.weight"@, config.head_dim as int, hidden),
        read(prefix + ".wo_a.weight"@, low_rank, width / config.o_groups as int),
        read(prefix + ".wo_b.weight"@, hidden, low_rank),
    ]
}

/// The matrices of an expert.
pub open spec fn expert_reads(config: DeepseekV4Config, prefix: Seq<char>) -> Seq<ReadView> {
    let hidden = config.hidden_size as int;
    let inner = config.moe_intermediate_size as int;
    seq![
        read(prefix + ".w1.weight"@, inner, hidden),
        read(prefix + ".w2.weight"@, hidden, inner),
        read(prefix + ".w3.weight"@, inner, hidden),
    ]
}

/// The matrices of a layer, in the order in which they are read.
pub open spec fn matrix_reads(config: DeepseekV4Config, layer: usize) -> Seq<ReadView> {
    let prefix = layer_prefix(layer);
    let attention = prefix + ".attn"@;
    let ffn = prefix + ".ffn"@;
    let ratio = ratio_of(config, layer);
    let mix = config.mix_width() as int;
    let wide = config.hc_mult * config.hidden_size;
    seq![read(prefix + ".hc_attn_fn"@, mix, wide), read(prefix + ".hc_ffn_fn"@, mix, wide)] + (
    if ratio > 0 {
        compressor_reads(config, attention + ".compressor"@, ratio, config.head_dim)
    } else {
        Seq::empty()
    }) + (if ratio == 4 {
        indexer_reads(config, attention + ".indexer"@)
    } else {
        Seq::empty()
    }) + attention_reads(config, attention) + seq![
        read(
            ffn + ".gate.weight"@,
            config.n_routed_experts as int,
            config.hidden_size as int,
        ),
    ] + expert_reads(config, ffn + ".shared_experts"@)
}

fn list_compressor(
    list: &mut Vec<MatrixRead>,
    config: &DeepseekV4Config,
    prefix: &String,
    ratio: usize,
    head_dim: usize,
)
    requires
        2 * head_dim <= usize::MAX,
    ensures
        reads(final(list)@) == reads(old(list)@) + compressor_reads(
            *config,
            prefix@,
            ratio,
            head_dim,
        ),
{
    let width: usize = if ratio == 4 {
        2 * head_dim
    } else {
        head_dim
    };
    let ghost before = reads(list@);
    push_read(list, stem(prefix, ".ape"), ratio, width);
    push_read(list, stem(prefix, ".wkv.weight"), width, config.hidden_size);
    push_read(list, stem(prefix, ".wgate.weight"), width, config.hidden_size);
    assert(reads(list@) =~= before + compressor_reads(*config, prefix@, ratio, head_dim));
}

fn list_expert(list: &mut Vec<MatrixRead>, config: &DeepseekV4Config, prefix: &str)
    ensures
        reads(final(list)@) == reads(old(list)@) + expert_reads(*config, prefix@),
{
    let ghost before = reads(list@);
    let hidden = config.hidden_size;
    let inner = config.moe_intermediate_size;
    push_read(list, join(prefix, ".w1.weight"), inner, hidden);
    push_read(list, join(prefix, ".w2.weight"), hidden, inner);
    push_read(list, join(prefix, ".w3.weight"), inner, hidden);
    assert(reads(list@) =~= before + expert_reads(*config, prefix@));
}

/// Lists the matrices of a layer.
pub fn list_matrices(config: &DeepseekV4Config, layer: usize) -> (list: Vec<MatrixRead>)
    requires
        layer < config.num_hidden_layers ==> layer < config.compress_ratios@.len(),
        config.schema_fits(),
    ensures
        reads(list@) == matrix_reads(*config, layer),
{
    let prefix = join_number("layers.", layer);
    let attention = stem(&prefix, ".attn");
    let ffn = stem(&prefix, ".ffn");
    let ratio = layer_ratio(config, layer);
    let mix: usize = if config.hc_mult == 0 {
        assert((2 + config.hc_mult) * config.hc_mult == 0) by (nonlinear_arith)
            requires
                config.hc_mult == 0,
        ;
        0
    } else {
        assert((2 + config.hc_mult) * config.hc_mult >= 2 + config.hc_mult) by (nonlinear_arith)
            requires
                config.hc_mult >= 1,
        ;
        (2 + config.hc_mult) * config.hc_mult
    };
    let wide: usize = config.hc_mult * config.hidden_size;
    let mut list: Vec<MatrixRead> = Vec::new();
    push_read(&mut list, stem(&prefix, ".hc_attn_fn"), mix, wide);
    push_read(&mut list, stem(&prefix, ".hc_ffn_fn"), mix, wide);
    let ghost front = reads(list@);
    if ratio > 0 {
        let name = stem(&attention, ".compressor");
        list_compressor(&mut list, config, &name, ratio, config.head_dim);
    } else {
        assert(reads(list@) =~= front + Seq::<ReadView>::empty());
    }
    let ghost compressed = reads(list@);
    if ratio == 4 {
        let indexer = stem(&attention, ".indexer");
        push_read(
            &mut list,
            stem(&indexer, ".wq_b.weight"),
            config.index_n_heads * config.index_head_dim,
            config.q_lora_rank,
        );
        push_read(
            &mut list,
            stem(&indexer, ".weights_proj.weight"),
            config.index_n_heads,
            config.hidden_size,
        );
        let name = stem(&indexer, ".compressor");
        list_compressor(&mut list, config, &name, 4, config.index_head_dim);
        assert(reads(list@) =~= compressed + indexer_reads(*config, indexer@));
    } else {
        assert(reads(list@) =~= compressed + Seq::<ReadView>::empty());
    }
    let ghost indexed = reads(list@);
    let width: usize = config.num_attention_heads * config.head_dim;
    let low_rank: usize = config.o_groups * config.o_lora_rank;
    push_read(&mut list, stem(&attention, ".wq_a.weight"), config.q_lora_rank, config.hidden_size);
    push_read(&mut list, stem(&attention, ".wq_b.weight"), width, config.q_lora_rank);
    push_read(&mut list, stem(&attention, ".wkv.weight"), config.head_dim, config.hidden_size);
    push_read(&mut list, stem(&attention, ".wo_a.weight"), low_rank, width / config.o_groups);
    push_read(&mut list, stem(&attention, ".wo_b.weight"), config.hidden_size, low_rank);
    assert(reads(list@) =~= indexed + attention_reads(*config, attention@));
    let ghost attended = reads(list@);
    push_read(
        &mut list,
        stem(&ffn, ".gate.weight"),
        config.n_routed_experts,
        config.hidden_size,
    );
    assert(reads(list@) =~= attended + seq![
        read(
            ffn@ + ".gate.weight"@,
            config.n_routed_experts as int,
            config.hidden_size as int,
        ),
    ]);
    let shared = stem(&ffn, ".shared_experts");
    list_expert(&mut list, config, shared.as_str());
    list
}

/// Some line of the schema is a matrix of this name and shape.
pub open spec fn is_matrix_line(lines: Seq<schema::EntryView>, line: ReadView) -> bool {
    exists|j: int|
        0 <= j < lines.len() && (#[trigger] lines[j]).name == line.name && lines[j].kind
            == (schema::EntryKind::Matrix { rows: line.rows, cols: line.cols })
}

/// Some line of the schema is a vector of this name and length.
pub open spec fn is_vector_line(lines: Seq<schema::EntryView>, line: ReadView) -> bool {
    exists|j: int|
        0 <= j < lines.len() && (#[trigger] lines[j]).name == line.name
            && lines[j].kind is Vector && lines[j].kind->Vector_length == line.cols
}

proof fn lemma_joined(prefix: Seq<char>, left: Seq<char>, right: Seq<char>, whole: Seq<char>)
    requires
        left + right == whole,
    ensures
        prefix + left + right == prefix + whole,
{
    assert(prefix + left + right =~= prefix + whole);
}

proof fn lemma_names(prefix: Seq<char>)
    ensures
        prefix + ".hc_attn"@ + "_fn"@ == prefix + ".hc_attn_fn"@,
        prefix + ".hc_attn"@ + "_base"@ == prefix + ".hc_attn_base"@,
        prefix + ".hc_attn"@ + "_scale"@ == prefix + ".hc_attn_scale"@,
        prefix + ".hc_ffn"@ + "_fn"@ == prefix + ".hc_ffn_fn"@,
        prefix + ".hc_ffn"@ + "_base"@ == prefix + ".hc_ffn_base"@,
        prefix + ".hc_ffn"@ + "_scale"@ == prefix + ".hc_ffn_scale"@,
{
    reveal_strlit("_fn");
    reveal_strlit("_base");
    reveal_strlit("_scale");
    reveal_strlit(".hc_attn");
    reveal_strlit(".hc_ffn");
    reveal_strlit(".hc_attn_fn");
    reveal_strlit(".hc_attn_base");
    reveal_strlit(".hc_attn_scale");
    reveal_strlit(".hc_ffn_fn");
    reveal_strlit(".hc_ffn_base");
    reveal_strlit(".hc_ffn_scale");
    assert(".hc_attn"@ + "_fn"@ =~= ".hc_attn_fn"@);
    assert(".hc_attn"@ + "_base"@ =~= ".hc_attn_base"@);
    assert(".hc_attn"@ + "_scale"@ =~= ".hc_attn_scale"@);
    assert(".hc_ffn"@ + "_fn"@ =~= ".hc_ffn_fn"@);
    assert(".hc_ffn"@ + "_base"@ =~= ".hc_ffn_base"@);
    assert(".hc_ffn"@ + "_scale"@ =~= ".hc_ffn_scale"@);
    lemma_joined(prefix, ".hc_attn"@, "_fn"@, ".hc_attn_fn"@);
    lemma_joined(prefix, ".hc_attn"@, "_base"@, ".hc_attn_base"@);
    lemma_joined(prefix, ".hc_attn"@, "_scale"@, ".hc_attn_scale"@);
    lemma_joined(prefix, ".hc_ffn"@, "_fn"@, ".hc_ffn_fn"@);
    lemma_joined(prefix, ".hc_ffn"@, "_base"@, ".hc_ffn_base"@);
    lemma_joined(prefix, ".hc_ffn"@, "_scale"@, ".hc_ffn_scale"@);
}

proof fn lemma_norm_names(attention: Seq<char>)
    ensures
        attention + ".compressor"@ + ".norm.weight"@ == attention + ".compressor.norm.weight"@,
        attention + ".indexer"@ + ".compressor"@ + ".norm.weight"@ == attention
            + ".indexer.compressor.norm.weight"@,
{
    reveal_strlit(".compressor");
    reveal_strlit(".norm.weight");
    reveal_strlit(".compressor.norm.weight");
    reveal_strlit(".indexer");
    reveal_strlit(".indexer.compressor.norm.weight");
    assert(".compressor"@ + ".norm.weight"@ =~= ".compressor.norm.weight"@);
    lemma_joined(attention, ".compressor"@, ".norm.weight"@, ".compressor.norm.weight"@);
    assert(".indexer"@ + ".compressor.norm.weight"@ =~= ".indexer.compressor.norm.weight"@);
    lemma_joined(
        attention + ".indexer"@,
        ".compressor"@,
        ".norm.weight"@,
        ".compressor.norm.weight"@,
    );
    lemma_joined(
        attention,
        ".indexer"@,
        ".compressor.norm.weight"@,
        ".indexer.compressor.norm.weight"@,
    );
}

/// The lines of the schema for a base layer.
pub open spec fn layer_lines(config: DeepseekV4Config, layer: usize) -> Seq<schema::EntryView> {
    schema::block_lines(
        config,
        layer_prefix(layer),
        ratio_of(config, layer),
        layer < config.num_hash_layers,
        Some(layer),
    )
}

/// Every vector that stays resident is a vector of the schema, of the length that the schema
/// demands.
pub proof fn pinned_vectors_are_schema_lines(config: DeepseekV4Config, layer: usize, i: int)
    requires
        0 <= i < vector_reads(config, layer).len(),
    ensures
        is_vector_line(layer_lines(config, layer), vector_reads(config, layer)[i]),
{
    let prefix = layer_prefix(layer);
    let attention = prefix + ".attn"@;
    let ratio = ratio_of(config, layer);
    let residency = schema::block_residency(Some(layer));
    let all = layer_lines(config, layer);
    let list = vector_reads(config, layer);
    let front = schema::front_lines(config, prefix, residency);
    let sparse = schema::sparse_lines(config, attention, ratio, residency);
    let router = schema::router_lines(
        config,
        prefix + ".ffn"@,
        layer < config.num_hash_layers,
        residency,
    );
    lemma_names(prefix);
    lemma_norm_names(attention);
    assert(front.len() == 16);
    assert forall|j: int| 0 <= j < 16 implies all[j] == front[j] by {}
    assert forall|j: int| 0 <= j < sparse.len() implies all[16 + j] == sparse[j] by {}
    assert(all[17 + sparse.len() as int] == router[1]);
    let bias = 9 + (if ratio > 0 {
        1int
    } else {
        0
    }) + (if ratio == 4 {
        1int
    } else {
        0
    });
    if i < 9 {
        let j: int = if i == 0 {
            1
        } else if i == 1 {
            2
        } else if i == 2 {
            4
        } else if i == 3 {
            5
        } else if i == 4 {
            6
        } else if i == 5 {
            7
        } else if i == 6 {
            8
        } else if i == 7 {
            10
        } else {
            13
        };
        assert(all[j] == front[j]);
        assert(all[j].name == list[i].name);
    } else if i == bias {
        assert(all[17 + sparse.len() as int].name == list[i].name);
    } else if i == 9 {
        assert(ratio > 0);
        assert(all[19] == sparse[3]);
        assert(all[19].name == list[i].name);
    } else {
        assert(ratio == 4 && i == 10);
        assert(all[25] == sparse[9]);
        assert(all[25].name == list[i].name);
    }
}

/// Every matrix that a layer reads is a matrix of the schema, of the shape that the schema demands.
pub proof fn layer_matrices_are_schema_lines(config: DeepseekV4Config, layer: usize, i: int)
    requires
        config.schema_fits(),
        0 <= i < matrix_reads(config, layer).len(),
    ensures
        is_matrix_line(layer_lines(config, layer), matrix_reads(config, layer)[i]),
{
    let prefix = layer_prefix(layer);
    let attention = prefix + ".attn"@;
    let ffn = prefix + ".ffn"@;
    let ratio = ratio_of(config, layer);
    let residency = schema::block_residency(Some(layer));
    let all = layer_lines(config, layer);
    let list = matrix_reads(config, layer);
    let front = schema::front_lines(config, prefix, residency);
    let sparse = schema::sparse_lines(config, attention, ratio, residency);
    let router = schema::router_lines(config, ffn, layer < config.num_hash_layers, residency);
    lemma_names(prefix);
    assert(front.len() == 16);
    assert forall|j: int| 0 <= j < 16 implies all[j] == front[j] by {}
    assert forall|j: int| 0 <= j < sparse.len() implies all[16 + j] == sparse[j] by {}
    assert forall|j: int| 0 <= j < 5 implies all[16 + sparse.len() as int + j] == router[j] by {}
    let compressed: int = if ratio > 0 {
        3
    } else {
        0
    };
    let indexed: int = if ratio == 4 {
        5
    } else {
        0
    };
    if i < 2 {
        assert(all[3 * i].name == list[i].name);
    } else if i < 2 + compressed {
        assert(all[16 + (i - 2)] == sparse[i - 2]);
        assert(all[16 + (i - 2)].name == list[i].name);
    } else if i < 2 + compressed + indexed {
        let k = i - 2 - compressed;
        assert(all[20 + k] == sparse[4 + k]);
        assert(all[20 + k].name == list[i].name);
    } else if i < 7 + compressed + indexed {
        let k = i - 2 - compressed - indexed;
        let reads = attention_reads(config, attention);
        assert(list[i] == reads[k]);
        let j: int = if k == 0 {
            9
        } else if k == 1 {
            11
        } else if k == 2 {
            12
        } else if k == 3 {
            14
        } else {
            15
        };
        assert(all[j] == front[j]);
        assert(all[j].name == list[i].name);
    } else {
        let k = i - 7 - compressed - indexed;
        let j: int = if k == 0 {
            0
        } else if k == 1 {
            2
        } else if k == 2 {
            4
        } else {
            3
        };
        assert(all[16 + sparse.len() as int + j] == router[j]);
        assert(all[16 + sparse.len() as int + j].name == list[i].name);
    }
}

/// The resident vectors of a layer, by use.
#[derive(Debug)]
pub struct DecoderLayerVectors {
    pub attn_hc_base: Vec<u32>,
    pub attn_hc_scale: Vec<u32>,
    pub ffn_hc_base: Vec<u32>,
    pub ffn_hc_scale: Vec<u32>,
    pub attn_norm: Vec<u32>,
    pub ffn_norm: Vec<u32>,
    pub sink: Vec<u32>,
    pub q_norm: Vec<u32>,
    pub kv_norm: Vec<u32>,
    pub compressor_norm: Option<Vec<u32>>,
    pub indexer_compressor_norm: Option<Vec<u32>>,
    pub correction_bias: Option<Vec<u32>>,
}

/// How many vectors a layer keeps resident.
pub open spec fn vector_count(config: DeepseekV4Config, layer: usize) -> int {
    vector_reads(config, layer).len() as int
}

pub open spec fn optional_value(wanted: bool, values: Seq<Vec<u32>>, at: int) -> Option<Vec<u32>> {
    if wanted {
        Some(values[at])
    } else {
        None
    }
}

fn take_optional(values: &mut Vec<Vec<u32>>, wanted: bool) -> (value: Option<Vec<u32>>)
    requires
        wanted ==> old(values)@.len() > 0,
    ensures
        value == (if wanted {
            Some(old(values)@.last())
        } else {
            None
        }),
        final(values)@ == (if wanted {
            old(values)@.drop_last()
        } else {
            old(values)@
        }),
{
    if wanted {
        values.pop()
    } else {
        None
    }
}

fn take_last(values: &mut Vec<Vec<u32>>) -> (value: Vec<u32>)
    requires
        old(values)@.len() > 0,
    ensures
        value == old(values)@.last(),
        final(values)@ == old(values)@.drop_last(),
{
    match values.pop() {
        Some(value) => value,
        None => Vec::new(),
    }
}

/// Gives every payload its use. The payloads stand in the order of the list they were read by.
pub fn assign_vectors(config: &DeepseekV4Config, layer: usize, values: Vec<Vec<u32>>) -> (vectors:
    DecoderLayerVectors)
    requires
        layer < config.num_hidden_layers ==> layer < config.compress_ratios@.len(),
        config.schema_fits(),
        values@.len() == vector_count(*config, layer),
    ensures
        ({
            let ratio = ratio_of(*config, layer);
            let indexed = if ratio > 0 {
                10int
            } else {
                9
            };
            let biased = if ratio == 4 {
                indexed + 1
            } else {
                indexed
            };
            &&& vectors.attn_hc_base == values@[0]
            &&& vectors.attn_hc_scale == values@[1]
            &&& vectors.ffn_hc_base == values@[2]
            &&& vectors.ffn_hc_scale == values@[3]
            &&& vectors.attn_norm == values@[4]
            &&& vectors.ffn_norm == values@[5]
            &&& vectors.sink == values@[6]
            &&& vectors.q_norm == values@[7]
            &&& vectors.kv_norm == values@[8]
            &&& vectors.compressor_norm == optional_value(ratio > 0, values@, 9)
            &&& vectors.indexer_compressor_norm == optional_value(ratio == 4, values@, indexed)
            &&& vectors.correction_bias == optional_value(
                layer >= config.num_hash_layers,
                values@,
                biased,
            )
        }),
{
    let mut values = values;
    let ratio = layer_ratio(config, layer);
    let correction_bias = take_optional(&mut values, layer >= config.num_hash_layers);
    let indexer_compressor_norm = take_optional(&mut values, ratio == 4);
    let compressor_norm = take_optional(&mut values, ratio > 0);
    let kv_norm = take_last(&mut values);
    let q_norm = take_last(&mut values);
    let sink = take_last(&mut values);
    let ffn_norm = take_last(&mut values);
    let attn_norm = take_last(&mut values);
    let ffn_hc_scale = take_last(&mut values);
    let ffn_hc_base = take_last(&mut values);
    let attn_hc_scale = take_last(&mut values);
    let attn_hc_base = take_last(&mut values);
    DecoderLayerVectors {
        attn_hc_base,
        attn_hc_scale,
        ffn_hc_base,
        ffn_hc_scale,
        attn_norm,
        ffn_norm,
        sink,
        q_norm,
        kv_norm,
        compressor_norm,
        indexer_compressor_norm,
        correction_bias,
    }
}

/// One number more in a sum.
pub open spec fn added(sum: u64, more: u64, reason: Seq<char>) -> Result<
    u64,
    runtime::RuntimeProblem,
> {
    if sum + more > u64::MAX {
        Err(runtime::RuntimeProblem::Invalid(reason))
    } else {
        Ok((sum + more) as u64)
    }
}

fn sum_bytes(sum: u64, more: u64, reason: &str) -> (result: Result<u64, DeepseekRuntimeError>)
    ensures
        match result {
            Ok(total) => added(sum, more, reason@) == Ok::<u64, runtime::RuntimeProblem>(total),
            Err(error) => added(sum, more, reason@) == Err::<u64, runtime::RuntimeProblem>(error@),
        },
{
    match sum.checked_add(more) {
        Some(total) => Ok(total),
        None => invalid(reason),
    }
}

/// The bytes that matrices take once they are resident.
pub open spec fn resident_bytes(index: storage::IndexView, list: Seq<ReadView>) -> Result<
    u64,
    runtime::RuntimeProblem,
>
    decreases list.len(),
{
    if list.len() == 0 {
        Ok(0)
    } else {
        let line = list.last();
        match resident_bytes(index, list.drop_last()) {
            Err(error) => Err(error),
            Ok(sum) => match index.inspect(line.name, line.rows, line.cols) {
                Err(error) => Err(runtime::RuntimeProblem::Storage(error)),
                Ok(layout) => added(sum, layout.resident_bytes, "expert byte count overflows"@),
            },
        }
    }
}

/// The payload of a sidecar, where there is one.
pub open spec fn sidecar_bytes(index: storage::IndexView, name: Seq<char>) -> u64 {
    if index.tensors.contains_key(name) {
        index.tensors[name].data_len
    } else {
        0
    }
}

/// The bytes that a weight takes in the checkpoint, with its scales.
pub open spec fn stored_bytes(index: storage::IndexView, name: Seq<char>) -> Result<
    u64,
    runtime::RuntimeProblem,
> {
    match index.require(name) {
        Err(error) => Err(runtime::RuntimeProblem::Storage(error)),
        Ok(tensor) => match added(
            tensor.data_len,
            sidecar_bytes(index, name + ".qs"@),
            "weight payload bytes overflow"@,
        ) {
            Err(error) => Err(error),
            Ok(sum) => if text::ends_in(name, ".weight"@) {
                added(
                    sum,
                    sidecar_bytes(
                        index,
                        name.take(name.len() - ".weight"@.len()) + ".scale"@,
                    ),
                    "weight payload bytes overflow"@,
                )
            } else {
                Ok(sum)
            },
        },
    }
}

fn add_sidecar(index: &TensorIndex, sum: u64, name: &str) -> (result: Result<
    u64,
    DeepseekRuntimeError,
>)
    ensures
        match result {
            Ok(total) => added(
                sum,
                sidecar_bytes(index@, name@),
                "weight payload bytes overflow"@,
            ) == Ok::<u64, runtime::RuntimeProblem>(total),
            Err(error) => added(
                sum,
                sidecar_bytes(index@, name@),
                "weight payload bytes overflow"@,
            ) == Err::<u64, runtime::RuntimeProblem>(error@),
        },
{
    match index.get(name) {
        Some(tensor) => sum_bytes(sum, tensor.data_len, "weight payload bytes overflow"),
        None => Ok(sum),
    }
}

/// The bytes that a weight takes in the checkpoint, with its scales.
pub fn weight_storage_bytes(index: &TensorIndex, name: &str) -> (result: Result<
    u64,
    DeepseekRuntimeError,
>)
    ensures
        match result {
            Ok(bytes) => stored_bytes(index@, name@) == Ok::<u64, runtime::RuntimeProblem>(bytes),
            Err(error) => stored_bytes(index@, name@) == Err::<u64, runtime::RuntimeProblem>(
                error@,
            ),
        },
{
    let first: u64 = match index.require(name) {
        Ok(tensor) => tensor.data_len,
        Err(error) => {
            return Err(DeepseekRuntimeError::Storage(error));
        },
    };
    let row_scales = join(name, ".qs");
    let sum = add_sidecar(index, first, row_scales.as_str())?;
    match strip_suffix(name, ".weight") {
        Some(prefix) => {
            let scales = join(prefix, ".scale");
            add_sidecar(index, sum, scales.as_str())
        },
        None => Ok(sum),
    }
}

/// The bytes that weights take in the checkpoint.
pub open spec fn payload_bytes(index: storage::IndexView, list: Seq<ReadView>) -> Result<
    u64,
    runtime::RuntimeProblem,
>
    decreases list.len(),
{
    if list.len() == 0 {
        Ok(0)
    } else {
        match payload_bytes(index, list.drop_last()) {
            Err(error) => Err(error),
            Ok(sum) => match stored_bytes(index, list.last().name) {
                Err(error) => Err(error),
                Ok(bytes) => added(sum, bytes, "expert payload byte count overflows"@),
            },
        }
    }
}

proof fn lemma_resident_error(index: storage::IndexView, list: Seq<ReadView>, count: int)
    requires
        0 <= count <= list.len(),
        resident_bytes(index, list.take(count)) is Err,
    ensures
        resident_bytes(index, list) == resident_bytes(index, list.take(count)),
    decreases list.len(),
{
    if count < list.len() {
        assert(list.drop_last().take(count) =~= list.take(count));
        lemma_resident_error(index, list.drop_last(), count);
    } else {
        assert(list.take(count) =~= list);
    }
}

proof fn lemma_payload_error(index: storage::IndexView, list: Seq<ReadView>, count: int)
    requires
        0 <= count <= list.len(),
        payload_bytes(index, list.take(count)) is Err,
    ensures
        payload_bytes(index, list) == payload_bytes(index, list.take(count)),
    decreases list.len(),
{
    if count < list.len() {
        assert(list.drop_last().take(count) =~= list.take(count));
        lemma_payload_error(index, list.drop_last(), count);
    } else {
        assert(list.take(count) =~= list);
    }
}

fn sum_resident(index: &TensorIndex, list: &Vec<MatrixRead>) -> (result: Result<
    u64,
    DeepseekRuntimeError,
>)
    ensures
        match result {
            Ok(bytes) => resident_bytes(index@, reads(list@)) == Ok::<
                u64,
                runtime::RuntimeProblem,
            >(bytes),
            Err(error) => resident_bytes(index@, reads(list@)) == Err::<
                u64,
                runtime::RuntimeProblem,
            >(error@),
        },
{
    let ghost all = reads(list@);
    let mut sum: u64 = 0;
    let mut at: usize = 0;
    while at < list.len()
        invariant
            all == reads(list@),
            at <= list@.len(),
            resident_bytes(index@, all.take(at as int)) == Ok::<u64, runtime::RuntimeProblem>(sum),
        decreases list@.len() - at,
    {
        let line = &list[at];
        proof {
            let longer = all.take(at + 1);
            assert(longer.drop_last() =~= all.take(at as int));
            assert(longer.last() == line@);
            if resident_bytes(index@, longer) is Err {
                lemma_resident_error(index@, all, at + 1);
            }
        }
        let layout = match inspect_weight_matrix(index, line.name.as_str(), line.rows, line.cols) {
            Ok(layout) => layout,
            Err(error) => {
                return Err(DeepseekRuntimeError::Storage(error));
            },
        };
        sum = sum_bytes(sum, layout.resident_bytes, "expert byte count overflows")?;
        at = at + 1;
    }
    assert(all.take(all.len() as int) =~= all);
    Ok(sum)
}

fn sum_payload(index: &TensorIndex, list: &Vec<MatrixRead>) -> (result: Result<
    u64,
    DeepseekRuntimeError,
>)
    ensures
        match result {
            Ok(bytes) => payload_bytes(index@, reads(list@)) == Ok::<
                u64,
                runtime::RuntimeProblem,
            >(bytes),
            Err(error) => payload_bytes(index@, reads(list@)) == Err::<
                u64,
                runtime::RuntimeProblem,
            >(error@),
        },
{
    let ghost all = reads(list@);
    let mut sum: u64 = 0;
    let mut at: usize = 0;
    while at < list.len()
        invariant
            all == reads(list@),
            at <= list@.len(),
            payload_bytes(index@, all.take(at as int)) == Ok::<u64, runtime::RuntimeProblem>(sum),
        decreases list@.len() - at,
    {
        let line = &list[at];
        proof {
            let longer = all.take(at + 1);
            assert(longer.drop_last() =~= all.take(at as int));
            assert(longer.last() == line@);
            if payload_bytes(index@, longer) is Err {
                lemma_payload_error(index@, all, at + 1);
            }
        }
        let bytes = weight_storage_bytes(index, line.name.as_str())?;
        sum = sum_bytes(sum, bytes, "expert payload byte count overflows")?;
        at = at + 1;
    }
    assert(all.take(all.len() as int) =~= all);
    Ok(sum)
}

pub open spec fn expert_budget(bytes: u64, maximum: u64) -> runtime::RuntimeProblem {
    runtime::RuntimeProblem::Budget { component: "routed expert"@, required: bytes, maximum }
}

/// The sizes of an expert, resident and read, unless it exceeds its limit.
pub open spec fn expert_sizes(
    index: storage::IndexView,
    config: DeepseekV4Config,
    prefix: Seq<char>,
    maximum: u64,
) -> Result<(u64, u64), runtime::RuntimeProblem> {
    let list = expert_reads(config, prefix);
    match resident_bytes(index, list) {
        Err(error) => Err(error),
        Ok(bytes) => match payload_bytes(index, list) {
            Err(error) => Err(error),
            Ok(payload) => if bytes > maximum {
                Err(expert_budget(bytes, maximum))
            } else {
                Ok((bytes, payload))
            },
        },
    }
}

/// The same for an expert that is read into buffers of another one. Its limit comes before its
/// payload.
pub open spec fn reused_sizes(
    index: storage::IndexView,
    config: DeepseekV4Config,
    prefix: Seq<char>,
    maximum: u64,
) -> Result<(u64, u64), runtime::RuntimeProblem> {
    let list = expert_reads(config, prefix);
    match resident_bytes(index, list) {
        Err(error) => Err(error),
        Ok(bytes) => if bytes > maximum {
            Err(expert_budget(bytes, maximum))
        } else {
            match payload_bytes(index, list) {
                Err(error) => Err(error),
                Ok(payload) => Ok((bytes, payload)),
            }
        },
    }
}

/// The format whose buffers experts hand on to each other.
pub open spec fn native_expert(index: storage::IndexView, line: ReadView) -> bool {
    match index.inspect(line.name, line.rows, line.cols) {
        Ok(layout) => layout.format == (WeightFormat::MxFp4E2M1 { group_size: 32 }),
        Err(_) => false,
    }
}

/// An expert is read into the buffers of another one where there are as many as it has matrices and
/// all of them have the native format.
pub open spec fn reuses_buffers(
    index: storage::IndexView,
    config: DeepseekV4Config,
    prefix: Seq<char>,
    buffers: Option<usize>,
) -> bool {
    let list = expert_reads(config, prefix);
    &&& buffers == Some(3usize)
    &&& native_expert(index, list[0])
    &&& native_expert(index, list[1])
    &&& native_expert(index, list[2])
}

/// What an expert is read with.
#[derive(Debug, Clone, Copy, PartialEq, Eq, Structural)]
pub struct ExpertLoad {
    pub bytes: u64,
    pub read_bytes: u64,
    /// Its matrices are read into the buffers of another expert.
    pub reused: bool,
}

/// Plans the read of an expert. `buffers` says how many pairs of buffers another expert left.
pub fn plan_expert(
    index: &TensorIndex,
    prefix: &str,
    config: &DeepseekV4Config,
    maximum_bytes: u64,
    buffers: Option<usize>,
) -> (result: Result<ExpertLoad, DeepseekRuntimeError>)
    ensures
        ({
            let reused = reuses_buffers(index@, *config, prefix@, buffers);
            let sizes = if reused {
                reused_sizes(index@, *config, prefix@, maximum_bytes)
            } else {
                expert_sizes(index@, *config, prefix@, maximum_bytes)
            };
            match result {
                Ok(load) => load.reused == reused && sizes == Ok::<
                    (u64, u64),
                    runtime::RuntimeProblem,
                >((load.bytes, load.read_bytes)),
                Err(error) => sizes == Err::<(u64, u64), runtime::RuntimeProblem>(error@),
            }
        }),
{
    let mut list: Vec<MatrixRead> = Vec::new();
    list_expert(&mut list, config, prefix);
    let ghost views = expert_reads(*config, prefix@);
    proof {
        assert(reads(list@) =~= views);
        assert(views[0] == list@[0]@ && views[1] == list@[1]@ && views[2] == list@[2]@);
    }
    let reused = match buffers {
        Some(count) => count == 3 && is_native(index, &list[0]) && is_native(index, &list[1])
            && is_native(index, &list[2]),
        None => false,
    };
    let bytes = sum_resident(index, &list)?;
    if reused && bytes > maximum_bytes {
        return Err(
            DeepseekRuntimeError::Budget {
                component: "routed expert",
                required: bytes,
                maximum: maximum_bytes,
            },
        );
    }
    let read_bytes = sum_payload(index, &list)?;
    if bytes > maximum_bytes {
        return Err(
            DeepseekRuntimeError::Budget {
                component: "routed expert",
                required: bytes,
                maximum: maximum_bytes,
            },
        );
    }
    Ok(ExpertLoad { bytes, read_bytes, reused })
}

fn is_native(index: &TensorIndex, line: &MatrixRead) -> (native: bool)
    ensures
        native == native_expert(index@, line@),
{
    match inspect_weight_matrix(index, line.name.as_str(), line.rows, line.cols) {
        Ok(layout) => match layout.format {
            WeightFormat::MxFp4E2M1 { group_size } => group_size == 32,
            _ => false,
        },
        Err(_) => false,
    }
}

/// Whether the buffers are reused decides how an expert is read, not whether: its sizes are the
/// same either way wherever it fits its limit.
pub proof fn reuse_keeps_the_sizes(
    index: storage::IndexView,
    config: DeepseekV4Config,
    prefix: Seq<char>,
    maximum: u64,
)
    ensures
        expert_sizes(index, config, prefix, maximum) is Ok <==> reused_sizes(
            index,
            config,
            prefix,
            maximum,
        ) is Ok,
        expert_sizes(index, config, prefix, maximum) is Ok ==> expert_sizes(
            index,
            config,
            prefix,
            maximum,
        ) == reused_sizes(index, config, prefix, maximum),
{
}

/// The lengths of buffer pairs that can be read into again.
#[derive(Debug)]
pub struct DecoderLayerBuffers {
    pub lengths: Vec<(usize, usize)>,
}

/// The first pair of buffers with these lengths.
pub open spec fn first_match(buffers: Seq<(usize, usize)>, values: usize, scales: usize) -> Option<
    int,
>
    decreases buffers.len(),
{
    if buffers.len() == 0 {
        None
    } else if first_match(buffers.drop_last(), values, scales) is Some {
        first_match(buffers.drop_last(), values, scales)
    } else if buffers.last() == (values, scales) {
        Some(buffers.len() - 1)
    } else {
        None
    }
}

/// What is left of a list once one entry is taken: the last one stands in its place.
pub open spec fn swapped_out(buffers: Seq<(usize, usize)>, at: int) -> Seq<(usize, usize)> {
    buffers.update(at, buffers.last()).drop_last()
}

proof fn lemma_first_match(
    buffers: Seq<(usize, usize)>,
    values: usize,
    scales: usize,
    count: int,
)
    requires
        0 <= count <= buffers.len(),
    ensures
        first_match(buffers.take(count), values, scales) is Some ==> first_match(
            buffers,
            values,
            scales,
        ) == first_match(buffers.take(count), values, scales),
    decreases buffers.len(),
{
    if count < buffers.len() {
        assert(buffers.drop_last().take(count) =~= buffers.take(count));
        lemma_first_match(buffers.drop_last(), values, scales, count);
    } else {
        assert(buffers.take(count) =~= buffers);
    }
}

fn find_match(buffers: &Vec<(usize, usize)>, values: usize, scales: usize) -> (found: Option<usize>)
    ensures
        match found {
            Some(at) => first_match(buffers@, values, scales) == Some(at as int) && at
                < buffers@.len() && buffers@[at as int] == (values, scales),
            None => first_match(buffers@, values, scales) is None,
        },
{
    let mut at: usize = 0;
    while at < buffers.len()
        invariant
            at <= buffers@.len(),
            first_match(buffers@.take(at as int), values, scales) is None,
        decreases buffers@.len() - at,
    {
        let (left, right) = buffers[at];
        proof {
            assert(buffers@.take(at + 1).drop_last() =~= buffers@.take(at as int));
            lemma_first_match(buffers@, values, scales, at + 1);
        }
        if left == values && right == scales {
            return Some(at);
        }
        at = at + 1;
    }
    assert(buffers@.take(buffers@.len() as int) =~= buffers@);
    None
}

impl Default for DecoderLayerBuffers {
    fn default() -> (buffers: Self)
        ensures
            buffers.lengths@ == Seq::<(usize, usize)>::empty(),
    {
        DecoderLayerBuffers { lengths: Vec::new() }
    }
}

impl DecoderLayerBuffers {
    /// Adds the buffers of a matrix. Only native formats have buffers to hand on.
    pub fn push_weight(&mut self, format: WeightFormat, values: usize, scales: usize)
        ensures
            final(self).lengths@ == if format.scaled() {
                old(self).lengths@.push((values, scales))
            } else {
                old(self).lengths@
            },
    {
        if format.has_native_scale() {
            self.lengths.push((values, scales));
        }
    }

    /// Takes the first pair with these lengths. The last pair takes its place in the list.
    pub fn take_matching(&mut self, values: usize, scales: usize) -> (found: Option<usize>)
        ensures
            match found {
                Some(at) => {
                    &&& first_match(old(self).lengths@, values, scales) == Some(at as int)
                    &&& final(self).lengths@ == swapped_out(old(self).lengths@, at as int)
                },
                None => {
                    &&& first_match(old(self).lengths@, values, scales) is None
                    &&& final(self).lengths@ == old(self).lengths@
                },
            },
    {
        match find_match(&self.lengths, values, scales) {
            Some(at) => {
                let ghost before = self.lengths@;
                self.lengths.swap_remove(at);
                assert(self.lengths@ =~= swapped_out(before, at as int));
                Some(at)
            },
            None => None,
        }
    }
}

/// How one matrix is read.
#[derive(Debug)]
pub enum MatrixLoad {
    /// Into new buffers, with its values checked.
    Fresh,
    /// Its payload and its scales, byte for byte: into a pair of buffers or into new ones, the one
    /// that lies earlier in the checkpoint first.
    Native {
        layout: WeightLayout,
        scale_name: String,
        buffer: Option<usize>,
        values_len: usize,
        scales_len: usize,
        scales_first: bool,
    },
}

/// The same, over plain values.
pub enum LoadView {
    Fresh,
    Native {
        layout: WeightLayout,
        scale_name: Seq<char>,
        buffer: Option<int>,
        values_len: usize,
        scales_len: usize,
        scales_first: bool,
    },
}

pub open spec fn place(at: Option<usize>) -> Option<int> {
    match at {
        Some(at) => Some(at as int),
        None => None,
    }
}

impl View for MatrixLoad {
    type V = LoadView;

    open spec fn view(&self) -> LoadView {
        match *self {
            MatrixLoad::Fresh => LoadView::Fresh,
            MatrixLoad::Native {
                layout,
                scale_name,
                buffer,
                values_len,
                scales_len,
                scales_first,
            } => LoadView::Native {
                layout,
                scale_name: scale_name@,
                buffer: place(buffer),
                values_len,
                scales_len,
                scales_first,
            },
        }
    }
}

/// One tensor lies before another in the checkpoint.
pub open spec fn lies_before(left: storage::TensorInfo, right: storage::TensorInfo) -> bool {
    left.shard < right.shard || (left.shard == right.shard && left.data_offset
        < right.data_offset)
}

/// How a matrix is read, given the buffers at hand and whether its values were checked before.
pub open spec fn matrix_plan(
    index: storage::IndexView,
    name: Seq<char>,
    rows: usize,
    cols: usize,
    buffers: Seq<(usize, usize)>,
    prevalidated: bool,
) -> Result<LoadView, runtime::RuntimeProblem> {
    let scale = schema::scale_name(name);
    if buffers.len() == 0 && !prevalidated {
        Ok(LoadView::Fresh)
    } else {
        match index.inspect(name, rows, cols) {
            Err(error) => Err(runtime::RuntimeProblem::Storage(error)),
            Ok(layout) => if !layout.format.scaled() {
                Ok(LoadView::Fresh)
            } else {
                match index.require(name) {
                    Err(error) => Err(runtime::RuntimeProblem::Storage(error)),
                    Ok(values) => if values.data_len > usize::MAX {
                        Err(
                            runtime::RuntimeProblem::Invalid(
                                "weight tensor "@ + config::quoted(name)
                                    + " exceeds addressable memory"@,
                            ),
                        )
                    } else {
                        match index.require(scale) {
                            Err(error) => Err(runtime::RuntimeProblem::Storage(error)),
                            Ok(scales) => if scales.data_len > usize::MAX {
                                Err(
                                    runtime::RuntimeProblem::Invalid(
                                        "weight scale tensor "@ + config::quoted(scale)
                                            + " exceeds addressable memory"@,
                                    ),
                                )
                            } else {
                                let found = first_match(
                                    buffers,
                                    values.data_len as usize,
                                    scales.data_len as usize,
                                );
                                if found is None && !prevalidated {
                                    Ok(LoadView::Fresh)
                                } else {
                                    Ok(
                                        LoadView::Native {
                                            layout,
                                            scale_name: scale,
                                            buffer: found,
                                            values_len: values.data_len as usize,
                                            scales_len: scales.data_len as usize,
                                            scales_first: lies_before(scales, values),
                                        },
                                    )
                                }
                            },
                        }
                    },
                }
            },
        }
    }
}

/// The buffers that are left once a matrix is planned.
pub open spec fn buffers_left(
    plan: Result<LoadView, runtime::RuntimeProblem>,
    buffers: Seq<(usize, usize)>,
) -> Seq<(usize, usize)> {
    match plan {
        Ok(LoadView::Native { buffer: Some(at), .. }) => swapped_out(buffers, at),
        _ => buffers,
    }
}

fn too_long(front: &str, name: &str) -> (reason: String)
    ensures
        reason@ == front@ + config::quoted(name@) + " exceeds addressable memory"@,
{
    let mut reason = join(front, quote(name).as_str());
    reason.append(" exceeds addressable memory");
    reason
}

/// Plans the read of one matrix.
pub fn plan_matrix(
    index: &TensorIndex,
    name: &str,
    rows: usize,
    cols: usize,
    reuse: &mut DecoderLayerBuffers,
    prevalidated: bool,
) -> (result: Result<MatrixLoad, DeepseekRuntimeError>)
    ensures
        ({
            let plan = matrix_plan(
                index@,
                name@,
                rows,
                cols,
                old(reuse).lengths@,
                prevalidated,
            );
            &&& final(reuse).lengths@ == buffers_left(plan, old(reuse).lengths@)
            &&& match result {
                Ok(load) => plan == Ok::<LoadView, runtime::RuntimeProblem>(load@),
                Err(error) => plan == Err::<LoadView, runtime::RuntimeProblem>(error@),
            }
        }),
{
    if reuse.lengths.len() == 0 && !prevalidated {
        return Ok(MatrixLoad::Fresh);
    }
    let layout = match inspect_weight_matrix(index, name, rows, cols) {
        Ok(layout) => layout,
        Err(error) => {
            return Err(DeepseekRuntimeError::Storage(error));
        },
    };
    if !layout.format.has_native_scale() {
        return Ok(MatrixLoad::Fresh);
    }
    let scale_name = native_scale_name(name);
    let values = match index.require(name) {
        Ok(tensor) => tensor,
        Err(error) => {
            return Err(DeepseekRuntimeError::Storage(error));
        },
    };
    if values.data_len > usize::MAX as u64 {
        return Err(DeepseekRuntimeError::Invalid(too_long("weight tensor ", name)));
    }
    let scales = match index.require(scale_name.as_str()) {
        Ok(tensor) => tensor,
        Err(error) => {
            return Err(DeepseekRuntimeError::Storage(error));
        },
    };
    if scales.data_len > usize::MAX as u64 {
        return Err(
            DeepseekRuntimeError::Invalid(too_long("weight scale tensor ", scale_name.as_str())),
        );
    }
    let values_len: usize = values.data_len as usize;
    let scales_len: usize = scales.data_len as usize;
    let scales_first = scales.shard < values.shard || (scales.shard == values.shard
        && scales.data_offset < values.data_offset);
    let buffer = reuse.take_matching(values_len, scales_len);
    if buffer.is_none() && !prevalidated {
        return Ok(MatrixLoad::Fresh);
    }
    Ok(
        MatrixLoad::Native {
            layout,
            scale_name,
            buffer,
            values_len,
            scales_len,
            scales_first,
        },
    )
}

/// Native expert tensors in the order in which their payloads are handed on: each matrix with its
/// scales behind it.
pub open spec fn native_names(list: Seq<ReadView>) -> Seq<Seq<char>>
    decreases list.len(),
{
    if list.len() == 0 {
        Seq::empty()
    } else {
        let name = list.last().name;
        native_names(list.drop_last()).push(name).push(schema::scale_name(name))
    }
}

/// Why a matrix of an expert cannot be read into the buffers of another one.
pub open spec fn reuse_problem(index: storage::IndexView, line: ReadView) -> Option<
    runtime::RuntimeProblem,
> {
    match index.inspect(line.name, line.rows, line.cols) {
        Err(error) => Some(runtime::RuntimeProblem::Storage(error)),
        Ok(layout) => if layout.format != (WeightFormat::MxFp4E2M1 { group_size: 32 }) {
            Some(
                runtime::RuntimeProblem::Invalid(
                    "reusable expert tensor "@ + config::quoted(line.name)
                        + " is not native group-32 MXFP4"@,
                ),
            )
        } else {
            runtime::invalid_if(
                !text::ends_in(line.name, ".weight"@),
                "reusable MXFP4 tensor "@ + config::quoted(line.name)
                    + " has no .weight suffix"@,
            )
        },
    }
}

/// The first matrix of a list that cannot.
pub open spec fn reuse_problems(index: storage::IndexView, list: Seq<ReadView>) -> Option<
    runtime::RuntimeProblem,
>
    decreases list.len(),
{
    if list.len() == 0 {
        None
    } else if reuse_problems(index, list.drop_last()) is Some {
        reuse_problems(index, list.drop_last())
    } else {
        reuse_problem(index, list.last())
    }
}

proof fn lemma_reuse_problems(index: storage::IndexView, list: Seq<ReadView>, count: int)
    requires
        0 <= count <= list.len(),
        reuse_problems(index, list.take(count)) is Some,
    ensures
        reuse_problems(index, list) == reuse_problems(index, list.take(count)),
    decreases list.len(),
{
    if count < list.len() {
        assert(list.drop_last().take(count) =~= list.take(count));
        lemma_reuse_problems(index, list.drop_last(), count);
    } else {
        assert(list.take(count) =~= list);
    }
}

/// Lists the tensors of native experts, payload and scales in turn.
pub fn list_native_names(index: &TensorIndex, list: &Vec<MatrixRead>) -> (result: Result<
    Vec<String>,
    DeepseekRuntimeError,
>)
    ensures
        runtime::problem(result) == reuse_problems(index@, reads(list@)),
        result is Ok ==> storage::texts(result->Ok_0@) == native_names(reads(list@)),
{
    let ghost all = reads(list@);
    let mut names: Vec<String> = Vec::new();
    let mut at: usize = 0;
    assert(storage::texts(names@) =~= native_names(all.take(0)));
    while at < list.len()
        invariant
            all == reads(list@),
            at <= list@.len(),
            reuse_problems(index@, all.take(at as int)) is None,
            storage::texts(names@) == native_names(all.take(at as int)),
        decreases list@.len() - at,
    {
        let line = &list[at];
        let name = line.name.as_str();
        proof {
            let longer = all.take(at + 1);
            assert(longer.drop_last() =~= all.take(at as int));
            assert(longer.last() == line@);
            if reuse_problems(index@, longer) is Some {
                lemma_reuse_problems(index@, all, at + 1);
            }
        }
        match inspect_weight_matrix(index, name, line.rows, line.cols) {
            Ok(layout) => {
                let native = match layout.format {
                    WeightFormat::MxFp4E2M1 { group_size } => group_size == 32,
                    _ => false,
                };
                if !native {
                    let mut reason = join("reusable expert tensor ", quote(name).as_str());
                    reason.append(" is not native group-32 MXFP4");
                    return Err(DeepseekRuntimeError::Invalid(reason));
                }
            },
            Err(error) => {
                return Err(DeepseekRuntimeError::Storage(error));
            },
        }
        let scale = match strip_suffix(name, ".weight") {
            Some(prefix) => join(prefix, ".scale"),
            None => {
                let mut reason = join("reusable MXFP4 tensor ", quote(name).as_str());
                reason.append(" has no .weight suffix");
                return Err(DeepseekRuntimeError::Invalid(reason));
            },
        };
        let ghost before = storage::texts(names@);
        names.push(name.to_owned());
        names.push(scale);
        assert(storage::texts(names@) =~= before.push(name@).push(scale@));
        at = at + 1;
    }
    assert(all.take(all.len() as int) =~= all);
    Ok(names)
}

/// The payload of a weight is its own, that of its row scales and that of its block scales, each where
/// the checkpoint has some.
pub proof fn payloads_hold_their_scales(index: storage::IndexView, stem: Seq<char>)
    requires
        index.tensors.contains_key(stem + ".weight"@),
    ensures
        stored_bytes(index, stem + ".weight"@) matches Ok(bytes) ==> bytes == index.tensors[stem
            + ".weight"@].data_len + (if index.tensors.contains_key(stem + ".weight"@ + ".qs"@) {
            index.tensors[stem + ".weight"@ + ".qs"@].data_len as int
        } else {
            0
        }) + (if index.tensors.contains_key(stem + ".scale"@) {
            index.tensors[stem + ".scale"@].data_len as int
        } else {
            0
        }),
{
    reveal_strlit(".weight");
    let name = stem + ".weight"@;
    assert(text::ends_in(name, ".weight"@)) by {
        assert(name.skip(name.len() - ".weight"@.len()) =~= ".weight"@);
    }
    assert(name.take(name.len() - ".weight"@.len()) =~= stem);
}

/// An expert is planned with what its three matrices take in memory and what is read for them, and only
/// where the former is within the limit.
pub proof fn experts_cost_their_three_matrices(
    index: storage::IndexView,
    config: DeepseekV4Config,
    prefix: Seq<char>,
    maximum: u64,
)
    ensures
        expert_sizes(index, config, prefix, maximum) matches Ok((resident, payload)) ==> {
            let inner = config.moe_intermediate_size;
            let hidden = config.hidden_size;
            let one = prefix + ".w1.weight"@;
            let two = prefix + ".w2.weight"@;
            let three = prefix + ".w3.weight"@;
            &&& resident <= maximum
            &&& index.inspect(one, inner, hidden) is Ok
            &&& index.inspect(two, hidden, inner) is Ok
            &&& index.inspect(three, inner, hidden) is Ok
            &&& resident == index.layouts[one].resident_bytes + index.layouts[two].resident_bytes
                + index.layouts[three].resident_bytes
            &&& stored_bytes(index, one) is Ok && stored_bytes(index, two) is Ok && stored_bytes(
                index,
                three,
            ) is Ok
            &&& payload == stored_bytes(index, one)->Ok_0 + stored_bytes(index, two)->Ok_0
                + stored_bytes(index, three)->Ok_0
        },
{
    let list = expert_reads(config, prefix);
    reveal_with_fuel(resident_bytes, 4);
    reveal_with_fuel(payload_bytes, 4);
    assert(list.drop_last().last() == list[1]);
    assert(list.drop_last().drop_last().last() == list[0]);
    assert(list.drop_last().drop_last().drop_last().len() == 0);
}

/// The first pair of buffers of the right lengths is found.
pub proof fn the_first_fitting_buffers_are_found(
    buffers: Seq<(usize, usize)>,
    values: usize,
    scales: usize,
    i: int,
)
    requires
        0 <= i < buffers.len(),
    ensures
        first_match(buffers, values, scales) is None ==> buffers[i] != (values, scales),
        first_match(buffers, values, scales) matches Some(at) ==> 0 <= at < buffers.len()
            && buffers[at] == (values, scales) && (i < at ==> buffers[i] != (values, scales)),
    decreases buffers.len(),
{
    let front = buffers.drop_last();
    let last = buffers.len() - 1;
    if front.len() > 0 {
        let other = if i < last {
            i
        } else {
            0
        };
        the_first_fitting_buffers_are_found(front, values, scales, other);
        assert(front[other] == buffers[other]);
        if first_match(front, values, scales) is Some {
            let at = first_match(front, values, scales)->0;
            assert(front[at] == buffers[at]);
        }
    } else {
        assert(first_match(front, values, scales) is None);
    }
}

/// A pair of buffers that is taken leaves the others; the last one takes its place.
pub proof fn taken_buffers_leave_the_others(buffers: Seq<(usize, usize)>, at: int, i: int)
    requires
        0 <= at < buffers.len(),
        0 <= i < buffers.len(),
        i != at,
    ensures
        swapped_out(buffers, at).len() == buffers.len() - 1,
        swapped_out(buffers, at)[if i == buffers.len() - 1 {
            at
        } else {
            i
        }] == buffers[i],
{
}

/// A matrix is read byte for byte exactly where its format has scales of its own and it fits a pair of
/// buffers or was checked before; its scales come first exactly where they lie first.
pub proof fn native_matrices_are_read_as_they_are(
    index: storage::IndexView,
    name: Seq<char>,
    rows: usize,
    cols: usize,
    buffers: Seq<(usize, usize)>,
    prevalidated: bool,
)
    requires
        index.inspect(name, rows, cols) is Ok,
        index.tensors.contains_key(name),
        index.tensors.contains_key(schema::scale_name(name)),
        index.tensors[name].data_len <= usize::MAX,
        index.tensors[schema::scale_name(name)].data_len <= usize::MAX,
    ensures
        ({
            let plan = matrix_plan(index, name, rows, cols, buffers, prevalidated);
            let format = index.layouts[name].format;
            let values = index.tensors[name];
            let scales = index.tensors[schema::scale_name(name)];
            let found = first_match(buffers, values.data_len as usize, scales.data_len as usize);
            &&& plan is Ok
            &&& plan->Ok_0 is Native <==> (format is MxFp8E4M3 || format is MxFp4E2M1) && (
            prevalidated || found is Some)
            &&& plan->Ok_0 is Native ==> {
                &&& plan->Ok_0->layout == index.layouts[name]
                &&& plan->Ok_0->scale_name == schema::scale_name(name)
                &&& plan->Ok_0->buffer == found
                &&& plan->Ok_0->values_len == values.data_len
                &&& plan->Ok_0->scales_len == scales.data_len
                &&& plan->Ok_0->scales_first <==> scales.shard < values.shard || (scales.shard
                    == values.shard && scales.data_offset < values.data_offset)
            }
        }),
{
    if buffers.len() == 0 {
        assert(first_match(buffers, 0, 0) is None);
    }
}

/// A matrix is read into the buffers of another exactly where it is of native four-bit floats in groups
/// of thirty-two and is named as a weight.
pub proof fn native_experts_can_be_reused(index: storage::IndexView, line: ReadView)
    ensures
        reuse_problem(index, line) is None <==> index.inspect(line.name, line.rows, line.cols) is Ok
            && index.layouts[line.name].format == (WeightFormat::MxFp4E2M1 { group_size: 32 })
            && text::ends_in(line.name, ".weight"@),
{
}

/// The names of some weights come each with that of its scales.
pub proof fn names_come_with_their_scales(list: Seq<ReadView>, i: int)
    requires
        0 <= i < list.len(),
    ensures
        native_names(list).len() == 2 * list.len(),
        native_names(list)[2 * i] == list[i].name,
        native_names(list)[2 * i + 1] == schema::scale_name(list[i].name),
    decreases list.len(),
{
    let front = list.drop_last();
    if front.len() > 0 {
        names_come_with_their_scales(
            front,
            if i < front.len() {
                i
            } else {
                0
            },
        );
        if i < front.len() {
            assert(front[i] == list[i]);
        }
    } else {
        assert(native_names(front) == Seq::<Seq<char>>::empty());
    }
}

/// Whether the entry of a list is the read of a matrix.
pub open spec fn is_read_at(
    list: Seq<ReadView>,
    at: int,
    name: Seq<char>,
    rows: int,
    cols: int,
) -> bool {
    0 <= at < list.len() && list[at].name == name && list[at].rows == rows as usize && list[at].cols
        == cols as usize
}

/// Whether a list reads a matrix.
pub open spec fn is_read(list: Seq<ReadView>, name: Seq<char>, rows: int, cols: int) -> bool {
    exists|at: int| #[trigger] is_read_at(list, at, name, rows, cols)
}

/// The vectors of a layer are read in one order: those of the mixing functions, the norms and sinks, and
/// behind them the norm of the compressor, that of the indexer and the corrections of the router, each
/// where the layer has it.
pub proof fn vectors_are_read_in_order(config: DeepseekV4Config, layer: usize)
    requires
        layer < config.num_hidden_layers,
    ensures
        ({
            let list = vector_reads(config, layer);
            let prefix = "layers."@ + text::decimal(layer as nat);
            let attention = prefix + ".attn"@;
            let mix = ((2 + config.hc_mult) * config.hc_mult) as usize as int;
            let hidden = config.hidden_size as int;
            let ratio = config.compress_ratios@[layer as int];
            let routed = config.n_routed_experts as int;
            let corrects = layer >= config.num_hash_layers;
            let more: int = if ratio == 4 {
                2
            } else if ratio > 0 {
                1
            } else {
                0
            };
            &&& list.len() == 9 + more + (if corrects {
                1int
            } else {
                0
            })
            &&& is_read_at(list, 0, prefix + ".hc_attn_base"@, 1, mix)
            &&& is_read_at(list, 1, prefix + ".hc_attn_scale"@, 1, 3)
            &&& is_read_at(list, 2, prefix + ".hc_ffn_base"@, 1, mix)
            &&& is_read_at(list, 3, prefix + ".hc_ffn_scale"@, 1, 3)
            &&& is_read_at(list, 4, prefix + ".attn_norm.weight"@, 1, hidden)
            &&& is_read_at(list, 5, prefix + ".ffn_norm.weight"@, 1, hidden)
            &&& is_read_at(list, 6, attention + ".attn_sink"@, 1, config.num_attention_heads as int)
            &&& is_read_at(list, 7, attention + ".q_norm.weight"@, 1, config.q_lora_rank as int)
            &&& is_read_at(list, 8, attention + ".kv_norm.weight"@, 1, config.head_dim as int)
            &&& ratio > 0 ==> is_read_at(list, 9, attention + ".compressor.norm.weight"@, 1, config.head_dim as int)
            &&& ratio == 4 ==> is_read_at(list, 10, attention + ".indexer.compressor.norm.weight"@, 1, config.index_head_dim as int)
            &&& corrects ==> is_read_at(list, 9 + more, prefix + ".ffn"@ + ".gate.bias"@, 1, routed)
        }),
{
}

/// The matrices of a layer are read, all of them: those of its mixing functions, its attention, its
/// router and its shared expert, and those of its compressor and its indexer where it has them.
pub proof fn matrices_are_read_all(config: DeepseekV4Config, layer: usize)
    requires
        layer < config.num_hidden_layers,
    ensures
        ({
            let list = matrix_reads(config, layer);
            let prefix = "layers."@ + text::decimal(layer as nat);
            let attention = prefix + ".attn"@;
            let ffn = prefix + ".ffn"@;
            let compressor = attention + ".compressor"@;
            let indexer = attention + ".indexer"@;
            let mix = ((2 + config.hc_mult) * config.hc_mult) as usize as int;
            let wide = config.hc_mult * config.hidden_size;
            let hidden = config.hidden_size as int;
            let rank = config.q_lora_rank as int;
            let width = config.num_attention_heads * config.head_dim;
            let low_rank = config.o_groups * config.o_lora_rank;
            let inner = config.moe_intermediate_size as int;
            let ratio = config.compress_ratios@[layer as int];
            let head: int = if ratio == 4 {
                2 * config.head_dim
            } else {
                config.head_dim as int
            };
            let index = config.index_head_dim as int;
            &&& list.len() == 11 + (if ratio == 4 {
                8int
            } else if ratio > 0 {
                3
            } else {
                0
            })
            &&& is_read(list, prefix + ".hc_attn_fn"@, mix, wide)
            &&& is_read(list, prefix + ".hc_ffn_fn"@, mix, wide)
            &&& is_read(list, attention + ".wq_a.weight"@, rank, hidden)
            &&& is_read(list, attention + ".wq_b.weight"@, width, rank)
            &&& is_read(list, attention + ".wkv.weight"@, config.head_dim as int, hidden)
            &&& is_read(list, attention + ".wo_a.weight"@, low_rank, width / config.o_groups as int)
            &&& is_read(list, attention + ".wo_b.weight"@, hidden, low_rank)
            &&& is_read(list, ffn + ".gate.weight"@, config.n_routed_experts as int, hidden)
            &&& is_read(list, ffn + ".shared_experts"@ + ".w1.weight"@, inner, hidden)
            &&& is_read(list, ffn + ".shared_experts"@ + ".w2.weight"@, hidden, inner)
            &&& is_read(list, ffn + ".shared_experts"@ + ".w3.weight"@, inner, hidden)
            &&& ratio > 0 ==> is_read(list, compressor + ".ape"@, ratio as int, head)
            &&& ratio > 0 ==> is_read(list, compressor + ".wkv.weight"@, head, hidden)
            &&& ratio > 0 ==> is_read(list, compressor + ".wgate.weight"@, head, hidden)
            &&& ratio == 4 ==> is_read(list, indexer + ".wq_b.weight"@, config.index_n_heads * index, rank)
            &&& ratio == 4 ==> is_read(list, indexer + ".weights_proj.weight"@, config.index_n_heads as int, hidden)
            &&& ratio == 4 ==> is_read(list, indexer + ".compressor"@ + ".ape"@, 4, 2 * index)
            &&& ratio == 4 ==> is_read(list, indexer + ".compressor"@ + ".wkv.weight"@, 2 * index, hidden)
            &&& ratio == 4 ==> is_read(list, indexer + ".compressor"@ + ".wgate.weight"@, 2 * index, hidden)
        }),
{
    let list = matrix_reads(config, layer);
    let prefix = "layers."@ + text::decimal(layer as nat);
    let attention = prefix + ".attn"@;
    let ffn = prefix + ".ffn"@;
    let compressor = attention + ".compressor"@;
    let indexer = attention + ".indexer"@;
    let mix = ((2 + config.hc_mult) * config.hc_mult) as usize as int;
    let wide = config.hc_mult * config.hidden_size;
    let hidden = config.hidden_size as int;
    let rank = config.q_lora_rank as int;
    let width = config.num_attention_heads * config.head_dim;
    let low_rank = config.o_groups * config.o_lora_rank;
    let inner = config.moe_intermediate_size as int;
    let ratio = config.compress_ratios@[layer as int];
    let head: int = if ratio == 4 {
        2 * config.head_dim
    } else {
        config.head_dim as int
    };
    let index = config.index_head_dim as int;
    let more: int = if ratio == 4 {
        8
    } else if ratio > 0 {
        3
    } else {
        0
    };
    let own = attention_reads(config, attention);
    let shared = expert_reads(config, ffn + ".shared_experts"@);
    assert(is_read_at(list, 0, prefix + ".hc_attn_fn"@, mix, wide));
    assert(is_read_at(list, 1, prefix + ".hc_ffn_fn"@, mix, wide));
    if ratio > 0 {
        let part = compressor_reads(config, compressor, ratio, config.head_dim);
        assert(list[2] == part[0] && list[3] == part[1] && list[4] == part[2]);
        assert(is_read_at(list, 2, compressor + ".ape"@, ratio as int, head));
        assert(is_read_at(list, 3, compressor + ".wkv.weight"@, head, hidden));
        assert(is_read_at(list, 4, compressor + ".wgate.weight"@, head, hidden));
    }
    if ratio == 4 {
        let part = indexer_reads(config, indexer);
        assert(list[5] == part[0] && list[6] == part[1] && list[7] == part[2] && list[8] == part[3]
            && list[9] == part[4]);
        assert(is_read_at(list, 5, indexer + ".wq_b.weight"@, config.index_n_heads * index, rank));
        assert(is_read_at(list, 6, indexer + ".weights_proj.weight"@, config.index_n_heads as int, hidden));
        assert(is_read_at(list, 7, indexer + ".compressor"@ + ".ape"@, 4, 2 * index));
        assert(is_read_at(list, 8, indexer + ".compressor"@ + ".wkv.weight"@, 2 * index, hidden));
        assert(is_read_at(list, 9, indexer + ".compressor"@ + ".wgate.weight"@, 2 * index, hidden));
    }
    let at = 2 + more;
    assert(list[at] == own[0] && list[at + 1] == own[1] && list[at + 2] == own[2] && list[at + 3]
        == own[3] && list[at + 4] == own[4]);
    assert(list[at + 6] == shared[0] && list[at + 7] == shared[1] && list[at + 8] == shared[2]);
    assert(is_read_at(list, at, attention + ".wq_a.weight"@, rank, hidden));
    assert(is_read_at(list, at + 1, attention + ".wq_b.weight"@, width, rank));
    assert(is_read_at(list, at + 2, attention + ".wkv.weight"@, config.head_dim as int, hidden));
    assert(is_read_at(list, at + 3, attention + ".wo_a.weight"@, low_rank, width / config.o_groups as int));
    assert(is_read_at(list, at + 4, attention + ".wo_b.weight"@, hidden, low_rank));
    assert(is_read_at(list, at + 5, ffn + ".gate.weight"@, config.n_routed_experts as int, hidden));
    assert(is_read_at(list, at + 6, ffn + ".shared_experts"@ + ".w1.weight"@, inner, hidden));
    assert(is_read_at(list, at + 7, ffn + ".shared_experts"@ + ".w2.weight"@, hidden, inner));
    assert(is_read_at(list, at + 8, ffn + ".shared_experts"@ + ".w3.weight"@, inner, hidden));
}

/// An expert is read into the buffers of another exactly where there are three of them and its three
/// matrices are of native four-bit floats in groups of thirty-two.
pub proof fn three_native_matrices_reuse_buffers(
    index: storage::IndexView,
    config: DeepseekV4Config,
    prefix: Seq<char>,
    buffers: Option<usize>,
)
    ensures
        reuses_buffers(index, config, prefix, buffers) <==> {
            let inner = config.moe_intermediate_size;
            let hidden = config.hidden_size;
            let native = WeightFormat::MxFp4E2M1 { group_size: 32 };
            let one = prefix + ".w1.weight"@;
            let two = prefix + ".w2.weight"@;
            let three = prefix + ".w3.weight"@;
            &&& buffers == Some(3usize)
            &&& index.inspect(one, inner, hidden) is Ok && index.layouts[one].format == native
            &&& index.inspect(two, hidden, inner) is Ok && index.layouts[two].format == native
            &&& index.inspect(three, inner, hidden) is Ok && index.layouts[three].format == native
        },
{
    let list = expert_reads(config, prefix);
    assert(list[0].name == prefix + ".w1.weight"@);
    assert(list[1].name == prefix + ".w2.weight"@);
    assert(list[2].name == prefix + ".w3.weight"@);
}

/// A pair of buffers is taken exactly by a matrix that is read into it.
pub proof fn buffers_are_taken_by_their_matrix(
    plan: Result<LoadView, runtime::RuntimeProblem>,
    buffers: Seq<(usize, usize)>,
    at: int,
)
    requires
        0 <= at < buffers.len(),
    ensures
        plan is Err ==> buffers_left(plan, buffers) == buffers,
        plan is Ok && plan->Ok_0 is Fresh ==> buffers_left(plan, buffers) == buffers,
        plan is Ok && plan->Ok_0 is Native && plan->Ok_0->buffer is None ==> buffers_left(
            plan,
            buffers,
        ) == buffers,
        plan is Ok && plan->Ok_0 is Native && plan->Ok_0->buffer == Some(at) ==> buffers_left(
            plan,
            buffers,
        ).len() == buffers.len() - 1,
{
}

} // verus!
