//! Every tensor of the DeepSeek-V4.1-Flash release: its name, type and shape, and what it counts
//! towards.

use super::config;
use super::config::{holds, DeepseekV41Config, DeepseekV41TextConfig, DeepseekV41VisionConfig};
use crate::storage::DType;
use crate::text;
use crate::text::{join, join_number};
use vstd::prelude::*;
use vstd::string::*;

verus! {

/// What a tensor counts towards.
#[derive(Debug, Clone, Copy, PartialEq, Eq, Structural)]
pub enum Category {
    TokenRows,
    BackboneRoot,
    BackboneLayer(usize),
    Expert(usize, usize),
    EngramTable,
    EngramOther(usize),
    Vision,
    DSpark,
}

/// How a tensor's parameters are counted.
#[derive(Debug, Clone, Copy, PartialEq, Eq, Structural)]
pub enum Logical {
    /// By its elements.
    Elements,
    /// By the matrix whose elements are packed in pairs.
    Packed { rows: usize, cols: usize },
    /// Not at all: it holds scales.
    Scale,
}

/// A tensor of the release.
#[derive(Debug)]
pub struct Blueprint {
    pub name: String,
    pub dtype: DType,
    pub shape: Vec<usize>,
    pub category: Category,
    pub logical: Logical,
}

/// The same, over plain values.
pub struct Line {
    pub name: Seq<char>,
    pub dtype: DType,
    pub shape: Seq<usize>,
    pub category: Category,
    pub logical: Logical,
}

impl View for Blueprint {
    type V = Line;

    open spec fn view(&self) -> Line {
        Line {
            name: self.name@,
            dtype: self.dtype,
            shape: self.shape@,
            category: self.category,
            logical: self.logical,
        }
    }
}

pub open spec fn lines(list: Seq<Blueprint>) -> Seq<Line> {
    Seq::new(list.len(), |i: int| list[i]@)
}

/// A number of parts, the last one perhaps incomplete.
pub open spec fn parts(value: usize, size: usize) -> usize {
    ((value + size - 1) / size as int) as usize
}

pub fn count_parts(value: usize, size: usize) -> (count: usize)
    requires
        size > 0,
    ensures
        count == parts(value, size),
        count <= value,
{
    if value == 0 {
        proof {
            vstd::arithmetic::div_mod::lemma_small_mod((size - 1) as nat, size as nat);
            vstd::arithmetic::div_mod::lemma_fundamental_div_mod(size - 1, size as int);
            assert((size - 1) / size as int == 0) by (nonlinear_arith)
                requires
                    size > 0,
                    size - 1 == size * ((size - 1) / size as int) + size - 1,
            ;
        }
        0
    } else {
        let count: usize = (value - 1) / size;
        proof {
            let whole = (value - 1) / size as int;
            vstd::arithmetic::div_mod::lemma_fundamental_div_mod(value - 1, size as int);
            vstd::arithmetic::div_mod::lemma_mod_bound(value - 1, size as int);
            assert(value + size - 1 == size * (whole + 1) + (value - 1) % size as int)
                by (nonlinear_arith)
                requires
                    value - 1 == size * whole + (value - 1) % size as int,
            ;
            vstd::arithmetic::div_mod::lemma_fundamental_div_mod_converse(
                value + size - 1,
                size as int,
                whole + 1,
                (value - 1) % size as int,
            );
            assert(whole <= value - 1) by (nonlinear_arith)
                requires
                    value - 1 == size * whole + (value - 1) % size as int,
                    0 <= (value - 1) % size as int,
                    size > 0,
                    value >= 1,
            ;
        }
        count + 1
    }
}

/// There are no more parts than the value counts.
pub proof fn lemma_parts_small(value: usize, size: usize)
    requires
        size > 0,
    ensures
        parts(value, size) <= value,
{
    let all = value + size - 1;
    vstd::arithmetic::div_mod::lemma_fundamental_div_mod(all, size as int);
    vstd::arithmetic::div_mod::lemma_mod_bound(all, size as int);
    assert(0 <= all / size as int <= value) by (nonlinear_arith)
        requires
            all == value + size - 1,
            all == size * (all / size as int) + all % size as int,
            0 <= (all % size as int),
            (all % size as int) < size,
            size > 0,
            value >= 0,
    ;
}

pub open spec fn plain(name: Seq<char>, dtype: DType, shape: Seq<usize>, category: Category) -> Line {
    Line { name, dtype, shape, category, logical: Logical::Elements }
}

/// A matrix of 8-bit values with a scale for every block of 32 by 32.
pub open spec fn mx_lines(base: Seq<char>, rows: usize, cols: usize, category: Category) -> Seq<
    Line,
> {
    seq![
        plain(base + ".weight"@, DType::F8E4M3, seq![rows, cols], category),
        Line {
            name: base + ".scale"@,
            dtype: DType::F8E8M0,
            shape: seq![parts(rows, 32), parts(cols, 32)],
            category,
            logical: Logical::Scale,
        },
    ]
}

/// A matrix of 4-bit values, two in a byte, with a scale for every 32 of a row.
pub open spec fn packed_lines(base: Seq<char>, rows: usize, cols: usize, category: Category) -> Seq<
    Line,
> {
    seq![
        Line {
            name: base + ".weight"@,
            dtype: DType::I8,
            shape: seq![rows, parts(cols, 2)],
            category,
            logical: Logical::Packed { rows, cols },
        },
        Line {
            name: base + ".scale"@,
            dtype: DType::F8E8M0,
            shape: seq![rows, parts(cols, 32)],
            category,
            logical: Logical::Scale,
        },
    ]
}

fn one(length: usize) -> (shape: Vec<usize>)
    ensures
        shape@ == seq![length],
{
    let mut shape: Vec<usize> = Vec::new();
    shape.push(length);
    assert(shape@ =~= seq![length]);
    shape
}

fn two(rows: usize, cols: usize) -> (shape: Vec<usize>)
    ensures
        shape@ == seq![rows, cols],
{
    let mut shape: Vec<usize> = Vec::new();
    shape.push(rows);
    shape.push(cols);
    assert(shape@ =~= seq![rows, cols]);
    shape
}

fn push_line(list: &mut Vec<Blueprint>, entry: Blueprint)
    ensures
        lines(final(list)@) == lines(old(list)@).push(entry@),
{
    let ghost before = list@;
    list.push(entry);
    assert(lines(list@) =~= lines(before).push(entry@));
}

fn push(list: &mut Vec<Blueprint>, name: String, dtype: DType, shape: Vec<usize>, category: Category)
    ensures
        lines(final(list)@) == lines(old(list)@).push(plain(name@, dtype, shape@, category)),
{
    push_line(list, Blueprint { name, dtype, shape, category, logical: Logical::Elements });
}

fn append_mx_matrix(
    list: &mut Vec<Blueprint>,
    base: String,
    rows: usize,
    cols: usize,
    category: Category,
)
    ensures
        lines(final(list)@) == lines(old(list)@) + mx_lines(base@, rows, cols, category),
{
    let ghost before = lines(list@);
    push(list, join(base.as_str(), ".weight"), DType::F8E4M3, two(rows, cols), category);
    push_line(
        list,
        Blueprint {
            name: join(base.as_str(), ".scale"),
            dtype: DType::F8E8M0,
            shape: two(count_parts(rows, 32), count_parts(cols, 32)),
            category,
            logical: Logical::Scale,
        },
    );
    assert(lines(list@) =~= before + mx_lines(base@, rows, cols, category));
}

fn append_packed(
    list: &mut Vec<Blueprint>,
    base: String,
    rows: usize,
    cols: usize,
    category: Category,
)
    ensures
        lines(final(list)@) == lines(old(list)@) + packed_lines(base@, rows, cols, category),
{
    let ghost before = lines(list@);
    push_line(
        list,
        Blueprint {
            name: join(base.as_str(), ".weight"),
            dtype: DType::I8,
            shape: two(rows, count_parts(cols, 2)),
            category,
            logical: Logical::Packed { rows, cols },
        },
    );
    push_line(
        list,
        Blueprint {
            name: join(base.as_str(), ".scale"),
            dtype: DType::F8E8M0,
            shape: two(rows, count_parts(cols, 32)),
            category,
            logical: Logical::Scale,
        },
    );
    assert(lines(list@) =~= before + packed_lines(base@, rows, cols, category));
}

fn stem(prefix: &str, suffix: &str) -> (name: String)
    ensures
        name@ == prefix@ + suffix@,
{
    join(prefix, suffix)
}

impl DeepseekV41TextConfig {
    /// The tensor dimensions that are computed from it are numbers of the machine, and a layer that
    /// owns compressed entries has a ratio.
    pub open spec fn dimensions_fit(self) -> bool {
        &&& forall|layer: usize|
            layer < self.num_hidden_layers && #[trigger] self.kv_source_layer_ids@.contains(layer)
                ==> layer < self.compress_ratios@.len()
        &&& self.engram_layer_ids@.len() <= self.engram_num_embeddings@.len()
        &&& self.o_groups > 0
        &&& self.engram_max_ngram_size > 0
        &&& self.num_nextn_predict_layers > 0
        &&& (2 + self.hc_mult) * self.hc_mult <= usize::MAX
        &&& self.hc_mult * self.hidden_size <= usize::MAX
        &&& self.hidden_size * (self.hc_mult + 1) <= usize::MAX
        &&& self.num_attention_heads * self.head_dim <= usize::MAX
        &&& self.o_groups * self.o_lora_rank <= usize::MAX
        &&& self.index_n_heads * self.index_head_dim <= usize::MAX
        &&& (self.engram_max_ngram_size - 1) * self.engram_n_heads <= usize::MAX
        &&& (self.engram_max_ngram_size - 1) * self.engram_n_heads * self.engram_head_dim
            <= usize::MAX
        &&& self.hidden_size * self.dspark_target_layer_ids@.len() <= usize::MAX
        &&& self.hidden_size + self.dspark_markov_rank <= usize::MAX
    }

    pub open spec fn mix_width(self) -> usize {
        ((2 + self.hc_mult) * self.hc_mult) as usize
    }

    pub open spec fn stream_width(self) -> usize {
        (self.hc_mult * self.hidden_size) as usize
    }
}

impl DeepseekV41VisionConfig {
    /// The tensor dimensions that are computed from it, but for the width behind the downsampling,
    /// are numbers of the machine.
    pub open spec fn dimensions_fit(self) -> bool {
        &&& self.downsample_ratio * self.downsample_ratio <= usize::MAX
        &&& 3 * self.patch_size <= usize::MAX
        &&& 3 * self.patch_size * self.patch_size <= usize::MAX
        &&& 3 * self.hidden_size <= usize::MAX
        &&& 2 * self.intermediate_size <= usize::MAX
    }
}

/// Both parts fit.
pub open spec fn dimensions_fit(config: DeepseekV41Config) -> bool {
    config.text_config.dimensions_fit() && config.vision_config.dimensions_fit()
}


/// Token rows, the final norm, and the image marks.
pub open spec fn root_lines(text: DeepseekV41TextConfig) -> Seq<Line> {
    seq![
        plain("embed.weight"@, DType::Bf16, seq![text.vocab_size, text.hidden_size], Category::TokenRows),
        plain("head.weight"@, DType::Bf16, seq![text.vocab_size, text.hidden_size], Category::TokenRows),
        plain("norm.weight"@, DType::Bf16, seq![text.hidden_size], Category::BackboneRoot),
        plain("image_start"@, DType::Bf16, seq![text.hidden_size], Category::Vision),
        plain("image_end"@, DType::Bf16, seq![text.hidden_size], Category::Vision),
        plain("image_newline"@, DType::Bf16, seq![text.hidden_size], Category::Vision),
    ]
}

fn append_root(list: &mut Vec<Blueprint>, text: &DeepseekV41TextConfig)
    ensures
        lines(final(list)@) == lines(old(list)@) + root_lines(*text),
{
    let ghost before = lines(list@);

    push(list, "embed.weight".to_owned(), DType::Bf16, two(text.vocab_size, text.hidden_size), Category::TokenRows);
    push(list, "head.weight".to_owned(), DType::Bf16, two(text.vocab_size, text.hidden_size), Category::TokenRows);
    push(list, "norm.weight".to_owned(), DType::Bf16, one(text.hidden_size), Category::BackboneRoot);
    push(list, "image_start".to_owned(), DType::Bf16, one(text.hidden_size), Category::Vision);
    push(list, "image_end".to_owned(), DType::Bf16, one(text.hidden_size), Category::Vision);
    push(list, "image_newline".to_owned(), DType::Bf16, one(text.hidden_size), Category::Vision);
    assert(lines(list@) =~= before + root_lines(*text));
}

/// What aligns image patches with the text.
pub open spec fn aligner_lines(text: DeepseekV41TextConfig, unshuffle: usize) -> Seq<Line> {
    seq![
        plain("aligner.w1.weight"@, DType::Bf16, seq![text.hidden_size, unshuffle], Category::Vision),
        plain("aligner.w1.bias"@, DType::Bf16, seq![text.hidden_size], Category::Vision),
        plain("aligner.w2.weight"@, DType::Bf16, seq![text.hidden_size, text.hidden_size], Category::Vision),
        plain("aligner.w2.bias"@, DType::Bf16, seq![text.hidden_size], Category::Vision),
    ]
}

fn append_aligner(list: &mut Vec<Blueprint>, text: &DeepseekV41TextConfig, unshuffle: usize)
    ensures
        lines(final(list)@) == lines(old(list)@) + aligner_lines(*text, unshuffle),
{
    let ghost before = lines(list@);

    push(list, "aligner.w1.weight".to_owned(), DType::Bf16, two(text.hidden_size, unshuffle), Category::Vision);
    push(list, "aligner.w1.bias".to_owned(), DType::Bf16, one(text.hidden_size), Category::Vision);
    push(list, "aligner.w2.weight".to_owned(), DType::Bf16, two(text.hidden_size, text.hidden_size), Category::Vision);
    push(list, "aligner.w2.bias".to_owned(), DType::Bf16, one(text.hidden_size), Category::Vision);
    assert(lines(list@) =~= before + aligner_lines(*text, unshuffle));
}

/// The residual streams, norms and sink of a block.
pub open spec fn front_lines(text: DeepseekV41TextConfig, prefix: Seq<char>, category: Category) -> Seq<Line> {
    let mix = text.mix_width();
    let wide = text.stream_width();
    seq![
        plain(prefix + ".hc_attn_fn"@, DType::F32, seq![mix, wide], category),
        plain(prefix + ".hc_attn_base"@, DType::F32, seq![mix], category),
        plain(prefix + ".hc_attn_scale"@, DType::F32, seq![3usize], category),
        plain(prefix + ".hc_ffn_fn"@, DType::F32, seq![mix, wide], category),
        plain(prefix + ".hc_ffn_base"@, DType::F32, seq![mix], category),
        plain(prefix + ".hc_ffn_scale"@, DType::F32, seq![3usize], category),
        plain(prefix + ".attn_norm.weight"@, DType::Bf16, seq![text.hidden_size], category),
        plain(prefix + ".ffn_norm.weight"@, DType::Bf16, seq![text.hidden_size], category),
        plain(prefix + ".attn.q_norm.weight"@, DType::Bf16, seq![text.q_lora_rank], category),
        plain(prefix + ".attn.kv_norm.weight"@, DType::Bf16, seq![text.head_dim], category),
        plain(prefix + ".attn.attn_sink"@, DType::F32, seq![text.num_attention_heads], category),
    ]
}

fn append_front(list: &mut Vec<Blueprint>, text: &DeepseekV41TextConfig, prefix: &str, category: Category)
    requires
        text.dimensions_fit(),
    ensures
        lines(final(list)@) == lines(old(list)@) + front_lines(*text, prefix@, category),
{
    let ghost before = lines(list@);
    let mix: usize = if text.hc_mult == 0 {
        assert((2 + text.hc_mult) * text.hc_mult == 0) by (nonlinear_arith)
            requires
                text.hc_mult == 0,
        ;
        0
    } else {
        assert((2 + text.hc_mult) * text.hc_mult >= 2 + text.hc_mult) by (nonlinear_arith)
            requires
                text.hc_mult >= 1,
        ;
        (2 + text.hc_mult) * text.hc_mult
    };
    let wide: usize = text.hc_mult * text.hidden_size;

    push(list, stem(prefix, ".hc_attn_fn"), DType::F32, two(mix, wide), category);
    push(list, stem(prefix, ".hc_attn_base"), DType::F32, one(mix), category);
    push(list, stem(prefix, ".hc_attn_scale"), DType::F32, one(3), category);
    push(list, stem(prefix, ".hc_ffn_fn"), DType::F32, two(mix, wide), category);
    push(list, stem(prefix, ".hc_ffn_base"), DType::F32, one(mix), category);
    push(list, stem(prefix, ".hc_ffn_scale"), DType::F32, one(3), category);
    push(list, stem(prefix, ".attn_norm.weight"), DType::Bf16, one(text.hidden_size), category);
    push(list, stem(prefix, ".ffn_norm.weight"), DType::Bf16, one(text.hidden_size), category);
    push(list, stem(prefix, ".attn.q_norm.weight"), DType::Bf16, one(text.q_lora_rank), category);
    push(list, stem(prefix, ".attn.kv_norm.weight"), DType::Bf16, one(text.head_dim), category);
    push(list, stem(prefix, ".attn.attn_sink"), DType::F32, one(text.num_attention_heads), category);
    assert(lines(list@) =~= before + front_lines(*text, prefix@, category));
}

/// The attention matrices of a block.
pub open spec fn attention_lines(text: DeepseekV41TextConfig, prefix: Seq<char>, category: Category) -> Seq<Line> {
    let width = (text.num_attention_heads * text.head_dim) as usize;
    let low_rank = (text.o_groups * text.o_lora_rank) as usize;
    let group = (width as int / text.o_groups as int) as usize;
    mx_lines(prefix + ".attn.wq_a"@, text.q_lora_rank, text.hidden_size, category) + mx_lines(prefix + ".attn.wq_b"@, width, text.q_lora_rank, category) + mx_lines(prefix + ".attn.wkv"@, text.head_dim, text.hidden_size, category) + mx_lines(prefix + ".attn.wo_a"@, low_rank, group, category) + mx_lines(prefix + ".attn.wo_b"@, text.hidden_size, low_rank, category)
}

fn append_attention(list: &mut Vec<Blueprint>, text: &DeepseekV41TextConfig, prefix: &str, category: Category)
    requires
        text.dimensions_fit(),
    ensures
        lines(final(list)@) == lines(old(list)@) + attention_lines(*text, prefix@, category),
{
    let ghost before = lines(list@);
    let width: usize = text.num_attention_heads * text.head_dim;
    let low_rank: usize = text.o_groups * text.o_lora_rank;
    let group: usize = width / text.o_groups;

    append_mx_matrix(list, stem(prefix, ".attn.wq_a"), text.q_lora_rank, text.hidden_size, category);
    append_mx_matrix(list, stem(prefix, ".attn.wq_b"), width, text.q_lora_rank, category);
    append_mx_matrix(list, stem(prefix, ".attn.wkv"), text.head_dim, text.hidden_size, category);
    append_mx_matrix(list, stem(prefix, ".attn.wo_a"), low_rank, group, category);
    append_mx_matrix(list, stem(prefix, ".attn.wo_b"), text.hidden_size, low_rank, category);
    assert(lines(list@) =~= before + attention_lines(*text, prefix@, category));
}

/// The router and the shared expert of a block.
pub open spec fn router_lines(text: DeepseekV41TextConfig, prefix: Seq<char>, category: Category, routed: usize) -> Seq<Line> {
    seq![
        plain(prefix + ".ffn.gate.weight"@, DType::Bf16, seq![routed, text.hidden_size], category),
        plain(prefix + ".ffn.gate.bias"@, DType::F32, seq![routed], category),
        plain(prefix + ".ffn.gate.bias_vl"@, DType::F32, seq![routed], category),
    ] + mx_lines(prefix + ".ffn.shared_experts.w1"@, text.moe_intermediate_size, text.hidden_size, category) + mx_lines(prefix + ".ffn.shared_experts.w3"@, text.moe_intermediate_size, text.hidden_size, category) + mx_lines(prefix + ".ffn.shared_experts.w2"@, text.hidden_size, text.moe_intermediate_size, category)
}

fn append_router(list: &mut Vec<Blueprint>, text: &DeepseekV41TextConfig, prefix: &str, category: Category, routed: usize)
    ensures
        lines(final(list)@) == lines(old(list)@) + router_lines(*text, prefix@, category, routed),
{
    let ghost before = lines(list@);

    push(list, stem(prefix, ".ffn.gate.weight"), DType::Bf16, two(routed, text.hidden_size), category);
    push(list, stem(prefix, ".ffn.gate.bias"), DType::F32, one(routed), category);
    push(list, stem(prefix, ".ffn.gate.bias_vl"), DType::F32, one(routed), category);
    append_mx_matrix(list, stem(prefix, ".ffn.shared_experts.w1"), text.moe_intermediate_size, text.hidden_size, category);
    append_mx_matrix(list, stem(prefix, ".ffn.shared_experts.w3"), text.moe_intermediate_size, text.hidden_size, category);
    append_mx_matrix(list, stem(prefix, ".ffn.shared_experts.w2"), text.hidden_size, text.moe_intermediate_size, category);
    assert(lines(list@) =~= before + router_lines(*text, prefix@, category, routed));
}

/// What a routed expert counts towards.
pub open spec fn expert_category(layer: Option<usize>, expert: nat) -> Category {
    match layer {
        Some(layer) => Category::Expert(layer, expert as usize),
        None => Category::DSpark,
    }
}

/// The matrices of one routed expert.
pub open spec fn expert_lines(
    text: DeepseekV41TextConfig,
    prefix: Seq<char>,
    expert: nat,
    layer: Option<usize>,
) -> Seq<Line> {
    let base = prefix + ".ffn.experts."@ + text::decimal(expert);
    let category = expert_category(layer, expert);
    let inner = text.moe_intermediate_size;
    packed_lines(base + ".w1"@, inner, text.hidden_size, category) + packed_lines(
        base + ".w2"@,
        text.hidden_size,
        inner,
        category,
    ) + packed_lines(base + ".w3"@, inner, text.hidden_size, category)
}

/// The matrices of the first `experts` routed experts.
pub open spec fn experts_lines(
    text: DeepseekV41TextConfig,
    prefix: Seq<char>,
    experts: nat,
    layer: Option<usize>,
) -> Seq<Line>
    decreases experts,
{
    if experts == 0 {
        Seq::empty()
    } else {
        experts_lines(text, prefix, (experts - 1) as nat, layer) + expert_lines(
            text,
            prefix,
            (experts - 1) as nat,
            layer,
        )
    }
}

/// All tensors of a block.
pub open spec fn block_lines(
    text: DeepseekV41TextConfig,
    prefix: Seq<char>,
    category: Category,
    layer: Option<usize>,
    routed: usize,
) -> Seq<Line> {
    front_lines(text, prefix, category) + attention_lines(text, prefix, category) + router_lines(
        text,
        prefix,
        category,
        routed,
    ) + experts_lines(text, prefix, routed as nat, layer)
}

fn append_experts(
    list: &mut Vec<Blueprint>,
    text: &DeepseekV41TextConfig,
    prefix: &str,
    layer: Option<usize>,
    routed: usize,
)
    ensures
        lines(final(list)@) == lines(old(list)@) + experts_lines(
            *text,
            prefix@,
            routed as nat,
            layer,
        ),
{
    let ghost before = lines(list@);
    let stem_name = join(prefix, ".ffn.experts.");
    let inner = text.moe_intermediate_size;
    let hidden = text.hidden_size;
    let mut expert: usize = 0;
    assert(lines(list@) =~= before + experts_lines(*text, prefix@, 0, layer));
    while expert < routed
        invariant
            expert <= routed,
            inner == text.moe_intermediate_size,
            hidden == text.hidden_size,
            stem_name@ == prefix@ + ".ffn.experts."@,
            lines(list@) == before + experts_lines(*text, prefix@, expert as nat, layer),
        decreases routed - expert,
    {
        let ghost so_far = lines(list@);
        let base = join_number(stem_name.as_str(), expert);
        let category = match layer {
            Some(layer) => Category::Expert(layer, expert),
            None => Category::DSpark,
        };
        append_packed(list, join(base.as_str(), ".w1"), inner, hidden, category);
        append_packed(list, join(base.as_str(), ".w2"), hidden, inner, category);
        append_packed(list, join(base.as_str(), ".w3"), inner, hidden, category);
        proof {
            assert(base@ == prefix@ + ".ffn.experts."@ + text::decimal(expert as nat));
            assert(lines(list@) =~= so_far + expert_lines(*text, prefix@, expert as nat, layer));
            assert(before + experts_lines(*text, prefix@, expert as nat, layer) + expert_lines(
                *text,
                prefix@,
                expert as nat,
                layer,
            ) =~= before + (experts_lines(*text, prefix@, expert as nat, layer) + expert_lines(
                *text,
                prefix@,
                expert as nat,
                layer,
            )));
        }
        expert = expert + 1;
    }
}

/// Appends all tensors of a block. The layer is given where its experts are counted one by one.
fn append_block(
    list: &mut Vec<Blueprint>,
    text: &DeepseekV41TextConfig,
    prefix: &str,
    category: Category,
    layer: Option<usize>,
    routed: usize,
)
    requires
        text.dimensions_fit(),
    ensures
        lines(final(list)@) == lines(old(list)@) + block_lines(
            *text,
            prefix@,
            category,
            layer,
            routed,
        ),
{
    let ghost before = lines(list@);
    append_front(list, text, prefix, category);
    append_attention(list, text, prefix, category);
    append_router(list, text, prefix, category, routed);
    append_experts(list, text, prefix, layer, routed);
    assert(lines(list@) =~= before + block_lines(*text, prefix@, category, layer, routed));
}

pub open spec fn layer_name(layer: nat) -> Seq<char> {
    "layers."@ + text::decimal(layer)
}


/// The compressor of a layer that owns compressed entries.
pub open spec fn source_lines(text: DeepseekV41TextConfig, layer: usize) -> Seq<Line> {
    let prefix = layer_name(layer as nat) + ".attn.compressor"@;
    let category = Category::BackboneLayer(layer);
    let wide = seq![text.head_dim, text.hidden_size];
    if !text.kv_source_layer_ids@.contains(layer) {
        Seq::empty()
    } else {
        seq![
            plain(prefix + ".norm.weight"@, DType::Bf16, seq![text.head_dim], category),
            plain(prefix + ".wkv.weight"@, DType::Bf16, wide, category),
        ] + if text.compress_ratios@[layer as int] > 1 {
            seq![plain(prefix + ".wgate.weight"@, DType::Bf16, wide, category)]
        } else {
            Seq::empty()
        }
    }
}

fn append_source(list: &mut Vec<Blueprint>, text: &DeepseekV41TextConfig, layer: usize)
    requires
        text.dimensions_fit(),
        layer < text.num_hidden_layers,
    ensures
        lines(final(list)@) == lines(old(list)@) + source_lines(*text, layer),
{
    let ghost before = lines(list@);
    if holds(&text.kv_source_layer_ids, layer) {
        let prefix = join(join_number("layers.", layer).as_str(), ".attn.compressor");
        let category = Category::BackboneLayer(layer);
        push(
            list,
            join(prefix.as_str(), ".norm.weight"),
            DType::Bf16,
            one(text.head_dim),
            category,
        );
        push(
            list,
            join(prefix.as_str(), ".wkv.weight"),
            DType::Bf16,
            two(text.head_dim, text.hidden_size),
            category,
        );
        if text.compress_ratios[layer] > 1 {
            push(
                list,
                join(prefix.as_str(), ".wgate.weight"),
                DType::Bf16,
                two(text.head_dim, text.hidden_size),
                category,
            );
        }
    }
    assert(lines(list@) =~= before + source_lines(*text, layer));
}

/// The indexer of a layer that owns one.
pub open spec fn indexer_lines(text: DeepseekV41TextConfig, layer: usize) -> Seq<Line> {
    let prefix = layer_name(layer as nat) + ".attn.indexer"@;
    let category = Category::BackboneLayer(layer);
    if !text.index_source_layer_ids@.contains(layer) {
        Seq::empty()
    } else {
        mx_lines(
            prefix + ".wq_b"@,
            (text.index_n_heads * text.index_head_dim) as usize,
            text.q_lora_rank,
            category,
        ) + seq![
            plain(
                prefix + ".weights_proj.weight"@,
                DType::Bf16,
                seq![text.index_n_heads, text.hidden_size],
                category,
            ),
        ] + if text.kv_source_layer_ids@.contains(layer) {
            seq![
                plain(
                    prefix + ".wk.weight"@,
                    DType::Bf16,
                    seq![text.index_head_dim, text.head_dim],
                    category,
                ),
                plain(
                    prefix + ".k_norm.weight"@,
                    DType::Bf16,
                    seq![text.index_head_dim],
                    category,
                ),
            ]
        } else {
            Seq::empty()
        }
    }
}

fn append_indexer(list: &mut Vec<Blueprint>, text: &DeepseekV41TextConfig, layer: usize)
    requires
        text.dimensions_fit(),
    ensures
        lines(final(list)@) == lines(old(list)@) + indexer_lines(*text, layer),
{
    let ghost before = lines(list@);
    if holds(&text.index_source_layer_ids, layer) {
        let prefix = join(join_number("layers.", layer).as_str(), ".attn.indexer");
        let category = Category::BackboneLayer(layer);
        append_mx_matrix(
            list,
            join(prefix.as_str(), ".wq_b"),
            text.index_n_heads * text.index_head_dim,
            text.q_lora_rank,
            category,
        );
        push(
            list,
            join(prefix.as_str(), ".weights_proj.weight"),
            DType::Bf16,
            two(text.index_n_heads, text.hidden_size),
            category,
        );
        if holds(&text.kv_source_layer_ids, layer) {
            push(
                list,
                join(prefix.as_str(), ".wk.weight"),
                DType::Bf16,
                two(text.index_head_dim, text.head_dim),
                category,
            );
            push(
                list,
                join(prefix.as_str(), ".k_norm.weight"),
                DType::Bf16,
                one(text.index_head_dim),
                category,
            );
        }
    }
    assert(lines(list@) =~= before + indexer_lines(*text, layer));
}

/// Where a list first holds a value.
pub open spec fn first_place(list: Seq<usize>, value: usize) -> Option<int>
    decreases list.len(),
{
    if list.len() == 0 {
        None
    } else if first_place(list.drop_last(), value) is Some {
        first_place(list.drop_last(), value)
    } else if list.last() == value {
        Some(list.len() - 1)
    } else {
        None
    }
}

proof fn lemma_first_place(list: Seq<usize>, value: usize, count: int)
    requires
        0 <= count <= list.len(),
    ensures
        first_place(list.take(count), value) is Some ==> first_place(list, value)
            == first_place(list.take(count), value),
        first_place(list, value) is Some ==> 0 <= first_place(list, value)->Some_0 < list.len(),
    decreases list.len(),
{
    if list.len() > 0 {
        if count < list.len() {
            assert(list.drop_last().take(count) =~= list.take(count));
            lemma_first_place(list.drop_last(), value, count);
        } else {
            assert(list.take(count) =~= list);
            lemma_first_place(list.drop_last(), value, 0);
        }
    } else {
        assert(list.take(count) =~= list);
    }
}

fn find_place(list: &Vec<usize>, value: usize) -> (found: Option<usize>)
    ensures
        match found {
            Some(at) => first_place(list@, value) == Some(at as int) && at < list@.len(),
            None => first_place(list@, value) is None,
        },
{
    let mut at: usize = 0;
    while at < list.len()
        invariant
            at <= list@.len(),
            first_place(list@.take(at as int), value) is None,
        decreases list@.len() - at,
    {
        proof {
            assert(list@.take(at + 1).drop_last() =~= list@.take(at as int));
            lemma_first_place(list@, value, at + 1);
        }
        if list[at] == value {
            return Some(at);
        }
        at = at + 1;
    }
    assert(list@.take(list@.len() as int) =~= list@);
    None
}

/// The lookup table and projections of a layer with an n-gram memory.
pub open spec fn engram_lines(text: DeepseekV41TextConfig, layer: usize) -> Seq<Line> {
    let prefix = layer_name(layer as nat) + ".engram"@;
    let category = Category::EngramOther(layer);
    let columns = (text.engram_max_ngram_size - 1) * text.engram_n_heads;
    match first_place(text.engram_layer_ids@, layer) {
        None => Seq::empty(),
        Some(place) => {
            let rows = text.engram_num_embeddings@[place];
            seq![
                plain(
                    prefix + ".embed.weight"@,
                    DType::F8E4M3,
                    seq![rows, text.engram_head_dim],
                    Category::EngramTable,
                ),
                Line {
                    name: prefix + ".embed.scale"@,
                    dtype: DType::F8E8M0,
                    shape: seq![rows, parts(text.engram_head_dim, 32)],
                    category: Category::EngramTable,
                    logical: Logical::Scale,
                },
                plain(
                    prefix + ".q_weight"@,
                    DType::Bf16,
                    seq![text.hc_mult, text.hidden_size],
                    category,
                ),
                plain(
                    prefix + ".k_weight"@,
                    DType::Bf16,
                    seq![text.hc_mult, text.hidden_size],
                    category,
                ),
            ] + mx_lines(
                prefix + ".wkv"@,
                (text.hidden_size * (text.hc_mult + 1)) as usize,
                (columns * text.engram_head_dim) as usize,
                category,
            )
        },
    }
}

fn append_engram(list: &mut Vec<Blueprint>, text: &DeepseekV41TextConfig, layer: usize)
    requires
        text.dimensions_fit(),
    ensures
        lines(final(list)@) == lines(old(list)@) + engram_lines(*text, layer),
{
    let ghost before = lines(list@);
    match find_place(&text.engram_layer_ids, layer) {
        None => {},
        Some(place) => {
            let rows = text.engram_num_embeddings[place];
            let prefix = join(join_number("layers.", layer).as_str(), ".engram");
            let category = Category::EngramOther(layer);
            push(
                list,
                join(prefix.as_str(), ".embed.weight"),
                DType::F8E4M3,
                two(rows, text.engram_head_dim),
                Category::EngramTable,
            );
            push_line(
                list,
                Blueprint {
                    name: join(prefix.as_str(), ".embed.scale"),
                    dtype: DType::F8E8M0,
                    shape: two(rows, count_parts(text.engram_head_dim, 32)),
                    category: Category::EngramTable,
                    logical: Logical::Scale,
                },
            );
            push(
                list,
                join(prefix.as_str(), ".q_weight"),
                DType::Bf16,
                two(text.hc_mult, text.hidden_size),
                category,
            );
            push(
                list,
                join(prefix.as_str(), ".k_weight"),
                DType::Bf16,
                two(text.hc_mult, text.hidden_size),
                category,
            );
            let columns: usize = (text.engram_max_ngram_size - 1) * text.engram_n_heads;
            let streams: usize = if text.hidden_size == 0 {
                assert(text.hidden_size * (text.hc_mult + 1) == 0) by (nonlinear_arith)
                    requires
                        text.hidden_size == 0,
                ;
                0
            } else {
                assert(text.hidden_size * (text.hc_mult + 1) >= text.hc_mult + 1)
                    by (nonlinear_arith)
                    requires
                        text.hidden_size >= 1,
                ;
                text.hidden_size * (text.hc_mult + 1)
            };
            append_mx_matrix(
                list,
                join(prefix.as_str(), ".wkv"),
                streams,
                columns * text.engram_head_dim,
                category,
            );
        },
    }
    assert(lines(list@) =~= before + engram_lines(*text, layer));
}

/// All tensors of one layer.
pub open spec fn layer_lines(text: DeepseekV41TextConfig, layer: usize) -> Seq<Line> {
    block_lines(
        text,
        layer_name(layer as nat),
        Category::BackboneLayer(layer),
        Some(layer),
        text.n_routed_experts,
    ) + source_lines(text, layer) + indexer_lines(text, layer) + engram_lines(text, layer)
}

/// All tensors of the first `layers` layers.
pub open spec fn layers_lines(text: DeepseekV41TextConfig, layers: nat) -> Seq<Line>
    decreases layers,
{
    if layers == 0 {
        Seq::empty()
    } else {
        layers_lines(text, (layers - 1) as nat) + layer_lines(text, (layers - 1) as usize)
    }
}

fn append_layers(list: &mut Vec<Blueprint>, text: &DeepseekV41TextConfig)
    requires
        text.dimensions_fit(),
    ensures
        lines(final(list)@) == lines(old(list)@) + layers_lines(
            *text,
            text.num_hidden_layers as nat,
        ),
{
    let ghost before = lines(list@);
    let mut layer: usize = 0;
    assert(lines(list@) =~= before + layers_lines(*text, 0));
    while layer < text.num_hidden_layers
        invariant
            text.dimensions_fit(),
            layer <= text.num_hidden_layers,
            lines(list@) == before + layers_lines(*text, layer as nat),
        decreases text.num_hidden_layers - layer,
    {
        let ghost so_far = lines(list@);
        let prefix = join_number("layers.", layer);
        append_block(
            list,
            text,
            prefix.as_str(),
            Category::BackboneLayer(layer),
            Some(layer),
            text.n_routed_experts,
        );
        append_source(list, text, layer);
        append_indexer(list, text, layer);
        append_engram(list, text, layer);
        proof {
            assert(lines(list@) =~= so_far + layer_lines(*text, layer));
            assert(before + layers_lines(*text, layer as nat) + layer_lines(*text, layer)
                =~= before + (layers_lines(*text, layer as nat) + layer_lines(*text, layer)));
        }
        layer = layer + 1;
    }
}


/// The tensors of one image block.
pub open spec fn vision_block_lines(vision: DeepseekV41VisionConfig, prefix: Seq<char>) -> Seq<Line> {
    seq![
        plain(prefix + ".norm1.weight"@, DType::Bf16, seq![vision.hidden_size], Category::Vision),
        plain(prefix + ".norm2.weight"@, DType::Bf16, seq![vision.hidden_size], Category::Vision),
        plain(prefix + ".attn.wqkv.weight"@, DType::Bf16, seq![(3 * vision.hidden_size) as usize, vision.hidden_size], Category::Vision),
        plain(prefix + ".attn.wqkv.bias"@, DType::Bf16, seq![(3 * vision.hidden_size) as usize], Category::Vision),
        plain(prefix + ".attn.wo.weight"@, DType::Bf16, seq![vision.hidden_size, vision.hidden_size], Category::Vision),
        plain(prefix + ".attn.wo.bias"@, DType::Bf16, seq![vision.hidden_size], Category::Vision),
        plain(prefix + ".mlp.w1.weight"@, DType::Bf16, seq![(2 * vision.intermediate_size) as usize, vision.hidden_size], Category::Vision),
        plain(prefix + ".mlp.w2.weight"@, DType::Bf16, seq![vision.hidden_size, vision.intermediate_size], Category::Vision),
    ]
}

fn append_vision_block(list: &mut Vec<Blueprint>, vision: &DeepseekV41VisionConfig, prefix: &str)
    requires
        vision.dimensions_fit(),
    ensures
        lines(final(list)@) == lines(old(list)@) + vision_block_lines(*vision, prefix@),
{
    let ghost before = lines(list@);

    push(list, stem(prefix, ".norm1.weight"), DType::Bf16, one(vision.hidden_size), Category::Vision);
    push(list, stem(prefix, ".norm2.weight"), DType::Bf16, one(vision.hidden_size), Category::Vision);
    push(list, stem(prefix, ".attn.wqkv.weight"), DType::Bf16, two(3 * vision.hidden_size, vision.hidden_size), Category::Vision);
    push(list, stem(prefix, ".attn.wqkv.bias"), DType::Bf16, one(3 * vision.hidden_size), Category::Vision);
    push(list, stem(prefix, ".attn.wo.weight"), DType::Bf16, two(vision.hidden_size, vision.hidden_size), Category::Vision);
    push(list, stem(prefix, ".attn.wo.bias"), DType::Bf16, one(vision.hidden_size), Category::Vision);
    push(list, stem(prefix, ".mlp.w1.weight"), DType::Bf16, two(2 * vision.intermediate_size, vision.hidden_size), Category::Vision);
    push(list, stem(prefix, ".mlp.w2.weight"), DType::Bf16, two(vision.hidden_size, vision.intermediate_size), Category::Vision);
    assert(lines(list@) =~= before + vision_block_lines(*vision, prefix@));
}

/// The tensors of the first `blocks` image blocks.
pub open spec fn vision_blocks_lines(vision: DeepseekV41VisionConfig, blocks: nat) -> Seq<Line>
    decreases blocks,
{
    if blocks == 0 {
        Seq::empty()
    } else {
        vision_blocks_lines(vision, (blocks - 1) as nat) + vision_block_lines(
            vision,
            "vision.blocks."@ + text::decimal((blocks - 1) as nat),
        )
    }
}

/// All tensors of the image encoder.
pub open spec fn vision_lines(vision: DeepseekV41VisionConfig) -> Seq<Line> {
    let patch = (3 * vision.patch_size * vision.patch_size) as usize;
    seq![
        plain(
            "vision.patch_embed.proj.weight"@,
            DType::Bf16,
            seq![vision.hidden_size, patch],
            Category::Vision,
        ),
        plain(
            "vision.patch_embed.proj.bias"@,
            DType::Bf16,
            seq![vision.hidden_size],
            Category::Vision,
        ),
    ] + vision_blocks_lines(vision, vision.num_hidden_layers as nat) + seq![
        plain("vision.norm.weight"@, DType::Bf16, seq![vision.hidden_size], Category::Vision),
    ]
}

fn append_vision(list: &mut Vec<Blueprint>, vision: &DeepseekV41VisionConfig)
    requires
        vision.dimensions_fit(),
    ensures
        lines(final(list)@) == lines(old(list)@) + vision_lines(*vision),
{
    let ghost before = lines(list@);
    let patch: usize = 3 * vision.patch_size * vision.patch_size;
    push(
        list,
        "vision.patch_embed.proj.weight".to_owned(),
        DType::Bf16,
        two(vision.hidden_size, patch),
        Category::Vision,
    );
    push(
        list,
        "vision.patch_embed.proj.bias".to_owned(),
        DType::Bf16,
        one(vision.hidden_size),
        Category::Vision,
    );
    let ghost front = lines(list@);
    let mut block: usize = 0;
    assert(front =~= front + vision_blocks_lines(*vision, 0));
    while block < vision.num_hidden_layers
        invariant
            vision.dimensions_fit(),
            block <= vision.num_hidden_layers,
            lines(list@) == front + vision_blocks_lines(*vision, block as nat),
        decreases vision.num_hidden_layers - block,
    {
        let ghost so_far = vision_blocks_lines(*vision, block as nat);
        let prefix = join_number("vision.blocks.", block);
        append_vision_block(list, vision, prefix.as_str());
        assert(front + so_far + vision_block_lines(*vision, prefix@) =~= front + (so_far
            + vision_block_lines(*vision, prefix@)));
        block = block + 1;
    }
    push(
        list,
        "vision.norm.weight".to_owned(),
        DType::Bf16,
        one(vision.hidden_size),
        Category::Vision,
    );
    assert(lines(list@) =~= before + vision_lines(*vision));
}

/// All tensors of the first `stages` draft stages.
pub open spec fn stages_lines(text: DeepseekV41TextConfig, stages: nat) -> Seq<Line>
    decreases stages,
{
    if stages == 0 {
        Seq::empty()
    } else {
        stages_lines(text, (stages - 1) as nat) + block_lines(
            text,
            "mtp."@ + text::decimal((stages - 1) as nat),
            Category::DSpark,
            None,
            text.dspark_n_routed_experts,
        )
    }
}

fn append_stages(list: &mut Vec<Blueprint>, text: &DeepseekV41TextConfig)
    requires
        text.dimensions_fit(),
    ensures
        lines(final(list)@) == lines(old(list)@) + stages_lines(
            *text,
            text.num_nextn_predict_layers as nat,
        ),
{
    let ghost before = lines(list@);
    let mut stage: usize = 0;
    assert(lines(list@) =~= before + stages_lines(*text, 0));
    while stage < text.num_nextn_predict_layers
        invariant
            text.dimensions_fit(),
            stage <= text.num_nextn_predict_layers,
            lines(list@) == before + stages_lines(*text, stage as nat),
        decreases text.num_nextn_predict_layers - stage,
    {
        let ghost so_far = stages_lines(*text, stage as nat);
        let prefix = join_number("mtp.", stage);
        append_block(
            list,
            text,
            prefix.as_str(),
            Category::DSpark,
            None,
            text.dspark_n_routed_experts,
        );
        proof {
            let block = block_lines(
                *text,
                prefix@,
                Category::DSpark,
                None,
                text.dspark_n_routed_experts,
            );
            assert(before + so_far + block =~= before + (so_far + block));
        }
        stage = stage + 1;
    }
}

/// What draft stages share: the projection into the first and the heads of the last.
pub open spec fn stage_head_lines(text: DeepseekV41TextConfig) -> Seq<Line> {
    let last = "mtp."@ + text::decimal((text.num_nextn_predict_layers - 1) as nat);
    let markov = seq![text.vocab_size, text.dspark_markov_rank];
    mx_lines(
        "mtp.0.main_proj"@,
        text.hidden_size,
        (text.hidden_size * text.dspark_target_layer_ids@.len()) as usize,
        Category::DSpark,
    ) + seq![
        plain(
            "mtp.0.main_norm.weight"@,
            DType::Bf16,
            seq![text.hidden_size],
            Category::DSpark,
        ),
        plain(last + ".norm.weight"@, DType::Bf16, seq![text.hidden_size], Category::DSpark),
        plain(last + ".markov_head.embed.weight"@, DType::Bf16, markov, Category::DSpark),
        plain(last + ".markov_head.head.weight"@, DType::Bf16, markov, Category::DSpark),
        plain(
            last + ".confidence_head.proj.weight"@,
            DType::Bf16,
            seq![1usize, (text.hidden_size + text.dspark_markov_rank) as usize],
            Category::DSpark,
        ),
    ]
}

fn append_stage_heads(list: &mut Vec<Blueprint>, text: &DeepseekV41TextConfig)
    requires
        text.dimensions_fit(),
    ensures
        lines(final(list)@) == lines(old(list)@) + stage_head_lines(*text),
{
    let ghost before = lines(list@);
    append_mx_matrix(
        list,
        "mtp.0.main_proj".to_owned(),
        text.hidden_size,
        text.hidden_size * text.dspark_target_layer_ids.len(),
        Category::DSpark,
    );
    push(
        list,
        "mtp.0.main_norm.weight".to_owned(),
        DType::Bf16,
        one(text.hidden_size),
        Category::DSpark,
    );
    let last = join_number("mtp.", text.num_nextn_predict_layers - 1);
    push(
        list,
        join(last.as_str(), ".norm.weight"),
        DType::Bf16,
        one(text.hidden_size),
        Category::DSpark,
    );
    push(
        list,
        join(last.as_str(), ".markov_head.embed.weight"),
        DType::Bf16,
        two(text.vocab_size, text.dspark_markov_rank),
        Category::DSpark,
    );
    push(
        list,
        join(last.as_str(), ".markov_head.head.weight"),
        DType::Bf16,
        two(text.vocab_size, text.dspark_markov_rank),
        Category::DSpark,
    );
    push(
        list,
        join(last.as_str(), ".confidence_head.proj.weight"),
        DType::Bf16,
        two(1, text.hidden_size + text.dspark_markov_rank),
        Category::DSpark,
    );
    assert(lines(list@) =~= before + stage_head_lines(*text));
}

/// All tensors behind the roots. The width behind the downsampling is given.
pub open spec fn body_lines(config: DeepseekV41Config, unshuffle: usize) -> Seq<Line> {
    let text = config.text_config;
    aligner_lines(text, unshuffle) + layers_lines(text, text.num_hidden_layers as nat)
        + vision_lines(config.vision_config) + stages_lines(
        text,
        text.num_nextn_predict_layers as nat,
    ) + stage_head_lines(text)
}

/// Lists the tensors that stand before everything else.
pub fn list_roots(config: &DeepseekV41Config) -> (list: Vec<Blueprint>)
    ensures
        lines(list@) == root_lines(config.text_config),
{
    let mut list: Vec<Blueprint> = Vec::new();
    append_root(&mut list, &config.text_config);
    assert(lines(list@) =~= root_lines(config.text_config));
    list
}

/// Lists all tensors behind the roots.
pub fn list_body(config: &DeepseekV41Config, unshuffle: usize) -> (list: Vec<Blueprint>)
    requires
        dimensions_fit(*config),
    ensures
        lines(list@) == body_lines(*config, unshuffle),
{
    let text = &config.text_config;
    let mut list: Vec<Blueprint> = Vec::new();
    append_aligner(&mut list, text, unshuffle);
    append_layers(&mut list, text);
    append_vision(&mut list, &config.vision_config);
    append_stages(&mut list, text);
    append_stage_heads(&mut list, text);
    assert(lines(list@) =~= body_lines(*config, unshuffle));
    list
}

/// A line counts towards a layer and an expert that there are.
pub open spec fn counted(category: Category, layers: nat, experts: nat) -> bool {
    match category {
        Category::BackboneLayer(layer) => layer < layers,
        Category::EngramOther(layer) => layer < layers,
        Category::Expert(layer, expert) => layer < layers && expert < experts,
        _ => true,
    }
}

pub open spec fn all_counted(list: Seq<Line>, layers: nat, experts: nat) -> bool {
    forall|i: int| 0 <= i < list.len() ==> counted((#[trigger] list[i]).category, layers, experts)
}

proof fn lemma_both_counted(left: Seq<Line>, right: Seq<Line>, layers: nat, experts: nat)
    requires
        all_counted(left, layers, experts),
        all_counted(right, layers, experts),
    ensures
        all_counted(left + right, layers, experts),
{
    let both = left + right;
    assert forall|i: int| 0 <= i < both.len() implies counted(
        (#[trigger] both[i]).category,
        layers,
        experts,
    ) by {
        if i < left.len() {
            assert(both[i] == left[i]);
        } else {
            assert(both[i] == right[i - left.len()]);
        }
    }
}

proof fn lemma_experts_counted(
    text: DeepseekV41TextConfig,
    prefix: Seq<char>,
    count: nat,
    layer: Option<usize>,
    layers: nat,
    experts: nat,
)
    requires
        layer is Some ==> layer->Some_0 < layers && count <= experts && count <= usize::MAX,
    ensures
        all_counted(experts_lines(text, prefix, count, layer), layers, experts),
    decreases count,
{
    if count > 0 {
        let last = (count - 1) as nat;
        lemma_experts_counted(text, prefix, last, layer, layers, experts);
        lemma_both_counted(
            experts_lines(text, prefix, last, layer),
            expert_lines(text, prefix, last, layer),
            layers,
            experts,
        );
    }
}

proof fn lemma_block_counted(
    text: DeepseekV41TextConfig,
    prefix: Seq<char>,
    category: Category,
    layer: Option<usize>,
    routed: usize,
    layers: nat,
    experts: nat,
)
    requires
        counted(category, layers, experts),
        layer is Some ==> layer->Some_0 < layers && routed <= experts,
    ensures
        all_counted(block_lines(text, prefix, category, layer, routed), layers, experts),
{
    let front = front_lines(text, prefix, category);
    let attention = attention_lines(text, prefix, category);
    let router = router_lines(text, prefix, category, routed);
    lemma_experts_counted(text, prefix, routed as nat, layer, layers, experts);
    lemma_both_counted(front, attention, layers, experts);
    lemma_both_counted(front + attention, router, layers, experts);
    lemma_both_counted(
        front + attention + router,
        experts_lines(text, prefix, routed as nat, layer),
        layers,
        experts,
    );
}

proof fn lemma_layers_counted(text: DeepseekV41TextConfig, count: nat, layers: nat)
    requires
        count <= layers <= usize::MAX,
    ensures
        all_counted(layers_lines(text, count), layers, text.n_routed_experts as nat),
    decreases count,
{
    let experts = text.n_routed_experts as nat;
    if count > 0 {
        let last = (count - 1) as usize;
        lemma_layers_counted(text, (count - 1) as nat, layers);
        let block = block_lines(
            text,
            layer_name(last as nat),
            Category::BackboneLayer(last),
            Some(last),
            text.n_routed_experts,
        );
        lemma_block_counted(
            text,
            layer_name(last as nat),
            Category::BackboneLayer(last),
            Some(last),
            text.n_routed_experts,
            layers,
            experts,
        );
        lemma_both_counted(block, source_lines(text, last), layers, experts);
        lemma_both_counted(
            block + source_lines(text, last),
            indexer_lines(text, last),
            layers,
            experts,
        );
        lemma_both_counted(
            block + source_lines(text, last) + indexer_lines(text, last),
            engram_lines(text, last),
            layers,
            experts,
        );
        lemma_both_counted(
            layers_lines(text, (count - 1) as nat),
            layer_lines(text, last),
            layers,
            experts,
        );
    }
}

proof fn lemma_vision_counted(
    vision: DeepseekV41VisionConfig,
    blocks: nat,
    layers: nat,
    experts: nat,
)
    ensures
        all_counted(vision_blocks_lines(vision, blocks), layers, experts),
    decreases blocks,
{
    if blocks > 0 {
        lemma_vision_counted(vision, (blocks - 1) as nat, layers, experts);
        lemma_both_counted(
            vision_blocks_lines(vision, (blocks - 1) as nat),
            vision_block_lines(vision, "vision.blocks."@ + text::decimal((blocks - 1) as nat)),
            layers,
            experts,
        );
    }
}

proof fn lemma_stages_counted(text: DeepseekV41TextConfig, stages: nat, layers: nat, experts: nat)
    ensures
        all_counted(stages_lines(text, stages), layers, experts),
    decreases stages,
{
    if stages > 0 {
        let prefix = "mtp."@ + text::decimal((stages - 1) as nat);
        lemma_stages_counted(text, (stages - 1) as nat, layers, experts);
        lemma_block_counted(
            text,
            prefix,
            Category::DSpark,
            None,
            text.dspark_n_routed_experts,
            layers,
            experts,
        );
        lemma_both_counted(
            stages_lines(text, (stages - 1) as nat),
            block_lines(
                text,
                prefix,
                Category::DSpark,
                None,
                text.dspark_n_routed_experts,
            ),
            layers,
            experts,
        );
    }
}

/// Every tensor of the release counts towards layers and experts of the configuration.
pub proof fn release_lines_are_counted(config: DeepseekV41Config, unshuffle: usize)
    ensures
        all_counted(
            root_lines(config.text_config),
            config.text_config.num_hidden_layers as nat,
            config.text_config.n_routed_experts as nat,
        ),
        all_counted(
            body_lines(config, unshuffle),
            config.text_config.num_hidden_layers as nat,
            config.text_config.n_routed_experts as nat,
        ),
{
    let text = config.text_config;
    let layers = text.num_hidden_layers as nat;
    let experts = text.n_routed_experts as nat;
    let aligner = aligner_lines(text, unshuffle);
    let backbone = layers_lines(text, layers);
    let blocks = vision_blocks_lines(
        config.vision_config,
        config.vision_config.num_hidden_layers as nat,
    );
    let vision = vision_lines(config.vision_config);
    let stages = stages_lines(text, text.num_nextn_predict_layers as nat);
    lemma_layers_counted(text, layers, layers);
    lemma_vision_counted(
        config.vision_config,
        config.vision_config.num_hidden_layers as nat,
        layers,
        experts,
    );
    assert(all_counted(vision, layers, experts)) by {
        assert forall|i: int| 0 <= i < vision.len() implies counted(
            (#[trigger] vision[i]).category,
            layers,
            experts,
        ) by {
            if 2 <= i < 2 + blocks.len() {
                assert(vision[i] == blocks[i - 2]);
            }
        }
    }
    lemma_stages_counted(text, text.num_nextn_predict_layers as nat, layers, experts);
    lemma_both_counted(aligner, backbone, layers, experts);
    lemma_both_counted(aligner + backbone, vision, layers, experts);
    lemma_both_counted(aligner + backbone + vision, stages, layers, experts);
    lemma_both_counted(
        aligner + backbone + vision + stages,
        stage_head_lines(text),
        layers,
        experts,
    );
}

/// The parts of a value are as many as cover it, and no more.
pub proof fn parts_cover_the_value(value: usize, size: usize)
    requires
        size > 0,
    ensures
        parts(value, size) * size >= value,
        value > 0 ==> (parts(value, size) - 1) * size < value,
        value == 0 ==> parts(value, size) == 0,
{
    lemma_parts_small(value, size);
    let whole = (value + size - 1) / size as int;
    let rest = (value + size - 1) % size as int;
    vstd::arithmetic::div_mod::lemma_fundamental_div_mod(value + size - 1, size as int);
    vstd::arithmetic::div_mod::lemma_mod_bound(value + size - 1, size as int);
    assert(0 <= whole <= value) by (nonlinear_arith)
        requires
            value + size - 1 == size * whole + rest,
            0 <= rest < size,
            size > 0,
            value >= 0,
    ;
    assert(whole * size >= value && (value > 0 ==> (whole - 1) * size < value)) by (nonlinear_arith)
        requires
            value + size - 1 == size * whole + rest,
            0 <= rest < size,
    ;
}

/// A matrix of eight-bit floats has a scale for every square of thirty-two by thirty-two values, one of
/// packed four-bit floats has two values in a byte and a scale for every thirty-two of a row. Scales
/// are no parameters, and a packed matrix has as many as values.
pub proof fn matrices_have_their_scales(
    base: Seq<char>,
    rows: usize,
    cols: usize,
    category: Category,
)
    ensures
        ({
            let wide = mx_lines(base, rows, cols, category);
            let packed = packed_lines(base, rows, cols, category);
            &&& wide.len() == 2 && packed.len() == 2
            &&& wide[0].name == base + ".weight"@ && wide[1].name == base + ".scale"@
            &&& packed[0].name == base + ".weight"@ && packed[1].name == base + ".scale"@
            &&& wide[0].dtype == DType::F8E4M3 && wide[1].dtype == DType::F8E8M0
            &&& packed[0].dtype == DType::I8 && packed[1].dtype == DType::F8E8M0
            &&& wide[0].shape == seq![rows, cols]
            &&& wide[1].shape == seq![parts(rows, 32), parts(cols, 32)]
            &&& packed[0].shape == seq![rows, parts(cols, 2)]
            &&& packed[1].shape == seq![rows, parts(cols, 32)]
            &&& wide[0].logical is Elements && wide[1].logical is Scale
            &&& packed[0].logical == (Logical::Packed { rows, cols }) && packed[1].logical is Scale
            &&& wide[0].category == category && wide[1].category == category
            &&& packed[0].category == category && packed[1].category == category
        }),
{
}

/// A layer of the release holds thirty tensors beside its routed experts and six for each of those. One
/// that owns entries holds two more, and a gate where it compresses; one that ranks entries holds
/// three more, and two for its keys where it owns them; one that reads n-grams holds six more.
pub proof fn layers_hold_their_tensors(text: DeepseekV41TextConfig, layer: usize)
    ensures
        ({
            let owns = text.kv_source_layer_ids@.contains(layer);
            let ranks = text.index_source_layer_ids@.contains(layer);
            layer_lines(text, layer).len() == 30 + 6 * text.n_routed_experts + (if owns {
                2int
            } else {
                0
            }) + (if owns && text.compress_ratios@[layer as int] > 1 {
                1int
            } else {
                0
            }) + (if ranks {
                3int
            } else {
                0
            }) + (if ranks && owns {
                2int
            } else {
                0
            }) + (if text.engram_layer_ids@.contains(layer) {
                6int
            } else {
                0
            })
        }),
{
    lemma_expert_line_count(
        text,
        layer_name(layer as nat),
        text.n_routed_experts as nat,
        Some(layer),
    );
    lemma_place_is_held(text.engram_layer_ids@, layer);
}

proof fn lemma_expert_line_count(
    text: DeepseekV41TextConfig,
    prefix: Seq<char>,
    experts: nat,
    layer: Option<usize>,
)
    ensures
        experts_lines(text, prefix, experts, layer).len() == 6 * experts,
    decreases experts,
{
    if experts > 0 {
        lemma_expert_line_count(text, prefix, (experts - 1) as nat, layer);
    }
}

proof fn lemma_place_is_held(list: Seq<usize>, value: usize)
    ensures
        first_place(list, value) is Some <==> list.contains(value),
        first_place(list, value) matches Some(at) ==> 0 <= at < list.len() && list[at] == value,
    decreases list.len(),
{
    if list.len() > 0 {
        let front = list.drop_last();
        lemma_place_is_held(front, value);
        if front.contains(value) {
            let at = choose|at: int| 0 <= at < front.len() && front[at] == value;
            assert(list[at] == value);
        }
        assert(list[list.len() - 1] == list.last());
        if list.contains(value) && list.last() != value {
            let at = choose|at: int| 0 <= at < list.len() && list[at] == value;
            assert(front[at] == value);
        }
    }
}

/// Whether a list holds a tensor.
pub open spec fn is_listed(
    list: Seq<Line>,
    name: Seq<char>,
    dtype: DType,
    shape: Seq<usize>,
    category: Category,
    logical: Logical,
) -> bool {
    exists|j: int|
        0 <= j < list.len() && (#[trigger] list[j]).name == name && list[j].dtype == dtype
            && list[j].shape == shape && list[j].category == category && list[j].logical == logical
}

/// Whether a list holds a matrix of eight-bit floats and the scales of its squares.
pub open spec fn is_listed_scaled(
    list: Seq<Line>,
    base: Seq<char>,
    rows: usize,
    cols: usize,
    category: Category,
) -> bool {
    &&& is_listed(
        list,
        base + ".weight"@,
        DType::F8E4M3,
        seq![rows, cols],
        category,
        Logical::Elements,
    )
    &&& is_listed(
        list,
        base + ".scale"@,
        DType::F8E8M0,
        seq![parts(rows, 32), parts(cols, 32)],
        category,
        Logical::Scale,
    )
}

/// Whether a list holds a matrix of packed four-bit floats and the scales of its rows.
pub open spec fn is_listed_packed(
    list: Seq<Line>,
    base: Seq<char>,
    rows: usize,
    cols: usize,
    category: Category,
) -> bool {
    &&& is_listed(
        list,
        base + ".weight"@,
        DType::I8,
        seq![rows, parts(cols, 2)],
        category,
        Logical::Packed { rows, cols },
    )
    &&& is_listed(
        list,
        base + ".scale"@,
        DType::F8E8M0,
        seq![rows, parts(cols, 32)],
        category,
        Logical::Scale,
    )
}

proof fn lemma_scaled(
    list: Seq<Line>,
    at: int,
    base: Seq<char>,
    rows: usize,
    cols: usize,
    category: Category,
)
    requires
        0 <= at,
        at + 1 < list.len(),
        list[at] == mx_lines(base, rows, cols, category)[0],
        list[at + 1] == mx_lines(base, rows, cols, category)[1],
    ensures
        is_listed_scaled(list, base, rows, cols, category),
{
    assert(list[at].shape =~= seq![rows, cols]);
    assert(list[at + 1].shape =~= seq![parts(rows, 32), parts(cols, 32)]);
}

/// Every block lists its mixing functions, norms and sinks, the matrices of its attention, its router
/// and its shared expert, under their names and in their shapes.
pub proof fn blocks_list_their_tensors(
    text: DeepseekV41TextConfig,
    prefix: Seq<char>,
    category: Category,
    layer: Option<usize>,
    routed: usize,
)
    ensures
        ({
            let lines = block_lines(text, prefix, category, layer, routed);
            let mix = ((2 + text.hc_mult) * text.hc_mult) as usize;
            let wide = (text.hc_mult * text.hidden_size) as usize;
            let width = (text.num_attention_heads * text.head_dim) as usize;
            let low_rank = (text.o_groups * text.o_lora_rank) as usize;
            let group = (width as int / text.o_groups as int) as usize;
            &&& is_listed(lines, prefix + ".hc_attn_fn"@, DType::F32, seq![mix, wide], category, Logical::Elements)
            &&& is_listed(lines, prefix + ".hc_attn_base"@, DType::F32, seq![mix], category, Logical::Elements)
            &&& is_listed(lines, prefix + ".hc_attn_scale"@, DType::F32, seq![3usize], category, Logical::Elements)
            &&& is_listed(lines, prefix + ".hc_ffn_fn"@, DType::F32, seq![mix, wide], category, Logical::Elements)
            &&& is_listed(lines, prefix + ".hc_ffn_base"@, DType::F32, seq![mix], category, Logical::Elements)
            &&& is_listed(lines, prefix + ".hc_ffn_scale"@, DType::F32, seq![3usize], category, Logical::Elements)
            &&& is_listed(lines, prefix + ".attn_norm.weight"@, DType::Bf16, seq![text.hidden_size], category, Logical::Elements)
            &&& is_listed(lines, prefix + ".ffn_norm.weight"@, DType::Bf16, seq![text.hidden_size], category, Logical::Elements)
            &&& is_listed(lines, prefix + ".attn.q_norm.weight"@, DType::Bf16, seq![text.q_lora_rank], category, Logical::Elements)
            &&& is_listed(lines, prefix + ".attn.kv_norm.weight"@, DType::Bf16, seq![text.head_dim], category, Logical::Elements)
            &&& is_listed(lines, prefix + ".attn.attn_sink"@, DType::F32, seq![text.num_attention_heads], category, Logical::Elements)
            &&& is_listed_scaled(lines, prefix + ".attn.wq_a"@, text.q_lora_rank, text.hidden_size, category)
            &&& is_listed_scaled(lines, prefix + ".attn.wq_b"@, width, text.q_lora_rank, category)
            &&& is_listed_scaled(lines, prefix + ".attn.wkv"@, text.head_dim, text.hidden_size, category)
            &&& is_listed_scaled(lines, prefix + ".attn.wo_a"@, low_rank, group, category)
            &&& is_listed_scaled(lines, prefix + ".attn.wo_b"@, text.hidden_size, low_rank, category)
            &&& is_listed(lines, prefix + ".ffn.gate.weight"@, DType::Bf16, seq![routed, text.hidden_size], category, Logical::Elements)
            &&& is_listed(lines, prefix + ".ffn.gate.bias"@, DType::F32, seq![routed], category, Logical::Elements)
            &&& is_listed(lines, prefix + ".ffn.gate.bias_vl"@, DType::F32, seq![routed], category, Logical::Elements)
            &&& is_listed_scaled(lines, prefix + ".ffn.shared_experts.w1"@, text.moe_intermediate_size, text.hidden_size, category)
            &&& is_listed_scaled(lines, prefix + ".ffn.shared_experts.w3"@, text.moe_intermediate_size, text.hidden_size, category)
            &&& is_listed_scaled(lines, prefix + ".ffn.shared_experts.w2"@, text.hidden_size, text.moe_intermediate_size, category)
        }),
{
    let lines = block_lines(text, prefix, category, layer, routed);
    let mix = ((2 + text.hc_mult) * text.hc_mult) as usize;
    let wide = (text.hc_mult * text.hidden_size) as usize;
    let width = (text.num_attention_heads * text.head_dim) as usize;
    let low_rank = (text.o_groups * text.o_lora_rank) as usize;
    let group = (width as int / text.o_groups as int) as usize;
    let front = front_lines(text, prefix, category);
    let attention = attention_lines(text, prefix, category);
    let router = router_lines(text, prefix, category, routed);
    assert(front.len() == 11 && attention.len() == 10 && router.len() == 9);
    assert forall|k: int| 0 <= k < 11 implies lines[k] == #[trigger] front[k] by {}
    assert forall|k: int| 0 <= k < 10 implies lines[11 + k] == #[trigger] attention[k] by {}
    assert forall|k: int| 0 <= k < 9 implies lines[21 + k] == #[trigger] router[k] by {}
    assert(lines[0].shape =~= seq![mix, wide]);
    assert(lines[1].shape =~= seq![mix]);
    assert(lines[2].shape =~= seq![3usize]);
    assert(lines[3].shape =~= seq![mix, wide]);
    assert(lines[4].shape =~= seq![mix]);
    assert(lines[5].shape =~= seq![3usize]);
    assert(lines[6].shape =~= seq![text.hidden_size]);
    assert(lines[7].shape =~= seq![text.hidden_size]);
    assert(lines[8].shape =~= seq![text.q_lora_rank]);
    assert(lines[9].shape =~= seq![text.head_dim]);
    assert(lines[10].shape =~= seq![text.num_attention_heads]);
    lemma_scaled(lines, 11, prefix + ".attn.wq_a"@, text.q_lora_rank, text.hidden_size, category);
    lemma_scaled(lines, 13, prefix + ".attn.wq_b"@, width, text.q_lora_rank, category);
    lemma_scaled(lines, 15, prefix + ".attn.wkv"@, text.head_dim, text.hidden_size, category);
    lemma_scaled(lines, 17, prefix + ".attn.wo_a"@, low_rank, group, category);
    lemma_scaled(lines, 19, prefix + ".attn.wo_b"@, text.hidden_size, low_rank, category);
    assert(lines[21].shape =~= seq![routed, text.hidden_size]);
    assert(lines[22].shape =~= seq![routed]);
    assert(lines[23].shape =~= seq![routed]);
    lemma_scaled(lines, 24, prefix + ".ffn.shared_experts.w1"@, text.moe_intermediate_size, text.hidden_size, category);
    lemma_scaled(lines, 26, prefix + ".ffn.shared_experts.w3"@, text.moe_intermediate_size, text.hidden_size, category);
    lemma_scaled(lines, 28, prefix + ".ffn.shared_experts.w2"@, text.hidden_size, text.moe_intermediate_size, category);
}

/// Every routed expert of a block lists its three matrices, and is counted as itself in a layer.
pub proof fn blocks_list_every_expert(
    text: DeepseekV41TextConfig,
    prefix: Seq<char>,
    category: Category,
    layer: Option<usize>,
    routed: usize,
    expert: usize,
)
    requires
        expert < routed,
    ensures
        ({
            let lines = block_lines(text, prefix, category, layer, routed);
            let base = prefix + ".ffn.experts."@ + text::decimal(expert as nat);
            let own = match layer {
                Some(layer) => Category::Expert(layer, expert),
                None => Category::DSpark,
            };
            let inner = text.moe_intermediate_size;
            &&& is_listed_packed(lines, base + ".w1"@, inner, text.hidden_size, own)
            &&& is_listed_packed(lines, base + ".w2"@, text.hidden_size, inner, own)
            &&& is_listed_packed(lines, base + ".w3"@, inner, text.hidden_size, own)
        }),
{
    let lines = block_lines(text, prefix, category, layer, routed);
    let list = experts_lines(text, prefix, routed as nat, layer);
    let own = expert_lines(text, prefix, expert as nat, layer);
    let before = front_lines(text, prefix, category) + attention_lines(text, prefix, category)
        + router_lines(text, prefix, category, routed);
    lemma_expert_line_count(text, prefix, routed as nat, layer);
    lemma_expert_stands(text, prefix, routed as nat, layer, expert as nat);
    let at = before.len() + 6 * expert;
    assert forall|k: int| 0 <= k < 6 implies lines[at + k] == #[trigger] own[k] by {
        assert(list[6 * expert + k] == own[k]);
    }
    let inner = text.moe_intermediate_size;
    let hidden = text.hidden_size;
    assert(own[0].shape =~= seq![inner, parts(hidden, 2)]);
    assert(lines[at] == own[0]);
    assert(own[1].shape =~= seq![inner, parts(hidden, 32)]);
    assert(lines[at + 1] == own[1]);
    assert(own[2].shape =~= seq![hidden, parts(inner, 2)]);
    assert(lines[at + 2] == own[2]);
    assert(own[3].shape =~= seq![hidden, parts(inner, 32)]);
    assert(lines[at + 3] == own[3]);
    assert(own[4].shape =~= seq![inner, parts(hidden, 2)]);
    assert(lines[at + 4] == own[4]);
    assert(own[5].shape =~= seq![inner, parts(hidden, 32)]);
    assert(lines[at + 5] == own[5]);
}

proof fn lemma_expert_stands(
    text: DeepseekV41TextConfig,
    prefix: Seq<char>,
    experts: nat,
    layer: Option<usize>,
    expert: nat,
)
    requires
        expert < experts,
    ensures
        experts_lines(text, prefix, experts, layer).len() == 6 * experts,
        forall|k: int|
            0 <= k < 6 ==> experts_lines(text, prefix, experts, layer)[6 * expert + k]
                == #[trigger] expert_lines(text, prefix, expert, layer)[k],
    decreases experts,
{
    let before = (experts - 1) as nat;
    lemma_expert_line_count(text, prefix, experts, layer);
    lemma_expert_line_count(text, prefix, before, layer);
    assert(expert_lines(text, prefix, expert, layer).len() == 6);
    if expert < before {
        lemma_expert_stands(text, prefix, before, layer, expert);
        assert forall|k: int| 0 <= k < 6 implies experts_lines(text, prefix, experts, layer)[6
            * expert + k] == #[trigger] expert_lines(text, prefix, expert, layer)[k] by {
            assert(experts_lines(text, prefix, before, layer)[6 * expert + k] == expert_lines(
                text,
                prefix,
                expert,
                layer,
            )[k]);
        }
    }
}

/// A layer that owns entries lists its compressor, with a gate where it compresses; one that ranks them
/// lists its indexer, with its keys where it owns them; one that reads n-grams lists its table and its
/// mixing. No other layer lists any of them.
pub proof fn layers_list_what_they_own(text: DeepseekV41TextConfig, layer: usize)
    ensures
        ({
            let own = Category::BackboneLayer(layer);
            let stem = "layers."@ + text::decimal(layer as nat);
            let owns = text.kv_source_layer_ids@.contains(layer);
            let ranks = text.index_source_layer_ids@.contains(layer);
            let source = source_lines(text, layer);
            let indexer = indexer_lines(text, layer);
            let compressor = stem + ".attn.compressor"@;
            let index = stem + ".attn.indexer"@;
            &&& !owns ==> source.len() == 0
            &&& owns ==> {
                &&& is_listed(source, compressor + ".norm.weight"@, DType::Bf16, seq![text.head_dim], own, Logical::Elements)
                &&& is_listed(source, compressor + ".wkv.weight"@, DType::Bf16, seq![text.head_dim, text.hidden_size], own, Logical::Elements)
                &&& text.compress_ratios@[layer as int] > 1 ==> is_listed(source, compressor + ".wgate.weight"@, DType::Bf16, seq![text.head_dim, text.hidden_size], own, Logical::Elements)
                &&& text.compress_ratios@[layer as int] <= 1 ==> source.len() == 2
            }
            &&& !ranks ==> indexer.len() == 0
            &&& ranks ==> {
                &&& is_listed_scaled(indexer, index + ".wq_b"@, (text.index_n_heads * text.index_head_dim) as usize, text.q_lora_rank, own)
                &&& is_listed(indexer, index + ".weights_proj.weight"@, DType::Bf16, seq![text.index_n_heads, text.hidden_size], own, Logical::Elements)
                &&& owns ==> is_listed(indexer, index + ".wk.weight"@, DType::Bf16, seq![text.index_head_dim, text.head_dim], own, Logical::Elements)
                &&& owns ==> is_listed(indexer, index + ".k_norm.weight"@, DType::Bf16, seq![text.index_head_dim], own, Logical::Elements)
                &&& !owns ==> indexer.len() == 3
            }
        }),
{
    let own = Category::BackboneLayer(layer);
    let source = source_lines(text, layer);
    let indexer = indexer_lines(text, layer);
    let index = "layers."@ + text::decimal(layer as nat) + ".attn.indexer"@;
    if text.kv_source_layer_ids@.contains(layer) {
        assert(source[0].shape =~= seq![text.head_dim]);
        assert(source[1].shape =~= seq![text.head_dim, text.hidden_size]);
        if text.compress_ratios@[layer as int] > 1 {
            assert(source[2].shape =~= seq![text.head_dim, text.hidden_size]);
        }
    }
    if text.index_source_layer_ids@.contains(layer) {
        lemma_scaled(
            indexer,
            0,
            index + ".wq_b"@,
            (text.index_n_heads * text.index_head_dim) as usize,
            text.q_lora_rank,
            own,
        );
        assert(indexer[2].shape =~= seq![text.index_n_heads, text.hidden_size]);
        if text.kv_source_layer_ids@.contains(layer) {
            assert(indexer[3].shape =~= seq![text.index_head_dim, text.head_dim]);
            assert(indexer[4].shape =~= seq![text.index_head_dim]);
        }
    }
}

/// A layer that reads n-grams lists its table, with as many rows as it was given, the weights of its
/// gates and the projection of what it looked up.
pub proof fn engram_layers_list_their_table(text: DeepseekV41TextConfig, layer: usize, place: int)
    requires
        text.engram_layer_ids@.no_duplicates(),
        0 <= place < text.engram_layer_ids@.len(),
        text.engram_layer_ids@[place] == layer,
    ensures
        ({
            let lines = engram_lines(text, layer);
            let stem = "layers."@ + text::decimal(layer as nat) + ".engram"@;
            let own = Category::EngramOther(layer);
            let rows = text.engram_num_embeddings@[place];
            let columns = (text.engram_max_ngram_size - 1) * text.engram_n_heads;
            &&& lines.len() == 6
            &&& is_listed(lines, stem + ".embed.weight"@, DType::F8E4M3, seq![rows, text.engram_head_dim], Category::EngramTable, Logical::Elements)
            &&& is_listed(lines, stem + ".embed.scale"@, DType::F8E8M0, seq![rows, parts(text.engram_head_dim, 32)], Category::EngramTable, Logical::Scale)
            &&& is_listed(lines, stem + ".q_weight"@, DType::Bf16, seq![text.hc_mult, text.hidden_size], own, Logical::Elements)
            &&& is_listed(lines, stem + ".k_weight"@, DType::Bf16, seq![text.hc_mult, text.hidden_size], own, Logical::Elements)
            &&& is_listed_scaled(lines, stem + ".wkv"@, (text.hidden_size * (text.hc_mult + 1)) as usize, (columns * text.engram_head_dim) as usize, own)
        }),
{
    let lines = engram_lines(text, layer);
    let stem = "layers."@ + text::decimal(layer as nat) + ".engram"@;
    let rows = text.engram_num_embeddings@[place];
    let columns = (text.engram_max_ngram_size - 1) * text.engram_n_heads;
    assert(text.engram_layer_ids@.contains(layer));
    lemma_place_is_held(text.engram_layer_ids@, layer);
    assert(first_place(text.engram_layer_ids@, layer) == Some(place));
    assert(lines[0].shape =~= seq![rows, text.engram_head_dim]);
    assert(lines[1].shape =~= seq![rows, parts(text.engram_head_dim, 32)]);
    assert(lines[2].shape =~= seq![text.hc_mult, text.hidden_size]);
    assert(lines[3].shape =~= seq![text.hc_mult, text.hidden_size]);
    lemma_scaled(
        lines,
        4,
        stem + ".wkv"@,
        (text.hidden_size * (text.hc_mult + 1)) as usize,
        (columns * text.engram_head_dim) as usize,
        Category::EngramOther(layer),
    );
}

/// Every block of the vision tower lists its norms, its attention and its feed-forward part, and
/// nothing else.
pub proof fn vision_blocks_list_their_tensors(vision: DeepseekV41VisionConfig, prefix: Seq<char>)
    ensures
        ({
            let block = vision_block_lines(vision, prefix);
            &&& block.len() == 8
            &&& is_listed(block, prefix + ".norm1.weight"@, DType::Bf16, seq![vision.hidden_size], Category::Vision, Logical::Elements)
            &&& is_listed(block, prefix + ".norm2.weight"@, DType::Bf16, seq![vision.hidden_size], Category::Vision, Logical::Elements)
            &&& is_listed(block, prefix + ".attn.wqkv.weight"@, DType::Bf16, seq![(3 * vision.hidden_size) as usize, vision.hidden_size], Category::Vision, Logical::Elements)
            &&& is_listed(block, prefix + ".attn.wqkv.bias"@, DType::Bf16, seq![(3 * vision.hidden_size) as usize], Category::Vision, Logical::Elements)
            &&& is_listed(block, prefix + ".attn.wo.weight"@, DType::Bf16, seq![vision.hidden_size, vision.hidden_size], Category::Vision, Logical::Elements)
            &&& is_listed(block, prefix + ".attn.wo.bias"@, DType::Bf16, seq![vision.hidden_size], Category::Vision, Logical::Elements)
            &&& is_listed(block, prefix + ".mlp.w1.weight"@, DType::Bf16, seq![(2 * vision.intermediate_size) as usize, vision.hidden_size], Category::Vision, Logical::Elements)
            &&& is_listed(block, prefix + ".mlp.w2.weight"@, DType::Bf16, seq![vision.hidden_size, vision.intermediate_size], Category::Vision, Logical::Elements)
        }),
{
    let block = vision_block_lines(vision, prefix);
    assert(block[0].shape =~= seq![vision.hidden_size]);
    assert(block[1].shape =~= seq![vision.hidden_size]);
    assert(block[2].shape =~= seq![(3 * vision.hidden_size) as usize, vision.hidden_size]);
    assert(block[3].shape =~= seq![(3 * vision.hidden_size) as usize]);
    assert(block[4].shape =~= seq![vision.hidden_size, vision.hidden_size]);
    assert(block[5].shape =~= seq![vision.hidden_size]);
    assert(block[6].shape =~= seq![(2 * vision.intermediate_size) as usize, vision.hidden_size]);
    assert(block[7].shape =~= seq![vision.hidden_size, vision.intermediate_size]);
}

/// The roots of a model are its embedding, its head, its last norm and the marks of images; the aligner
/// has two layers, each with a bias.
pub proof fn roots_and_aligner_list_their_tensors(text: DeepseekV41TextConfig, unshuffle: usize)
    ensures
        ({
            let roots = root_lines(text);
            let aligner = aligner_lines(text, unshuffle);
            &&& roots.len() == 6 && aligner.len() == 4
            &&& is_listed(roots, "embed.weight"@, DType::Bf16, seq![text.vocab_size, text.hidden_size], Category::TokenRows, Logical::Elements)
            &&& is_listed(roots, "head.weight"@, DType::Bf16, seq![text.vocab_size, text.hidden_size], Category::TokenRows, Logical::Elements)
            &&& is_listed(roots, "norm.weight"@, DType::Bf16, seq![text.hidden_size], Category::BackboneRoot, Logical::Elements)
            &&& is_listed(roots, "image_start"@, DType::Bf16, seq![text.hidden_size], Category::Vision, Logical::Elements)
            &&& is_listed(roots, "image_end"@, DType::Bf16, seq![text.hidden_size], Category::Vision, Logical::Elements)
            &&& is_listed(roots, "image_newline"@, DType::Bf16, seq![text.hidden_size], Category::Vision, Logical::Elements)
            &&& is_listed(aligner, "aligner.w1.weight"@, DType::Bf16, seq![text.hidden_size, unshuffle], Category::Vision, Logical::Elements)
            &&& is_listed(aligner, "aligner.w1.bias"@, DType::Bf16, seq![text.hidden_size], Category::Vision, Logical::Elements)
            &&& is_listed(aligner, "aligner.w2.weight"@, DType::Bf16, seq![text.hidden_size, text.hidden_size], Category::Vision, Logical::Elements)
            &&& is_listed(aligner, "aligner.w2.bias"@, DType::Bf16, seq![text.hidden_size], Category::Vision, Logical::Elements)
        }),
{
    let roots = root_lines(text);
    let aligner = aligner_lines(text, unshuffle);
    assert(roots[0].shape =~= seq![text.vocab_size, text.hidden_size]);
    assert(roots[1].shape =~= seq![text.vocab_size, text.hidden_size]);
    assert(roots[2].shape =~= seq![text.hidden_size]);
    assert(roots[3].shape =~= seq![text.hidden_size]);
    assert(roots[4].shape =~= seq![text.hidden_size]);
    assert(roots[5].shape =~= seq![text.hidden_size]);
    assert(aligner[0].shape =~= seq![text.hidden_size, unshuffle]);
    assert(aligner[1].shape =~= seq![text.hidden_size]);
    assert(aligner[2].shape =~= seq![text.hidden_size, text.hidden_size]);
    assert(aligner[3].shape =~= seq![text.hidden_size]);
}

/// The tower lists its patches, every one of its blocks and its last norm.
pub proof fn vision_towers_list_their_blocks(vision: DeepseekV41VisionConfig, block: nat, i: int)
    requires
        block < vision.num_hidden_layers,
        0 <= i < 8,
    ensures
        ({
            let lines = vision_lines(vision);
            let patch = (3 * vision.patch_size * vision.patch_size) as usize;
            &&& lines.len() == 3 + 8 * vision.num_hidden_layers
            &&& is_listed(lines, "vision.patch_embed.proj.weight"@, DType::Bf16, seq![vision.hidden_size, patch], Category::Vision, Logical::Elements)
            &&& is_listed(lines, "vision.patch_embed.proj.bias"@, DType::Bf16, seq![vision.hidden_size], Category::Vision, Logical::Elements)
            &&& is_listed(lines, "vision.norm.weight"@, DType::Bf16, seq![vision.hidden_size], Category::Vision, Logical::Elements)
            &&& lines.contains(
                vision_block_lines(vision, "vision.blocks."@ + text::decimal(block))[i],
            )
        }),
{
    let lines = vision_lines(vision);
    let blocks = vision_blocks_lines(vision, vision.num_hidden_layers as nat);
    let patch = (3 * vision.patch_size * vision.patch_size) as usize;
    lemma_vision_blocks(vision, vision.num_hidden_layers as nat, block, i);
    assert(lines[0].shape =~= seq![vision.hidden_size, patch]);
    assert(lines[1].shape =~= seq![vision.hidden_size]);
    assert(lines[lines.len() - 1].shape =~= seq![vision.hidden_size]);
    assert(lines[2 + 8 * block + i] == blocks[8 * block + i]);
}

proof fn lemma_vision_blocks(vision: DeepseekV41VisionConfig, blocks: nat, block: nat, i: int)
    requires
        block < blocks,
        0 <= i < 8,
    ensures
        vision_blocks_lines(vision, blocks).len() == 8 * blocks,
        vision_blocks_lines(vision, blocks)[8 * block + i] == vision_block_lines(
            vision,
            "vision.blocks."@ + text::decimal(block),
        )[i],
    decreases blocks,
{
    let before = (blocks - 1) as nat;
    if before > 0 {
        lemma_vision_blocks(
            vision,
            before,
            if block < before {
                block
            } else {
                0
            },
            i,
        );
    } else {
        assert(vision_blocks_lines(vision, 0).len() == 0);
    }
}

/// The body of the release lists every layer and every attached stage whole.
pub proof fn bodies_list_every_layer(
    config: DeepseekV41Config,
    unshuffle: usize,
    layer: nat,
    i: int,
    stage: nat,
    j: int,
)
    requires
        layer < config.text_config.num_hidden_layers,
        0 <= i < layer_lines(config.text_config, layer as usize).len(),
        stage < config.text_config.num_nextn_predict_layers,
        0 <= j < block_lines(
            config.text_config,
            "mtp."@ + text::decimal(stage),
            Category::DSpark,
            None,
            config.text_config.dspark_n_routed_experts,
        ).len(),
    ensures
        body_lines(config, unshuffle).contains(layer_lines(config.text_config, layer as usize)[i]),
        body_lines(config, unshuffle).contains(
            block_lines(
                config.text_config,
                "mtp."@ + text::decimal(stage),
                Category::DSpark,
                None,
                config.text_config.dspark_n_routed_experts,
            )[j],
        ),
{
    let text = config.text_config;
    let layers = layers_lines(text, text.num_hidden_layers as nat);
    let stages = stages_lines(text, text.num_nextn_predict_layers as nat);
    let body = body_lines(config, unshuffle);
    let a = lemma_layer_stands(text, text.num_hidden_layers as nat, layer, i);
    let b = lemma_stage_stands(text, text.num_nextn_predict_layers as nat, stage, j);
    let first = aligner_lines(text, unshuffle).len();
    assert(body[first + a] == layers[a]);
    let second = first + layers.len() + vision_lines(config.vision_config).len();
    assert(body[second + b] == stages[b]);
}

proof fn lemma_layer_stands(text: DeepseekV41TextConfig, layers: nat, layer: nat, i: int) -> (at: int)
    requires
        layer < layers,
        0 <= i < layer_lines(text, layer as usize).len(),
    ensures
        0 <= at < layers_lines(text, layers).len(),
        layers_lines(text, layers)[at] == layer_lines(text, layer as usize)[i],
    decreases layers,
{
    let before = (layers - 1) as nat;
    if layer < before {
        let at = lemma_layer_stands(text, before, layer, i);
        at
    } else {
        layers_lines(text, before).len() + i
    }
}

proof fn lemma_stage_stands(text: DeepseekV41TextConfig, stages: nat, stage: nat, j: int) -> (at: int)
    requires
        stage < stages,
        0 <= j < block_lines(
            text,
            "mtp."@ + text::decimal(stage),
            Category::DSpark,
            None,
            text.dspark_n_routed_experts,
        ).len(),
    ensures
        0 <= at < stages_lines(text, stages).len(),
        stages_lines(text, stages)[at] == block_lines(
            text,
            "mtp."@ + text::decimal(stage),
            Category::DSpark,
            None,
            text.dspark_n_routed_experts,
        )[j],
    decreases stages,
{
    let before = (stages - 1) as nat;
    if stage < before {
        let at = lemma_stage_stands(text, before, stage, j);
        at
    } else {
        stages_lines(text, before).len() + j
    }
}

/// The attached stages list the projection of the target layers and its norm with the first of them, and
/// the norm and both heads with the last.
pub proof fn stages_list_their_heads(text: DeepseekV41TextConfig)
    requires
        text.num_nextn_predict_layers > 0,
    ensures
        ({
            let lines = stage_head_lines(text);
            let last = "mtp."@ + text::decimal((text.num_nextn_predict_layers - 1) as nat);
            let markov = seq![text.vocab_size, text.dspark_markov_rank];
            &&& lines.len() == 7
            &&& is_listed_scaled(lines, "mtp.0.main_proj"@, text.hidden_size, (text.hidden_size * text.dspark_target_layer_ids@.len()) as usize, Category::DSpark)
            &&& is_listed(lines, "mtp.0.main_norm.weight"@, DType::Bf16, seq![text.hidden_size], Category::DSpark, Logical::Elements)
            &&& is_listed(lines, last + ".norm.weight"@, DType::Bf16, seq![text.hidden_size], Category::DSpark, Logical::Elements)
            &&& is_listed(lines, last + ".markov_head.embed.weight"@, DType::Bf16, markov, Category::DSpark, Logical::Elements)
            &&& is_listed(lines, last + ".markov_head.head.weight"@, DType::Bf16, markov, Category::DSpark, Logical::Elements)
            &&& is_listed(lines, last + ".confidence_head.proj.weight"@, DType::Bf16, seq![1usize, (text.hidden_size + text.dspark_markov_rank) as usize], Category::DSpark, Logical::Elements)
        }),
{
    let lines = stage_head_lines(text);
    lemma_scaled(
        lines,
        0,
        "mtp.0.main_proj"@,
        text.hidden_size,
        (text.hidden_size * text.dspark_target_layer_ids@.len()) as usize,
        Category::DSpark,
    );
    assert(lines[2].shape =~= seq![text.hidden_size]);
    assert(lines[3].shape =~= seq![text.hidden_size]);
    assert(lines[4].shape =~= seq![text.vocab_size, text.dspark_markov_rank]);
    assert(lines[5].shape =~= seq![text.vocab_size, text.dspark_markov_rank]);
    assert(lines[6].shape =~= seq![
        1usize,
        (text.hidden_size + text.dspark_markov_rank) as usize,
    ]);
}

} // verus!
