//! Strict validation of the official DeepSeek-V4.1-Flash configuration.

use crate::bits::Float64;
use crate::config;
use crate::config::{quote, ConfigError};
use crate::storage;
use crate::text;
use crate::text::{push_decimal, same_text};
use vstd::prelude::*;
use vstd::string::*;

verus! {

pub const MODEL_TYPE: &'static str = "deepseek_v41";

pub const TEXT_MODEL_TYPE: &'static str = "deepseek_v41_text";

pub const VISION_MODEL_TYPE: &'static str = "deepseek_v41_vision";

pub const ARCHITECTURE: &'static str = "DeepseekV41ForCausalLM";

pub const ENCODER_LAYER_COUNT: usize = 20;

#[derive(Debug, Clone)]
pub struct DeepseekV41QuantizationConfig {
    pub quant_method: String,
    pub activation_scheme: String,
    pub weight_block_size: [usize; 2],
    pub scale_fmt: String,
    pub expert_dtype: String,
}

#[derive(Debug, Clone)]
pub struct RopeScaling {
    pub rope_type: String,
    pub factor: usize,
    pub beta_fast: usize,
    pub beta_slow: usize,
    pub original_max_position_embeddings: usize,
}

#[derive(Debug, Clone)]
pub struct DeepseekV41TextConfig {
    pub model_type: String,
    pub vocab_size: usize,
    pub hidden_size: usize,
    pub moe_intermediate_size: usize,
    pub num_hidden_layers: usize,
    pub num_attention_heads: usize,
    pub num_key_value_heads: usize,
    pub head_dim: usize,
    pub qk_rope_head_dim: usize,
    pub q_lora_rank: usize,
    pub o_lora_rank: usize,
    pub o_groups: usize,
    pub hidden_act: String,
    pub swiglu_limit: Float64,
    pub rms_norm_eps: Float64,
    pub attention_bias: bool,
    pub attention_dropout: Float64,
    pub use_cache: bool,
    pub tie_word_embeddings: bool,
    pub max_position_embeddings: usize,
    pub rope_theta: Float64,
    pub rope_scaling: RopeScaling,
    pub n_routed_experts: usize,
    pub n_shared_experts: usize,
    pub num_experts_per_tok: usize,
    pub scoring_func: String,
    pub topk_method: String,
    pub norm_topk_prob: bool,
    pub routed_scaling_factor: Float64,
    pub sliding_window: usize,
    pub compress_ratios: Vec<usize>,
    pub compress_rope_theta: Float64,
    pub kv_source_layer_ids: Vec<usize>,
    pub index_source_layer_ids: Vec<usize>,
    pub index_n_heads: usize,
    pub index_head_dim: usize,
    pub index_topk: usize,
    pub candidate_source_layer_id: usize,
    pub candidate_topk_blocks: usize,
    pub candidate_block_size: usize,
    pub hc_mult: usize,
    pub hc_sinkhorn_iters: usize,
    pub hc_eps: Float64,
    pub engram_layer_ids: Vec<usize>,
    pub engram_num_embeddings: Vec<usize>,
    pub engram_max_ngram_size: usize,
    pub engram_vocab_size: usize,
    pub engram_n_heads: usize,
    pub engram_head_dim: usize,
    pub engram_pad_token_id: u32,
    pub engram_compressed_vocab_size: usize,
    pub num_nextn_predict_layers: usize,
    pub dspark_block_size: usize,
    pub dspark_noise_token_id: u32,
    pub dspark_target_layer_ids: Vec<usize>,
    pub dspark_markov_rank: usize,
    pub dspark_n_routed_experts: usize,
    pub dspark_num_experts_per_tok: usize,
}

#[derive(Debug, Clone)]
pub struct DeepseekV41VisionConfig {
    pub model_type: String,
    pub num_hidden_layers: usize,
    pub hidden_size: usize,
    pub num_attention_heads: usize,
    pub intermediate_size: usize,
    pub patch_size: usize,
    pub rope_theta: Float64,
    pub downsample_ratio: usize,
    pub max_image_tokens: usize,
    pub min_pixels: usize,
    pub max_wh_ratio: Option<Float64>,
}

/// Fields that determine the native V4.1 checkpoint layout and inference graph.
#[derive(Debug, Clone)]
pub struct DeepseekV41Config {
    pub architectures: Vec<String>,
    pub model_type: String,
    pub dtype: String,
    pub bos_token_id: u32,
    pub eos_token_id: u32,
    pub pad_token_id: u32,
    pub image_token_id: u32,
    pub quantization_config: DeepseekV41QuantizationConfig,
    pub text_config: DeepseekV41TextConfig,
    pub vision_config: DeepseekV41VisionConfig,
}

#[derive(Debug, Clone, Copy, PartialEq, Eq, Structural)]
pub enum AttentionMode {
    SlidingWindowOnly,
    Full,
    Reindex,
    Reuse,
}

/// A refusal names the model family first.
pub open spec fn refused(reason: Seq<char>) -> Seq<char> {
    "DeepSeek-V4.1: "@ + reason
}

/// A refusal for the given reason.
pub fn invalid<T>(reason: &str) -> (result: Result<T, ConfigError>)
    ensures
        result matches Err(error) && error.reason() == refused(reason@),
{
    let mut message = "DeepSeek-V4.1: ".to_owned();
    message.append(reason);
    Err(ConfigError::Invalid(message))
}

/// A refusal for the given reason where `broken` holds.
pub open spec fn rule(broken: bool, reason: Seq<char>) -> Option<Seq<char>> {
    config::refused_if(broken, refused(reason))
}

pub open spec fn size_rule(name: Seq<char>, value: usize, maximum: nat) -> Option<Seq<char>> {
    rule(
        value == 0 || value > maximum,
        "text_config."@ + name + "="@ + text::decimal(value as nat) + " is outside 1..="@
            + text::decimal(maximum),
    )
}

fn check_size(name: &str, value: usize, maximum: usize) -> (result: Result<(), ConfigError>)
    ensures
        config::problem(result) == size_rule(name@, value, maximum as nat),
{
    if value == 0 || value > maximum {
        let mut reason = "text_config.".to_owned();
        reason.append(name);
        reason.append("=");
        push_decimal(&mut reason, value as u64);
        reason.append(" is outside 1..=");
        push_decimal(&mut reason, maximum as u64);
        return invalid(reason.as_str());
    }
    Ok(())
}

pub open spec fn scale_rule(name: Seq<char>, value: Float64) -> Option<Seq<char>> {
    rule(!value.positive_finite(), "text_config."@ + name + " must be finite and positive"@)
}

fn check_scale(name: &str, value: Float64) -> (result: Result<(), ConfigError>)
    ensures
        config::problem(result) == scale_rule(name@, value),
{
    if !value.is_positive_finite() {
        let mut reason = "text_config.".to_owned();
        reason.append(name);
        reason.append(" must be finite and positive");
        return invalid(reason.as_str());
    }
    Ok(())
}

pub open spec fn token_rule(name: Seq<char>, id: u32, vocab: usize) -> Option<Seq<char>> {
    rule(
        id >= vocab,
        name + "="@ + text::decimal(id as nat) + " is outside vocab_size="@ + text::decimal(
            vocab as nat,
        ),
    )
}

fn check_token(name: &str, id: u32, vocab: usize) -> (result: Result<(), ConfigError>)
    ensures
        config::problem(result) == token_rule(name@, id, vocab),
{
    if id as usize >= vocab {
        let mut reason = name.to_owned();
        reason.append("=");
        push_decimal(&mut reason, id as u64);
        reason.append(" is outside vocab_size=");
        push_decimal(&mut reason, vocab as u64);
        return invalid(reason.as_str());
    }
    Ok(())
}

/// The texts in order, each quoted, separated by a comma and a space.
pub open spec fn quoted_list(items: Seq<Seq<char>>) -> Seq<char>
    decreases items.len(),
{
    if items.len() == 0 {
        Seq::empty()
    } else if items.len() == 1 {
        config::quoted(items[0])
    } else {
        quoted_list(items.drop_last()) + ", "@ + config::quoted(items.last())
    }
}

fn push_quoted_list(text: &mut String, items: &Vec<String>)
    ensures
        final(text)@ == old(text)@ + quoted_list(storage::texts(items@)),
{
    let mut index: usize = 0;
    let ghost all = storage::texts(items@);
    proof {
        assert(text@ =~= old(text)@ + quoted_list(all.take(0)));
    }
    while index < items.len()
        invariant
            index <= items@.len(),
            all == storage::texts(items@),
            text@ == old(text)@ + quoted_list(all.take(index as int)),
        decreases items@.len() - index,
    {
        if index > 0 {
            text.append(", ");
        }
        text.append(quote(items[index].as_str()).as_str());
        proof {
            let longer = all.take(index + 1);
            assert(longer.drop_last() =~= all.take(index as int));
            assert(longer.last() == all[index as int]);
            assert(text@ =~= old(text)@ + quoted_list(longer));
        }
        index = index + 1;
    }
    proof {
        assert(all.take(all.len() as int) =~= all);
    }
}

/// Whether a list holds exactly the given numbers.
fn same_list(list: &Vec<usize>, wanted: &[usize]) -> (same: bool)
    ensures
        same == (list@ == wanted@),
{
    if list.len() != wanted.len() {
        return false;
    }
    let mut index: usize = 0;
    while index < list.len()
        invariant
            index <= list@.len() == wanted@.len(),
            forall|i: int| 0 <= i < index ==> list@[i] == wanted@[i],
        decreases list@.len() - index,
    {
        if list[index] != wanted[index] {
            return false;
        }
        index = index + 1;
    }
    assert(list@ =~= wanted@);
    true
}

/// Whether a list holds a number.
pub fn holds(list: &Vec<usize>, value: usize) -> (found: bool)
    ensures
        found == list@.contains(value),
{
    let mut index: usize = 0;
    while index < list.len()
        invariant
            index <= list@.len(),
            forall|i: int| 0 <= i < index ==> list@[i] != value,
        decreases list@.len() - index,
    {
        if list[index] == value {
            return true;
        }
        index = index + 1;
    }
    false
}

/// The last number of a list that is no greater than `layer`.
pub open spec fn latest_source(sources: Seq<usize>, layer: usize) -> Option<usize>
    decreases sources.len(),
{
    if sources.len() == 0 {
        None
    } else if sources.last() <= layer {
        Some(sources.last())
    } else {
        latest_source(sources.drop_last(), layer)
    }
}

fn find_latest_source(sources: &Vec<usize>, layer: usize) -> (source: Option<usize>)
    ensures
        source == latest_source(sources@, layer),
{
    let mut end: usize = sources.len();
    proof {
        assert(sources@.take(end as int) =~= sources@);
    }
    while end > 0
        invariant
            end <= sources@.len(),
            latest_source(sources@.take(end as int), layer) == latest_source(sources@, layer),
        decreases end,
    {
        proof {
            assert(sources@.take(end as int).drop_last() =~= sources@.take(end - 1));
            assert(sources@.take(end as int).last() == sources@[end - 1]);
        }
        end = end - 1;
        if sources[end] <= layer {
            return Some(sources[end]);
        }
    }
    None
}

impl DeepseekV41QuantizationConfig {
    pub open spec fn refusal(self) -> Option<Seq<char>> {
        rule(
            self.quant_method@ != "fp8"@ || self.activation_scheme@ != "dynamic"@
                || self.weight_block_size@[0] != 32 || self.weight_block_size@[1] != 32
                || self.scale_fmt@ != "ue8m0"@ || self.expert_dtype@ != "fp4"@,
            "checkpoint quantization must be 32x32 E4M3/E8M0 with packed FP4 experts"@,
        )
    }

    pub fn validate(&self) -> (result: Result<(), ConfigError>)
        ensures
            config::problem(result) == self.refusal(),
    {
        if !same_text(self.quant_method.as_str(), "fp8") || !same_text(
            self.activation_scheme.as_str(),
            "dynamic",
        ) || self.weight_block_size[0] != 32 || self.weight_block_size[1] != 32 || !same_text(
            self.scale_fmt.as_str(),
            "ue8m0",
        ) || !same_text(self.expert_dtype.as_str(), "fp4") {
            return invalid(
                "checkpoint quantization must be 32x32 E4M3/E8M0 with packed FP4 experts",
            );
        }
        Ok(())
    }
}

impl DeepseekV41TextConfig {
    /// The sizes, each between one and its own maximum.
    pub open spec fn size_problem(self) -> Option<Seq<char>> {
        let a = size_rule("vocab_size"@, self.vocab_size, 16777216);
        let b = size_rule("hidden_size"@, self.hidden_size, 1048576);
        let c = size_rule("moe_intermediate_size"@, self.moe_intermediate_size, 16777216);
        let d = size_rule("num_hidden_layers"@, self.num_hidden_layers, 256);
        let e = size_rule("num_attention_heads"@, self.num_attention_heads, 4096);
        let f = size_rule("head_dim"@, self.head_dim, 65536);
        let g = size_rule("qk_rope_head_dim"@, self.qk_rope_head_dim, 65536);
        let h = size_rule("q_lora_rank"@, self.q_lora_rank, 1048576);
        let i = size_rule("o_lora_rank"@, self.o_lora_rank, 1048576);
        let j = size_rule("o_groups"@, self.o_groups, 4096);
        let k = size_rule("n_routed_experts"@, self.n_routed_experts, 65536);
        let l = size_rule("n_shared_experts"@, self.n_shared_experts, 1024);
        let rest = config::first(j, config::first(k, config::first(l, self.inner_size_problem())));
        config::first(
            a,
            config::first(
                b,
                config::first(
                    c,
                    config::first(
                        d,
                        config::first(
                            e,
                            config::first(
                                f,
                                config::first(g, config::first(h, config::first(i, rest))),
                            ),
                        ),
                    ),
                ),
            ),
        )
    }

    pub open spec fn inner_size_problem(self) -> Option<Seq<char>> {
        let a = size_rule("num_experts_per_tok"@, self.num_experts_per_tok, 65536);
        let b = size_rule("sliding_window"@, self.sliding_window, 1048576);
        let c = size_rule("index_n_heads"@, self.index_n_heads, 4096);
        let d = size_rule("index_head_dim"@, self.index_head_dim, 65536);
        let e = size_rule("index_topk"@, self.index_topk, 16777216);
        let f = size_rule("hc_mult"@, self.hc_mult, 64);
        let g = size_rule("hc_sinkhorn_iters"@, self.hc_sinkhorn_iters, 1024);
        let h = size_rule("engram_max_ngram_size"@, self.engram_max_ngram_size, 32);
        let i = size_rule("engram_n_heads"@, self.engram_n_heads, 1024);
        let j = size_rule("engram_head_dim"@, self.engram_head_dim, 65536);
        let k = size_rule("max_position_embeddings"@, self.max_position_embeddings, 1073741824);
        let rest = config::first(h, config::first(i, config::first(j, k)));
        config::first(
            a,
            config::first(
                b,
                config::first(
                    c,
                    config::first(
                        d,
                        config::first(e, config::first(f, config::first(g, rest))),
                    ),
                ),
            ),
        )
    }

    /// The checks between sizes and on the implemented semantics.
    pub open spec fn semantics_problem(self) -> Option<Seq<char>> {
        if self.num_hidden_layers != 40 {
            Some(
                refused(
                    "the supported CED release requires 20 encoder and 20 decoder layers"@,
                ),
            )
        } else if self.num_key_value_heads != 1 || self.qk_rope_head_dim > self.head_dim
            || self.qk_rope_head_dim % 2 != 0 || (self.num_attention_heads as nat) % (
        self.o_groups as nat) != 0 {
            Some(
                refused("attention head, RoPE, or output-group geometry is inconsistent"@),
            )
        } else if self.num_experts_per_tok > self.n_routed_experts || self.n_shared_experts != 1 {
            Some(
                refused(
                    "the supported MoE requires one shared expert and a valid routed top-k"@,
                ),
            )
        } else {
            rule(
                self.hidden_act@ != "silu"@ || self.scoring_func@ != "sqrtsoftplus"@
                    || self.topk_method@ != "noaux_tc"@ || !self.norm_topk_prob
                    || self.attention_bias || !self.attention_dropout.zero() || !self.use_cache
                    || self.tie_word_embeddings,
                "unsupported activation, routing, attention, or embedding semantics"@,
            )
        }
    }

    pub open spec fn scale_problem(self) -> Option<Seq<char>> {
        let a = scale_rule("swiglu_limit"@, self.swiglu_limit);
        let b = scale_rule("rms_norm_eps"@, self.rms_norm_eps);
        let c = scale_rule("rope_theta"@, self.rope_theta);
        let d = scale_rule("compress_rope_theta"@, self.compress_rope_theta);
        let e = scale_rule("routed_scaling_factor"@, self.routed_scaling_factor);
        let f = scale_rule("hc_eps"@, self.hc_eps);
        let rope = self.rope_scaling;
        let g = rule(
            rope.rope_type@ != "yarn"@ || rope.factor != 16 || rope.beta_fast == 0
                || rope.beta_slow == 0 || rope.original_max_position_embeddings == 0
                || rope.original_max_position_embeddings > self.max_position_embeddings,
            "unsupported YaRN configuration"@,
        );
        config::first(
            a,
            config::first(
                b,
                config::first(
                    c,
                    config::first(d, config::first(e, config::first(f, g))),
                ),
            ),
        )
    }

    /// How many layers the schedule covers, the attached stages included.
    pub open spec fn scheduled_layers(self) -> nat {
        (self.num_hidden_layers + self.num_nextn_predict_layers) as nat
    }

    /// The compression ratio that the encoder-decoder layout gives a layer: none for the first
    /// two, two for the other encoder layers, one for the decoder, none for the stages.
    pub open spec fn layout_ratio(self, layer: nat) -> usize {
        if layer < 2 {
            0
        } else if layer < ENCODER_LAYER_COUNT {
            2
        } else if layer < self.num_hidden_layers {
            1
        } else {
            0
        }
    }

    pub open spec fn ratio_problem(self, layer: nat) -> Option<Seq<char>> {
        let ratio = self.compress_ratios@[layer as int];
        rule(
            ratio != self.layout_ratio(layer),
            "compress_ratios["@ + text::decimal(layer) + "]="@ + text::decimal(ratio as nat)
                + "; expected "@ + text::decimal(self.layout_ratio(layer) as nat)
                + " for the CED layout"@,
        )
    }

    /// The problem of the first layer, from `from` on, whose ratio is refused.
    pub open spec fn ratios_problem(self, from: nat) -> Option<Seq<char>>
        decreases self.compress_ratios@.len() - from,
    {
        if from >= self.compress_ratios@.len() {
            None
        } else {
            config::first(self.ratio_problem(from), self.ratios_problem(from + 1))
        }
    }

    pub open spec fn sources_problem(self) -> Option<Seq<char>> {
        if self.kv_source_layer_ids@ != seq![2usize, 8, 14, 20] || self.index_source_layer_ids@
            != seq![2usize, 8, 14, 20, 24, 28, 32, 36] || self.candidate_source_layer_id
            != ENCODER_LAYER_COUNT {
            Some(refused("CSA2 KV/index/candidate source layout differs from the release"@))
        } else {
            rule(
                self.index_topk == 0 || self.candidate_topk_blocks == 0
                    || self.candidate_block_size == 0 || self.candidate_source_layer_id
                    >= self.num_hidden_layers,
                "hierarchical sparse indexer geometry is invalid"@,
            )
        }
    }

    pub open spec fn csa2_problem(self) -> Option<Seq<char>> {
        if self.scheduled_layers() > usize::MAX {
            Some("V4.1 layer count overflow"@)
        } else if self.compress_ratios@.len() != self.scheduled_layers() {
            Some(
                refused(
                    "compress_ratios has "@ + text::decimal(self.compress_ratios@.len())
                        + " entries; expected "@ + text::decimal(self.scheduled_layers()),
                ),
            )
        } else {
            config::first(self.ratios_problem(0), self.sources_problem())
        }
    }

    pub open spec fn engram_problem(self) -> Option<Seq<char>> {
        rule(
            self.engram_layer_ids@ != seq![1usize, 14] || self.engram_num_embeddings@.len()
                != self.engram_layer_ids@.len() || self.engram_num_embeddings@.contains(0usize)
                || self.engram_max_ngram_size != 4 || self.engram_vocab_size == 0
                || self.engram_compressed_vocab_size == 0,
            "Engram layer, table, or n-gram geometry differs from the release"@,
        )
    }

    pub open spec fn dspark_problem(self) -> Option<Seq<char>> {
        rule(
            self.num_nextn_predict_layers != 3 || self.dspark_block_size != 5
                || self.dspark_target_layer_ids@ != seq![37usize, 38, 39]
                || self.dspark_n_routed_experts == 0 || self.dspark_num_experts_per_tok == 0
                || self.dspark_num_experts_per_tok > self.dspark_n_routed_experts
                || self.dspark_noise_token_id >= self.vocab_size,
            "DSpark geometry differs from the three-stage release module"@,
        )
    }

    pub open spec fn refusal(self) -> Option<Seq<char>> {
        config::first(
            self.size_problem(),
            config::first(
                self.semantics_problem(),
                config::first(
                    self.scale_problem(),
                    config::first(
                        self.csa2_problem(),
                        config::first(self.engram_problem(), self.dspark_problem()),
                    ),
                ),
            ),
        )
    }

    fn check_sizes(&self) -> (result: Result<(), ConfigError>)
        ensures
            config::problem(result) == self.size_problem(),
    {
        check_size("vocab_size", self.vocab_size, 16777216)?;
        check_size("hidden_size", self.hidden_size, 1048576)?;
        check_size("moe_intermediate_size", self.moe_intermediate_size, 16777216)?;
        check_size("num_hidden_layers", self.num_hidden_layers, 256)?;
        check_size("num_attention_heads", self.num_attention_heads, 4096)?;
        check_size("head_dim", self.head_dim, 65536)?;
        check_size("qk_rope_head_dim", self.qk_rope_head_dim, 65536)?;
        check_size("q_lora_rank", self.q_lora_rank, 1048576)?;
        check_size("o_lora_rank", self.o_lora_rank, 1048576)?;
        check_size("o_groups", self.o_groups, 4096)?;
        check_size("n_routed_experts", self.n_routed_experts, 65536)?;
        check_size("n_shared_experts", self.n_shared_experts, 1024)?;
        check_size("num_experts_per_tok", self.num_experts_per_tok, 65536)?;
        check_size("sliding_window", self.sliding_window, 1048576)?;
        check_size("index_n_heads", self.index_n_heads, 4096)?;
        check_size("index_head_dim", self.index_head_dim, 65536)?;
        check_size("index_topk", self.index_topk, 16777216)?;
        check_size("hc_mult", self.hc_mult, 64)?;
        check_size("hc_sinkhorn_iters", self.hc_sinkhorn_iters, 1024)?;
        check_size("engram_max_ngram_size", self.engram_max_ngram_size, 32)?;
        check_size("engram_n_heads", self.engram_n_heads, 1024)?;
        check_size("engram_head_dim", self.engram_head_dim, 65536)?;
        check_size("max_position_embeddings", self.max_position_embeddings, 1073741824)
    }

    fn check_semantics(&self) -> (result: Result<(), ConfigError>)
        requires
            self.size_problem() is None,
        ensures
            config::problem(result) == self.semantics_problem(),
    {
        if self.num_hidden_layers != 40 {
            return invalid("the supported CED release requires 20 encoder and 20 decoder layers");
        }
        if self.num_key_value_heads != 1 || self.qk_rope_head_dim > self.head_dim
            || self.qk_rope_head_dim % 2 != 0 || self.num_attention_heads % self.o_groups != 0 {
            return invalid("attention head, RoPE, or output-group geometry is inconsistent");
        }
        if self.num_experts_per_tok > self.n_routed_experts || self.n_shared_experts != 1 {
            return invalid(
                "the supported MoE requires one shared expert and a valid routed top-k",
            );
        }
        if !same_text(self.hidden_act.as_str(), "silu") || !same_text(
            self.scoring_func.as_str(),
            "sqrtsoftplus",
        ) || !same_text(self.topk_method.as_str(), "noaux_tc") || !self.norm_topk_prob
            || self.attention_bias || !self.attention_dropout.is_zero() || !self.use_cache
            || self.tie_word_embeddings {
            return invalid("unsupported activation, routing, attention, or embedding semantics");
        }
        Ok(())
    }

    fn check_scales(&self) -> (result: Result<(), ConfigError>)
        ensures
            config::problem(result) == self.scale_problem(),
    {
        check_scale("swiglu_limit", self.swiglu_limit)?;
        check_scale("rms_norm_eps", self.rms_norm_eps)?;
        check_scale("rope_theta", self.rope_theta)?;
        check_scale("compress_rope_theta", self.compress_rope_theta)?;
        check_scale("routed_scaling_factor", self.routed_scaling_factor)?;
        check_scale("hc_eps", self.hc_eps)?;
        let rope = &self.rope_scaling;
        if !same_text(rope.rope_type.as_str(), "yarn") || rope.factor != 16 || rope.beta_fast == 0
            || rope.beta_slow == 0 || rope.original_max_position_embeddings == 0
            || rope.original_max_position_embeddings > self.max_position_embeddings {
            return invalid("unsupported YaRN configuration");
        }
        Ok(())
    }

    fn check_ratios(&self) -> (result: Result<(), ConfigError>)
        ensures
            config::problem(result) == self.ratios_problem(0),
    {
        let mut layer: usize = 0;
        while layer < self.compress_ratios.len()
            invariant
                layer <= self.compress_ratios@.len(),
                self.ratios_problem(0) == self.ratios_problem(layer as nat),
            decreases self.compress_ratios@.len() - layer,
        {
            let expected: usize = if layer < 2 {
                0
            } else if layer < ENCODER_LAYER_COUNT {
                2
            } else if layer < self.num_hidden_layers {
                1
            } else {
                0
            };
            if self.compress_ratios[layer] != expected {
                let mut reason = "compress_ratios[".to_owned();
                push_decimal(&mut reason, layer as u64);
                reason.append("]=");
                push_decimal(&mut reason, self.compress_ratios[layer] as u64);
                reason.append("; expected ");
                push_decimal(&mut reason, expected as u64);
                reason.append(" for the CED layout");
                return invalid(reason.as_str());
            }
            layer = layer + 1;
        }
        Ok(())
    }

    fn check_sources(&self) -> (result: Result<(), ConfigError>)
        ensures
            config::problem(result) == self.sources_problem(),
    {
        let kv_sources: [usize; 4] = [2, 8, 14, 20];
        let index_sources: [usize; 8] = [2, 8, 14, 20, 24, 28, 32, 36];
        proof {
            assert(kv_sources@ =~= seq![2usize, 8, 14, 20]);
            assert(index_sources@ =~= seq![2usize, 8, 14, 20, 24, 28, 32, 36]);
        }
        if !same_list(&self.kv_source_layer_ids, &kv_sources) || !same_list(
            &self.index_source_layer_ids,
            &index_sources,
        ) || self.candidate_source_layer_id != ENCODER_LAYER_COUNT {
            return invalid("CSA2 KV/index/candidate source layout differs from the release");
        }
        if self.index_topk == 0 || self.candidate_topk_blocks == 0 || self.candidate_block_size == 0
            || self.candidate_source_layer_id >= self.num_hidden_layers {
            return invalid("hierarchical sparse indexer geometry is invalid");
        }
        Ok(())
    }

    /// Checks the compression schedule and the layers that own caches and indices.
    pub fn validate_csa2(&self) -> (result: Result<(), ConfigError>)
        ensures
            config::problem(result) == self.csa2_problem(),
    {
        match self.num_hidden_layers.checked_add(self.num_nextn_predict_layers) {
            None => Err(ConfigError::Invalid("V4.1 layer count overflow".to_owned())),
            Some(expected) => {
                if self.compress_ratios.len() != expected {
                    let mut reason = "compress_ratios has ".to_owned();
                    push_decimal(&mut reason, self.compress_ratios.len() as u64);
                    reason.append(" entries; expected ");
                    push_decimal(&mut reason, expected as u64);
                    return invalid(reason.as_str());
                }
                self.check_ratios()?;
                self.check_sources()
            },
        }
    }

    /// Checks the Engram tables.
    pub fn validate_engram(&self) -> (result: Result<(), ConfigError>)
        ensures
            config::problem(result) == self.engram_problem(),
    {
        let layers: [usize; 2] = [1, 14];
        proof {
            assert(layers@ =~= seq![1usize, 14]);
        }
        if !same_list(&self.engram_layer_ids, &layers) || self.engram_num_embeddings.len()
            != self.engram_layer_ids.len() || holds(&self.engram_num_embeddings, 0)
            || self.engram_max_ngram_size != 4 || self.engram_vocab_size == 0
            || self.engram_compressed_vocab_size == 0 {
            return invalid("Engram layer, table, or n-gram geometry differs from the release");
        }
        Ok(())
    }

    /// Checks the attached speculative stages.
    pub fn validate_dspark(&self) -> (result: Result<(), ConfigError>)
        ensures
            config::problem(result) == self.dspark_problem(),
    {
        let targets: [usize; 3] = [37, 38, 39];
        proof {
            assert(targets@ =~= seq![37usize, 38, 39]);
        }
        if self.num_nextn_predict_layers != 3 || self.dspark_block_size != 5 || !same_list(
            &self.dspark_target_layer_ids,
            &targets,
        ) || self.dspark_n_routed_experts == 0 || self.dspark_num_experts_per_tok == 0
            || self.dspark_num_experts_per_tok > self.dspark_n_routed_experts
            || self.dspark_noise_token_id as usize >= self.vocab_size {
            return invalid("DSpark geometry differs from the three-stage release module");
        }
        Ok(())
    }

    pub fn validate(&self) -> (result: Result<(), ConfigError>)
        ensures
            config::problem(result) == self.refusal(),
    {
        self.check_sizes()?;
        self.check_semantics()?;
        self.check_scales()?;
        self.validate_csa2()?;
        self.validate_engram()?;
        self.validate_dspark()
    }
}

impl DeepseekV41VisionConfig {
    pub open spec fn refusal(self) -> Option<Seq<char>> {
        rule(
            self.num_hidden_layers == 0 || self.hidden_size == 0 || self.num_attention_heads == 0
                || (self.hidden_size as nat) % (self.num_attention_heads as nat) != 0
                || self.intermediate_size == 0 || self.patch_size == 0 || self.downsample_ratio == 0
                || self.max_image_tokens == 0 || self.min_pixels == 0
                || !self.rope_theta.positive_finite() || (self.max_wh_ratio matches Some(ratio)
                && !ratio.positive_finite()),
            "vision tower geometry is invalid"@,
        )
    }

    pub fn validate(&self) -> (result: Result<(), ConfigError>)
        ensures
            config::problem(result) == self.refusal(),
    {
        let bad_ratio = match self.max_wh_ratio {
            Some(ratio) => !ratio.is_positive_finite(),
            None => false,
        };
        if self.num_hidden_layers == 0 || self.hidden_size == 0 || self.num_attention_heads == 0
            || self.hidden_size % self.num_attention_heads != 0 || self.intermediate_size == 0
            || self.patch_size == 0 || self.downsample_ratio == 0 || self.max_image_tokens == 0
            || self.min_pixels == 0 || !self.rope_theta.is_positive_finite() || bad_ratio {
            return invalid("vision tower geometry is invalid");
        }
        Ok(())
    }
}

impl DeepseekV41Config {
    pub open spec fn form_problem(self) -> Option<Seq<char>> {
        if self.model_type@ != MODEL_TYPE@ || self.text_config.model_type@ != TEXT_MODEL_TYPE@
            || self.vision_config.model_type@ != VISION_MODEL_TYPE@ {
            Some(refused("top-level, text, or vision model_type is not DeepSeek-V4.1"@))
        } else if storage::texts(self.architectures@) != seq![ARCHITECTURE@] {
            Some(
                refused(
                    "architectures=["@ + quoted_list(storage::texts(self.architectures@))
                        + "]; expected ["@ + config::quoted(ARCHITECTURE@) + "]"@,
                ),
            )
        } else {
            rule(
                self.dtype@ != "bfloat16"@,
                "dtype="@ + config::quoted(self.dtype@) + "; expected bfloat16"@,
            )
        }
    }

    pub open spec fn token_problem(self) -> Option<Seq<char>> {
        let vocab = self.text_config.vocab_size;
        let a = token_rule("bos_token_id"@, self.bos_token_id, vocab);
        let b = token_rule("eos_token_id"@, self.eos_token_id, vocab);
        let c = token_rule("pad_token_id"@, self.pad_token_id, vocab);
        let d = token_rule("image_token_id"@, self.image_token_id, vocab);
        let e = rule(
            self.text_config.engram_pad_token_id != self.pad_token_id,
            "engram_pad_token_id must match the top-level pad token"@,
        );
        config::first(a, config::first(b, config::first(c, config::first(d, e))))
    }

    /// Why the configuration is refused, by the first check that fails.
    pub open spec fn refusal(self) -> Option<Seq<char>> {
        config::first(
            self.form_problem(),
            config::first(
                self.token_problem(),
                config::first(
                    self.quantization_config.refusal(),
                    config::first(self.text_config.refusal(), self.vision_config.refusal()),
                ),
            ),
        )
    }

    fn check_form(&self) -> (result: Result<(), ConfigError>)
        ensures
            config::problem(result) == self.form_problem(),
    {
        if !same_text(self.model_type.as_str(), MODEL_TYPE) || !same_text(
            self.text_config.model_type.as_str(),
            TEXT_MODEL_TYPE,
        ) || !same_text(self.vision_config.model_type.as_str(), VISION_MODEL_TYPE) {
            return invalid("top-level, text, or vision model_type is not DeepSeek-V4.1");
        }
        let listed = self.architectures.len() == 1 && same_text(
            self.architectures[0].as_str(),
            ARCHITECTURE,
        );
        proof {
            let names = storage::texts(self.architectures@);
            if listed {
                assert(names =~= seq![ARCHITECTURE@]);
            } else if names == seq![ARCHITECTURE@] {
                assert(names.len() == 1);
                assert(names[0] == ARCHITECTURE@);
            }
        }
        if !listed {
            let mut reason = "architectures=[".to_owned();
            push_quoted_list(&mut reason, &self.architectures);
            reason.append("]; expected [");
            reason.append(quote(ARCHITECTURE).as_str());
            reason.append("]");
            return invalid(reason.as_str());
        }
        if !same_text(self.dtype.as_str(), "bfloat16") {
            let mut reason = "dtype=".to_owned();
            reason.append(quote(self.dtype.as_str()).as_str());
            reason.append("; expected bfloat16");
            return invalid(reason.as_str());
        }
        Ok(())
    }

    /// Checks the special tokens.
    pub fn validate_tokens(&self) -> (result: Result<(), ConfigError>)
        ensures
            config::problem(result) == self.token_problem(),
    {
        let vocab = self.text_config.vocab_size;
        check_token("bos_token_id", self.bos_token_id, vocab)?;
        check_token("eos_token_id", self.eos_token_id, vocab)?;
        check_token("pad_token_id", self.pad_token_id, vocab)?;
        check_token("image_token_id", self.image_token_id, vocab)?;
        if self.engram_pad_token_id() != self.pad_token_id {
            return invalid("engram_pad_token_id must match the top-level pad token");
        }
        Ok(())
    }

    /// Accepts exactly the configurations without a [`refusal`](Self::refusal), and gives the
    /// reason of the first failed check otherwise.
    pub fn validate(&self) -> (result: Result<(), ConfigError>)
        ensures
            config::problem(result) == self.refusal(),
    {
        self.check_form()?;
        self.validate_tokens()?;
        self.quantization_config.validate()?;
        self.text_config.validate()?;
        self.vision_config.validate()
    }

    pub fn engram_pad_token_id(&self) -> (token: u32)
        ensures
            token == self.text_config.engram_pad_token_id,
    {
        self.text_config.engram_pad_token_id
    }

    pub fn encoder_layer_count(&self) -> (count: usize)
        ensures
            count == ENCODER_LAYER_COUNT,
    {
        ENCODER_LAYER_COUNT
    }

    pub fn decoder_layer_count(&self) -> (count: usize)
        requires
            self.text_config.num_hidden_layers >= ENCODER_LAYER_COUNT,
        ensures
            count == self.text_config.num_hidden_layers - ENCODER_LAYER_COUNT,
    {
        self.text_config.num_hidden_layers - ENCODER_LAYER_COUNT
    }

    /// How a layer attends: by its window alone where it does not compress, with caches of its own
    /// where it owns the KV cache, with an index of its own where it owns that, and otherwise with
    /// what an earlier layer left.
    pub open spec fn mode(self, layer: usize) -> Option<AttentionMode> {
        let config = self.text_config;
        if layer >= config.num_hidden_layers {
            None
        } else if config.compress_ratios@[layer as int] == 0 {
            Some(AttentionMode::SlidingWindowOnly)
        } else if config.kv_source_layer_ids@.contains(layer) {
            Some(AttentionMode::Full)
        } else if config.index_source_layer_ids@.contains(layer) {
            Some(AttentionMode::Reindex)
        } else {
            Some(AttentionMode::Reuse)
        }
    }

    pub fn attention_mode(&self, layer: usize) -> (mode: Option<AttentionMode>)
        requires
            layer < self.text_config.num_hidden_layers ==> layer
                < self.text_config.compress_ratios@.len(),
        ensures
            mode == self.mode(layer),
    {
        if layer >= self.text_config.num_hidden_layers {
            return None;
        }
        if self.text_config.compress_ratios[layer] == 0 {
            return Some(AttentionMode::SlidingWindowOnly);
        }
        if holds(&self.text_config.kv_source_layer_ids, layer) {
            return Some(AttentionMode::Full);
        }
        if holds(&self.text_config.index_source_layer_ids, layer) {
            return Some(AttentionMode::Reindex);
        }
        Some(AttentionMode::Reuse)
    }

    /// The most recent global-KV owner available to a layer.
    pub fn kv_source_for(&self, layer: usize) -> (source: Option<usize>)
        ensures
            source == if layer < self.text_config.num_hidden_layers {
                latest_source(self.text_config.kv_source_layer_ids@, layer)
            } else {
                None
            },
    {
        if layer < self.text_config.num_hidden_layers {
            find_latest_source(&self.text_config.kv_source_layer_ids, layer)
        } else {
            None
        }
    }

    /// The most recent sparse-index selection owner available to a layer.
    pub fn index_source_for(&self, layer: usize) -> (source: Option<usize>)
        ensures
            source == if layer < self.text_config.num_hidden_layers {
                latest_source(self.text_config.index_source_layer_ids@, layer)
            } else {
                None
            },
    {
        if layer < self.text_config.num_hidden_layers {
            find_latest_source(&self.text_config.index_source_layer_ids, layer)
        } else {
            None
        }
    }
}

impl DeepseekV41TextConfig {
    /// No layer of an accepted schedule has another ratio than the layout gives it.
    pub proof fn lemma_ratio(self, from: nat, layer: nat)
        requires
            self.ratios_problem(from) is None,
            from <= layer < self.compress_ratios@.len(),
        ensures
            self.compress_ratios@[layer as int] == self.layout_ratio(layer),
        decreases layer - from,
    {
        if from < layer {
            self.lemma_ratio(from + 1, layer);
        }
    }
}

proof fn lemma_latest(sources: Seq<usize>, layer: usize)
    requires
        forall|i: int, j: int| 0 <= i < j < sources.len() ==> sources[i] < sources[j],
    ensures
        match latest_source(sources, layer) {
            Some(source) => {
                &&& sources.contains(source)
                &&& source <= layer
                &&& forall|i: int|
                    0 <= i < sources.len() && sources[i] <= layer ==> sources[i] <= source
            },
            None => forall|i: int| 0 <= i < sources.len() ==> sources[i] > layer,
        },
    decreases sources.len(),
{
    if sources.len() > 0 {
        let front = sources.drop_last();
        if sources.last() <= layer {
            assert(sources[sources.len() - 1] == sources.last());
            assert forall|i: int| 0 <= i < sources.len() && sources[i] <= layer implies sources[i]
                <= sources.last() by {
                if i < sources.len() - 1 {
                    assert(sources[i] < sources[sources.len() - 1]);
                }
            }
        } else {
            assert forall|i: int, j: int| 0 <= i < j < front.len() implies front[i]
                < front[j] by {
                assert(sources[i] < sources[j]);
            }
            lemma_latest(front, layer);
            if let Some(source) = latest_source(front, layer) {
                let k = choose|k: int| 0 <= k < front.len() && front[k] == source;
                assert(sources[k] == source);
                assert forall|i: int|
                    0 <= i < sources.len() && sources[i] <= layer implies sources[i] <= source by {
                    if i < front.len() {
                        assert(front[i] == sources[i]);
                    }
                }
            } else {
                assert forall|i: int| 0 <= i < sources.len() implies sources[i] > layer by {
                    if i < front.len() {
                        assert(front[i] == sources[i]);
                    }
                }
            }
        }
    }
}

/// In an accepted configuration the first two layers attend by their window alone, and every other
/// layer has an owner of the compressed cache and an owner of the index: the latest at or before
/// it.
pub proof fn accepted_layers_have_owners(config: DeepseekV41Config, layer: usize)
    requires
        config.refusal() is None,
        layer < config.text_config.num_hidden_layers,
    ensures
        config.mode(layer) == Some(AttentionMode::SlidingWindowOnly) <==> layer < 2,
        layer >= 2 ==> {
            let kv = config.text_config.kv_source_layer_ids@;
            let index = config.text_config.index_source_layer_ids@;
            &&& latest_source(kv, layer) is Some
            &&& latest_source(index, layer) is Some
            &&& kv.contains(latest_source(kv, layer)->Some_0)
            &&& index.contains(latest_source(index, layer)->Some_0)
            &&& latest_source(kv, layer)->Some_0 <= latest_source(index, layer)->Some_0 <= layer
            &&& (config.mode(layer) == Some(AttentionMode::Full) <==> latest_source(kv, layer)
                == Some(layer))
        },
{
    let text = config.text_config;
    assert(text.refusal() is None);
    text.lemma_ratio(0, layer as nat);
    let kv = text.kv_source_layer_ids@;
    let index = text.index_source_layer_ids@;
    lemma_latest(kv, layer);
    lemma_latest(index, layer);
    assert(kv[0] == 2 && kv[1] == 8 && kv[2] == 14 && kv[3] == 20);
    assert(index[0] == 2 && index[1] == 8 && index[2] == 14 && index[3] == 20);
    if layer >= 2 {
        let owner = latest_source(kv, layer)->Some_0;
        assert(index.contains(owner)) by {
            assert(owner == index[0] || owner == index[1] || owner == index[2] || owner
                == index[3]);
        }
        if kv.contains(layer) {
            let k = choose|k: int| 0 <= k < kv.len() && kv[k] == layer;
            assert(kv[k] <= owner);
        }
    }
}

proof fn lemma_all_ratios(text: DeepseekV41TextConfig, from: nat)
    ensures
        text.ratios_problem(from) is None <==> forall|layer: int|
            from <= layer < text.compress_ratios@.len() ==> #[trigger] text.compress_ratios@[layer]
                == (if 2 <= layer < 20 {
                2int
            } else if 20 <= layer < text.num_hidden_layers {
                1
            } else {
                0
            }),
    decreases text.compress_ratios@.len() - from,
{
    if from < text.compress_ratios@.len() {
        lemma_all_ratios(text, from + 1);
        if text.ratios_problem(from) is None {
            assert forall|layer: int|
                from <= layer < text.compress_ratios@.len() implies #[trigger] text.compress_ratios@[layer]
                == (if 2 <= layer < 20 {
                2int
            } else if 20 <= layer < text.num_hidden_layers {
                1
            } else {
                0
            }) by {
                if layer == from {
                    assert(text.ratio_problem(from) is None);
                }
            }
        } else if text.num_hidden_layers >= 20 && text.ratio_problem(from) is Some {
            assert(text.compress_ratios@[from as int] != text.layout_ratio(from));
        }
    }
}

/// Whether a size lies between one and its maximum.
pub open spec fn is_within(value: usize, maximum: int) -> bool {
    1 <= value <= maximum
}

/// The parts of a text model that can be run: sizes in their ranges, heads and experts that fit one
/// another, known names and positive scales.
pub open spec fn text_is_sound(text: DeepseekV41TextConfig) -> bool {
    let rope = text.rope_scaling;
    &&& is_within(text.vocab_size, 16_777_216)
    &&& is_within(text.hidden_size, 1_048_576)
    &&& is_within(text.moe_intermediate_size, 16_777_216)
    &&& text.num_hidden_layers == 40
    &&& is_within(text.num_attention_heads, 4_096)
    &&& is_within(text.head_dim, 65_536)
    &&& is_within(text.qk_rope_head_dim, 65_536)
    &&& is_within(text.q_lora_rank, 1_048_576)
    &&& is_within(text.o_lora_rank, 1_048_576)
    &&& is_within(text.o_groups, 4_096)
    &&& is_within(text.n_routed_experts, 65_536)
    &&& text.n_shared_experts == 1
    &&& is_within(text.num_experts_per_tok, 65_536)
    &&& is_within(text.sliding_window, 1_048_576)
    &&& is_within(text.index_n_heads, 4_096)
    &&& is_within(text.index_head_dim, 65_536)
    &&& is_within(text.index_topk, 16_777_216)
    &&& is_within(text.hc_mult, 64)
    &&& is_within(text.hc_sinkhorn_iters, 1_024)
    &&& is_within(text.engram_n_heads, 1_024)
    &&& is_within(text.engram_head_dim, 65_536)
    &&& is_within(text.max_position_embeddings, 1_073_741_824)
    &&& text.num_key_value_heads == 1
    &&& text.qk_rope_head_dim <= text.head_dim && text.qk_rope_head_dim as int % 2 == 0
    &&& text.num_attention_heads as int % text.o_groups as int == 0
    &&& text.num_experts_per_tok <= text.n_routed_experts
    &&& text.hidden_act@ == "silu"@ && text.scoring_func@ == "sqrtsoftplus"@
    &&& text.topk_method@ == "noaux_tc"@ && text.norm_topk_prob
    &&& !text.attention_bias && text.attention_dropout.zero()
    &&& text.use_cache && !text.tie_word_embeddings
    &&& text.swiglu_limit.positive_finite() && text.rms_norm_eps.positive_finite()
    &&& text.rope_theta.positive_finite() && text.compress_rope_theta.positive_finite()
    &&& text.routed_scaling_factor.positive_finite() && text.hc_eps.positive_finite()
    &&& rope.rope_type@ == "yarn"@ && rope.factor == 16
    &&& rope.beta_fast > 0 && rope.beta_slow > 0
    &&& 0 < rope.original_max_position_embeddings <= text.max_position_embeddings
}

/// The schedule of the release: the first two layers keep a window only, the rest of the encoder
/// compresses by two and the decoder by one; four layers own entries, eight rank them, two read
/// n-grams and three attached stages predict.
pub open spec fn schedule_is_that_of_the_release(text: DeepseekV41TextConfig) -> bool {
    &&& text.num_nextn_predict_layers == 3
    &&& text.compress_ratios@.len() == 43
    &&& forall|layer: int|
        0 <= layer < 43 ==> #[trigger] text.compress_ratios@[layer] == (if 2 <= layer < 20 {
            2int
        } else if 20 <= layer < 40 {
            1
        } else {
            0
        })
    &&& text.kv_source_layer_ids@ == seq![2usize, 8, 14, 20]
    &&& text.index_source_layer_ids@ == seq![2usize, 8, 14, 20, 24, 28, 32, 36]
    &&& text.candidate_source_layer_id == 20
    &&& text.candidate_topk_blocks > 0 && text.candidate_block_size > 0
    &&& text.engram_layer_ids@ == seq![1usize, 14]
    &&& text.engram_num_embeddings@.len() == 2
    &&& text.engram_num_embeddings@[0] > 0 && text.engram_num_embeddings@[1] > 0
    &&& text.engram_max_ngram_size == 4
    &&& text.engram_vocab_size > 0 && text.engram_compressed_vocab_size > 0
    &&& text.dspark_block_size == 5
    &&& text.dspark_target_layer_ids@ == seq![37usize, 38, 39]
    &&& 0 < text.dspark_num_experts_per_tok <= text.dspark_n_routed_experts
    &&& text.dspark_noise_token_id < text.vocab_size
}

/// A configuration is accepted exactly where it names the release, its tokens are in the vocabulary,
/// its quantization and schedule are those of the release, and its text and vision parts can be run.
pub proof fn sound_configs_are_accepted(config: DeepseekV41Config)
    ensures
        config.refusal() is None <==> {
            let text = config.text_config;
            let vision = config.vision_config;
            let quantization = config.quantization_config;
            &&& config.model_type@ == "deepseek_v41"@
            &&& text.model_type@ == "deepseek_v41_text"@
            &&& vision.model_type@ == "deepseek_v41_vision"@
            &&& config.architectures@.len() == 1
            &&& config.architectures@[0]@ == "DeepseekV41ForCausalLM"@
            &&& config.dtype@ == "bfloat16"@
            &&& config.bos_token_id < text.vocab_size && config.eos_token_id < text.vocab_size
            &&& config.pad_token_id < text.vocab_size && config.image_token_id < text.vocab_size
            &&& text.engram_pad_token_id == config.pad_token_id
            &&& quantization.quant_method@ == "fp8"@
            &&& quantization.activation_scheme@ == "dynamic"@
            &&& quantization.weight_block_size@[0] == 32 && quantization.weight_block_size@[1] == 32
            &&& quantization.scale_fmt@ == "ue8m0"@ && quantization.expert_dtype@ == "fp4"@
            &&& text_is_sound(text)
            &&& schedule_is_that_of_the_release(text)
            &&& vision.num_hidden_layers > 0 && vision.hidden_size > 0
            &&& vision.num_attention_heads > 0
            &&& vision.hidden_size as int % vision.num_attention_heads as int == 0
            &&& vision.intermediate_size > 0 && vision.patch_size > 0
            &&& vision.downsample_ratio > 0 && vision.max_image_tokens > 0 && vision.min_pixels > 0
            &&& vision.rope_theta.positive_finite()
            &&& vision.max_wh_ratio matches Some(ratio) ==> ratio.positive_finite()
        },
{
    let text = config.text_config;
    lemma_all_ratios(text, 0);
    let names = storage::texts(config.architectures@);
    if names == seq![ARCHITECTURE@] {
        assert(names.len() == 1 && names[0] == ARCHITECTURE@);
        assert(config.architectures@[0]@ == names[0]);
    }
    if config.architectures@.len() == 1 && config.architectures@[0]@ == "DeepseekV41ForCausalLM"@ {
        assert(names =~= seq![ARCHITECTURE@]);
    }
    let tables = text.engram_num_embeddings@;
    if tables.len() == 2 {
        if tables.contains(0usize) {
            let at = choose|at: int| 0 <= at < tables.len() && tables[at] == 0;
            assert(at == 0 || at == 1);
        }
        assert(tables[0] == 0 ==> tables.contains(0usize));
        assert(tables[1] == 0 ==> tables.contains(0usize));
    }
    assert(seq![1usize, 14].len() == 2);
    assert(text.refusal() is None <==> (text_is_sound(text) && schedule_is_that_of_the_release(
        text,
    )));
}

/// Of the forty layers of an accepted configuration the first two keep a window only; layers 2, 8, 14
/// and 20 own and rank entries, layers 24, 28, 32 and 36 rank those of the nearest owner, and all
/// others reuse a ranking.
pub proof fn layers_attend_by_the_release(config: DeepseekV41Config, layer: usize)
    requires
        config.refusal() is None,
    ensures
        config.mode(layer) == (if layer >= 40 {
            None
        } else if layer < 2 {
            Some(AttentionMode::SlidingWindowOnly)
        } else if layer == 2 || layer == 8 || layer == 14 || layer == 20 {
            Some(AttentionMode::Full)
        } else if layer == 24 || layer == 28 || layer == 32 || layer == 36 {
            Some(AttentionMode::Reindex)
        } else {
            Some(AttentionMode::Reuse)
        }),
{
    sound_configs_are_accepted(config);
    let text = config.text_config;
    let owners = text.kv_source_layer_ids@;
    let rankers = text.index_source_layer_ids@;
    assert(owners[0] == 2 && owners[1] == 8 && owners[2] == 14 && owners[3] == 20);
    assert(rankers[4] == 24 && rankers[5] == 28 && rankers[6] == 32 && rankers[7] == 36);
    assert(rankers[0] == 2 && rankers[1] == 8 && rankers[2] == 14 && rankers[3] == 20);
    if layer < 40 {
        assert(text.compress_ratios@[layer as int] == 0 <==> layer < 2);
        if owners.contains(layer) {
            let at = choose|at: int| 0 <= at < owners.len() && owners[at] == layer;
            assert(at == 0 || at == 1 || at == 2 || at == 3);
        }
        if rankers.contains(layer) {
            let at = choose|at: int| 0 <= at < rankers.len() && rankers[at] == layer;
            assert(at == 0 || at == 1 || at == 2 || at == 3 || at == 4 || at == 5 || at == 6 || at
                == 7);
        }
    }
}

} // verus!
