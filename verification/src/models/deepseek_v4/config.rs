//! Strict configuration for DeepSeek-V4-Flash.

use crate::bits::Float64;
use crate::config;
use crate::config::{quote, ConfigError};
use crate::text;
use crate::text::{push_decimal, same_text};
use vstd::prelude::*;
use vstd::string::*;

verus! {

#[derive(Debug, Clone)]
pub struct QuantizationConfig {
    pub activation_scheme: String,
    pub fmt: String,
    pub quant_method: String,
    pub scale_fmt: String,
    pub weight_block_size: [usize; 2],
}

#[derive(Debug, Clone)]
pub struct RopeScaling {
    pub beta_fast: usize,
    pub beta_slow: usize,
    pub factor: Float64,
    pub original_max_position_embeddings: usize,
    pub rope_type: String,
}

#[derive(Debug, Clone)]
pub struct DeepseekV4Config {
    pub model_type: String,
    pub architectures: Vec<String>,
    pub hidden_size: usize,
    pub num_hidden_layers: usize,
    pub num_attention_heads: usize,
    pub num_key_value_heads: usize,
    pub head_dim: usize,
    pub q_lora_rank: usize,
    pub qk_rope_head_dim: usize,
    pub o_groups: usize,
    pub o_lora_rank: usize,
    pub sliding_window: usize,
    pub compress_ratios: Vec<usize>,
    pub compress_rope_theta: Float64,
    pub index_n_heads: usize,
    pub index_head_dim: usize,
    pub index_topk: usize,
    pub vocab_size: usize,
    pub bos_token_id: u32,
    pub eos_token_id: u32,
    pub max_position_embeddings: usize,
    pub rms_norm_eps: Float64,
    pub rope_theta: Float64,
    pub rope_scaling: RopeScaling,
    pub hc_mult: usize,
    pub hc_sinkhorn_iters: usize,
    pub hc_eps: Float64,
    pub moe_intermediate_size: usize,
    pub n_routed_experts: usize,
    pub n_shared_experts: usize,
    pub num_experts_per_tok: usize,
    pub num_hash_layers: usize,
    pub norm_topk_prob: bool,
    pub routed_scaling_factor: Float64,
    pub scoring_func: String,
    pub topk_method: String,
    pub swiglu_limit: Float64,
    pub expert_dtype: String,
    pub quantization_config: QuantizationConfig,
    pub num_nextn_predict_layers: usize,
    pub dspark_block_size: usize,
    pub dspark_noise_token_id: u32,
    pub dspark_target_layer_ids: Vec<usize>,
    pub dspark_markov_rank: usize,
    pub tie_word_embeddings: bool,
    pub attention_bias: bool,
    pub hidden_act: String,
}

pub fn default_hidden_act() -> (text: String)
    ensures
        text@ == "silu"@,
{
    "silu".to_owned()
}

/// A refusal names the model family first.
pub open spec fn refused(reason: Seq<char>) -> Seq<char> {
    "DeepSeek-V4: "@ + reason
}

/// A refusal for the given reason.
pub fn invalid<T>(reason: &str) -> (result: Result<T, ConfigError>)
    ensures
        result matches Err(error) && error.reason() == refused(reason@),
{
    let mut message = "DeepSeek-V4: ".to_owned();
    message.append(reason);
    Err(ConfigError::Invalid(message))
}

/// A refusal for the given reason where `broken` holds.
pub open spec fn rule(broken: bool, reason: Seq<char>) -> Option<Seq<char>> {
    config::refused_if(broken, refused(reason))
}

pub open spec fn size_message(name: Seq<char>, value: nat, maximum: nat) -> Seq<char> {
    name + "="@ + text::decimal(value) + " is outside 1..="@ + text::decimal(maximum)
}

pub open spec fn size_rule(name: Seq<char>, value: usize, maximum: nat) -> Option<Seq<char>> {
    rule(value == 0 || value > maximum, size_message(name, value as nat, maximum))
}

fn check_size(name: &str, value: usize, maximum: usize) -> (result: Result<(), ConfigError>)
    ensures
        config::problem(result) == size_rule(name@, value, maximum as nat),
{
    if value == 0 || value > maximum {
        let mut reason = name.to_owned();
        reason.append("=");
        push_decimal(&mut reason, value as u64);
        reason.append(" is outside 1..=");
        push_decimal(&mut reason, maximum as u64);
        return invalid(reason.as_str());
    }
    Ok(())
}

pub open spec fn scale_rule(name: Seq<char>, value: Float64) -> Option<Seq<char>> {
    rule(!value.positive_finite(), name + " must be finite and positive"@)
}

fn check_scale(name: &str, value: Float64) -> (result: Result<(), ConfigError>)
    ensures
        config::problem(result) == scale_rule(name@, value),
{
    if !value.is_positive_finite() {
        let mut reason = name.to_owned();
        reason.append(" must be finite and positive");
        return invalid(reason.as_str());
    }
    Ok(())
}

/// How many of the first `layers` ratios (or of all, where there are fewer) are 4.
pub open spec fn indexed_layers(ratios: Seq<usize>, layers: nat) -> nat
    decreases layers,
{
    if layers == 0 {
        0
    } else {
        indexed_layers(ratios, (layers - 1) as nat) + if layers <= ratios.len() && ratios[layers
            - 1] == 4 {
            1nat
        } else {
            0nat
        }
    }
}

impl DeepseekV4Config {
    pub open spec fn form_problem(self) -> Option<Seq<char>> {
        if self.model_type@ != "deepseek_v4"@ {
            Some(
                refused(
                    "model_type="@ + config::quoted(self.model_type@) + "; expected "@
                        + config::quoted("deepseek_v4"@),
                ),
            )
        } else {
            rule(
                self.attention_bias || self.tie_word_embeddings,
                "attention bias and tied embeddings are not supported"@,
            )
        }
    }

    /// The sizes, each between one and its own maximum.
    pub open spec fn size_problem(self) -> Option<Seq<char>> {
        let upper = {
            let a = size_rule("hidden_size"@, self.hidden_size, 1048576);
            let b = size_rule("num_hidden_layers"@, self.num_hidden_layers, 256);
            let c = size_rule("num_attention_heads"@, self.num_attention_heads, 4096);
            let d = size_rule("head_dim"@, self.head_dim, 65536);
            let e = size_rule("q_lora_rank"@, self.q_lora_rank, 1048576);
            let f = size_rule("qk_rope_head_dim"@, self.qk_rope_head_dim, 65536);
            let g = size_rule("o_groups"@, self.o_groups, 4096);
            let h = size_rule("o_lora_rank"@, self.o_lora_rank, 1048576);
            let i = size_rule("sliding_window"@, self.sliding_window, 1048576);
            let j = size_rule("vocab_size"@, self.vocab_size, 16777216);
            config::first(
                a,
                config::first(
                    b,
                    config::first(
                        c,
                        config::first(
                            d,
                            config::first(
                                e,
                                config::first(
                                    f,
                                    config::first(
                                        g,
                                        config::first(h, config::first(i, j)),
                                    ),
                                ),
                            ),
                        ),
                    ),
                ),
            )
        };
        config::first(upper, self.inner_size_problem())
    }

    pub open spec fn inner_size_problem(self) -> Option<Seq<char>> {
        let a = size_rule("max_position_embeddings"@, self.max_position_embeddings, 1073741824);
        let b = size_rule("hc_mult"@, self.hc_mult, 64);
        let c = size_rule("hc_sinkhorn_iters"@, self.hc_sinkhorn_iters, 1024);
        let d = size_rule("moe_intermediate_size"@, self.moe_intermediate_size, 16777216);
        let e = size_rule("n_routed_experts"@, self.n_routed_experts, 65536);
        let f = size_rule("n_shared_experts"@, self.n_shared_experts, 1024);
        let g = size_rule("num_experts_per_tok"@, self.num_experts_per_tok, 65536);
        let h = size_rule("index_n_heads"@, self.index_n_heads, 4096);
        let i = size_rule("index_head_dim"@, self.index_head_dim, 65536);
        let j = size_rule("index_topk"@, self.index_topk, 16777216);
        config::first(
            a,
            config::first(
                b,
                config::first(
                    c,
                    config::first(
                        d,
                        config::first(
                            e,
                            config::first(
                                f,
                                config::first(g, config::first(h, config::first(i, j))),
                            ),
                        ),
                    ),
                ),
            ),
        )
    }

    /// The checks between sizes.
    pub open spec fn geometry_problem(self) -> Option<Seq<char>> {
        if self.num_key_value_heads != 1 {
            Some(
                refused(
                    "num_key_value_heads="@ + text::decimal(self.num_key_value_heads as nat)
                        + " but DeepSeek-V4 uses one shared KV head"@,
                ),
            )
        } else if self.qk_rope_head_dim > self.head_dim || self.qk_rope_head_dim % 2 != 0 {
            Some(refused("qk_rope_head_dim must be even and no larger than head_dim"@))
        } else if (self.num_attention_heads as nat) % (self.o_groups as nat) != 0 {
            Some(refused("num_attention_heads must be divisible by o_groups"@))
        } else if self.num_experts_per_tok > self.n_routed_experts {
            Some(refused("num_experts_per_tok exceeds n_routed_experts"@))
        } else if self.num_hash_layers > self.num_hidden_layers {
            Some(refused("num_hash_layers exceeds num_hidden_layers"@))
        } else {
            rule(
                self.compress_ratios@.len() < self.num_hidden_layers,
                "compress_ratios has "@ + text::decimal(self.compress_ratios@.len())
                    + " entries but the base model needs "@ + text::decimal(
                    self.num_hidden_layers as nat,
                ),
            )
        }
    }

    pub open spec fn ratio_problem(self, layer: nat) -> Option<Seq<char>> {
        let ratio = self.compress_ratios@[layer as int];
        rule(
            !(ratio == 0 || ratio == 4 || ratio == 128) || ratio > self.max_position_embeddings,
            "compress_ratios["@ + text::decimal(layer) + "]="@ + text::decimal(ratio as nat)
                + " is unsupported"@,
        )
    }

    /// The problem of the first base layer, from `from` on, whose ratio is refused.
    pub open spec fn ratios_problem(self, from: nat) -> Option<Seq<char>>
        decreases self.num_hidden_layers - from,
    {
        if from >= self.num_hidden_layers {
            None
        } else {
            config::first(self.ratio_problem(from), self.ratios_problem(from + 1))
        }
    }

    /// A stage behind the base layers compresses.
    pub open spec fn stage_compresses(self) -> bool {
        exists|stage: int|
            self.num_hidden_layers <= stage < self.compress_ratios@.len()
                && #[trigger] self.compress_ratios@[stage] != 0
    }

    pub open spec fn schedule_problem(self) -> Option<Seq<char>> {
        let a = rule(
            self.stage_compresses(),
            "attached DSpark stages must use compression ratio zero"@,
        );
        let b = rule(
            self.index_head_dim < self.qk_rope_head_dim,
            "index_head_dim is smaller than qk_rope_head_dim"@,
        );
        config::first(self.ratios_problem(0), config::first(a, b))
    }

    /// The checks on the semantics that the runtime implements.
    pub open spec fn semantics_problem(self) -> Option<Seq<char>> {
        let quantization = self.quantization_config;
        if self.hidden_act@ != "silu"@ || self.scoring_func@ != "sqrtsoftplus"@
            || self.topk_method@ != "noaux_tc"@ || !self.norm_topk_prob {
            Some(refused("unsupported activation or DeepSeek-V4 routing semantics"@))
        } else if self.expert_dtype@ != "fp4"@ || quantization.activation_scheme@ != "dynamic"@
            || quantization.quant_method@ != "fp8"@ || quantization.fmt@ != "e4m3"@
            || quantization.scale_fmt@ != "ue8m0"@ || quantization.weight_block_size@[0] != 128
            || quantization.weight_block_size@[1] != 128 {
            Some(refused("checkpoint quantization must be FP8 E4M3/E8M0 plus FP4 experts"@))
        } else {
            rule(
                self.n_shared_experts != 1,
                "the reference runtime currently requires one shared expert"@,
            )
        }
    }

    /// The real-valued settings, each finite and positive.
    pub open spec fn scale_problem(self) -> Option<Seq<char>> {
        let a = scale_rule("rms_norm_eps"@, self.rms_norm_eps);
        let b = scale_rule("hc_eps"@, self.hc_eps);
        let c = scale_rule("rope_theta"@, self.rope_theta);
        let d = scale_rule("compress_rope_theta"@, self.compress_rope_theta);
        let e = scale_rule("routed_scaling_factor"@, self.routed_scaling_factor);
        let f = scale_rule("swiglu_limit"@, self.swiglu_limit);
        let g = scale_rule("rope_scaling.factor"@, self.rope_scaling.factor);
        config::first(
            a,
            config::first(
                b,
                config::first(
                    c,
                    config::first(d, config::first(e, config::first(f, g))),
                ),
            ),
        )
    }

    /// A target of the attached stages is no base layer.
    pub open spec fn target_outside(self) -> bool {
        exists|i: int|
            0 <= i < self.dspark_target_layer_ids@.len()
                && #[trigger] self.dspark_target_layer_ids@[i] >= self.num_hidden_layers
    }

    pub open spec fn reference_problem(self) -> Option<Seq<char>> {
        let rope = self.rope_scaling;
        if rope.rope_type@ != "yarn"@ || rope.original_max_position_embeddings == 0
            || rope.original_max_position_embeddings > self.max_position_embeddings
            || rope.beta_fast == 0 || rope.beta_slow == 0 {
            Some(refused("DeepSeek-V4 requires a valid YaRN rope_scaling block"@))
        } else if self.bos_token_id >= self.vocab_size || self.eos_token_id >= self.vocab_size
            || self.dspark_noise_token_id >= self.vocab_size {
            Some(refused("a configured token ID is outside the vocabulary"@))
        } else {
            rule(self.target_outside(), "a DSpark target layer is outside the base model"@)
        }
    }

    /// Why the configuration is refused, by the first check that fails.
    pub open spec fn refusal(self) -> Option<Seq<char>> {
        config::first(
            self.form_problem(),
            config::first(
                self.size_problem(),
                config::first(
                    self.geometry_problem(),
                    config::first(
                        self.schedule_problem(),
                        config::first(
                            self.semantics_problem(),
                            config::first(self.scale_problem(), self.reference_problem()),
                        ),
                    ),
                ),
            ),
        )
    }

    fn check_form(&self) -> (result: Result<(), ConfigError>)
        ensures
            config::problem(result) == self.form_problem(),
    {
        if !same_text(self.model_type.as_str(), "deepseek_v4") {
            let mut reason = "model_type=".to_owned();
            reason.append(quote(self.model_type.as_str()).as_str());
            reason.append("; expected ");
            reason.append(quote("deepseek_v4").as_str());
            return invalid(reason.as_str());
        }
        if self.attention_bias || self.tie_word_embeddings {
            return invalid("attention bias and tied embeddings are not supported");
        }
        Ok(())
    }

    fn check_sizes(&self) -> (result: Result<(), ConfigError>)
        ensures
            config::problem(result) == self.size_problem(),
    {
        check_size("hidden_size", self.hidden_size, 1048576)?;
        check_size("num_hidden_layers", self.num_hidden_layers, 256)?;
        check_size("num_attention_heads", self.num_attention_heads, 4096)?;
        check_size("head_dim", self.head_dim, 65536)?;
        check_size("q_lora_rank", self.q_lora_rank, 1048576)?;
        check_size("qk_rope_head_dim", self.qk_rope_head_dim, 65536)?;
        check_size("o_groups", self.o_groups, 4096)?;
        check_size("o_lora_rank", self.o_lora_rank, 1048576)?;
        check_size("sliding_window", self.sliding_window, 1048576)?;
        check_size("vocab_size", self.vocab_size, 16777216)?;
        check_size("max_position_embeddings", self.max_position_embeddings, 1073741824)?;
        check_size("hc_mult", self.hc_mult, 64)?;
        check_size("hc_sinkhorn_iters", self.hc_sinkhorn_iters, 1024)?;
        check_size("moe_intermediate_size", self.moe_intermediate_size, 16777216)?;
        check_size("n_routed_experts", self.n_routed_experts, 65536)?;
        check_size("n_shared_experts", self.n_shared_experts, 1024)?;
        check_size("num_experts_per_tok", self.num_experts_per_tok, 65536)?;
        check_size("index_n_heads", self.index_n_heads, 4096)?;
        check_size("index_head_dim", self.index_head_dim, 65536)?;
        check_size("index_topk", self.index_topk, 16777216)
    }

    fn check_geometry(&self) -> (result: Result<(), ConfigError>)
        requires
            self.size_problem() is None,
        ensures
            config::problem(result) == self.geometry_problem(),
    {
        if self.num_key_value_heads != 1 {
            let mut reason = "num_key_value_heads=".to_owned();
            push_decimal(&mut reason, self.num_key_value_heads as u64);
            reason.append(" but DeepSeek-V4 uses one shared KV head");
            return invalid(reason.as_str());
        }
        if self.qk_rope_head_dim > self.head_dim || self.qk_rope_head_dim % 2 != 0 {
            return invalid("qk_rope_head_dim must be even and no larger than head_dim");
        }
        if self.num_attention_heads % self.o_groups != 0 {
            return invalid("num_attention_heads must be divisible by o_groups");
        }
        if self.num_experts_per_tok > self.n_routed_experts {
            return invalid("num_experts_per_tok exceeds n_routed_experts");
        }
        if self.num_hash_layers > self.num_hidden_layers {
            return invalid("num_hash_layers exceeds num_hidden_layers");
        }
        if self.compress_ratios.len() < self.num_hidden_layers {
            let mut reason = "compress_ratios has ".to_owned();
            push_decimal(&mut reason, self.compress_ratios.len() as u64);
            reason.append(" entries but the base model needs ");
            push_decimal(&mut reason, self.num_hidden_layers as u64);
            return invalid(reason.as_str());
        }
        Ok(())
    }

    fn check_ratios(&self) -> (result: Result<(), ConfigError>)
        requires
            self.num_hidden_layers <= self.compress_ratios@.len(),
        ensures
            config::problem(result) == self.ratios_problem(0),
    {
        let mut layer: usize = 0;
        while layer < self.num_hidden_layers
            invariant
                layer <= self.num_hidden_layers <= self.compress_ratios@.len(),
                self.ratios_problem(0) == self.ratios_problem(layer as nat),
            decreases self.num_hidden_layers - layer,
        {
            let ratio = self.compress_ratios[layer];
            if !(ratio == 0 || ratio == 4 || ratio == 128) || ratio
                > self.max_position_embeddings {
                let mut reason = "compress_ratios[".to_owned();
                push_decimal(&mut reason, layer as u64);
                reason.append("]=");
                push_decimal(&mut reason, ratio as u64);
                reason.append(" is unsupported");
                return invalid(reason.as_str());
            }
            layer = layer + 1;
        }
        Ok(())
    }

    fn has_compressing_stage(&self) -> (result: bool)
        ensures
            result == self.stage_compresses(),
    {
        let mut stage: usize = self.num_hidden_layers;
        while stage < self.compress_ratios.len()
            invariant
                self.num_hidden_layers <= stage,
                forall|earlier: int|
                    self.num_hidden_layers <= earlier < stage && earlier
                        < self.compress_ratios@.len() ==> #[trigger] self.compress_ratios@[earlier]
                        == 0,
            decreases self.compress_ratios@.len() - stage,
        {
            if self.compress_ratios[stage] != 0 {
                assert(self.compress_ratios@[stage as int] != 0);
                return true;
            }
            stage = stage + 1;
        }
        false
    }

    fn check_schedule(&self) -> (result: Result<(), ConfigError>)
        requires
            self.num_hidden_layers <= self.compress_ratios@.len(),
        ensures
            config::problem(result) == self.schedule_problem(),
    {
        self.check_ratios()?;
        if self.has_compressing_stage() {
            return invalid("attached DSpark stages must use compression ratio zero");
        }
        if self.index_head_dim < self.qk_rope_head_dim {
            return invalid("index_head_dim is smaller than qk_rope_head_dim");
        }
        Ok(())
    }

    fn check_semantics(&self) -> (result: Result<(), ConfigError>)
        ensures
            config::problem(result) == self.semantics_problem(),
    {
        let quantization = &self.quantization_config;
        if !same_text(self.hidden_act.as_str(), "silu") || !same_text(
            self.scoring_func.as_str(),
            "sqrtsoftplus",
        ) || !same_text(self.topk_method.as_str(), "noaux_tc") || !self.norm_topk_prob {
            return invalid("unsupported activation or DeepSeek-V4 routing semantics");
        }
        if !same_text(self.expert_dtype.as_str(), "fp4") || !same_text(
            quantization.activation_scheme.as_str(),
            "dynamic",
        ) || !same_text(quantization.quant_method.as_str(), "fp8") || !same_text(
            quantization.fmt.as_str(),
            "e4m3",
        ) || !same_text(quantization.scale_fmt.as_str(), "ue8m0")
            || quantization.weight_block_size[0] != 128 || quantization.weight_block_size[1]
            != 128 {
            return invalid("checkpoint quantization must be FP8 E4M3/E8M0 plus FP4 experts");
        }
        if self.n_shared_experts != 1 {
            return invalid("the reference runtime currently requires one shared expert");
        }
        Ok(())
    }

    fn check_scales(&self) -> (result: Result<(), ConfigError>)
        ensures
            config::problem(result) == self.scale_problem(),
    {
        check_scale("rms_norm_eps", self.rms_norm_eps)?;
        check_scale("hc_eps", self.hc_eps)?;
        check_scale("rope_theta", self.rope_theta)?;
        check_scale("compress_rope_theta", self.compress_rope_theta)?;
        check_scale("routed_scaling_factor", self.routed_scaling_factor)?;
        check_scale("swiglu_limit", self.swiglu_limit)?;
        check_scale("rope_scaling.factor", self.rope_scaling.factor)
    }

    fn has_outside_target(&self) -> (result: bool)
        ensures
            result == self.target_outside(),
    {
        let mut index: usize = 0;
        while index < self.dspark_target_layer_ids.len()
            invariant
                index <= self.dspark_target_layer_ids@.len(),
                forall|i: int|
                    0 <= i < index ==> #[trigger] self.dspark_target_layer_ids@[i]
                        < self.num_hidden_layers,
            decreases self.dspark_target_layer_ids@.len() - index,
        {
            if self.dspark_target_layer_ids[index] >= self.num_hidden_layers {
                assert(self.dspark_target_layer_ids@[index as int] >= self.num_hidden_layers);
                return true;
            }
            index = index + 1;
        }
        false
    }

    fn check_references(&self) -> (result: Result<(), ConfigError>)
        ensures
            config::problem(result) == self.reference_problem(),
    {
        let rope = &self.rope_scaling;
        if !same_text(rope.rope_type.as_str(), "yarn") || rope.original_max_position_embeddings == 0
            || rope.original_max_position_embeddings > self.max_position_embeddings
            || rope.beta_fast == 0 || rope.beta_slow == 0 {
            return invalid("DeepSeek-V4 requires a valid YaRN rope_scaling block");
        }
        if self.bos_token_id as usize >= self.vocab_size || self.eos_token_id as usize
            >= self.vocab_size || self.dspark_noise_token_id as usize >= self.vocab_size {
            return invalid("a configured token ID is outside the vocabulary");
        }
        if self.has_outside_target() {
            return invalid("a DSpark target layer is outside the base model");
        }
        Ok(())
    }

    /// Accepts exactly the configurations without a [`refusal`](Self::refusal), and gives the
    /// reason of the first failed check otherwise.
    pub fn validate(&self) -> (result: Result<(), ConfigError>)
        ensures
            config::problem(result) == self.refusal(),
    {
        self.check_form()?;
        self.check_sizes()?;
        self.check_geometry()?;
        self.check_schedule()?;
        self.check_semantics()?;
        self.check_scales()?;
        self.check_references()
    }

    /// The compression ratio of a base layer.
    pub open spec fn base_ratio(self, layer: nat) -> Option<usize> {
        if layer < self.num_hidden_layers {
            Some(self.compress_ratios@[layer as int])
        } else {
            None
        }
    }

    pub fn base_compress_ratio(&self, layer: usize) -> (ratio: Option<usize>)
        requires
            layer < self.num_hidden_layers ==> layer < self.compress_ratios@.len(),
        ensures
            ratio == self.base_ratio(layer as nat),
    {
        if layer < self.num_hidden_layers {
            Some(self.compress_ratios[layer])
        } else {
            None
        }
    }

    /// How many base layers carry a sparse-attention indexer.
    pub fn indexed_layer_count(&self) -> (count: usize)
        ensures
            count == indexed_layers(self.compress_ratios@, self.num_hidden_layers as nat),
    {
        let mut count: usize = 0;
        let mut layer: usize = 0;
        while layer < self.num_hidden_layers
            invariant
                layer <= self.num_hidden_layers,
                count <= layer,
                count == indexed_layers(self.compress_ratios@, layer as nat),
            decreases self.num_hidden_layers - layer,
        {
            if layer < self.compress_ratios.len() && self.compress_ratios[layer] == 4 {
                count = count + 1;
            }
            layer = layer + 1;
        }
        count
    }

    /// How many stages the compression schedule declares behind the base layers.
    pub fn declared_dspark_stage_count(&self) -> (count: usize)
        ensures
            count == if self.compress_ratios@.len() > self.num_hidden_layers {
                self.compress_ratios@.len() - self.num_hidden_layers
            } else {
                0
            },
    {
        self.compress_ratios.len().saturating_sub(self.num_hidden_layers)
    }
}

/// Whether a size lies between one and its maximum.
pub open spec fn is_within(value: usize, maximum: int) -> bool {
    1 <= value <= maximum
}

proof fn lemma_ratios(config: DeepseekV4Config, from: nat)
    ensures
        config.ratios_problem(from) is None <==> forall|layer: int|
            from <= layer < config.num_hidden_layers ==> {
                &&& #[trigger] config.compress_ratios@[layer] == 0 || config.compress_ratios@[layer]
                    == 4 || config.compress_ratios@[layer] == 128
                &&& config.compress_ratios@[layer] <= config.max_position_embeddings
            },
    decreases config.num_hidden_layers - from,
{
    if from < config.num_hidden_layers {
        lemma_ratios(config, from + 1);
        let ratio = config.compress_ratios@[from as int];
        if config.ratios_problem(from) is None {
            assert forall|layer: int| from <= layer < config.num_hidden_layers implies {
                &&& #[trigger] config.compress_ratios@[layer] == 0 || config.compress_ratios@[layer]
                    == 4 || config.compress_ratios@[layer] == 128
                &&& config.compress_ratios@[layer] <= config.max_position_embeddings
            } by {
                if layer == from {
                    assert(config.ratio_problem(from) is None);
                }
            }
        }
    }
}

/// A configuration is accepted exactly where all of its sizes, ratios, names, scales and references
/// are those of a model that can be run.
pub proof fn sound_configs_are_accepted(config: DeepseekV4Config)
    ensures
        config.refusal() is None <==> {
            let quantization = config.quantization_config;
            let rope = config.rope_scaling;
            &&& config.model_type@ == "deepseek_v4"@
            &&& !config.attention_bias && !config.tie_word_embeddings
            &&& is_within(config.hidden_size, 1_048_576)
            &&& is_within(config.num_hidden_layers, 256)
            &&& is_within(config.num_attention_heads, 4_096)
            &&& is_within(config.head_dim, 65_536)
            &&& is_within(config.q_lora_rank, 1_048_576)
            &&& is_within(config.qk_rope_head_dim, 65_536)
            &&& is_within(config.o_groups, 4_096)
            &&& is_within(config.o_lora_rank, 1_048_576)
            &&& is_within(config.sliding_window, 1_048_576)
            &&& is_within(config.vocab_size, 16_777_216)
            &&& is_within(config.max_position_embeddings, 1_073_741_824)
            &&& is_within(config.hc_mult, 64)
            &&& is_within(config.hc_sinkhorn_iters, 1_024)
            &&& is_within(config.moe_intermediate_size, 16_777_216)
            &&& is_within(config.n_routed_experts, 65_536)
            &&& config.n_shared_experts == 1
            &&& is_within(config.num_experts_per_tok, 65_536)
            &&& is_within(config.index_n_heads, 4_096)
            &&& is_within(config.index_head_dim, 65_536)
            &&& is_within(config.index_topk, 16_777_216)
            &&& config.num_key_value_heads == 1
            &&& config.qk_rope_head_dim <= config.head_dim
            &&& config.qk_rope_head_dim as int % 2 == 0
            &&& config.num_attention_heads as int % config.o_groups as int == 0
            &&& config.num_experts_per_tok <= config.n_routed_experts
            &&& config.num_hash_layers <= config.num_hidden_layers
            &&& config.num_hidden_layers <= config.compress_ratios@.len()
            &&& forall|layer: int|
                0 <= layer < config.num_hidden_layers ==> {
                    &&& #[trigger] config.compress_ratios@[layer] == 0
                        || config.compress_ratios@[layer] == 4 || config.compress_ratios@[layer]
                        == 128
                    &&& config.compress_ratios@[layer] <= config.max_position_embeddings
                }
            &&& forall|stage: int|
                config.num_hidden_layers <= stage < config.compress_ratios@.len()
                    ==> #[trigger] config.compress_ratios@[stage] == 0
            &&& config.qk_rope_head_dim <= config.index_head_dim
            &&& config.hidden_act@ == "silu"@ && config.scoring_func@ == "sqrtsoftplus"@
            &&& config.topk_method@ == "noaux_tc"@ && config.norm_topk_prob
            &&& config.expert_dtype@ == "fp4"@
            &&& quantization.activation_scheme@ == "dynamic"@
            &&& quantization.quant_method@ == "fp8"@
            &&& quantization.fmt@ == "e4m3"@ && quantization.scale_fmt@ == "ue8m0"@
            &&& quantization.weight_block_size@[0] == 128
            &&& quantization.weight_block_size@[1] == 128
            &&& config.rms_norm_eps.positive_finite() && config.hc_eps.positive_finite()
            &&& config.rope_theta.positive_finite() && config.compress_rope_theta.positive_finite()
            &&& config.routed_scaling_factor.positive_finite()
            &&& config.swiglu_limit.positive_finite() && rope.factor.positive_finite()
            &&& rope.rope_type@ == "yarn"@
            &&& 0 < rope.original_max_position_embeddings <= config.max_position_embeddings
            &&& rope.beta_fast > 0 && rope.beta_slow > 0
            &&& config.bos_token_id < config.vocab_size
            &&& config.eos_token_id < config.vocab_size
            &&& config.dspark_noise_token_id < config.vocab_size
            &&& forall|i: int|
                0 <= i < config.dspark_target_layer_ids@.len()
                    ==> #[trigger] config.dspark_target_layer_ids@[i] < config.num_hidden_layers
        },
{
    lemma_ratios(config, 0);
}

/// The layers with an indexer are those that compress by four.
pub proof fn layers_that_compress_by_four_are_indexed(ratios: Seq<usize>, layers: nat)
    ensures
        indexed_layers(ratios, 0) == 0,
        indexed_layers(ratios, layers + 1) - indexed_layers(ratios, layers) == if layers
            < ratios.len() && ratios[layers as int] == 4 {
            1int
        } else {
            0
        },
{
}

} // verus!
