//! Strict validation of the `glm_moe_dsa` configuration.

use crate::bits::Float64;
use crate::config;
use crate::config::{check_range, checked_product, quote, ConfigError};
use crate::text;
use crate::text::{push_decimal, same_text};
use vstd::prelude::*;
use vstd::string::*;

verus! {

/// The bits of `1e-6`. The official attention module constructs its two latent norms without
/// passing the decoder block epsilon, so they use this constructor default.
pub const MLA_LATENT_NORM_EPS: u32 = 0x3586_37bd;

/// One token ID or a list of them.
#[derive(Debug, Clone)]
pub enum TokenIds {
    One(u32),
    Many(Vec<u32>),
}

/// States of `std::slice::from_ref` that the slice holds the referenced value and nothing else.
pub assume_specification<T>[ std::slice::from_ref::<T> ](s: &T) -> (slice: &[T])
    ensures
        slice@ == seq![*s],
;

impl View for TokenIds {
    type V = Seq<u32>;

    open spec fn view(&self) -> Seq<u32> {
        match self {
            TokenIds::One(id) => seq![*id],
            TokenIds::Many(ids) => ids@,
        }
    }
}

impl Default for TokenIds {
    fn default() -> (ids: Self)
        ensures
            ids@ == Seq::<u32>::empty(),
    {
        TokenIds::Many(Vec::new())
    }
}

impl TokenIds {
    pub fn as_slice(&self) -> (ids: &[u32])
        ensures
            ids@ == self@,
    {
        match self {
            TokenIds::One(id) => std::slice::from_ref(id),
            TokenIds::Many(ids) => ids.as_slice(),
        }
    }
}

#[derive(Debug, Clone)]
pub struct RopeParameters {
    pub rope_theta: Float64,
    pub rope_type: String,
}

/// The bits of `10000.0`.
pub fn default_rope_theta() -> (value: Float64)
    ensures
        value.bits == 0x40c3_8800_0000_0000,
{
    Float64 { bits: 0x40c3_8800_0000_0000 }
}

pub fn default_rope_type() -> (text: String)
    ensures
        text@ == "default"@,
{
    "default".to_owned()
}

impl Default for RopeParameters {
    fn default() -> (parameters: Self)
        ensures
            parameters.rope_theta.bits == 0x40c3_8800_0000_0000,
            parameters.rope_type@ == "default"@,
    {
        RopeParameters { rope_theta: default_rope_theta(), rope_type: default_rope_type() }
    }
}

pub fn default_one() -> (value: usize)
    ensures
        value == 1,
{
    1
}

pub fn default_true() -> (value: bool)
    ensures
        value,
{
    true
}

/// The bits of `1.0`.
pub fn default_one_f64() -> (value: Float64)
    ensures
        value.bits == 0x3ff0_0000_0000_0000,
{
    Float64 { bits: 0x3ff0_0000_0000_0000 }
}

pub fn default_index_freq() -> (value: usize)
    ensures
        value == 1,
{
    1
}

/// The bits of `1e-5`.
pub fn default_eps() -> (value: Float64)
    ensures
        value.bits == 0x3ee4_f8b5_88e3_68f1,
{
    Float64 { bits: 0x3ee4_f8b5_88e3_68f1 }
}

pub fn default_act() -> (text: String)
    ensures
        text@ == "silu"@,
{
    "silu".to_owned()
}

pub fn default_scoring() -> (text: String)
    ensures
        text@ == "sigmoid"@,
{
    "sigmoid".to_owned()
}

pub fn default_topk_method() -> (text: String)
    ensures
        text@ == "noaux_tc"@,
{
    "noaux_tc".to_owned()
}

/// Fields that determine GLM-5.2 inference math or memory use.
///
/// Every field used for allocation is range-checked by [`GlmConfig::validate`].
#[derive(Debug, Clone)]
pub struct GlmConfig {
    pub model_type: String,
    pub architectures: Vec<String>,
    pub hidden_size: usize,
    pub num_hidden_layers: usize,
    pub num_attention_heads: usize,
    pub num_key_value_heads: usize,
    pub attention_bias: bool,
    pub mlp_bias: bool,
    pub rope_interleave: bool,
    pub indexer_rope_interleave: bool,
    pub tie_word_embeddings: bool,
    pub vocab_size: usize,
    pub intermediate_size: usize,
    pub moe_intermediate_size: usize,
    pub first_k_dense_replace: usize,
    pub n_routed_experts: usize,
    pub n_shared_experts: usize,
    pub num_experts_per_tok: usize,
    pub n_group: usize,
    pub topk_group: usize,
    pub norm_topk_prob: bool,
    pub routed_scaling_factor: Float64,
    pub q_lora_rank: Option<usize>,
    pub kv_lora_rank: usize,
    pub qk_nope_head_dim: usize,
    pub qk_rope_head_dim: usize,
    pub qk_head_dim: usize,
    pub v_head_dim: usize,
    pub index_n_heads: usize,
    pub index_head_dim: usize,
    pub index_topk: usize,
    pub index_topk_freq: usize,
    pub index_skip_topk_offset: usize,
    pub indexer_types: Vec<String>,
    pub mlp_layer_types: Vec<String>,
    pub rms_norm_eps: Float64,
    pub rope_parameters: RopeParameters,
    pub max_position_embeddings: usize,
    pub num_nextn_predict_layers: usize,
    pub eos_token_id: TokenIds,
    pub pad_token_id: Option<u32>,
    pub hidden_act: String,
    pub scoring_func: String,
    pub topk_method: String,
    pub dtype: Option<String>,
}

/// How many of the first `layers` layers are marked.
pub open spec fn marked_layers(marked: spec_fn(nat) -> bool, layers: nat) -> nat
    decreases layers,
{
    if layers == 0 {
        0
    } else {
        marked_layers(marked, (layers - 1) as nat) + if marked((layers - 1) as nat) {
            1nat
        } else {
            0nat
        }
    }
}

pub open spec fn truth(value: bool) -> Seq<char> {
    if value {
        "true"@
    } else {
        "false"@
    }
}

fn truth_text(value: bool) -> (text: &'static str)
    ensures
        text@ == truth(value),
{
    if value {
        "true"
    } else {
        "false"
    }
}

impl GlmConfig {
    /// The checks on what the projections and the rotary embedding look like.
    pub open spec fn form_problem(self) -> Option<Seq<char>> {
        if self.model_type@ != "glm_moe_dsa"@ {
            Some(
                "model_type="@ + config::quoted(self.model_type@) + "; expected "@ + config::quoted(
                    "glm_moe_dsa"@,
                ),
            )
        } else if self.attention_bias || self.mlp_bias {
            Some(
                "bias-bearing projections are not implemented (attention_bias="@ + truth(
                    self.attention_bias,
                ) + ", mlp_bias="@ + truth(self.mlp_bias) + ")"@,
            )
        } else if !self.rope_interleave || !self.indexer_rope_interleave {
            Some(
                "only interleaved GLM RoPE is implemented (rope_interleave="@ + truth(
                    self.rope_interleave,
                ) + ", indexer_rope_interleave="@ + truth(self.indexer_rope_interleave) + ")"@,
            )
        } else {
            config::refused_if(
                self.tie_word_embeddings,
                "tie_word_embeddings=true is not implemented; an independent LM head is required"@,
            )
        }
    }

    /// The ranges of the sizes that the router and the feed-forward layers use.
    pub open spec fn size_problem(self) -> Option<Seq<char>> {
        let a = config::range_problem("hidden_size"@, self.hidden_size as nat, 1, 1048576);
        let b = config::range_problem("num_hidden_layers"@, self.num_hidden_layers as nat, 1, 256);
        let c = config::range_problem("num_attention_heads"@, self.num_attention_heads as nat, 1, 4096);
        let d = config::range_problem("vocab_size"@, self.vocab_size as nat, 1, 16777216);
        let e = config::range_problem("intermediate_size"@, self.intermediate_size as nat, 1, 16777216);
        let f = config::range_problem(
            "moe_intermediate_size"@,
            self.moe_intermediate_size as nat,
            1,
            16777216,
        );
        let g = config::range_problem("n_routed_experts"@, self.n_routed_experts as nat, 1, 65536);
        let h = config::range_problem("n_shared_experts"@, self.n_shared_experts as nat, 1, 1024);
        let i = config::range_problem(
            "num_experts_per_tok"@,
            self.num_experts_per_tok as nat,
            1,
            self.n_routed_experts as nat,
        );
        let j = config::range_problem(
            "first_k_dense_replace"@,
            self.first_k_dense_replace as nat,
            0,
            self.num_hidden_layers as nat,
        );
        config::first(a, config::first(b, config::first(c, config::first(d, config::first(e, config::first(f, config::first(g, config::first(h, config::first(i, j)))))))))
    }

    /// The checks on expert groups and the router's scale.
    pub open spec fn group_problem(self) -> Option<Seq<char>> {
        let a = config::range_problem("n_group"@, self.n_group as nat, 1, self.n_routed_experts as nat);
        let b = config::range_problem("topk_group"@, self.topk_group as nat, 1, self.n_group as nat);
        config::first(a, config::first(b, self.divided_group_problem()))
    }

    /// How many experts one group holds.
    pub open spec fn experts_per_group(self) -> nat {
        (self.n_routed_experts as nat) / (self.n_group as nat)
    }

    /// How many experts the selected groups expose.
    pub open spec fn exposed_experts(self) -> nat {
        (self.topk_group as nat) * self.experts_per_group()
    }

    pub open spec fn divided_group_problem(self) -> Option<Seq<char>> {
        if (self.n_routed_experts as nat) % (self.n_group as nat) != 0 {
            Some(
                "n_routed_experts="@ + text::decimal(self.n_routed_experts as nat)
                    + " is not divisible by n_group="@ + text::decimal(self.n_group as nat),
            )
        } else if self.experts_per_group() < 2 {
            Some("noaux_tc requires at least two experts in each group"@)
        } else if self.exposed_experts() < self.num_experts_per_tok {
            Some(
                "topk_group exposes "@ + text::decimal(self.exposed_experts())
                    + " experts, fewer than num_experts_per_tok="@ + text::decimal(
                    self.num_experts_per_tok as nat,
                ),
            )
        } else {
            config::refused_if(
                !self.routed_scaling_factor.positive_finite(),
                "routed_scaling_factor must be finite and positive"@,
            )
        }
    }

    /// The checks on the attention heads.
    pub open spec fn head_problem(self) -> Option<Seq<char>> {
        let a = config::refused_if(
            self.q_lora_rank is None,
            "GLM-5.2 requires q_lora_rank for its two-stage query projection"@,
        );
        let b = config::range_problem("q_lora_rank"@, self.q_lora_rank.unwrap_or(0) as nat, 1, 1048576);
        let c = config::range_problem("kv_lora_rank"@, self.kv_lora_rank as nat, 1, 1048576);
        let d = config::range_problem("qk_nope_head_dim"@, self.qk_nope_head_dim as nat, 1, 65536);
        let e = config::range_problem("qk_rope_head_dim"@, self.qk_rope_head_dim as nat, 2, 65536);
        let f = config::range_problem("v_head_dim"@, self.v_head_dim as nat, 1, 65536);
        let g = config::refused_if(
            self.qk_rope_head_dim % 2 != 0,
            "qk_rope_head_dim must be even for interleaved RoPE"@,
        );
        let h = config::refused_if(
            self.qk_head_dim != self.qk_nope_head_dim + self.qk_rope_head_dim,
            "qk_head_dim="@ + text::decimal(self.qk_head_dim as nat)
                + " but qk_nope_head_dim + qk_rope_head_dim = "@ + text::decimal(
                (self.qk_nope_head_dim + self.qk_rope_head_dim) as nat,
            ),
        );
        let i = config::refused_if(
            self.num_key_value_heads != 0 && self.num_key_value_heads != self.num_attention_heads,
            "num_key_value_heads="@ + text::decimal(self.num_key_value_heads as nat)
                + " but GLM MLA expects 0 or num_attention_heads="@ + text::decimal(
                self.num_attention_heads as nat,
            ),
        );
        config::first(a, config::first(b, config::first(c, config::first(d, config::first(e, config::first(f, config::first(g, config::first(h, i))))))))
    }

    /// The checks on positions and on the lengths of the per-layer lists.
    pub open spec fn list_problem(self) -> Option<Seq<char>> {
        let a = config::range_problem(
            "max_position_embeddings"@,
            self.max_position_embeddings as nat,
            1,
            1073741824,
        );
        let b = config::range_problem(
            "num_nextn_predict_layers"@,
            self.num_nextn_predict_layers as nat,
            0,
            16,
        );
        let c = config::refused_if(
            self.indexer_types@.len() != 0 && self.indexer_types@.len() != self.num_hidden_layers,
            "indexer_types has "@ + text::decimal(self.indexer_types@.len()) + " entries; expected "@
                + text::decimal(self.num_hidden_layers as nat),
        );
        let d = config::refused_if(
            self.mlp_layer_types@.len() != 0 && self.mlp_layer_types@.len()
                != self.num_hidden_layers,
            "mlp_layer_types has "@ + text::decimal(self.mlp_layer_types@.len()) + " entries; expected "@
                + text::decimal(self.num_hidden_layers as nat),
        );
        config::first(
            a,
            config::first(b, config::first(c, config::first(d, config::first(self.mlp_kinds_problem(0), self.index_kinds_problem(0))))),
        )
    }

    /// The kind that `first_k_dense_replace` gives a layer.
    pub open spec fn expected_kind(self, layer: nat) -> Seq<char> {
        if layer < self.first_k_dense_replace {
            "dense"@
        } else {
            "sparse"@
        }
    }

    pub open spec fn mlp_kind_problem(self, layer: nat) -> Option<Seq<char>> {
        let kind = self.mlp_layer_types@[layer as int]@;
        if kind != "dense"@ && kind != "sparse"@ {
            Some(
                "mlp_layer_types["@ + text::decimal(layer) + "]="@ + config::quoted(kind)
                    + "; expected dense or sparse"@,
            )
        } else {
            config::refused_if(
                kind != self.expected_kind(layer),
                "mlp_layer_types["@ + text::decimal(layer) + "]="@ + config::quoted(kind)
                    + " conflicts with first_k_dense_replace="@ + text::decimal(
                    self.first_k_dense_replace as nat,
                ) + " (expected "@ + config::quoted(self.expected_kind(layer)) + ")"@,
            )
        }
    }

    /// The problem of the first layer, from `from` on, whose feed-forward kind is refused.
    pub open spec fn mlp_kinds_problem(self, from: nat) -> Option<Seq<char>>
        decreases self.mlp_layer_types@.len() - from,
    {
        if from >= self.mlp_layer_types@.len() {
            None
        } else {
            config::first(self.mlp_kind_problem(from), self.mlp_kinds_problem(from + 1))
        }
    }

    pub open spec fn index_kind_problem(self, layer: nat) -> Option<Seq<char>> {
        let kind = self.indexer_types@[layer as int]@;
        config::refused_if(
            kind != "full"@ && kind != "shared"@,
            "indexer_types["@ + text::decimal(layer) + "]="@ + config::quoted(kind)
                + "; expected full or shared"@,
        )
    }

    /// The problem of the first layer, from `from` on, whose indexer kind is refused.
    pub open spec fn index_kinds_problem(self, from: nat) -> Option<Seq<char>>
        decreases self.indexer_types@.len() - from,
    {
        if from >= self.indexer_types@.len() {
            None
        } else {
            config::first(self.index_kind_problem(from), self.index_kinds_problem(from + 1))
        }
    }

    /// Some indexer dimension is set.
    pub open spec fn index_enabled(self) -> bool {
        self.index_n_heads != 0 || self.index_head_dim != 0 || self.index_topk != 0
    }

    /// The checks on the sparse-attention indexer.
    pub open spec fn index_problem(self) -> Option<Seq<char>> {
        if self.index_enabled() && (self.index_n_heads == 0 || self.index_head_dim == 0
            || self.index_topk == 0) {
            Some(
                "index_n_heads, index_head_dim, and index_topk must be all zero or all non-zero"@,
            )
        } else if self.index_enabled() {
            let a = config::range_problem("index_n_heads"@, self.index_n_heads as nat, 1, 4096);
            let b = config::range_problem("index_head_dim"@, self.index_head_dim as nat, 1, 65536);
            let c = config::range_problem(
                "index_topk"@,
                self.index_topk as nat,
                1,
                self.max_position_embeddings as nat,
            );
            let d = config::range_problem(
                "index_topk_freq"@,
                self.index_topk_freq as nat,
                1,
                self.num_hidden_layers as nat,
            );
            let e = config::range_problem(
                "index_skip_topk_offset"@,
                self.index_skip_topk_offset as nat,
                0,
                self.num_hidden_layers as nat,
            );
            let f = config::refused_if(
                self.index_head_dim < self.qk_rope_head_dim,
                "index_head_dim="@ + text::decimal(self.index_head_dim as nat)
                    + " is smaller than the "@ + text::decimal(self.qk_rope_head_dim as nat)
                    + "-value rotary prefix"@,
            );
            config::first(a, config::first(b, config::first(c, config::first(d, config::first(e, f)))))
        } else {
            config::refused_if(
                self.indexer_types@.len() != 0,
                "indexer_types is present while indexer dimensions are disabled"@,
            )
        }
    }

    /// The checks on the scalar settings and the special tokens.
    pub open spec fn setting_problem(self) -> Option<Seq<char>> {
        if self.hidden_act@ != "silu"@ {
            Some("hidden_act="@ + config::quoted(self.hidden_act@) + "; only silu is understood"@)
        } else if self.scoring_func@ != "sigmoid"@ || self.topk_method@ != "noaux_tc"@ {
            Some(
                "router is scoring_func="@ + config::quoted(self.scoring_func@) + ", topk_method="@
                    + config::quoted(self.topk_method@) + "; expected sigmoid/noaux_tc"@,
            )
        } else if !self.rms_norm_eps.positive_finite() {
            Some("rms_norm_eps must be finite and positive"@)
        } else if !self.rope_parameters.rope_theta.positive_finite() {
            Some("rope_parameters.rope_theta must be finite and positive"@)
        } else if self.rope_parameters.rope_type@ != "default"@ {
            Some(
                "rope_type="@ + config::quoted(self.rope_parameters.rope_type@)
                    + "; only default RoPE is implemented"@,
            )
        } else if exists|i: int|
            0 <= i < self.eos_token_id@.len() && #[trigger] self.eos_token_id@[i]
                >= self.vocab_size {
            Some("eos_token_id contains an ID outside the vocabulary"@)
        } else {
            config::refused_if(
                self.pad_token_id matches Some(token) && token >= self.vocab_size,
                "pad_token_id is outside the vocabulary"@,
            )
        }
    }

    /// The checks that the matrices can be allocated.
    pub open spec fn allocation_problem(self) -> Option<Seq<char>> {
        let a = config::product_problem("embedding matrix"@, seq![self.vocab_size, self.hidden_size]);
        let b = config::product_problem(
            "query projection"@,
            seq![self.num_attention_heads, self.qk_head_dim, self.q_lora_rank->0],
        );
        let c = config::product_problem(
            "KV reconstruction"@,
            seq![
                self.num_attention_heads,
                (self.qk_nope_head_dim + self.v_head_dim) as usize,
                self.kv_lora_rank,
            ],
        );
        let d = config::product_problem(
            "shared experts"@,
            seq![self.hidden_size, self.moe_intermediate_size, self.n_shared_experts],
        );
        let e = config::product_problem(
            "routed experts"@,
            seq![
                self.sparse_layers() as usize,
                self.n_routed_experts,
                3usize,
                self.hidden_size,
                self.moe_intermediate_size,
            ],
        );
        config::first(a, config::first(b, config::first(c, config::first(d, e))))
    }

    /// Why the configuration is refused, by the first check that fails.
    pub open spec fn refusal(self) -> Option<Seq<char>> {
        config::first(
            self.form_problem(),
            config::first(
                self.size_problem(),
                config::first(
                    self.group_problem(),
                    config::first(
                        self.head_problem(),
                        config::first(
                            self.list_problem(),
                            config::first(
                                self.index_problem(),
                                config::first(self.setting_problem(), self.allocation_problem()),
                            ),
                        ),
                    ),
                ),
            ),
        )
    }

    /// A layer whose feed-forward part is a mixture of experts.
    pub open spec fn sparse(self, layer: nat) -> bool {
        if layer < self.mlp_layer_types@.len() {
            self.mlp_layer_types@[layer as int]@ == "sparse"@
        } else {
            layer >= self.first_k_dense_replace
        }
    }

    pub open spec fn sparse_layers(self) -> nat {
        marked_layers(|layer: nat| self.sparse(layer), self.num_hidden_layers as nat)
    }

    /// A layer that computes its own sparse-attention index.
    pub open spec fn full_indexer(self, layer: nat) -> bool {
        &&& self.index_n_heads != 0 && self.index_head_dim != 0 && self.index_topk != 0
        &&& if layer < self.indexer_types@.len() {
            self.indexer_types@[layer as int]@ == "full"@
        } else {
            let next: int = if layer < usize::MAX {
                layer as int + 1
            } else {
                usize::MAX as int
            };
            let past: int = if next > self.index_skip_topk_offset {
                next - self.index_skip_topk_offset
            } else {
                0
            };
            let period: int = if self.index_topk_freq == 0 {
                1
            } else {
                self.index_topk_freq as int
            };
            past % period == 0
        }
    }

    pub open spec fn full_indexer_layers(self) -> nat {
        marked_layers(|layer: nat| self.full_indexer(layer), self.num_hidden_layers as nat)
    }

    fn check_form(&self) -> (result: Result<(), ConfigError>)
        ensures
            config::problem(result) == self.form_problem(),
    {
        if !same_text(self.model_type.as_str(), "glm_moe_dsa") {
            let mut reason = "model_type=".to_owned();
            reason.append(quote(self.model_type.as_str()).as_str());
            reason.append("; expected ");
            reason.append(quote("glm_moe_dsa").as_str());
            return Err(ConfigError::Invalid(reason));
        }
        if self.attention_bias || self.mlp_bias {
            let mut reason =
                "bias-bearing projections are not implemented (attention_bias=".to_owned();
            reason.append(truth_text(self.attention_bias));
            reason.append(", mlp_bias=");
            reason.append(truth_text(self.mlp_bias));
            reason.append(")");
            return Err(ConfigError::Invalid(reason));
        }
        if !self.rope_interleave || !self.indexer_rope_interleave {
            let mut reason =
                "only interleaved GLM RoPE is implemented (rope_interleave=".to_owned();
            reason.append(truth_text(self.rope_interleave));
            reason.append(", indexer_rope_interleave=");
            reason.append(truth_text(self.indexer_rope_interleave));
            reason.append(")");
            return Err(ConfigError::Invalid(reason));
        }
        if self.tie_word_embeddings {
            return Err(
                ConfigError::Invalid(
                    "tie_word_embeddings=true is not implemented; an independent LM head is required".to_owned(),
                ),
            );
        }
        Ok(())
    }

    fn check_sizes(&self) -> (result: Result<(), ConfigError>)
        ensures
            config::problem(result) == self.size_problem(),
    {
        check_range("hidden_size", self.hidden_size, 1, 1048576)?;
        check_range("num_hidden_layers", self.num_hidden_layers, 1, 256)?;
        check_range("num_attention_heads", self.num_attention_heads, 1, 4096)?;
        check_range("vocab_size", self.vocab_size, 1, 16777216)?;
        check_range("intermediate_size", self.intermediate_size, 1, 16777216)?;
        check_range("moe_intermediate_size", self.moe_intermediate_size, 1, 16777216)?;
        check_range("n_routed_experts", self.n_routed_experts, 1, 65536)?;
        check_range("n_shared_experts", self.n_shared_experts, 1, 1024)?;
        check_range("num_experts_per_tok", self.num_experts_per_tok, 1, self.n_routed_experts)?;
        check_range(
            "first_k_dense_replace",
            self.first_k_dense_replace,
            0,
            self.num_hidden_layers,
        )
    }

    fn check_groups(&self) -> (result: Result<(), ConfigError>)
        requires
            self.size_problem() is None,
        ensures
            config::problem(result) == self.group_problem(),
    {
        check_range("n_group", self.n_group, 1, self.n_routed_experts)?;
        check_range("topk_group", self.topk_group, 1, self.n_group)?;
        if self.n_routed_experts % self.n_group != 0 {
            let mut reason = "n_routed_experts=".to_owned();
            push_decimal(&mut reason, self.n_routed_experts as u64);
            reason.append(" is not divisible by n_group=");
            push_decimal(&mut reason, self.n_group as u64);
            return Err(ConfigError::Invalid(reason));
        }
        let per_group: usize = self.n_routed_experts / self.n_group;
        if per_group < 2 {
            return Err(
                ConfigError::Invalid(
                    "noaux_tc requires at least two experts in each group".to_owned(),
                ),
            );
        }
        assert(self.topk_group * per_group <= self.n_routed_experts) by (nonlinear_arith)
            requires
                self.topk_group <= self.n_group,
                self.n_group > 0,
                per_group == self.n_routed_experts / self.n_group,
        ;
        let exposed: usize = self.topk_group * per_group;
        if exposed < self.num_experts_per_tok {
            let mut reason = "topk_group exposes ".to_owned();
            push_decimal(&mut reason, exposed as u64);
            reason.append(" experts, fewer than num_experts_per_tok=");
            push_decimal(&mut reason, self.num_experts_per_tok as u64);
            return Err(ConfigError::Invalid(reason));
        }
        if !self.routed_scaling_factor.is_positive_finite() {
            return Err(
                ConfigError::Invalid(
                    "routed_scaling_factor must be finite and positive".to_owned(),
                ),
            );
        }
        Ok(())
    }

    fn check_heads(&self) -> (result: Result<(), ConfigError>)
        ensures
            config::problem(result) == self.head_problem(),
    {
        if self.q_lora_rank.is_none() {
            return Err(
                ConfigError::Invalid(
                    "GLM-5.2 requires q_lora_rank for its two-stage query projection".to_owned(),
                ),
            );
        }
        check_range("q_lora_rank", self.q_lora_rank.unwrap_or(0), 1, 1048576)?;
        check_range("kv_lora_rank", self.kv_lora_rank, 1, 1048576)?;
        check_range("qk_nope_head_dim", self.qk_nope_head_dim, 1, 65536)?;
        check_range("qk_rope_head_dim", self.qk_rope_head_dim, 2, 65536)?;
        check_range("v_head_dim", self.v_head_dim, 1, 65536)?;
        if self.qk_rope_head_dim % 2 != 0 {
            return Err(
                ConfigError::Invalid(
                    "qk_rope_head_dim must be even for interleaved RoPE".to_owned(),
                ),
            );
        }
        let joined: usize = self.qk_nope_head_dim + self.qk_rope_head_dim;
        if self.qk_head_dim != joined {
            let mut reason = "qk_head_dim=".to_owned();
            push_decimal(&mut reason, self.qk_head_dim as u64);
            reason.append(" but qk_nope_head_dim + qk_rope_head_dim = ");
            push_decimal(&mut reason, joined as u64);
            return Err(ConfigError::Invalid(reason));
        }
        if self.num_key_value_heads != 0 && self.num_key_value_heads != self.num_attention_heads {
            let mut reason = "num_key_value_heads=".to_owned();
            push_decimal(&mut reason, self.num_key_value_heads as u64);
            reason.append(" but GLM MLA expects 0 or num_attention_heads=");
            push_decimal(&mut reason, self.num_attention_heads as u64);
            return Err(ConfigError::Invalid(reason));
        }
        Ok(())
    }

    fn check_mlp_kind(&self, layer: usize) -> (result: Result<(), ConfigError>)
        requires
            layer < self.mlp_layer_types@.len(),
        ensures
            config::problem(result) == self.mlp_kind_problem(layer as nat),
    {
        let kind = self.mlp_layer_types[layer].as_str();
        if !same_text(kind, "dense") && !same_text(kind, "sparse") {
            let mut reason = "mlp_layer_types[".to_owned();
            push_decimal(&mut reason, layer as u64);
            reason.append("]=");
            reason.append(quote(kind).as_str());
            reason.append("; expected dense or sparse");
            return Err(ConfigError::Invalid(reason));
        }
        let expected = if layer < self.first_k_dense_replace {
            "dense"
        } else {
            "sparse"
        };
        if !same_text(kind, expected) {
            let mut reason = "mlp_layer_types[".to_owned();
            push_decimal(&mut reason, layer as u64);
            reason.append("]=");
            reason.append(quote(kind).as_str());
            reason.append(" conflicts with first_k_dense_replace=");
            push_decimal(&mut reason, self.first_k_dense_replace as u64);
            reason.append(" (expected ");
            reason.append(quote(expected).as_str());
            reason.append(")");
            return Err(ConfigError::Invalid(reason));
        }
        Ok(())
    }

    fn check_index_kind(&self, layer: usize) -> (result: Result<(), ConfigError>)
        requires
            layer < self.indexer_types@.len(),
        ensures
            config::problem(result) == self.index_kind_problem(layer as nat),
    {
        let kind = self.indexer_types[layer].as_str();
        if !same_text(kind, "full") && !same_text(kind, "shared") {
            let mut reason = "indexer_types[".to_owned();
            push_decimal(&mut reason, layer as u64);
            reason.append("]=");
            reason.append(quote(kind).as_str());
            reason.append("; expected full or shared");
            return Err(ConfigError::Invalid(reason));
        }
        Ok(())
    }

    fn check_mlp_kinds(&self) -> (result: Result<(), ConfigError>)
        ensures
            config::problem(result) == self.mlp_kinds_problem(0),
    {
        let mut layer: usize = 0;
        while layer < self.mlp_layer_types.len()
            invariant
                0 <= layer <= self.mlp_layer_types@.len(),
                self.mlp_kinds_problem(0) == self.mlp_kinds_problem(layer as nat),
            decreases self.mlp_layer_types@.len() - layer,
        {
            self.check_mlp_kind(layer)?;
            layer = layer + 1;
        }
        Ok(())
    }

    fn check_index_kinds(&self) -> (result: Result<(), ConfigError>)
        ensures
            config::problem(result) == self.index_kinds_problem(0),
    {
        let mut layer: usize = 0;
        while layer < self.indexer_types.len()
            invariant
                0 <= layer <= self.indexer_types@.len(),
                self.index_kinds_problem(0) == self.index_kinds_problem(layer as nat),
            decreases self.indexer_types@.len() - layer,
        {
            self.check_index_kind(layer)?;
            layer = layer + 1;
        }
        Ok(())
    }

    fn check_lists(&self) -> (result: Result<(), ConfigError>)
        ensures
            config::problem(result) == self.list_problem(),
    {
        check_range("max_position_embeddings", self.max_position_embeddings, 1, 1073741824)?;
        check_range("num_nextn_predict_layers", self.num_nextn_predict_layers, 0, 16)?;
        if self.indexer_types.len() != 0 && self.indexer_types.len() != self.num_hidden_layers {
            let mut reason = "indexer_types has ".to_owned();
            push_decimal(&mut reason, self.indexer_types.len() as u64);
            reason.append(" entries; expected ");
            push_decimal(&mut reason, self.num_hidden_layers as u64);
            return Err(ConfigError::Invalid(reason));
        }
        if self.mlp_layer_types.len() != 0 && self.mlp_layer_types.len()
            != self.num_hidden_layers {
            let mut reason = "mlp_layer_types has ".to_owned();
            push_decimal(&mut reason, self.mlp_layer_types.len() as u64);
            reason.append(" entries; expected ");
            push_decimal(&mut reason, self.num_hidden_layers as u64);
            return Err(ConfigError::Invalid(reason));
        }
        self.check_mlp_kinds()?;
        self.check_index_kinds()
    }

    fn check_index(&self) -> (result: Result<(), ConfigError>)
        ensures
            config::problem(result) == self.index_problem(),
    {
        let enabled = self.index_n_heads != 0 || self.index_head_dim != 0 || self.index_topk != 0;
        if enabled && (self.index_n_heads == 0 || self.index_head_dim == 0 || self.index_topk
            == 0) {
            return Err(
                ConfigError::Invalid(
                    "index_n_heads, index_head_dim, and index_topk must be all zero or all non-zero".to_owned(),
                ),
            );
        }
        if enabled {
            check_range("index_n_heads", self.index_n_heads, 1, 4096)?;
            check_range("index_head_dim", self.index_head_dim, 1, 65536)?;
            check_range("index_topk", self.index_topk, 1, self.max_position_embeddings)?;
            check_range("index_topk_freq", self.index_topk_freq, 1, self.num_hidden_layers)?;
            check_range(
                "index_skip_topk_offset",
                self.index_skip_topk_offset,
                0,
                self.num_hidden_layers,
            )?;
            if self.index_head_dim < self.qk_rope_head_dim {
                let mut reason = "index_head_dim=".to_owned();
                push_decimal(&mut reason, self.index_head_dim as u64);
                reason.append(" is smaller than the ");
                push_decimal(&mut reason, self.qk_rope_head_dim as u64);
                reason.append("-value rotary prefix");
                return Err(ConfigError::Invalid(reason));
            }
        } else if self.indexer_types.len() != 0 {
            return Err(
                ConfigError::Invalid(
                    "indexer_types is present while indexer dimensions are disabled".to_owned(),
                ),
            );
        }
        Ok(())
    }

    fn has_foreign_eos(&self) -> (result: bool)
        ensures
            result == exists|i: int|
                0 <= i < self.eos_token_id@.len() && #[trigger] self.eos_token_id@[i]
                    >= self.vocab_size,
    {
        let ids = self.eos_token_id.as_slice();
        let mut index: usize = 0;
        while index < ids.len()
            invariant
                ids@ == self.eos_token_id@,
                0 <= index <= ids@.len(),
                forall|i: int| 0 <= i < index ==> #[trigger] ids@[i] < self.vocab_size,
            decreases ids@.len() - index,
        {
            if ids[index] as usize >= self.vocab_size {
                assert(self.eos_token_id@[index as int] >= self.vocab_size);
                return true;
            }
            index = index + 1;
        }
        false
    }

    fn check_settings(&self) -> (result: Result<(), ConfigError>)
        ensures
            config::problem(result) == self.setting_problem(),
    {
        if !same_text(self.hidden_act.as_str(), "silu") {
            let mut reason = "hidden_act=".to_owned();
            reason.append(quote(self.hidden_act.as_str()).as_str());
            reason.append("; only silu is understood");
            return Err(ConfigError::Invalid(reason));
        }
        if !same_text(self.scoring_func.as_str(), "sigmoid") || !same_text(
            self.topk_method.as_str(),
            "noaux_tc",
        ) {
            let mut reason = "router is scoring_func=".to_owned();
            reason.append(quote(self.scoring_func.as_str()).as_str());
            reason.append(", topk_method=");
            reason.append(quote(self.topk_method.as_str()).as_str());
            reason.append("; expected sigmoid/noaux_tc");
            return Err(ConfigError::Invalid(reason));
        }
        if !self.rms_norm_eps.is_positive_finite() {
            return Err(
                ConfigError::Invalid("rms_norm_eps must be finite and positive".to_owned()),
            );
        }
        if !self.rope_parameters.rope_theta.is_positive_finite() {
            return Err(
                ConfigError::Invalid(
                    "rope_parameters.rope_theta must be finite and positive".to_owned(),
                ),
            );
        }
        if !same_text(self.rope_parameters.rope_type.as_str(), "default") {
            let mut reason = "rope_type=".to_owned();
            reason.append(quote(self.rope_parameters.rope_type.as_str()).as_str());
            reason.append("; only default RoPE is implemented");
            return Err(ConfigError::Invalid(reason));
        }
        if self.has_foreign_eos() {
            return Err(
                ConfigError::Invalid(
                    "eos_token_id contains an ID outside the vocabulary".to_owned(),
                ),
            );
        }
        if let Some(token) = self.pad_token_id {
            if token as usize >= self.vocab_size {
                return Err(
                    ConfigError::Invalid("pad_token_id is outside the vocabulary".to_owned()),
                );
            }
        }
        Ok(())
    }

    fn check_allocations(&self) -> (result: Result<(), ConfigError>)
        requires
            self.head_problem() is None,
        ensures
            config::problem(result) == self.allocation_problem(),
    {
        let rank = self.q_lora_rank_value();
        let embedding: [usize; 2] = [self.vocab_size, self.hidden_size];
        let query: [usize; 3] = [self.num_attention_heads, self.qk_head_dim, rank];
        let joined: usize = self.qk_nope_head_dim + self.v_head_dim;
        let reconstruction: [usize; 3] = [self.num_attention_heads, joined, self.kv_lora_rank];
        let shared: [usize; 3] = [
            self.hidden_size,
            self.moe_intermediate_size,
            self.n_shared_experts,
        ];
        let routed: [usize; 5] = [
            self.sparse_layer_count(),
            self.n_routed_experts,
            3,
            self.hidden_size,
            self.moe_intermediate_size,
        ];
        proof {
            assert(embedding@ =~= seq![self.vocab_size, self.hidden_size]);
            assert(query@ =~= seq![self.num_attention_heads, self.qk_head_dim, rank]);
            assert(reconstruction@ =~= seq![self.num_attention_heads, joined, self.kv_lora_rank]);
            assert(shared@ =~= seq![
                self.hidden_size,
                self.moe_intermediate_size,
                self.n_shared_experts,
            ]);
            assert(routed@ =~= seq![
                self.sparse_layers() as usize,
                self.n_routed_experts,
                3usize,
                self.hidden_size,
                self.moe_intermediate_size,
            ]);
        }
        checked_product("embedding matrix", &embedding)?;
        checked_product("query projection", &query)?;
        checked_product("KV reconstruction", &reconstruction)?;
        checked_product("shared experts", &shared)?;
        checked_product("routed experts", &routed)?;
        Ok(())
    }

    /// Accepts exactly the configurations without a [`refusal`](Self::refusal), and gives the
    /// reason of the first failed check otherwise.
    pub fn validate(&self) -> (result: Result<(), ConfigError>)
        ensures
            config::problem(result) == self.refusal(),
    {
        self.check_form()?;
        self.check_sizes()?;
        self.check_groups()?;
        self.check_heads()?;
        self.check_lists()?;
        self.check_index()?;
        self.check_settings()?;
        self.check_allocations()
    }

    pub fn q_lora_rank_value(&self) -> (rank: usize)
        requires
            self.q_lora_rank is Some,
        ensures
            Some(rank) == self.q_lora_rank,
    {
        self.q_lora_rank.unwrap()
    }

    pub fn layer_is_sparse(&self, layer: usize) -> (result: bool)
        ensures
            result == self.sparse(layer as nat),
    {
        if layer < self.mlp_layer_types.len() {
            same_text(self.mlp_layer_types[layer].as_str(), "sparse")
        } else {
            layer >= self.first_k_dense_replace
        }
    }

    pub fn sparse_layer_count(&self) -> (count: usize)
        ensures
            count == self.sparse_layers(),
    {
        let ghost marked = |layer: nat| self.sparse(layer);
        let mut count: usize = 0;
        let mut layer: usize = 0;
        while layer < self.num_hidden_layers
            invariant
                marked == (|layer: nat| self.sparse(layer)),
                0 <= layer <= self.num_hidden_layers,
                count <= layer,
                count == marked_layers(marked, layer as nat),
            decreases self.num_hidden_layers - layer,
        {
            if self.layer_is_sparse(layer) {
                count = count + 1;
            }
            layer = layer + 1;
        }
        count
    }

    pub fn layer_has_full_indexer(&self, layer: usize) -> (result: bool)
        ensures
            result == self.full_indexer(layer as nat),
    {
        if self.index_n_heads == 0 || self.index_head_dim == 0 || self.index_topk == 0 {
            return false;
        }
        if layer < self.indexer_types.len() {
            same_text(self.indexer_types[layer].as_str(), "full")
        } else {
            let past: usize = layer.saturating_add(1).saturating_sub(self.index_skip_topk_offset);
            let period: usize = if self.index_topk_freq == 0 {
                1
            } else {
                self.index_topk_freq
            };
            past % period == 0
        }
    }

    pub fn full_indexer_layer_count(&self) -> (count: usize)
        ensures
            count == self.full_indexer_layers(),
    {
        let ghost marked = |layer: nat| self.full_indexer(layer);
        let mut count: usize = 0;
        let mut layer: usize = 0;
        while layer < self.num_hidden_layers
            invariant
                marked == (|layer: nat| self.full_indexer(layer)),
                0 <= layer <= self.num_hidden_layers,
                count <= layer,
                count == marked_layers(marked, layer as nat),
            decreases self.num_hidden_layers - layer,
        {
            if self.layer_has_full_indexer(layer) {
                count = count + 1;
            }
            layer = layer + 1;
        }
        count
    }
}

/// In an accepted configuration the dense layers are the first `first_k_dense_replace` ones, and
/// all others are sparse, whether or not the layer kinds are listed.
pub proof fn accepted_layers_split_at_first_k(config: GlmConfig)
    requires
        config.refusal() is None,
    ensures
        forall|layer: nat|
            layer < config.num_hidden_layers ==> (#[trigger] config.sparse(layer) <==> layer
                >= config.first_k_dense_replace),
        config.sparse_layers() == config.num_hidden_layers - config.first_k_dense_replace,
{
    assert forall|layer: nat| layer < config.num_hidden_layers implies (#[trigger] config.sparse(
        layer,
    ) <==> layer >= config.first_k_dense_replace) by {
        if layer < config.mlp_layer_types@.len() {
            lemma_mlp_kinds(config, 0, layer);
            lemma_kinds_differ();
        }
    }
    lemma_marked_from(
        |layer: nat| config.sparse(layer),
        config.first_k_dense_replace as nat,
        config.num_hidden_layers as nat,
    );
}

proof fn lemma_kinds_differ()
    ensures
        "dense"@ != "sparse"@,
{
    reveal_strlit("dense");
    reveal_strlit("sparse");
    assert("dense"@.len() != "sparse"@.len());
}

proof fn lemma_mlp_kinds(config: GlmConfig, from: nat, layer: nat)
    requires
        config.mlp_kinds_problem(from) is None,
        from <= layer < config.mlp_layer_types@.len(),
    ensures
        config.mlp_kind_problem(layer) is None,
    decreases layer - from,
{
    if from < layer {
        lemma_mlp_kinds(config, from + 1, layer);
    }
}

proof fn lemma_marked_from(marked: spec_fn(nat) -> bool, start: nat, layers: nat)
    requires
        forall|layer: nat| layer < layers ==> (#[trigger] marked(layer) <==> layer >= start),
    ensures
        marked_layers(marked, layers) == if layers >= start {
            layers - start
        } else {
            0
        },
    decreases layers,
{
    if layers > 0 {
        lemma_marked_from(marked, start, (layers - 1) as nat);
    }
}

proof fn lemma_all_mlp_kinds(config: GlmConfig, from: nat)
    ensures
        config.mlp_kinds_problem(from) is None <==> forall|layer: int|
            from <= layer < config.mlp_layer_types@.len() ==> (
            #[trigger] config.mlp_layer_types@[layer])@ == (if layer
                < config.first_k_dense_replace {
                "dense"@
            } else {
                "sparse"@
            }),
    decreases config.mlp_layer_types@.len() - from,
{
    if from < config.mlp_layer_types@.len() {
        lemma_all_mlp_kinds(config, from + 1);
        let kind = config.mlp_layer_types@[from as int]@;
        assert(config.mlp_kind_problem(from) is None <==> kind == (if from
            < config.first_k_dense_replace {
            "dense"@
        } else {
            "sparse"@
        }));
        if config.mlp_kinds_problem(from) is None {
            assert forall|layer: int| from <= layer < config.mlp_layer_types@.len() implies (
            #[trigger] config.mlp_layer_types@[layer])@ == (if layer
                < config.first_k_dense_replace {
                "dense"@
            } else {
                "sparse"@
            }) by {
                if layer == from {
                    assert(config.mlp_kind_problem(from) is None);
                }
            }
        }
    }
}

proof fn lemma_all_index_kinds(config: GlmConfig, from: nat)
    ensures
        config.index_kinds_problem(from) is None <==> forall|layer: int|
            from <= layer < config.indexer_types@.len() ==> (
            #[trigger] config.indexer_types@[layer])@ == "full"@
                || config.indexer_types@[layer]@ == "shared"@,
    decreases config.indexer_types@.len() - from,
{
    if from < config.indexer_types@.len() {
        lemma_all_index_kinds(config, from + 1);
        if config.index_kinds_problem(from) is None {
            assert forall|layer: int| from <= layer < config.indexer_types@.len() implies (
            #[trigger] config.indexer_types@[layer])@ == "full"@
                || config.indexer_types@[layer]@ == "shared"@ by {
                if layer == from {
                    assert(config.index_kind_problem(from) is None);
                }
            }
        }
    }
}

/// The lists of a configuration are sound where each is empty or has an entry for every layer, of a
/// known kind and, for the feed-forward parts, as the number of dense layers has it.
pub open spec fn lists_are_sound(config: GlmConfig) -> bool {
    let kinds = config.mlp_layer_types@;
    let indexers = config.indexer_types@;
    &&& kinds.len() == 0 || kinds.len() == config.num_hidden_layers
    &&& indexers.len() == 0 || indexers.len() == config.num_hidden_layers
    &&& forall|layer: int|
        0 <= layer < kinds.len() ==> (#[trigger] kinds[layer])@ == (if layer
            < config.first_k_dense_replace {
            "dense"@
        } else {
            "sparse"@
        })
    &&& forall|layer: int|
        0 <= layer < indexers.len() ==> (#[trigger] indexers[layer])@ == "full"@
            || indexers[layer]@ == "shared"@
}

/// The indexer of a configuration is sound where it has no dimensions and no entries, or all of them in
/// their ranges.
pub open spec fn indexer_is_sound(config: GlmConfig) -> bool {
    if config.index_n_heads == 0 && config.index_head_dim == 0 && config.index_topk == 0 {
        config.indexer_types@.len() == 0
    } else {
        &&& 1 <= config.index_n_heads <= 4_096
        &&& 1 <= config.index_head_dim <= 65_536
        &&& 1 <= config.index_topk <= config.max_position_embeddings
        &&& 1 <= config.index_topk_freq <= config.num_hidden_layers
        &&& config.index_skip_topk_offset <= config.num_hidden_layers
        &&& config.qk_rope_head_dim <= config.index_head_dim
    }
}

/// A configuration is accepted exactly where all of its sizes, groups, lists, names, scales and
/// references are those of a model that can be run, and its matrices can be addressed.
pub proof fn sound_configs_are_accepted(config: GlmConfig)
    ensures
        config.refusal() is None <==> {
            &&& config.model_type@ == "glm_moe_dsa"@
            &&& !config.attention_bias && !config.mlp_bias
            &&& config.rope_interleave && config.indexer_rope_interleave
            &&& !config.tie_word_embeddings
            &&& 1 <= config.hidden_size <= 1_048_576
            &&& 1 <= config.num_hidden_layers <= 256
            &&& 1 <= config.num_attention_heads <= 4_096
            &&& 1 <= config.vocab_size <= 16_777_216
            &&& 1 <= config.intermediate_size <= 16_777_216
            &&& 1 <= config.moe_intermediate_size <= 16_777_216
            &&& 1 <= config.n_routed_experts <= 65_536
            &&& 1 <= config.n_shared_experts <= 1_024
            &&& 1 <= config.num_experts_per_tok <= config.n_routed_experts
            &&& config.first_k_dense_replace <= config.num_hidden_layers
            &&& 1 <= config.n_group <= config.n_routed_experts
            &&& 1 <= config.topk_group <= config.n_group
            &&& config.n_routed_experts as int % config.n_group as int == 0
            &&& config.n_routed_experts as int / config.n_group as int >= 2
            &&& config.num_experts_per_tok <= config.topk_group * (config.n_routed_experts as int
                / config.n_group as int)
            &&& config.routed_scaling_factor.positive_finite()
            &&& config.q_lora_rank is Some && 1 <= config.q_lora_rank->0 <= 1_048_576
            &&& 1 <= config.kv_lora_rank <= 1_048_576
            &&& 1 <= config.qk_nope_head_dim <= 65_536
            &&& 2 <= config.qk_rope_head_dim <= 65_536
            &&& config.qk_rope_head_dim as int % 2 == 0
            &&& 1 <= config.v_head_dim <= 65_536
            &&& config.qk_head_dim == config.qk_nope_head_dim + config.qk_rope_head_dim
            &&& config.num_key_value_heads == 0 || config.num_key_value_heads
                == config.num_attention_heads
            &&& 1 <= config.max_position_embeddings <= 1_073_741_824
            &&& config.num_nextn_predict_layers <= 16
            &&& lists_are_sound(config)
            &&& indexer_is_sound(config)
            &&& config.hidden_act@ == "silu"@
            &&& config.scoring_func@ == "sigmoid"@ && config.topk_method@ == "noaux_tc"@
            &&& config.rms_norm_eps.positive_finite()
            &&& config.rope_parameters.rope_theta.positive_finite()
            &&& config.rope_parameters.rope_type@ == "default"@
            &&& forall|i: int|
                0 <= i < config.eos_token_id@.len() ==> #[trigger] config.eos_token_id@[i]
                    < config.vocab_size
            &&& config.pad_token_id matches Some(token) ==> token < config.vocab_size
            &&& config::products_fit(seq![config.vocab_size, config.hidden_size])
            &&& config::products_fit(
                seq![config.num_attention_heads, config.qk_head_dim, config.q_lora_rank->0],
            )
            &&& config::products_fit(
                seq![
                    config.num_attention_heads,
                    (config.qk_nope_head_dim + config.v_head_dim) as usize,
                    config.kv_lora_rank,
                ],
            )
            &&& config::products_fit(
                seq![config.hidden_size, config.moe_intermediate_size, config.n_shared_experts],
            )
            &&& config::products_fit(
                seq![
                    config.sparse_layers() as usize,
                    config.n_routed_experts,
                    3usize,
                    config.hidden_size,
                    config.moe_intermediate_size,
                ],
            )
        },
{
    lemma_all_mlp_kinds(config, 0);
    lemma_all_index_kinds(config, 0);
    assert(config.exposed_experts() == config.topk_group * (config.n_routed_experts as int
        / config.n_group as int));
    assert(config.list_problem() is None <==> (1 <= config.max_position_embeddings <= 1_073_741_824
        && config.num_nextn_predict_layers <= 16 && lists_are_sound(config)));
    assert(config.max_position_embeddings >= 1 && config.num_hidden_layers >= 1 ==> (
    config.index_problem() is None <==> indexer_is_sound(config)));
}

/// Marked layers are counted one by one.
pub proof fn marked_layers_are_counted(marked: spec_fn(nat) -> bool, layers: nat)
    ensures
        marked_layers(marked, 0) == 0,
        marked_layers(marked, layers + 1) - marked_layers(marked, layers) == if marked(layers) {
            1int
        } else {
            0
        },
{
}

/// A layer of an accepted configuration is sparse exactly behind the dense ones. Where indexers are
/// listed, a layer has a full one exactly where it is listed so; otherwise the layers up to the offset
/// have one, and behind it every layer whose distance is a multiple of the frequency.
pub proof fn layers_are_of_their_listed_kind(config: GlmConfig, layer: nat)
    requires
        config.refusal() is None,
        layer < config.num_hidden_layers,
    ensures
        config.sparse(layer) <==> layer >= config.first_k_dense_replace,
        config.index_topk == 0 ==> !config.full_indexer(layer),
        config.index_topk > 0 && config.indexer_types@.len() > 0 ==> (config.full_indexer(layer)
            <==> config.indexer_types@[layer as int]@ == "full"@),
        config.index_topk > 0 && config.indexer_types@.len() == 0 && layer
            < config.index_skip_topk_offset ==> config.full_indexer(layer),
        config.index_topk > 0 && config.indexer_types@.len() == 0 && layer
            >= config.index_skip_topk_offset ==> (config.full_indexer(layer) <==> (layer + 1
            - config.index_skip_topk_offset) % config.index_topk_freq as int == 0),
{
    sound_configs_are_accepted(config);
    if config.mlp_layer_types@.len() > 0 {
        assert(config.mlp_layer_types@[layer as int]@ == (if layer < config.first_k_dense_replace {
            "dense"@
        } else {
            "sparse"@
        }));
        reveal_strlit("dense");
        reveal_strlit("sparse");
        assert("dense"@.len() == 5 && "sparse"@.len() == 6);
    }
    if config.index_topk > 0 {
        vstd::arithmetic::div_mod::lemma_small_mod(0, config.index_topk_freq as nat);
    }
}

} // verus!
