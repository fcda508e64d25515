//! Header-only tensor schema and memory accounting for DeepSeek-V4.

use crate::accounting;
use crate::accounting::{checked_sum_of, count_unexpected, find_largest, push_shape};
use crate::config;
use crate::config::quote;
use crate::models::deepseek_v4::config::DeepseekV4Config;
use crate::storage;
use crate::storage::{
    inspect_weight_matrix, DType, IndexView, StorageError, StorageProblem, TensorIndex,
    TensorInfo,
};
use crate::text;
use crate::text::{join, join_number, push_decimal, strip_suffix};
use vstd::hash_set::StringHashSet;
use vstd::prelude::*;
use vstd::string::*;

verus! {

/// A checkpoint that the schema refuses.
#[derive(Debug)]
pub enum SchemaError {
    Weight(StorageError),
    Invalid(String),
}

/// The same error, over plain values.
pub enum SchemaProblem {
    Weight(StorageProblem),
    Invalid(Seq<char>),
}

impl View for SchemaError {
    type V = SchemaProblem;

    open spec fn view(&self) -> SchemaProblem {
        match self {
            SchemaError::Weight(error) => SchemaProblem::Weight(error@),
            SchemaError::Invalid(reason) => SchemaProblem::Invalid(reason@),
        }
    }
}

impl SchemaError {
    /// What the schema itself says. An error of the checkpoint speaks for itself and has none.
    pub open spec fn text(self) -> Option<Seq<char>> {
        match self {
            SchemaError::Weight(_) => None,
            SchemaError::Invalid(reason) => Some("invalid DeepSeek-V4 checkpoint: "@ + reason@),
        }
    }

    pub fn message(&self) -> (message: Option<String>)
        ensures
            match message {
                Some(text) => self.text() == Some(text@),
                None => self.text() is None,
            },
    {
        match self {
            SchemaError::Weight(_) => None,
            SchemaError::Invalid(reason) => Some(
                join("invalid DeepSeek-V4 checkpoint: ", reason.as_str()),
            ),
        }
    }
}

#[derive(Debug, Clone)]
pub struct DeepseekV4Requirements {
    /// Peak decoded non-expert weights for the adjacent-layer double buffer.
    pub resident_bytes: u64,
    /// Largest decoded non-expert decoder layer.
    pub streamed_layer_bytes: u64,
    /// Exact decoded bytes required to retain every non-expert decoder layer.
    pub decoder_layer_bytes: u64,
    /// Decoded small vectors pinned once for all decoder layers.
    pub decoder_vector_cache_bytes: u64,
    pub decoder_layer_count: usize,
    /// Resident representation used when the vocabulary projection is pinned.
    pub lm_head_resident_bytes: u64,
    pub maximum_expert_bytes: u64,
    pub transient_expert_bytes: u64,
    pub expert_cache_bytes: u64,
    pub kv_cache_bytes: u64,
    pub expert_slots_per_layer: usize,
    pub context_limit: usize,
    pub exact_context_ceiling: usize,
    pub required_tensor_count: usize,
    pub checkpoint_tensor_count: usize,
    pub unexpected_tensor_count: usize,
    pub base_logical_parameters: u64,
    pub dspark_logical_parameters: u64,
    pub base_expert_count: usize,
    pub dspark_stage_count: usize,
    pub indexed_layer_count: usize,
    pub streamed_embedding_bytes: u64,
    pub streamed_lm_head_bytes: u64,
}

impl DeepseekV4Requirements {
    /// How many leading decoder layers fit into a resident budget.
    pub open spec fn cached_layers(self, resident_budget: u64) -> int {
        let spare = accounting::larger(resident_budget - self.resident_bytes, 0);
        if spare >= self.decoder_layer_bytes {
            self.decoder_layer_count as int
        } else if self.streamed_layer_bytes == 0 {
            0
        } else {
            accounting::smaller(spare / self.streamed_layer_bytes as int, self.decoder_layer_count as int)
        }
    }

    /// Number of leading decoder layers that can be retained above the two-layer streaming
    /// allowance represented by `resident_bytes`.
    pub fn cached_decoder_layers_for_resident_budget(&self, resident_budget: u64) -> (count: usize)
        ensures
            count == self.cached_layers(resident_budget),
            count <= self.decoder_layer_count,
    {
        let cache_budget: u64 = resident_budget.saturating_sub(self.resident_bytes);
        if cache_budget >= self.decoder_layer_bytes {
            self.decoder_layer_count
        } else if self.streamed_layer_bytes == 0 {
            0
        } else {
            let layers: u64 = cache_budget / self.streamed_layer_bytes;
            if layers < self.decoder_layer_count as u64 {
                layers as usize
            } else {
                self.decoder_layer_count
            }
        }
    }

    /// Splits the decoded-layer residency allowance between persistent layers and bounded
    /// lookahead. A partially resident model trades up to three leading cached layers for
    /// additional pending layers, keeping the same conservative count of simultaneously resident
    /// largest layers while allowing up to four storage reads to run ahead of decode compute.
    pub fn decoder_layer_pipeline_for_resident_budget(&self, resident_budget: u64) -> (split: (
        usize,
        usize,
    ))
        ensures
            split == pipeline(
                self.cached_layers(resident_budget) as usize,
                self.decoder_layer_count,
            ),
    {
        let capacity = self.cached_decoder_layers_for_resident_budget(resident_budget);
        decoder_layer_pipeline(capacity, self.decoder_layer_count)
    }

    /// The vocabulary projection fits a resident budget above all decoder layers.
    pub open spec fn caches_lm_head(self, resident_budget: u64) -> bool {
        resident_budget >= accounting::smaller(
            self.resident_bytes + self.decoder_layer_bytes + self.lm_head_resident_bytes,
            u64::MAX as int,
        )
    }

    /// Whether the vocabulary projection can be pinned above all decoder layers.
    pub fn caches_lm_head_for_resident_budget(&self, resident_budget: u64) -> (result: bool)
        ensures
            result == self.caches_lm_head(resident_budget),
    {
        resident_budget >= self.resident_bytes.saturating_add(
            self.decoder_layer_bytes,
        ).saturating_add(self.lm_head_resident_bytes)
    }
}

/// Persistent layers and lookahead for a capacity: all of it is persistent once every layer fits;
/// before that up to four places go to the lookahead.
pub open spec fn pipeline(capacity: usize, layer_count: usize) -> (usize, usize) {
    if capacity < layer_count {
        let depth = accounting::smaller(capacity + 1, 4);
        ((capacity + 1 - depth) as usize, depth as usize)
    } else {
        (capacity, 1)
    }
}

pub fn decoder_layer_pipeline(capacity: usize, layer_count: usize) -> (split: (usize, usize))
    ensures
        split == pipeline(capacity, layer_count),
{
    if capacity < layer_count {
        let depth: usize = if capacity + 1 < 4 {
            capacity + 1
        } else {
            4
        };
        (capacity + 1 - depth, depth)
    } else {
        (capacity, 1)
    }
}

/// A partially resident model holds as many layers, cached and in flight, as the streaming
/// allowance and its capacity together, looks ahead by one to four layers, and never caches more
/// than its capacity.
pub proof fn pipeline_keeps_residency(capacity: usize, layer_count: usize)
    ensures
        capacity < layer_count ==> pipeline(capacity, layer_count).0 + pipeline(
            capacity,
            layer_count,
        ).1 == capacity + 1,
        1 <= pipeline(capacity, layer_count).1 <= 4,
        pipeline(capacity, layer_count).0 <= capacity,
{
}

/// Where a tensor is held while the model runs.
#[derive(Debug, Clone, Copy, PartialEq, Eq, Structural)]
pub enum Residency {
    TokenRows,
    BaseLayer(usize),
    BaseExpert(usize),
    BaseFinal,
    DSpark,
}

/// What the schema expects of a name.
#[derive(Debug, Clone, Copy, PartialEq, Eq, Structural)]
pub enum EntryKind {
    Matrix { rows: usize, cols: usize },
    Vector { length: usize, dtype: DType },
    Integers { rows: usize, cols: usize },
    /// All weights of one expert of this layer are listed.
    ExpertDone { layer: usize },
}

/// One line of the schema.
#[derive(Debug, Clone)]
pub struct Entry {
    pub name: String,
    pub kind: EntryKind,
    pub residency: Residency,
}

/// The same line, over plain values.
pub struct EntryView {
    pub name: Seq<char>,
    pub kind: EntryKind,
    pub residency: Residency,
}

impl View for Entry {
    type V = EntryView;

    open spec fn view(&self) -> EntryView {
        EntryView { name: self.name@, kind: self.kind, residency: self.residency }
    }
}

pub open spec fn lines(entries: Seq<Entry>) -> Seq<EntryView> {
    Seq::new(entries.len(), |i: int| entries[i]@)
}

pub open spec fn matrix_line(
    name: Seq<char>,
    rows: usize,
    cols: usize,
    residency: Residency,
) -> EntryView {
    EntryView { name, kind: EntryKind::Matrix { rows, cols }, residency }
}

pub open spec fn vector_line(
    name: Seq<char>,
    length: usize,
    dtype: DType,
    residency: Residency,
) -> EntryView {
    EntryView { name, kind: EntryKind::Vector { length, dtype }, residency }
}

fn push_entry(entries: &mut Vec<Entry>, name: String, kind: EntryKind, residency: Residency)
    ensures
        lines(final(entries)@) == lines(old(entries)@).push(
            EntryView { name: name@, kind, residency },
        ),
{
    let ghost before = entries@;
    entries.push(Entry { name, kind, residency });
    proof {
        assert(lines(entries@) =~= lines(before).push(
            EntryView { name: name@, kind, residency },
        ));
    }
}

fn push_matrix(
    entries: &mut Vec<Entry>,
    name: String,
    rows: usize,
    cols: usize,
    residency: Residency,
)
    ensures
        lines(final(entries)@) == lines(old(entries)@).push(
            matrix_line(name@, rows, cols, residency),
        ),
{
    push_entry(entries, name, EntryKind::Matrix { rows, cols }, residency);
}

fn push_vector(
    entries: &mut Vec<Entry>,
    name: String,
    length: usize,
    dtype: DType,
    residency: Residency,
)
    ensures
        lines(final(entries)@) == lines(old(entries)@).push(
            vector_line(name@, length, dtype, residency),
        ),
{
    push_entry(entries, name, EntryKind::Vector { length, dtype }, residency);
}

impl DeepseekV4Config {
    /// Every base layer has a compression ratio.
    pub open spec fn has_base_ratios(self) -> bool {
        self.num_hidden_layers <= self.compress_ratios@.len()
    }

    /// The tensor dimensions that the schema computes are numbers of the machine.
    pub open spec fn schema_fits(self) -> bool {
        &&& self.o_groups > 0
        &&& (2 + self.hc_mult) * self.hc_mult <= usize::MAX
        &&& self.hc_mult * self.hidden_size <= usize::MAX
        &&& self.num_attention_heads * self.head_dim <= usize::MAX
        &&& self.o_groups * self.o_lora_rank <= usize::MAX
        &&& self.index_n_heads * self.index_head_dim <= usize::MAX
        &&& 2 * self.head_dim <= usize::MAX
        &&& 2 * self.index_head_dim <= usize::MAX
        &&& self.hidden_size * self.dspark_target_layer_ids@.len() <= usize::MAX
        &&& self.hidden_size + self.dspark_markov_rank <= usize::MAX
        &&& self.num_hidden_layers * self.n_routed_experts <= usize::MAX
    }

    /// The dimensions that validation leaves open are numbers of the machine.
    pub open spec fn open_dimensions_fit(self) -> bool {
        &&& self.o_groups * self.o_lora_rank <= usize::MAX
        &&& self.hidden_size * self.dspark_target_layer_ids@.len() <= usize::MAX
        &&& self.hidden_size + self.dspark_markov_rank <= usize::MAX
    }

    pub open spec fn mix_width(self) -> usize {
        ((2 + self.hc_mult) * self.hc_mult) as usize
    }
}

/// The mixing weights of one sublayer's hyper-connections.
pub open spec fn hc_lines(
    config: DeepseekV4Config,
    prefix: Seq<char>,
    sublayer: Seq<char>,
    residency: Residency,
) -> Seq<EntryView> {
    let stem = prefix + sublayer;
    seq![
        matrix_line(
            stem + "_fn"@,
            config.mix_width(),
            (config.hc_mult * config.hidden_size) as usize,
            residency,
        ),
        vector_line(stem + "_base"@, config.mix_width(), DType::F32, residency),
        vector_line(stem + "_scale"@, 3, DType::F32, residency),
    ]
}

pub open spec fn attention_lines(
    config: DeepseekV4Config,
    attention: Seq<char>,
    residency: Residency,
) -> Seq<EntryView> {
    let h = config.hidden_size;
    let width = (config.num_attention_heads * config.head_dim) as usize;
    let low_rank = (config.o_groups * config.o_lora_rank) as usize;
    seq![
        vector_line(
            attention + ".attn_sink"@,
            config.num_attention_heads,
            DType::F32,
            residency,
        ),
        matrix_line(attention + ".wq_a.weight"@, config.q_lora_rank, h, residency),
        vector_line(attention + ".q_norm.weight"@, config.q_lora_rank, DType::Bf16, residency),
        matrix_line(attention + ".wq_b.weight"@, width, config.q_lora_rank, residency),
        matrix_line(attention + ".wkv.weight"@, config.head_dim, h, residency),
        vector_line(attention + ".kv_norm.weight"@, config.head_dim, DType::Bf16, residency),
        matrix_line(
            attention + ".wo_a.weight"@,
            low_rank,
            (width as nat / config.o_groups as nat) as usize,
            residency,
        ),
        matrix_line(attention + ".wo_b.weight"@, h, low_rank, residency),
    ]
}

pub open spec fn compressor_lines(
    config: DeepseekV4Config,
    prefix: Seq<char>,
    ratio: usize,
    head_dim: usize,
    residency: Residency,
) -> Seq<EntryView> {
    let coefficient: int = if ratio == 4 {
        2
    } else {
        1
    };
    let width = (coefficient * head_dim) as usize;
    seq![
        matrix_line(prefix + ".ape"@, ratio, width, residency),
        matrix_line(prefix + ".wkv.weight"@, width, config.hidden_size, residency),
        matrix_line(prefix + ".wgate.weight"@, width, config.hidden_size, residency),
        vector_line(prefix + ".norm.weight"@, head_dim, DType::Bf16, residency),
    ]
}

pub open spec fn indexer_lines(
    config: DeepseekV4Config,
    indexer: Seq<char>,
    ratio: usize,
    residency: Residency,
) -> Seq<EntryView> {
    seq![
        matrix_line(
            indexer + ".wq_b.weight"@,
            (config.index_n_heads * config.index_head_dim) as usize,
            config.q_lora_rank,
            residency,
        ),
        matrix_line(
            indexer + ".weights_proj.weight"@,
            config.index_n_heads,
            config.hidden_size,
            residency,
        ),
    ] + compressor_lines(
        config,
        indexer + ".compressor"@,
        ratio,
        config.index_head_dim,
        residency,
    )
}

pub open spec fn mlp_lines(
    prefix: Seq<char>,
    hidden: usize,
    intermediate: usize,
    residency: Residency,
) -> Seq<EntryView> {
    seq![
        matrix_line(prefix + ".w1.weight"@, intermediate, hidden, residency),
        matrix_line(prefix + ".w3.weight"@, intermediate, hidden, residency),
        matrix_line(prefix + ".w2.weight"@, hidden, intermediate, residency),
    ]
}

/// Where the weights of a block, and of its routed experts, are held.
pub open spec fn block_residency(base_layer: Option<usize>) -> Residency {
    match base_layer {
        Some(layer) => Residency::BaseLayer(layer),
        None => Residency::DSpark,
    }
}

pub open spec fn expert_residency(base_layer: Option<usize>) -> Residency {
    match base_layer {
        Some(layer) => Residency::BaseExpert(layer),
        None => Residency::DSpark,
    }
}

pub open spec fn expert_lines(
    config: DeepseekV4Config,
    ffn: Seq<char>,
    expert: nat,
    base_layer: Option<usize>,
) -> Seq<EntryView> {
    mlp_lines(
        ffn + ".experts."@ + text::decimal(expert),
        config.hidden_size,
        config.moe_intermediate_size,
        expert_residency(base_layer),
    ) + match base_layer {
        Some(layer) => seq![
            EntryView {
                name: Seq::empty(),
                kind: EntryKind::ExpertDone { layer },
                residency: Residency::BaseExpert(layer),
            },
        ],
        None => Seq::empty(),
    }
}

pub open spec fn experts_lines(
    config: DeepseekV4Config,
    ffn: Seq<char>,
    experts: nat,
    base_layer: Option<usize>,
) -> Seq<EntryView>
    decreases experts,
{
    if experts == 0 {
        Seq::empty()
    } else {
        experts_lines(config, ffn, (experts - 1) as nat, base_layer) + expert_lines(
            config,
            ffn,
            (experts - 1) as nat,
            base_layer,
        )
    }
}

pub open spec fn front_lines(
    config: DeepseekV4Config,
    prefix: Seq<char>,
    residency: Residency,
) -> Seq<EntryView> {
    hc_lines(config, prefix, ".hc_attn"@, residency) + hc_lines(
        config,
        prefix,
        ".hc_ffn"@,
        residency,
    ) + seq![
        vector_line(prefix + ".attn_norm.weight"@, config.hidden_size, DType::Bf16, residency),
        vector_line(prefix + ".ffn_norm.weight"@, config.hidden_size, DType::Bf16, residency),
    ] + attention_lines(config, prefix + ".attn"@, residency)
}

pub open spec fn sparse_lines(
    config: DeepseekV4Config,
    attention: Seq<char>,
    ratio: usize,
    residency: Residency,
) -> Seq<EntryView> {
    if ratio == 0 {
        Seq::empty()
    } else {
        compressor_lines(config, attention + ".compressor"@, ratio, config.head_dim, residency)
            + if ratio == 4 {
            indexer_lines(config, attention + ".indexer"@, ratio, residency)
        } else {
            Seq::empty()
        }
    }
}

pub open spec fn router_lines(
    config: DeepseekV4Config,
    ffn: Seq<char>,
    hash_router: bool,
    residency: Residency,
) -> Seq<EntryView> {
    seq![
        matrix_line(
            ffn + ".gate.weight"@,
            config.n_routed_experts,
            config.hidden_size,
            residency,
        ),
        if hash_router {
            EntryView {
                name: ffn + ".gate.tid2eid"@,
                kind: EntryKind::Integers {
                    rows: config.vocab_size,
                    cols: config.num_experts_per_tok,
                },
                residency,
            }
        } else {
            vector_line(ffn + ".gate.bias"@, config.n_routed_experts, DType::F32, residency)
        },
    ] + mlp_lines(
        ffn + ".shared_experts"@,
        config.hidden_size,
        config.moe_intermediate_size,
        residency,
    )
}

/// All tensors of one decoder block.
pub open spec fn block_lines(
    config: DeepseekV4Config,
    prefix: Seq<char>,
    ratio: usize,
    hash_router: bool,
    base_layer: Option<usize>,
) -> Seq<EntryView> {
    let residency = block_residency(base_layer);
    front_lines(config, prefix, residency) + sparse_lines(
        config,
        prefix + ".attn"@,
        ratio,
        residency,
    ) + router_lines(config, prefix + ".ffn"@, hash_router, residency) + experts_lines(
        config,
        prefix + ".ffn"@,
        config.n_routed_experts as nat,
        base_layer,
    )
}

fn list_hc(
    entries: &mut Vec<Entry>,
    config: &DeepseekV4Config,
    prefix: &str,
    sublayer: &str,
    residency: Residency,
)
    requires
        config.schema_fits(),
    ensures
        lines(final(entries)@) == lines(old(entries)@) + hc_lines(
            *config,
            prefix@,
            sublayer@,
            residency,
        ),
{
    let ghost before = lines(entries@);
    let stem = join(prefix, sublayer);
    assert(2 + config.hc_mult <= usize::MAX) by (nonlinear_arith)
        requires
            (2 + config.hc_mult) * config.hc_mult <= usize::MAX,
            config.hc_mult <= usize::MAX,
            usize::MAX >= 4,
    ;
    let mix: usize = (2 + config.hc_mult) * config.hc_mult;
    push_matrix(
        entries,
        join(stem.as_str(), "_fn"),
        mix,
        config.hc_mult * config.hidden_size,
        residency,
    );
    push_vector(entries, join(stem.as_str(), "_base"), mix, DType::F32, residency);
    push_vector(entries, join(stem.as_str(), "_scale"), 3, DType::F32, residency);
    proof {
        assert(lines(entries@) =~= before + hc_lines(*config, prefix@, sublayer@, residency));
    }
}

fn list_attention(
    entries: &mut Vec<Entry>,
    config: &DeepseekV4Config,
    attention: &str,
    residency: Residency,
)
    requires
        config.schema_fits(),
    ensures
        lines(final(entries)@) == lines(old(entries)@) + attention_lines(
            *config,
            attention@,
            residency,
        ),
{
    let ghost before = lines(entries@);
    let h = config.hidden_size;
    let width: usize = config.num_attention_heads * config.head_dim;
    let low_rank: usize = config.o_groups * config.o_lora_rank;
    push_vector(
        entries,
        join(attention, ".attn_sink"),
        config.num_attention_heads,
        DType::F32,
        residency,
    );
    push_matrix(entries, join(attention, ".wq_a.weight"), config.q_lora_rank, h, residency);
    push_vector(
        entries,
        join(attention, ".q_norm.weight"),
        config.q_lora_rank,
        DType::Bf16,
        residency,
    );
    push_matrix(entries, join(attention, ".wq_b.weight"), width, config.q_lora_rank, residency);
    push_matrix(entries, join(attention, ".wkv.weight"), config.head_dim, h, residency);
    push_vector(
        entries,
        join(attention, ".kv_norm.weight"),
        config.head_dim,
        DType::Bf16,
        residency,
    );
    push_matrix(
        entries,
        join(attention, ".wo_a.weight"),
        low_rank,
        width / config.o_groups,
        residency,
    );
    push_matrix(entries, join(attention, ".wo_b.weight"), h, low_rank, residency);
    proof {
        assert(lines(entries@) =~= before + attention_lines(*config, attention@, residency));
    }
}

/// Lists the tensors of one compressor.
fn inspect_compressor(
    entries: &mut Vec<Entry>,
    config: &DeepseekV4Config,
    prefix: &str,
    ratio: usize,
    head_dim: usize,
    residency: Residency,
)
    requires
        2 * head_dim <= usize::MAX,
    ensures
        lines(final(entries)@) == lines(old(entries)@) + compressor_lines(
            *config,
            prefix@,
            ratio,
            head_dim,
            residency,
        ),
{
    let ghost before = lines(entries@);
    let width: usize = if ratio == 4 {
        2 * head_dim
    } else {
        head_dim
    };
    push_matrix(entries, join(prefix, ".ape"), ratio, width, residency);
    push_matrix(entries, join(prefix, ".wkv.weight"), width, config.hidden_size, residency);
    push_matrix(entries, join(prefix, ".wgate.weight"), width, config.hidden_size, residency);
    push_vector(entries, join(prefix, ".norm.weight"), head_dim, DType::Bf16, residency);
    proof {
        assert(lines(entries@) =~= before + compressor_lines(
            *config,
            prefix@,
            ratio,
            head_dim,
            residency,
        ));
    }
}

/// Lists the three projections of one feed-forward expert.
fn inspect_mlp(
    entries: &mut Vec<Entry>,
    prefix: &str,
    hidden: usize,
    intermediate: usize,
    residency: Residency,
)
    ensures
        lines(final(entries)@) == lines(old(entries)@) + mlp_lines(
            prefix@,
            hidden,
            intermediate,
            residency,
        ),
{
    let ghost before = lines(entries@);
    push_matrix(entries, join(prefix, ".w1.weight"), intermediate, hidden, residency);
    push_matrix(entries, join(prefix, ".w3.weight"), intermediate, hidden, residency);
    push_matrix(entries, join(prefix, ".w2.weight"), hidden, intermediate, residency);
    proof {
        assert(lines(entries@) =~= before + mlp_lines(prefix@, hidden, intermediate, residency));
    }
}

fn list_front(
    entries: &mut Vec<Entry>,
    config: &DeepseekV4Config,
    prefix: &str,
    residency: Residency,
)
    requires
        config.schema_fits(),
    ensures
        lines(final(entries)@) == lines(old(entries)@) + front_lines(*config, prefix@, residency),
{
    let ghost before = lines(entries@);
    list_hc(entries, config, prefix, ".hc_attn", residency);
    list_hc(entries, config, prefix, ".hc_ffn", residency);
    push_vector(
        entries,
        join(prefix, ".attn_norm.weight"),
        config.hidden_size,
        DType::Bf16,
        residency,
    );
    push_vector(
        entries,
        join(prefix, ".ffn_norm.weight"),
        config.hidden_size,
        DType::Bf16,
        residency,
    );
    let attention = join(prefix, ".attn");
    list_attention(entries, config, attention.as_str(), residency);
    proof {
        assert(lines(entries@) =~= before + front_lines(*config, prefix@, residency));
    }
}

fn list_sparse(
    entries: &mut Vec<Entry>,
    config: &DeepseekV4Config,
    attention: &str,
    ratio: usize,
    residency: Residency,
)
    requires
        config.schema_fits(),
    ensures
        lines(final(entries)@) == lines(old(entries)@) + sparse_lines(
            *config,
            attention@,
            ratio,
            residency,
        ),
{
    let ghost before = lines(entries@);
    if ratio > 0 {
        let compressor = join(attention, ".compressor");
        inspect_compressor(entries, config, compressor.as_str(), ratio, config.head_dim, residency);
        if ratio == 4 {
            let indexer = join(attention, ".indexer");
            push_matrix(
                entries,
                join(indexer.as_str(), ".wq_b.weight"),
                config.index_n_heads * config.index_head_dim,
                config.q_lora_rank,
                residency,
            );
            push_matrix(
                entries,
                join(indexer.as_str(), ".weights_proj.weight"),
                config.index_n_heads,
                config.hidden_size,
                residency,
            );
            let inner = join(indexer.as_str(), ".compressor");
            inspect_compressor(
                entries,
                config,
                inner.as_str(),
                ratio,
                config.index_head_dim,
                residency,
            );
        }
    }
    proof {
        assert(lines(entries@) =~= before + sparse_lines(*config, attention@, ratio, residency));
    }
}

fn list_router(
    entries: &mut Vec<Entry>,
    config: &DeepseekV4Config,
    ffn: &str,
    hash_router: bool,
    residency: Residency,
)
    ensures
        lines(final(entries)@) == lines(old(entries)@) + router_lines(
            *config,
            ffn@,
            hash_router,
            residency,
        ),
{
    let ghost before = lines(entries@);
    push_matrix(
        entries,
        join(ffn, ".gate.weight"),
        config.n_routed_experts,
        config.hidden_size,
        residency,
    );
    if hash_router {
        push_entry(
            entries,
            join(ffn, ".gate.tid2eid"),
            EntryKind::Integers { rows: config.vocab_size, cols: config.num_experts_per_tok },
            residency,
        );
    } else {
        push_vector(
            entries,
            join(ffn, ".gate.bias"),
            config.n_routed_experts,
            DType::F32,
            residency,
        );
    }
    let shared = join(ffn, ".shared_experts");
    inspect_mlp(
        entries,
        shared.as_str(),
        config.hidden_size,
        config.moe_intermediate_size,
        residency,
    );
    proof {
        assert(lines(entries@) =~= before + router_lines(*config, ffn@, hash_router, residency));
    }
}

fn list_expert(
    entries: &mut Vec<Entry>,
    config: &DeepseekV4Config,
    ffn: &str,
    expert: usize,
    base_layer: Option<usize>,
)
    ensures
        lines(final(entries)@) == lines(old(entries)@) + expert_lines(
            *config,
            ffn@,
            expert as nat,
            base_layer,
        ),
{
    let ghost before = lines(entries@);
    let residency = match base_layer {
        Some(layer) => Residency::BaseExpert(layer),
        None => Residency::DSpark,
    };
    let prefix = join_number(join(ffn, ".experts.").as_str(), expert);
    inspect_mlp(
        entries,
        prefix.as_str(),
        config.hidden_size,
        config.moe_intermediate_size,
        residency,
    );
    if let Some(layer) = base_layer {
        push_entry(entries, String::new(), EntryKind::ExpertDone { layer }, residency);
    }
    proof {
        assert(lines(entries@) =~= before + expert_lines(
            *config,
            ffn@,
            expert as nat,
            base_layer,
        ));
    }
}

/// Lists the tensors of one decoder block, in the order in which they are inspected.
pub fn inspect_block(
    entries: &mut Vec<Entry>,
    config: &DeepseekV4Config,
    prefix: &str,
    compress_ratio: usize,
    hash_router: bool,
    base_layer: Option<usize>,
)
    requires
        config.schema_fits(),
    ensures
        lines(final(entries)@) == lines(old(entries)@) + block_lines(
            *config,
            prefix@,
            compress_ratio,
            hash_router,
            base_layer,
        ),
{
    let ghost before = lines(entries@);
    let residency = match base_layer {
        Some(layer) => Residency::BaseLayer(layer),
        None => Residency::DSpark,
    };
    list_front(entries, config, prefix, residency);
    let attention = join(prefix, ".attn");
    list_sparse(entries, config, attention.as_str(), compress_ratio, residency);
    let ffn = join(prefix, ".ffn");
    list_router(entries, config, ffn.as_str(), hash_router, residency);
    let ghost middle = lines(entries@);
    let mut expert: usize = 0;
    proof {
        assert(lines(entries@) =~= middle + experts_lines(*config, ffn@, 0, base_layer));
    }
    while expert < config.n_routed_experts
        invariant
            expert <= config.n_routed_experts,
            lines(entries@) == middle + experts_lines(*config, ffn@, expert as nat, base_layer),
        decreases config.n_routed_experts - expert,
    {
        list_expert(entries, config, ffn.as_str(), expert, base_layer);
        expert = expert + 1;
        proof {
            assert(lines(entries@) =~= middle + experts_lines(
                *config,
                ffn@,
                expert as nat,
                base_layer,
            ));
        }
    }
    proof {
        assert(lines(entries@) =~= before + block_lines(
            *config,
            prefix@,
            compress_ratio,
            hash_router,
            base_layer,
        ));
    }
}

/// The name of the tensor that holds a matrix's native scales.
pub open spec fn scale_name(name: Seq<char>) -> Seq<char> {
    if text::ends_in(name, ".weight"@) {
        name.take(name.len() - ".weight"@.len()) + ".scale"@
    } else {
        name + ".scale"@
    }
}

pub fn native_scale_name(name: &str) -> (scale: String)
    ensures
        scale@ == scale_name(name@),
{
    match strip_suffix(name, ".weight") {
        Some(prefix) => join(prefix, ".scale"),
        None => join(name, ".scale"),
    }
}

/// What has been accounted for so far.
pub struct Account {
    pub expected: Set<Seq<char>>,
    pub layer_bytes: Seq<u64>,
    pub vector_bytes: u64,
    pub slot_bytes: Seq<u64>,
    pub expert_bytes: u64,
    pub maximum_expert_bytes: u64,
    pub final_bytes: u64,
    pub base_parameters: u64,
    pub dspark_parameters: u64,
}

pub open spec fn empty_account(layers: nat) -> Account {
    Account {
        expected: Set::empty(),
        layer_bytes: Seq::new(layers, |i: int| 0u64),
        vector_bytes: 0,
        slot_bytes: Seq::new(layers, |i: int| 0u64),
        expert_bytes: 0,
        maximum_expert_bytes: 0,
        final_bytes: 0,
        base_parameters: 0,
        dspark_parameters: 0,
    }
}

/// A sum that fits, or the refusal that names it.
pub open spec fn total(left: u64, right: u64, label: Seq<char>) -> Result<u64, SchemaProblem> {
    if left + right <= u64::MAX {
        Ok((left + right) as u64)
    } else {
        Err(SchemaProblem::Invalid(label + " overflows u64"@))
    }
}

pub open spec fn after_expecting(account: Account, name: Seq<char>) -> Result<
    Account,
    SchemaProblem,
> {
    if account.expected.contains(name) {
        Err(
            SchemaProblem::Invalid(
                "schema generated tensor "@ + config::quoted(name) + " twice"@,
            ),
        )
    } else {
        Ok(Account { expected: account.expected.insert(name), ..account })
    }
}

/// Charges the bytes of a tensor to where it is held.
pub open spec fn after_bytes(account: Account, residency: Residency, resident: u64) -> Result<
    Account,
    SchemaProblem,
> {
    match residency {
        Residency::BaseLayer(layer) => match total(
            account.layer_bytes[layer as int],
            resident,
            "base layer bytes"@,
        ) {
            Ok(sum) => Ok(
                Account { layer_bytes: account.layer_bytes.update(layer as int, sum), ..account },
            ),
            Err(problem) => Err(problem),
        },
        Residency::BaseExpert(_) => match total(
            account.expert_bytes,
            resident,
            "expert bytes"@,
        ) {
            Ok(sum) => Ok(Account { expert_bytes: sum, ..account }),
            Err(problem) => Err(problem),
        },
        Residency::BaseFinal => match total(account.final_bytes, resident, "final weights"@) {
            Ok(sum) => Ok(Account { final_bytes: sum, ..account }),
            Err(problem) => Err(problem),
        },
        Residency::TokenRows => Ok(account),
        Residency::DSpark => Ok(account),
    }
}

/// Charges the parameters of a tensor to the base model or to the attached stages.
pub open spec fn after_parameters(
    account: Account,
    residency: Residency,
    parameters: u64,
) -> Result<Account, SchemaProblem> {
    if residency == Residency::DSpark {
        match total(account.dspark_parameters, parameters, "DSpark parameters"@) {
            Ok(sum) => Ok(Account { dspark_parameters: sum, ..account }),
            Err(problem) => Err(problem),
        }
    } else {
        match total(account.base_parameters, parameters, "base parameters"@) {
            Ok(sum) => Ok(Account { base_parameters: sum, ..account }),
            Err(problem) => Err(problem),
        }
    }
}

pub open spec fn after_charge(
    account: Account,
    residency: Residency,
    resident: u64,
    parameters: u64,
) -> Result<Account, SchemaProblem> {
    match after_bytes(account, residency, resident) {
        Ok(next) => after_parameters(next, residency, parameters),
        Err(problem) => Err(problem),
    }
}

pub open spec fn after_matrix(
    account: Account,
    index: IndexView,
    name: Seq<char>,
    rows: usize,
    cols: usize,
    residency: Residency,
) -> Result<Account, SchemaProblem> {
    match index.inspect(name, rows, cols) {
        Err(problem) => Err(SchemaProblem::Weight(problem)),
        Ok(layout) => match after_expecting(account, name) {
            Err(problem) => Err(problem),
            Ok(listed) => match if layout.format.scaled() {
                after_expecting(listed, scale_name(name))
            } else {
                Ok(listed)
            } {
                Err(problem) => Err(problem),
                Ok(scaled) => if rows * cols > u64::MAX {
                    Err(SchemaProblem::Invalid(config::quoted(name) + " parameters overflow"@))
                } else {
                    after_charge(scaled, residency, layout.resident_bytes, (rows * cols) as u64)
                },
            },
        },
    }
}

pub open spec fn vector_message(
    name: Seq<char>,
    length: usize,
    dtype: DType,
    found: TensorInfo,
) -> Seq<char> {
    "tensor "@ + config::quoted(name) + " must be "@ + dtype.label() + " ["@ + text::decimal(
        length as nat,
    ) + "], got "@ + found.dtype.label() + " ["@ + accounting::shown(found.shape@) + "]"@
}

pub open spec fn after_vector(
    account: Account,
    index: IndexView,
    name: Seq<char>,
    length: usize,
    dtype: DType,
    residency: Residency,
) -> Result<Account, SchemaProblem> {
    match index.require(name) {
        Err(problem) => Err(SchemaProblem::Weight(problem)),
        Ok(found) => if found.shape@ != seq![length as u64] || found.dtype != dtype {
            Err(SchemaProblem::Invalid(vector_message(name, length, dtype, found)))
        } else {
            match after_expecting(account, name) {
                Err(problem) => Err(problem),
                Ok(listed) => if length * 4 > u64::MAX {
                    Err(SchemaProblem::Invalid(config::quoted(name) + " bytes overflow"@))
                } else if residency is BaseLayer {
                    if listed.vector_bytes + length * 4 > u64::MAX {
                        Err(SchemaProblem::Invalid("decoder vector cache bytes overflow"@))
                    } else {
                        after_charge(
                            Account {
                                vector_bytes: (listed.vector_bytes + length * 4) as u64,
                                ..listed
                            },
                            residency,
                            (length * 4) as u64,
                            length as u64,
                        )
                    }
                } else {
                    after_charge(listed, residency, (length * 4) as u64, length as u64)
                },
            }
        },
    }
}

pub open spec fn integers_message(
    name: Seq<char>,
    rows: usize,
    cols: usize,
    found: TensorInfo,
) -> Seq<char> {
    "tensor "@ + config::quoted(name) + " must be I64 ["@ + text::decimal(rows as nat) + ","@
        + text::decimal(cols as nat) + "], got "@ + found.dtype.label() + " ["@ + accounting::shown(
        found.shape@,
    ) + "]"@
}

pub open spec fn after_integers(
    account: Account,
    index: IndexView,
    name: Seq<char>,
    rows: usize,
    cols: usize,
    residency: Residency,
) -> Result<Account, SchemaProblem> {
    match index.require(name) {
        Err(problem) => Err(SchemaProblem::Weight(problem)),
        Ok(found) => if found.shape@ != seq![rows as u64, cols as u64] || found.dtype
            != DType::I64 {
            Err(SchemaProblem::Invalid(integers_message(name, rows, cols, found)))
        } else {
            match after_expecting(account, name) {
                Err(problem) => Err(problem),
                Ok(listed) => if rows * cols > u64::MAX {
                    Err(SchemaProblem::Invalid(config::quoted(name) + " elements overflow"@))
                } else {
                    after_charge(listed, residency, 0, (rows * cols) as u64)
                },
            }
        },
    }
}

/// Closes one expert: its bytes count toward the slot of its layer and the largest expert.
pub open spec fn after_expert(account: Account, layer: usize) -> Result<Account, SchemaProblem> {
    if account.expert_bytes == 0 {
        Err(
            SchemaProblem::Invalid(
                "layer "@ + text::decimal(layer as nat) + " expert has no weights"@,
            ),
        )
    } else {
        Ok(
            Account {
                slot_bytes: account.slot_bytes.update(
                    layer as int,
                    accounting::larger(
                        account.slot_bytes[layer as int] as int,
                        account.expert_bytes as int,
                    ) as u64,
                ),
                maximum_expert_bytes: accounting::larger(
                    account.maximum_expert_bytes as int,
                    account.expert_bytes as int,
                ) as u64,
                expert_bytes: 0,
                ..account
            },
        )
    }
}

/// The account behind one line of the schema.
pub open spec fn after_line(account: Account, index: IndexView, line: EntryView) -> Result<
    Account,
    SchemaProblem,
> {
    match line.kind {
        EntryKind::Matrix { rows, cols } => after_matrix(
            account,
            index,
            line.name,
            rows,
            cols,
            line.residency,
        ),
        EntryKind::Vector { length, dtype } => after_vector(
            account,
            index,
            line.name,
            length,
            dtype,
            line.residency,
        ),
        EntryKind::Integers { rows, cols } => after_integers(
            account,
            index,
            line.name,
            rows,
            cols,
            line.residency,
        ),
        EntryKind::ExpertDone { layer } => after_expert(account, layer),
    }
}

/// The account behind all lines, in order; the first refused line decides.
pub open spec fn after_lines(account: Account, index: IndexView, lines: Seq<EntryView>) -> Result<
    Account,
    SchemaProblem,
>
    decreases lines.len(),
{
    if lines.len() == 0 {
        Ok(account)
    } else {
        match after_lines(account, index, lines.drop_last()) {
            Ok(next) => after_line(next, index, lines.last()),
            Err(problem) => Err(problem),
        }
    }
}

/// Lines that name no layer outside the account.
pub open spec fn lines_within(lines: Seq<EntryView>, layers: nat) -> bool {
    forall|i: int|
        0 <= i < lines.len() ==> {
            &&& ((#[trigger] lines[i]).residency matches Residency::BaseLayer(layer) ==> layer
                < layers)
            &&& (lines[i].kind matches EntryKind::ExpertDone { layer } ==> layer < layers)
        }
}

/// Adds up what the tensors of a checkpoint take.
struct ManifestBuilder {
    expected: StringHashSet,
    base_layer_bytes: Vec<u64>,
    base_layer_vector_bytes: u64,
    base_layer_expert_slot_bytes: Vec<u64>,
    current_expert_bytes: u64,
    maximum_expert_bytes: u64,
    base_final_bytes: u64,
    base_parameters: u64,
    dspark_parameters: u64,
}

impl View for ManifestBuilder {
    type V = Account;

    closed spec fn view(&self) -> Account {
        Account {
            expected: self.expected@,
            layer_bytes: self.base_layer_bytes@,
            vector_bytes: self.base_layer_vector_bytes,
            slot_bytes: self.base_layer_expert_slot_bytes@,
            expert_bytes: self.current_expert_bytes,
            maximum_expert_bytes: self.maximum_expert_bytes,
            final_bytes: self.base_final_bytes,
            base_parameters: self.base_parameters,
            dspark_parameters: self.dspark_parameters,
        }
    }
}

/// An outcome with the account it leaves, as the specification gives it.
spec fn leaves(
    result: Result<(), SchemaError>,
    after: Account,
    wanted: Result<Account, SchemaProblem>,
) -> bool {
    match result {
        Ok(_) => wanted == Ok::<Account, SchemaProblem>(after),
        Err(error) => wanted == Err::<Account, SchemaProblem>(error@),
    }
}

fn add_total(left: u64, right: u64, label: &str) -> (result: Result<u64, SchemaError>)
    ensures
        match result {
            Ok(sum) => total(left, right, label@) == Ok::<u64, SchemaProblem>(sum),
            Err(error) => total(left, right, label@) == Err::<u64, SchemaProblem>(error@),
        },
{
    match left.checked_add(right) {
        Some(sum) => Ok(sum),
        None => Err(SchemaError::Invalid(join(label, " overflows u64"))),
    }
}

impl ManifestBuilder {
    fn new(layers: usize) -> (manifest: Self)
        ensures
            manifest@ == empty_account(layers as nat),
    {
        let manifest = ManifestBuilder {
            expected: StringHashSet::new(),
            base_layer_bytes: vec![0u64; layers],
            base_layer_vector_bytes: 0,
            base_layer_expert_slot_bytes: vec![0u64; layers],
            current_expert_bytes: 0,
            maximum_expert_bytes: 0,
            base_final_bytes: 0,
            base_parameters: 0,
            dspark_parameters: 0,
        };
        proof {
            assert(manifest@.layer_bytes =~= empty_account(layers as nat).layer_bytes);
            assert(manifest@.slot_bytes =~= empty_account(layers as nat).slot_bytes);
        }
        manifest
    }

    fn expect(&mut self, name: &str) -> (result: Result<(), SchemaError>)
        ensures
            leaves(result, final(self)@, after_expecting(old(self)@, name@)),
    {
        if !self.expected.insert(name.to_owned()) {
            let mut reason = "schema generated tensor ".to_owned();
            reason.append(quote(name).as_str());
            reason.append(" twice");
            return Err(SchemaError::Invalid(reason));
        }
        Ok(())
    }

    fn charge(&mut self, residency: Residency, resident: u64, parameters: u64) -> (result: Result<
        (),
        SchemaError,
    >)
        requires
            residency matches Residency::BaseLayer(layer) ==> layer < old(self)@.layer_bytes.len(),
        ensures
            leaves(result, final(self)@, after_charge(old(self)@, residency, resident, parameters)),
    {
        let ghost before = self@;
        match residency {
            Residency::TokenRows => {},
            Residency::BaseLayer(layer) => {
                let sum = add_total(self.base_layer_bytes[layer], resident, "base layer bytes")?;
                self.base_layer_bytes.set(layer, sum);
            },
            Residency::BaseExpert(_) => {
                self.current_expert_bytes = add_total(
                    self.current_expert_bytes,
                    resident,
                    "expert bytes",
                )?;
            },
            Residency::BaseFinal => {
                self.base_final_bytes = add_total(
                    self.base_final_bytes,
                    resident,
                    "final weights",
                )?;
            },
            Residency::DSpark => {},
        }
        assert(after_bytes(before, residency, resident) == Ok::<Account, SchemaProblem>(self@));
        match residency {
            Residency::DSpark => {
                self.dspark_parameters = add_total(
                    self.dspark_parameters,
                    parameters,
                    "DSpark parameters",
                )?;
            },
            _ => {
                self.base_parameters = add_total(
                    self.base_parameters,
                    parameters,
                    "base parameters",
                )?;
            },
        }
        Ok(())
    }

    fn matrix(
        &mut self,
        index: &TensorIndex,
        name: &str,
        rows: usize,
        cols: usize,
        residency: Residency,
    ) -> (result: Result<(), SchemaError>)
        requires
            residency matches Residency::BaseLayer(layer) ==> layer < old(self)@.layer_bytes.len(),
        ensures
            leaves(
                result,
                final(self)@,
                after_matrix(old(self)@, index@, name@, rows, cols, residency),
            ),
    {
        let layout = match inspect_weight_matrix(index, name, rows, cols) {
            Ok(layout) => layout,
            Err(error) => {
                return Err(SchemaError::Weight(error));
            },
        };
        self.expect(name)?;
        if layout.format.has_native_scale() {
            let scale = native_scale_name(name);
            self.expect(scale.as_str())?;
        }
        match (rows as u64).checked_mul(cols as u64) {
            None => Err(SchemaError::Invalid(join(quote(name).as_str(), " parameters overflow"))),
            Some(parameters) => self.charge(residency, layout.resident_bytes, parameters),
        }
    }

    fn vector(
        &mut self,
        index: &TensorIndex,
        name: &str,
        length: usize,
        dtype: DType,
        residency: Residency,
    ) -> (result: Result<(), SchemaError>)
        requires
            residency matches Residency::BaseLayer(layer) ==> layer < old(self)@.layer_bytes.len(),
        ensures
            leaves(
                result,
                final(self)@,
                after_vector(old(self)@, index@, name@, length, dtype, residency),
            ),
    {
        let found = match index.require(name) {
            Ok(found) => found,
            Err(error) => {
                return Err(SchemaError::Weight(error));
            },
        };
        let fits = found.shape.len() == 1 && found.shape[0] == length as u64;
        proof {
            if fits {
                assert(found.shape@ =~= seq![length as u64]);
            } else if found.shape@ == seq![length as u64] {
                assert(found.shape@[0] == length as u64);
            }
        }
        if !fits || found.dtype != dtype {
            let mut reason = "tensor ".to_owned();
            reason.append(quote(name).as_str());
            reason.append(" must be ");
            reason.append(dtype.name());
            reason.append(" [");
            push_decimal(&mut reason, length as u64);
            reason.append("], got ");
            reason.append(found.dtype.name());
            reason.append(" [");
            push_shape(&mut reason, &found.shape);
            reason.append("]");
            return Err(SchemaError::Invalid(reason));
        }
        self.expect(name)?;
        let resident = match (length as u64).checked_mul(4) {
            Some(resident) => resident,
            None => {
                return Err(SchemaError::Invalid(join(quote(name).as_str(), " bytes overflow")));
            },
        };
        if let Residency::BaseLayer(_) = residency {
            match self.base_layer_vector_bytes.checked_add(resident) {
                Some(sum) => {
                    self.base_layer_vector_bytes = sum;
                },
                None => {
                    return Err(
                        SchemaError::Invalid("decoder vector cache bytes overflow".to_owned()),
                    );
                },
            }
        }
        self.charge(residency, resident, length as u64)
    }

    fn integer_matrix(
        &mut self,
        index: &TensorIndex,
        name: &str,
        rows: usize,
        cols: usize,
        residency: Residency,
    ) -> (result: Result<(), SchemaError>)
        requires
            residency matches Residency::BaseLayer(layer) ==> layer < old(self)@.layer_bytes.len(),
        ensures
            leaves(
                result,
                final(self)@,
                after_integers(old(self)@, index@, name@, rows, cols, residency),
            ),
    {
        let found = match index.require(name) {
            Ok(found) => found,
            Err(error) => {
                return Err(SchemaError::Weight(error));
            },
        };
        let fits = found.shape.len() == 2 && found.shape[0] == rows as u64 && found.shape[1]
            == cols as u64;
        proof {
            let wanted = seq![rows as u64, cols as u64];
            if fits {
                assert(found.shape@ =~= wanted);
            } else if found.shape@ == wanted {
                assert(found.shape@[0] == rows as u64 && found.shape@[1] == cols as u64);
            }
        }
        if !fits || found.dtype != DType::I64 {
            let mut reason = "tensor ".to_owned();
            reason.append(quote(name).as_str());
            reason.append(" must be I64 [");
            push_decimal(&mut reason, rows as u64);
            reason.append(",");
            push_decimal(&mut reason, cols as u64);
            reason.append("], got ");
            reason.append(found.dtype.name());
            reason.append(" [");
            push_shape(&mut reason, &found.shape);
            reason.append("]");
            return Err(SchemaError::Invalid(reason));
        }
        self.expect(name)?;
        match (rows as u64).checked_mul(cols as u64) {
            None => Err(SchemaError::Invalid(join(quote(name).as_str(), " elements overflow"))),
            Some(parameters) => self.charge(residency, 0, parameters),
        }
    }

    fn finish_expert(&mut self, layer: usize) -> (result: Result<(), SchemaError>)
        requires
            layer < old(self)@.slot_bytes.len(),
        ensures
            leaves(result, final(self)@, after_expert(old(self)@, layer)),
    {
        if self.current_expert_bytes == 0 {
            let mut reason = "layer ".to_owned();
            push_decimal(&mut reason, layer as u64);
            reason.append(" expert has no weights");
            return Err(SchemaError::Invalid(reason));
        }
        let ghost before = self@;
        let slot = self.base_layer_expert_slot_bytes[layer];
        if slot < self.current_expert_bytes {
            self.base_layer_expert_slot_bytes.set(layer, self.current_expert_bytes);
        }
        if self.maximum_expert_bytes < self.current_expert_bytes {
            self.maximum_expert_bytes = self.current_expert_bytes;
        }
        self.current_expert_bytes = 0;
        proof {
            assert(self@.slot_bytes =~= before.slot_bytes.update(
                layer as int,
                accounting::larger(before.slot_bytes[layer as int] as int, before.expert_bytes as int) as u64,
            ));
        }
        Ok(())
    }

    fn take(&mut self, index: &TensorIndex, entry: &Entry) -> (result: Result<(), SchemaError>)
        requires
            entry.residency matches Residency::BaseLayer(layer) ==> layer
                < old(self)@.layer_bytes.len(),
            entry.kind matches EntryKind::ExpertDone { layer } ==> layer
                < old(self)@.slot_bytes.len(),
        ensures
            leaves(result, final(self)@, after_line(old(self)@, index@, entry@)),
    {
        match entry.kind {
            EntryKind::Matrix { rows, cols } => self.matrix(
                index,
                entry.name.as_str(),
                rows,
                cols,
                entry.residency,
            ),
            EntryKind::Vector { length, dtype } => self.vector(
                index,
                entry.name.as_str(),
                length,
                dtype,
                entry.residency,
            ),
            EntryKind::Integers { rows, cols } => self.integer_matrix(
                index,
                entry.name.as_str(),
                rows,
                cols,
                entry.residency,
            ),
            EntryKind::ExpertDone { layer } => self.finish_expert(layer),
        }
    }

    fn take_all(&mut self, index: &TensorIndex, entries: &Vec<Entry>) -> (result: Result<
        (),
        SchemaError,
    >)
        requires
            old(self)@.layer_bytes.len() == old(self)@.slot_bytes.len(),
            lines_within(lines(entries@), old(self)@.layer_bytes.len()),
        ensures
            leaves(result, final(self)@, after_lines(old(self)@, index@, lines(entries@))),
            result is Ok ==> final(self)@.layer_bytes.len() == old(self)@.layer_bytes.len()
                && final(self)@.slot_bytes.len() == old(self)@.slot_bytes.len(),
    {
        let ghost before = self@;
        let ghost all = lines(entries@);
        let mut position: usize = 0;
        while position < entries.len()
            invariant
                position <= entries@.len(),
                all == lines(entries@),
                before == old(self)@,
                before.layer_bytes.len() == before.slot_bytes.len(),
                self@.layer_bytes.len() == before.layer_bytes.len(),
                self@.slot_bytes.len() == before.slot_bytes.len(),
                lines_within(all, before.layer_bytes.len()),
                after_lines(before, index@, all.take(position as int)) == Ok::<
                    Account,
                    SchemaProblem,
                >(self@),
            decreases entries@.len() - position,
        {
            let ghost here = self@;
            proof {
                assert(all[position as int] == entries@[position as int]@);
                let longer = all.take(position + 1);
                assert(longer.drop_last() =~= all.take(position as int));
                assert(longer.last() == all[position as int]);
            }
            let result = self.take(index, &entries[position]);
            if result.is_err() {
                proof {
                    lemma_first_refusal(before, index@, all, position as int + 1);
                }
                return result;
            }
            proof {
                lemma_lengths_kept(here, index@, all[position as int]);
            }
            position = position + 1;
        }
        proof {
            assert(all.take(all.len() as int) =~= all);
        }
        Ok(())
    }
}

proof fn lemma_lengths_kept(account: Account, index: IndexView, line: EntryView)
    requires
        after_line(account, index, line) is Ok,
        line.residency matches Residency::BaseLayer(layer) ==> layer < account.layer_bytes.len(),
        line.kind matches EntryKind::ExpertDone { layer } ==> layer < account.slot_bytes.len(),
    ensures
        after_line(account, index, line)->Ok_0.layer_bytes.len() == account.layer_bytes.len(),
        after_line(account, index, line)->Ok_0.slot_bytes.len() == account.slot_bytes.len(),
{
}

/// Lines behind a refused one change nothing.
proof fn lemma_first_refusal(
    account: Account,
    index: IndexView,
    lines: Seq<EntryView>,
    count: int,
)
    requires
        0 <= count <= lines.len(),
        after_lines(account, index, lines.take(count)) is Err,
    ensures
        after_lines(account, index, lines) == after_lines(account, index, lines.take(count)),
    decreases lines.len(),
{
    if count == lines.len() {
        assert(lines.take(count) =~= lines);
    } else {
        assert(lines.drop_last().take(count) =~= lines.take(count));
        lemma_first_refusal(account, index, lines.drop_last(), count);
    }
}

/// All base layers, in order.
pub open spec fn layers_lines(config: DeepseekV4Config, layers: nat) -> Seq<EntryView>
    decreases layers,
{
    if layers == 0 {
        Seq::empty()
    } else {
        let layer = (layers - 1) as nat;
        layers_lines(config, layer) + block_lines(
            config,
            "layers."@ + text::decimal(layer),
            config.compress_ratios@[layer as int],
            layer < config.num_hash_layers,
            Some(layer as usize),
        )
    }
}

/// The attached stages, in order.
pub open spec fn stages_lines(config: DeepseekV4Config, stages: nat) -> Seq<EntryView>
    decreases stages,
{
    if stages == 0 {
        Seq::empty()
    } else {
        let stage = (stages - 1) as nat;
        stages_lines(config, stage) + block_lines(
            config,
            "mtp."@ + text::decimal(stage),
            0,
            false,
            None,
        )
    }
}

pub open spec fn hc_head_lines(
    config: DeepseekV4Config,
    stem: Seq<char>,
    residency: Residency,
) -> Seq<EntryView> {
    seq![
        matrix_line(
            stem + "hc_head_fn"@,
            config.hc_mult,
            (config.hc_mult * config.hidden_size) as usize,
            residency,
        ),
        vector_line(stem + "hc_head_base"@, config.hc_mult, DType::F32, residency),
        vector_line(stem + "hc_head_scale"@, 1, DType::F32, residency),
    ]
}

pub open spec fn embedding_lines(config: DeepseekV4Config) -> Seq<EntryView> {
    seq![
        matrix_line(
            "embed.weight"@,
            config.vocab_size,
            config.hidden_size,
            Residency::TokenRows,
        ),
    ]
}

pub open spec fn body_lines(config: DeepseekV4Config) -> Seq<EntryView> {
    layers_lines(config, config.num_hidden_layers as nat) + seq![
        vector_line(
            "norm.weight"@,
            config.hidden_size,
            DType::Bf16,
            Residency::BaseFinal,
        ),
        matrix_line("head.weight"@, config.vocab_size, config.hidden_size, Residency::TokenRows),
    ]
}

/// How many stages the compression schedule declares behind the base layers.
pub open spec fn stage_count(config: DeepseekV4Config) -> nat {
    if config.compress_ratios@.len() > config.num_hidden_layers {
        (config.compress_ratios@.len() - config.num_hidden_layers) as nat
    } else {
        0
    }
}

/// What the attached stages share: the projection into the first, the heads behind the last.
pub open spec fn stage_head_lines(config: DeepseekV4Config) -> Seq<EntryView> {
    let last = "mtp."@ + text::decimal((stage_count(config) - 1) as nat);
    seq![
        matrix_line(
            "mtp.0.main_proj.weight"@,
            config.hidden_size,
            (config.hidden_size * config.dspark_target_layer_ids@.len()) as usize,
            Residency::DSpark,
        ),
        vector_line(
            "mtp.0.main_norm.weight"@,
            config.hidden_size,
            DType::Bf16,
            Residency::DSpark,
        ),
    ] + hc_head_lines(config, last + "."@, Residency::DSpark) + seq![
        vector_line(
            last + ".norm.weight"@,
            config.hidden_size,
            DType::Bf16,
            Residency::DSpark,
        ),
        matrix_line(
            last + ".markov_head.markov_w1.weight"@,
            config.vocab_size,
            config.dspark_markov_rank,
            Residency::DSpark,
        ),
        matrix_line(
            last + ".markov_head.markov_w2.weight"@,
            config.vocab_size,
            config.dspark_markov_rank,
            Residency::DSpark,
        ),
        matrix_line(
            last + ".confidence_head.proj.weight"@,
            1,
            (config.hidden_size + config.dspark_markov_rank) as usize,
            Residency::DSpark,
        ),
    ]
}

pub open spec fn tail_lines(config: DeepseekV4Config) -> Seq<EntryView> {
    hc_head_lines(config, Seq::empty(), Residency::BaseFinal) + stages_lines(
        config,
        stage_count(config),
    ) + if stage_count(config) > 0 {
        stage_head_lines(config)
    } else {
        Seq::empty()
    }
}

/// Lists the head of the hyper-connections behind a stem.
fn inspect_hc_head(
    entries: &mut Vec<Entry>,
    config: &DeepseekV4Config,
    stem: &str,
    residency: Residency,
)
    requires
        config.schema_fits(),
    ensures
        lines(final(entries)@) == lines(old(entries)@) + hc_head_lines(*config, stem@, residency),
{
    let ghost before = lines(entries@);
    push_matrix(
        entries,
        join(stem, "hc_head_fn"),
        config.hc_mult,
        config.hc_mult * config.hidden_size,
        residency,
    );
    push_vector(entries, join(stem, "hc_head_base"), config.hc_mult, DType::F32, residency);
    push_vector(entries, join(stem, "hc_head_scale"), 1, DType::F32, residency);
    proof {
        assert(lines(entries@) =~= before + hc_head_lines(*config, stem@, residency));
    }
}

fn list_embedding(config: &DeepseekV4Config) -> (entries: Vec<Entry>)
    ensures
        lines(entries@) == embedding_lines(*config),
{
    let mut entries: Vec<Entry> = Vec::new();
    push_matrix(
        &mut entries,
        "embed.weight".to_owned(),
        config.vocab_size,
        config.hidden_size,
        Residency::TokenRows,
    );
    proof {
        assert(lines(entries@) =~= embedding_lines(*config));
    }
    entries
}

fn list_body(config: &DeepseekV4Config) -> (entries: Vec<Entry>)
    requires
        config.has_base_ratios(),
        config.schema_fits(),
    ensures
        lines(entries@) == body_lines(*config),
{
    let mut entries: Vec<Entry> = Vec::new();
    let mut layer: usize = 0;
    proof {
        assert(lines(entries@) =~= layers_lines(*config, 0));
    }
    while layer < config.num_hidden_layers
        invariant
            layer <= config.num_hidden_layers,
            config.has_base_ratios(),
            config.schema_fits(),
            lines(entries@) == layers_lines(*config, layer as nat),
        decreases config.num_hidden_layers - layer,
    {
        let prefix = join_number("layers.", layer);
        inspect_block(
            &mut entries,
            config,
            prefix.as_str(),
            config.compress_ratios[layer],
            layer < config.num_hash_layers,
            Some(layer),
        );
        layer = layer + 1;
    }
    push_vector(
        &mut entries,
        "norm.weight".to_owned(),
        config.hidden_size,
        DType::Bf16,
        Residency::BaseFinal,
    );
    push_matrix(
        &mut entries,
        "head.weight".to_owned(),
        config.vocab_size,
        config.hidden_size,
        Residency::TokenRows,
    );
    proof {
        assert(lines(entries@) =~= body_lines(*config));
    }
    entries
}

fn list_stage_heads(entries: &mut Vec<Entry>, config: &DeepseekV4Config, stages: usize)
    requires
        config.schema_fits(),
        stages == stage_count(*config),
        stages > 0,
    ensures
        lines(final(entries)@) == lines(old(entries)@) + stage_head_lines(*config),
{
    let ghost before = lines(entries@);
    push_matrix(
        entries,
        "mtp.0.main_proj.weight".to_owned(),
        config.hidden_size,
        config.hidden_size * config.dspark_target_layer_ids.len(),
        Residency::DSpark,
    );
    push_vector(
        entries,
        "mtp.0.main_norm.weight".to_owned(),
        config.hidden_size,
        DType::Bf16,
        Residency::DSpark,
    );
    let last = join_number("mtp.", stages - 1);
    let stem = join(last.as_str(), ".");
    inspect_hc_head(entries, config, stem.as_str(), Residency::DSpark);
    push_vector(
        entries,
        join(last.as_str(), ".norm.weight"),
        config.hidden_size,
        DType::Bf16,
        Residency::DSpark,
    );
    push_matrix(
        entries,
        join(last.as_str(), ".markov_head.markov_w1.weight"),
        config.vocab_size,
        config.dspark_markov_rank,
        Residency::DSpark,
    );
    push_matrix(
        entries,
        join(last.as_str(), ".markov_head.markov_w2.weight"),
        config.vocab_size,
        config.dspark_markov_rank,
        Residency::DSpark,
    );
    push_matrix(
        entries,
        join(last.as_str(), ".confidence_head.proj.weight"),
        1,
        config.hidden_size + config.dspark_markov_rank,
        Residency::DSpark,
    );
    proof {
        assert(lines(entries@) =~= before + stage_head_lines(*config));
    }
}

fn list_tail(config: &DeepseekV4Config) -> (entries: Vec<Entry>)
    requires
        config.schema_fits(),
    ensures
        lines(entries@) == tail_lines(*config),
{
    let mut entries: Vec<Entry> = Vec::new();
    inspect_hc_head(&mut entries, config, "", Residency::BaseFinal);
    let stages = config.declared_dspark_stage_count();
    let ghost front = lines(entries@);
    proof {
        reveal_strlit("");
        assert(""@ =~= Seq::<char>::empty());
        assert(front =~= hc_head_lines(*config, Seq::empty(), Residency::BaseFinal));
        assert(front =~= front + stages_lines(*config, 0));
    }
    let mut stage: usize = 0;
    while stage < stages
        invariant
            stage <= stages,
            config.schema_fits(),
            lines(entries@) == front + stages_lines(*config, stage as nat),
        decreases stages - stage,
    {
        let prefix = join_number("mtp.", stage);
        inspect_block(&mut entries, config, prefix.as_str(), 0, false, None);
        stage = stage + 1;
        proof {
            assert(lines(entries@) =~= front + stages_lines(*config, stage as nat));
        }
    }
    if stages > 0 {
        list_stage_heads(&mut entries, config, stages);
    }
    proof {
        assert(lines(entries@) =~= tail_lines(*config));
    }
    entries
}

proof fn lemma_within_joined(a: Seq<EntryView>, b: Seq<EntryView>, layers: nat)
    requires
        lines_within(a, layers),
        lines_within(b, layers),
    ensures
        lines_within(a + b, layers),
{
    assert forall|i: int| 0 <= i < (a + b).len() implies {
        &&& ((#[trigger] (a + b)[i]).residency matches Residency::BaseLayer(layer) ==> layer
            < layers)
        &&& ((a + b)[i].kind matches EntryKind::ExpertDone { layer } ==> layer < layers)
    } by {
        if i < a.len() {
            assert((a + b)[i] == a[i]);
        } else {
            assert((a + b)[i] == b[i - a.len()]);
        }
    }
}

proof fn lemma_experts_within(
    config: DeepseekV4Config,
    ffn: Seq<char>,
    experts: nat,
    base_layer: Option<usize>,
    layers: nat,
)
    requires
        base_layer matches Some(layer) ==> layer < layers,
    ensures
        lines_within(experts_lines(config, ffn, experts, base_layer), layers),
    decreases experts,
{
    if experts > 0 {
        let earlier = (experts - 1) as nat;
        lemma_experts_within(config, ffn, earlier, base_layer, layers);
        lemma_within_joined(
            experts_lines(config, ffn, earlier, base_layer),
            expert_lines(config, ffn, earlier, base_layer),
            layers,
        );
    }
}

proof fn lemma_block_within(
    config: DeepseekV4Config,
    prefix: Seq<char>,
    ratio: usize,
    hash_router: bool,
    base_layer: Option<usize>,
    layers: nat,
)
    requires
        base_layer matches Some(layer) ==> layer < layers,
    ensures
        lines_within(block_lines(config, prefix, ratio, hash_router, base_layer), layers),
{
    let residency = block_residency(base_layer);
    let attention = prefix + ".attn"@;
    let ffn = prefix + ".ffn"@;
    let front = front_lines(config, prefix, residency);
    let sparse = sparse_lines(config, attention, ratio, residency);
    let router = router_lines(config, ffn, hash_router, residency);
    let experts = experts_lines(config, ffn, config.n_routed_experts as nat, base_layer);
    assert(lines_within(front, layers));
    assert(lines_within(sparse, layers));
    assert(lines_within(router, layers));
    lemma_experts_within(config, ffn, config.n_routed_experts as nat, base_layer, layers);
    lemma_within_joined(front, sparse, layers);
    lemma_within_joined(front + sparse, router, layers);
    lemma_within_joined(front + sparse + router, experts, layers);
}

proof fn lemma_layers_within(config: DeepseekV4Config, count: nat, layers: nat)
    requires
        count <= layers <= usize::MAX,
    ensures
        lines_within(layers_lines(config, count), layers),
    decreases count,
{
    if count > 0 {
        let layer = (count - 1) as nat;
        lemma_layers_within(config, layer, layers);
        let prefix = "layers."@ + text::decimal(layer);
        let ratio = config.compress_ratios@[layer as int];
        let hash_router = layer < config.num_hash_layers;
        lemma_block_within(config, prefix, ratio, hash_router, Some(layer as usize), layers);
        lemma_within_joined(
            layers_lines(config, layer),
            block_lines(config, prefix, ratio, hash_router, Some(layer as usize)),
            layers,
        );
    }
}

proof fn lemma_stages_within(config: DeepseekV4Config, count: nat, layers: nat)
    ensures
        lines_within(stages_lines(config, count), layers),
    decreases count,
{
    if count > 0 {
        let stage = (count - 1) as nat;
        lemma_stages_within(config, stage, layers);
        let prefix = "mtp."@ + text::decimal(stage);
        lemma_block_within(config, prefix, 0, false, None, layers);
        lemma_within_joined(
            stages_lines(config, stage),
            block_lines(config, prefix, 0, false, None),
            layers,
        );
    }
}

proof fn lemma_schema_within(config: DeepseekV4Config)
    ensures
        lines_within(embedding_lines(config), config.num_hidden_layers as nat),
        lines_within(body_lines(config), config.num_hidden_layers as nat),
        lines_within(tail_lines(config), config.num_hidden_layers as nat),
{
    let layers = config.num_hidden_layers as nat;
    lemma_layers_within(config, layers, layers);
    let closing = seq![
        vector_line("norm.weight"@, config.hidden_size, DType::Bf16, Residency::BaseFinal),
        matrix_line("head.weight"@, config.vocab_size, config.hidden_size, Residency::TokenRows),
    ];
    assert(lines_within(closing, layers));
    lemma_within_joined(layers_lines(config, layers), closing, layers);
    let head = hc_head_lines(config, Seq::empty(), Residency::BaseFinal);
    let stages = stages_lines(config, stage_count(config));
    lemma_stages_within(config, stage_count(config), layers);
    assert(lines_within(head, layers));
    lemma_within_joined(head, stages, layers);
    assert(lines_within(stage_head_lines(config), layers));
    lemma_within_joined(head + stages, stage_head_lines(config), layers);
    lemma_within_joined(head + stages, Seq::empty(), layers);
}

/// How many positions a compressor of the given ratio spans twice: itself and its overlap.
pub open spec fn overlap(ratio: usize) -> int {
    if ratio == 4 {
        2
    } else {
        1
    }
}

/// The values that one layer keeps in its window.
pub open spec fn window_values(config: DeepseekV4Config, context: usize) -> int {
    accounting::smaller(
        accounting::smaller(context as int, config.sliding_window as int) * config.head_dim,
        u64::MAX as int,
    )
}

/// The compressed entries of one layer.
pub open spec fn compressed_values(context: usize, ratio: usize, head_dim: usize) -> int {
    (context as int / ratio as int) * head_dim
}

/// The running state of one compressor: a value and a score for each position it spans.
pub open spec fn compressor_values(ratio: usize, head_dim: usize) -> int {
    2 * (overlap(ratio) * ratio) * (overlap(ratio) * head_dim)
}

/// A sum that fits, or the reason of the refusal.
pub open spec fn sum_or(left: int, right: int, reason: Seq<char>) -> Result<u64, SchemaProblem> {
    if left + right <= u64::MAX {
        Ok((left + right) as u64)
    } else {
        Err(SchemaProblem::Invalid(reason))
    }
}

/// The values held by the first `layers` layers.
pub open spec fn layer_values(config: DeepseekV4Config, context: usize, layers: nat) -> Result<
    u64,
    SchemaProblem,
>
    decreases layers,
{
    if layers == 0 {
        Ok(0)
    } else {
        let ratio = config.compress_ratios@[layers - 1];
        match layer_values(config, context, (layers - 1) as nat) {
            Err(problem) => Err(problem),
            Ok(values) => match sum_or(
                values as int,
                window_values(config, context),
                "KV cache values overflow"@,
            ) {
                Err(problem) => Err(problem),
                Ok(windowed) => if ratio == 0 {
                    Ok(windowed)
                } else {
                    compressing_values(config, context, ratio, windowed)
                },
            },
        }
    }
}

pub open spec fn compressing_values(
    config: DeepseekV4Config,
    context: usize,
    ratio: usize,
    windowed: u64,
) -> Result<u64, SchemaProblem> {
    match sum_or(
        windowed as int,
        compressed_values(context, ratio, config.head_dim),
        "compressed KV values overflow"@,
    ) {
        Err(problem) => Err(problem),
        Ok(compressed) => match sum_or(
            compressed as int,
            compressor_values(ratio, config.head_dim),
            "compressor state overflows"@,
        ) {
            Err(problem) => Err(problem),
            Ok(state) => if ratio != 4 {
                Ok(state)
            } else {
                sum_or(
                    state + compressed_values(context, ratio, config.index_head_dim),
                    compressor_values(ratio, config.index_head_dim),
                    "indexer state overflows"@,
                )
            },
        },
    }
}

/// The bytes of all caches and running states at a context length.
pub open spec fn kv_bytes(config: DeepseekV4Config, context: usize) -> Result<
    u64,
    SchemaProblem,
> {
    match layer_values(config, context, config.num_hidden_layers as nat) {
        Err(problem) => Err(problem),
        Ok(values) => match sum_or(
            values as int,
            config.hc_mult * config.hidden_size,
            "hidden state values overflow"@,
        ) {
            Err(problem) => Err(problem),
            Ok(all) => sum_or(all * 4, 0, "KV cache bytes overflow"@),
        },
    }
}

impl DeepseekV4Config {
    /// The cache sizes that are computed without a check are numbers of the machine.
    pub open spec fn cache_fits(self, context: usize) -> bool {
        forall|layer: int|
            0 <= layer < self.num_hidden_layers && #[trigger] self.compress_ratios@[layer] > 0
                ==> {
                let ratio = self.compress_ratios@[layer];
                &&& overlap(ratio) * ratio <= usize::MAX
                &&& 2 * (overlap(ratio) * ratio) <= u64::MAX
                &&& compressed_values(context, ratio, self.head_dim) <= u64::MAX
                &&& compressor_values(ratio, self.head_dim) <= u64::MAX
                &&& compressed_values(context, ratio, self.index_head_dim) <= u64::MAX
                &&& compressor_values(ratio, self.index_head_dim) <= u64::MAX
            }
    }
}

fn checked_sum(left: u64, right: u64, reason: &str) -> (result: Result<u64, SchemaError>)
    ensures
        match result {
            Ok(sum) => sum_or(left as int, right as int, reason@) == Ok::<u64, SchemaProblem>(sum),
            Err(error) => sum_or(left as int, right as int, reason@) == Err::<u64, SchemaProblem>(
                error@,
            ),
        },
{
    match left.checked_add(right) {
        Some(sum) => Ok(sum),
        None => Err(SchemaError::Invalid(reason.to_owned())),
    }
}

/// The running state of one compressor, in values.
fn compressor_state(ratio: usize, head_dim: usize) -> (values: u64)
    requires
        2 * head_dim <= usize::MAX,
        overlap(ratio) * ratio <= usize::MAX,
        2 * (overlap(ratio) * ratio) <= u64::MAX,
        compressor_values(ratio, head_dim) <= u64::MAX,
    ensures
        values == compressor_values(ratio, head_dim),
{
    let coefficient: usize = if ratio == 4 {
        2
    } else {
        1
    };
    let span: usize = coefficient * ratio;
    let width: usize = coefficient * head_dim;
    2u64 * span as u64 * width as u64
}

/// The bytes of all caches and running states at a context length.
pub fn kv_cache_bytes_for_context(config: &DeepseekV4Config, context: usize) -> (result: Result<
    u64,
    SchemaError,
>)
    requires
        config.has_base_ratios(),
        config.schema_fits(),
        config.cache_fits(context),
    ensures
        match result {
            Ok(bytes) => kv_bytes(*config, context) == Ok::<u64, SchemaProblem>(bytes),
            Err(error) => kv_bytes(*config, context) == Err::<u64, SchemaProblem>(error@),
        },
{
    let mut values: u64 = 0;
    let mut layer: usize = 0;
    let window: usize = if context < config.sliding_window {
        context
    } else {
        config.sliding_window
    };
    let kept: u64 = match (window as u64).checked_mul(config.head_dim as u64) {
        Some(kept) => kept,
        None => u64::MAX,
    };
    assert(kept == window_values(*config, context));
    while layer < config.num_hidden_layers
        invariant
            layer <= config.num_hidden_layers,
            config.has_base_ratios(),
            config.schema_fits(),
            config.cache_fits(context),
            kept == window_values(*config, context),
            layer_values(*config, context, layer as nat) == Ok::<u64, SchemaProblem>(values),
        decreases config.num_hidden_layers - layer,
    {
        let ratio = config.compress_ratios[layer];
        proof {
            lemma_values_stop(
                *config,
                context,
                layer as nat + 1,
                config.num_hidden_layers as nat,
            );
        }
        values = checked_sum(values, kept, "KV cache values overflow")?;
        if ratio > 0 {
            assert(config.compress_ratios@[layer as int] > 0);
            let entries: u64 = (context / ratio) as u64;
            values = checked_sum(
                values,
                entries * config.head_dim as u64,
                "compressed KV values overflow",
            )?;
            values = checked_sum(
                values,
                compressor_state(ratio, config.head_dim),
                "compressor state overflows",
            )?;
            if ratio == 4 {
                let state: u64 = compressor_state(ratio, config.index_head_dim);
                let indexed: u64 = entries * config.index_head_dim as u64;
                match values.checked_add(indexed) {
                    None => {
                        return Err(SchemaError::Invalid("indexer state overflows".to_owned()));
                    },
                    Some(more) => {
                        values = checked_sum(more, state, "indexer state overflows")?;
                    },
                }
            }
        }
        layer = layer + 1;
    }
    let hidden: u64 = (config.hc_mult * config.hidden_size) as u64;
    values = checked_sum(values, hidden, "hidden state values overflow")?;
    match values.checked_mul(4) {
        Some(bytes) => Ok(bytes),
        None => Err(SchemaError::Invalid("KV cache bytes overflow".to_owned())),
    }
}

/// A refusal at one layer is the refusal of all layers.
proof fn lemma_values_stop(config: DeepseekV4Config, context: usize, layers: nat, all: nat)
    requires
        layers <= all,
    ensures
        layer_values(config, context, layers) is Err ==> layer_values(config, context, all)
            == layer_values(config, context, layers),
    decreases all,
{
    if layers < all {
        lemma_values_stop(config, context, layers, (all - 1) as nat);
    }
}

/// Two neighbours together, no further than the largest number.
pub open spec fn pair(items: Seq<u64>, left: int) -> u64 {
    accounting::smaller(items[left] + items[left + 1], u64::MAX as int) as u64
}

/// The most that two neighbouring layers take together; one layer alone takes itself.
pub open spec fn peak_pair(items: Seq<u64>) -> u64 {
    if items.len() == 0 {
        0
    } else if items.len() == 1 {
        items[0]
    } else {
        accounting::largest(Seq::new((items.len() - 1) as nat, |left: int| pair(items, left)))
    }
}

fn find_peak_pair(items: &Vec<u64>) -> (result: u64)
    ensures
        result == peak_pair(items@),
{
    if items.len() == 0 {
        return 0;
    }
    if items.len() == 1 {
        return items[0];
    }
    let ghost wanted = Seq::new((items@.len() - 1) as nat, |left: int| pair(items@, left));
    let mut pairs: Vec<u64> = Vec::new();
    let mut left: usize = 0;
    while left < items.len() - 1
        invariant
            items@.len() >= 2,
            left <= items@.len() - 1,
            pairs@.len() == left,
            forall|i: int| 0 <= i < left ==> pairs@[i] == pair(items@, i),
        decreases items@.len() - 1 - left,
    {
        pairs.push(items[left].saturating_add(items[left + 1]));
        left = left + 1;
    }
    proof {
        assert(pairs@ =~= wanted);
    }
    find_largest(&pairs)
}

/// What a complete account comes to.
pub open spec fn summary(
    config: DeepseekV4Config,
    index: IndexView,
    context_limit: usize,
    slots: usize,
    account: Account,
    embedding: TensorInfo,
    head: TensorInfo,
) -> Result<DeepseekV4Requirements, SchemaProblem> {
    let resident = peak_pair(account.layer_bytes) + account.final_bytes + account.vector_bytes;
    let maximum = account.maximum_expert_bytes;
    if accounting::sum_of(account.slot_bytes) > u64::MAX || accounting::sum_of(account.slot_bytes) * slots > u64::MAX {
        Err(SchemaProblem::Invalid("expert cache bytes overflow"@))
    } else if accounting::sum_of(account.layer_bytes) > u64::MAX {
        Err(SchemaProblem::Invalid("decoder layer bytes overflow"@))
    } else if resident > u64::MAX {
        Err(SchemaProblem::Invalid("resident layer pipeline + root weights overflow"@))
    } else {
        match kv_bytes(config, context_limit) {
            Err(problem) => Err(problem),
            Ok(kv_cache_bytes) => Ok(
                DeepseekV4Requirements {
                    resident_bytes: resident as u64,
                    streamed_layer_bytes: accounting::largest(account.layer_bytes),
                    decoder_layer_bytes: accounting::sum_of(account.layer_bytes) as u64,
                    decoder_vector_cache_bytes: account.vector_bytes,
                    decoder_layer_count: config.num_hidden_layers,
                    lm_head_resident_bytes: if head.dtype == DType::Bf16 {
                        head.data_len
                    } else {
                        index.layouts["head.weight"@].resident_bytes
                    },
                    maximum_expert_bytes: maximum,
                    transient_expert_bytes: maximum,
                    expert_cache_bytes: accounting::larger(
                        accounting::sum_of(account.slot_bytes) * slots,
                        maximum as int,
                    ) as u64,
                    kv_cache_bytes,
                    expert_slots_per_layer: slots,
                    context_limit,
                    exact_context_ceiling: config.max_position_embeddings,
                    required_tensor_count: account.expected.len() as usize,
                    checkpoint_tensor_count: index.names.len() as usize,
                    unexpected_tensor_count: accounting::unexpected(index.names, account.expected) as usize,
                    base_logical_parameters: account.base_parameters,
                    dspark_logical_parameters: account.dspark_parameters,
                    base_expert_count: (config.num_hidden_layers
                        * config.n_routed_experts) as usize,
                    dspark_stage_count: stage_count(config) as usize,
                    indexed_layer_count: crate::models::deepseek_v4::config::indexed_layers(
                        config.compress_ratios@,
                        config.num_hidden_layers as nat,
                    ) as usize,
                    streamed_embedding_bytes: embedding.data_len,
                    streamed_lm_head_bytes: head.data_len,
                },
            ),
        }
    }
}

/// What a checkpoint takes, or why it is refused.
pub open spec fn requirements(
    config: DeepseekV4Config,
    index: IndexView,
    context_limit: usize,
    slots: usize,
) -> Result<DeepseekV4Requirements, SchemaProblem> {
    if context_limit == 0 || context_limit > config.max_position_embeddings {
        Err(
            SchemaProblem::Invalid(
                "context_limit="@ + text::decimal(context_limit as nat) + " is outside 1..="@
                    + text::decimal(config.max_position_embeddings as nat) + " "@,
            ),
        )
    } else if slots > config.n_routed_experts {
        Err(
            SchemaProblem::Invalid(
                "expert_slots_per_layer="@ + text::decimal(slots as nat) + " exceeds "@
                    + text::decimal(config.n_routed_experts as nat),
            ),
        )
    } else {
        let start = empty_account(config.num_hidden_layers as nat);
        match after_lines(start, index, embedding_lines(config)) {
            Err(problem) => Err(problem),
            Ok(embedded) => match index.require("embed.weight"@) {
                Err(problem) => Err(SchemaProblem::Weight(problem)),
                Ok(embedding) => match after_lines(embedded, index, body_lines(config)) {
                    Err(problem) => Err(problem),
                    Ok(body) => match index.require("head.weight"@) {
                        Err(problem) => Err(SchemaProblem::Weight(problem)),
                        Ok(head) => match after_lines(body, index, tail_lines(config)) {
                            Err(problem) => Err(problem),
                            Ok(account) => summary(
                                config,
                                index,
                                context_limit,
                                slots,
                                account,
                                embedding,
                                head,
                            ),
                        },
                    },
                },
            },
        }
    }
}

fn summarize(
    config: &DeepseekV4Config,
    index: &TensorIndex,
    context_limit: usize,
    expert_slots_per_layer: usize,
    manifest: &ManifestBuilder,
    embedding: &TensorInfo,
    head: &TensorInfo,
) -> (result: Result<DeepseekV4Requirements, SchemaError>)
    requires
        config.has_base_ratios(),
        config.schema_fits(),
        config.cache_fits(context_limit),
        index@.inspect("head.weight"@, config.vocab_size, config.hidden_size) is Ok,
    ensures
        match result {
            Ok(found) => summary(
                *config,
                index@,
                context_limit,
                expert_slots_per_layer,
                manifest@,
                *embedding,
                *head,
            ) == Ok::<DeepseekV4Requirements, SchemaProblem>(found),
            Err(error) => summary(
                *config,
                index@,
                context_limit,
                expert_slots_per_layer,
                manifest@,
                *embedding,
                *head,
            ) == Err::<DeepseekV4Requirements, SchemaProblem>(error@),
        },
{
    let unexpected_tensor_count = count_unexpected(index.names(), &manifest.expected);
    let persistent: u64 = match checked_sum_of(&manifest.base_layer_expert_slot_bytes) {
        None => {
            return Err(SchemaError::Invalid("expert cache bytes overflow".to_owned()));
        },
        Some(sum) => match sum.checked_mul(expert_slots_per_layer as u64) {
            None => {
                return Err(SchemaError::Invalid("expert cache bytes overflow".to_owned()));
            },
            Some(persistent) => persistent,
        },
    };
    let streamed_layer_bytes = find_largest(&manifest.base_layer_bytes);
    let decoder_layer_bytes: u64 = match checked_sum_of(&manifest.base_layer_bytes) {
        None => {
            return Err(SchemaError::Invalid("decoder layer bytes overflow".to_owned()));
        },
        Some(sum) => sum,
    };
    let peak = find_peak_pair(&manifest.base_layer_bytes);
    let resident_bytes: u64 = match peak.checked_add(manifest.base_final_bytes) {
        None => {
            return Err(
                SchemaError::Invalid("resident layer pipeline + root weights overflow".to_owned()),
            );
        },
        Some(bytes) => match bytes.checked_add(manifest.base_layer_vector_bytes) {
            None => {
                return Err(
                    SchemaError::Invalid(
                        "resident layer pipeline + root weights overflow".to_owned(),
                    ),
                );
            },
            Some(bytes) => bytes,
        },
    };
    let kv_cache_bytes = kv_cache_bytes_for_context(config, context_limit)?;
    let lm_head_resident_bytes: u64 = if head.dtype == DType::Bf16 {
        head.data_len
    } else {
        match inspect_weight_matrix(index, "head.weight", config.vocab_size, config.hidden_size) {
            Ok(layout) => layout.resident_bytes,
            Err(error) => {
                return Err(SchemaError::Weight(error));
            },
        }
    };
    let maximum_expert_bytes = manifest.maximum_expert_bytes;
    let expert_cache_bytes: u64 = if persistent < maximum_expert_bytes {
        maximum_expert_bytes
    } else {
        persistent
    };
    Ok(
        DeepseekV4Requirements {
            resident_bytes,
            streamed_layer_bytes,
            decoder_layer_bytes,
            decoder_vector_cache_bytes: manifest.base_layer_vector_bytes,
            decoder_layer_count: config.num_hidden_layers,
            lm_head_resident_bytes,
            maximum_expert_bytes,
            transient_expert_bytes: maximum_expert_bytes,
            expert_cache_bytes,
            kv_cache_bytes,
            expert_slots_per_layer,
            context_limit,
            exact_context_ceiling: config.max_position_embeddings,
            required_tensor_count: manifest.expected.len(),
            checkpoint_tensor_count: index.names().len(),
            unexpected_tensor_count,
            base_logical_parameters: manifest.base_parameters,
            dspark_logical_parameters: manifest.dspark_parameters,
            base_expert_count: config.num_hidden_layers * config.n_routed_experts,
            dspark_stage_count: config.declared_dspark_stage_count(),
            indexed_layer_count: config.indexed_layer_count(),
            streamed_embedding_bytes: embedding.data_len,
            streamed_lm_head_bytes: head.data_len,
        },
    )
}

/// Inspects a checkpoint against the strict release schema and accounts for its memory.
pub fn inspect_requirements(
    config: &DeepseekV4Config,
    index: &TensorIndex,
    context_limit: usize,
    expert_slots_per_layer: usize,
) -> (result: Result<DeepseekV4Requirements, SchemaError>)
    requires
        config.has_base_ratios(),
        config.schema_fits(),
        context_limit <= config.max_position_embeddings ==> config.cache_fits(context_limit),
    ensures
        match result {
            Ok(found) => requirements(*config, index@, context_limit, expert_slots_per_layer)
                == Ok::<DeepseekV4Requirements, SchemaProblem>(found),
            Err(error) => requirements(*config, index@, context_limit, expert_slots_per_layer)
                == Err::<DeepseekV4Requirements, SchemaProblem>(error@),
        },
{
    if context_limit == 0 || context_limit > config.max_position_embeddings {
        let mut reason = "context_limit=".to_owned();
        push_decimal(&mut reason, context_limit as u64);
        reason.append(" is outside 1..=");
        push_decimal(&mut reason, config.max_position_embeddings as u64);
        reason.append(" ");
        return Err(SchemaError::Invalid(reason));
    }
    if expert_slots_per_layer > config.n_routed_experts {
        let mut reason = "expert_slots_per_layer=".to_owned();
        push_decimal(&mut reason, expert_slots_per_layer as u64);
        reason.append(" exceeds ");
        push_decimal(&mut reason, config.n_routed_experts as u64);
        return Err(SchemaError::Invalid(reason));
    }
    proof {
        lemma_schema_within(*config);
    }
    let mut manifest = ManifestBuilder::new(config.num_hidden_layers);
    let front = list_embedding(config);
    manifest.take_all(index, &front)?;
    let embedding = match index.require("embed.weight") {
        Ok(found) => found,
        Err(error) => {
            return Err(SchemaError::Weight(error));
        },
    };
    let ghost embedded = manifest@;
    let body = list_body(config);
    manifest.take_all(index, &body)?;
    proof {
        let all = body_lines(*config);
        assert(all.last() == matrix_line(
            "head.weight"@,
            config.vocab_size,
            config.hidden_size,
            Residency::TokenRows,
        ));
    }
    let head = match index.require("head.weight") {
        Ok(found) => found,
        Err(error) => {
            return Err(SchemaError::Weight(error));
        },
    };
    let tail = list_tail(config);
    manifest.take_all(index, &tail)?;
    summarize(
        config,
        index,
        context_limit,
        expert_slots_per_layer,
        &manifest,
        embedding,
        head,
    )
}

/// The logical parameters of one line.
pub open spec fn line_parameters(line: EntryView) -> nat {
    match line.kind {
        EntryKind::Matrix { rows, cols } => (rows * cols) as nat,
        EntryKind::Vector { length, .. } => length as nat,
        EntryKind::Integers { rows, cols } => (rows * cols) as nat,
        EntryKind::ExpertDone { .. } => 0,
    }
}

/// The resident bytes of one line of a checkpoint that has it.
pub open spec fn line_bytes(index: IndexView, line: EntryView) -> nat {
    match line.kind {
        EntryKind::Matrix { .. } => index.layouts[line.name].resident_bytes as nat,
        EntryKind::Vector { length, .. } => (length * 4) as nat,
        EntryKind::Integers { .. } => 0,
        EntryKind::ExpertDone { .. } => 0,
    }
}

/// The parameters of all lines, of the attached stages or of the base model.
pub open spec fn parameters_of(lines: Seq<EntryView>, stages: bool) -> nat
    decreases lines.len(),
{
    if lines.len() == 0 {
        0
    } else {
        parameters_of(lines.drop_last(), stages) + if (lines.last().residency
            == Residency::DSpark) == stages {
            line_parameters(lines.last())
        } else {
            0
        }
    }
}

/// The bytes of all lines that are held at one place.
pub open spec fn bytes_of(index: IndexView, lines: Seq<EntryView>, residency: Residency) -> nat
    decreases lines.len(),
{
    if lines.len() == 0 {
        0
    } else {
        bytes_of(index, lines.drop_last(), residency) + if lines.last().residency == residency {
            line_bytes(index, lines.last())
        } else {
            0
        }
    }
}

/// An accepted list is charged in full: the parameters of the base model and of the stages, and
/// the bytes of every base layer and of the final weights, are the sums over its lines.
pub proof fn accepted_lines_are_charged_in_full(
    account: Account,
    index: IndexView,
    lines: Seq<EntryView>,
)
    requires
        after_lines(account, index, lines) is Ok,
        lines_within(lines, account.layer_bytes.len()),
        account.layer_bytes.len() == account.slot_bytes.len(),
    ensures
        ({
            let after = after_lines(account, index, lines)->Ok_0;
            &&& after.base_parameters == account.base_parameters + parameters_of(lines, false)
            &&& after.dspark_parameters == account.dspark_parameters + parameters_of(lines, true)
            &&& after.final_bytes == account.final_bytes + bytes_of(
                index,
                lines,
                Residency::BaseFinal,
            )
            &&& after.layer_bytes.len() == account.layer_bytes.len()
            &&& after.slot_bytes.len() == account.slot_bytes.len()
            &&& forall|layer: usize|
                layer < account.layer_bytes.len() ==> #[trigger] after.layer_bytes[layer as int]
                    == account.layer_bytes[layer as int] + bytes_of(
                    index,
                    lines,
                    Residency::BaseLayer(layer),
                )
        }),
    decreases lines.len(),
{
    if lines.len() > 0 {
        let earlier = lines.drop_last();
        assert forall|i: int| 0 <= i < earlier.len() implies {
            &&& ((#[trigger] earlier[i]).residency matches Residency::BaseLayer(layer) ==> layer
                < account.layer_bytes.len())
            &&& (earlier[i].kind matches EntryKind::ExpertDone { layer } ==> layer
                < account.layer_bytes.len())
        } by {
            assert(earlier[i] == lines[i]);
        }
        accepted_lines_are_charged_in_full(account, index, earlier);
        let before = after_lines(account, index, earlier)->Ok_0;
        assert(lines.last() == lines[lines.len() - 1]);
        lemma_line_charged(before, index, lines.last());
    }
}

proof fn lemma_line_charged(account: Account, index: IndexView, line: EntryView)
    requires
        after_line(account, index, line) is Ok,
        account.layer_bytes.len() == account.slot_bytes.len(),
        line.residency matches Residency::BaseLayer(layer) ==> layer < account.layer_bytes.len(),
        line.kind matches EntryKind::ExpertDone { layer } ==> layer < account.layer_bytes.len(),
    ensures
        ({
            let after = after_line(account, index, line)->Ok_0;
            let stages = line.residency == Residency::DSpark;
            &&& after.base_parameters == account.base_parameters + if stages {
                0
            } else {
                line_parameters(line)
            }
            &&& after.dspark_parameters == account.dspark_parameters + if stages {
                line_parameters(line)
            } else {
                0
            }
            &&& after.final_bytes == account.final_bytes + if line.residency
                == Residency::BaseFinal {
                line_bytes(index, line)
            } else {
                0
            }
            &&& after.layer_bytes.len() == account.layer_bytes.len()
            &&& after.slot_bytes.len() == account.slot_bytes.len()
            &&& forall|layer: usize|
                layer < account.layer_bytes.len() ==> #[trigger] after.layer_bytes[layer as int]
                    == account.layer_bytes[layer as int] + if line.residency
                    == Residency::BaseLayer(layer) {
                    line_bytes(index, line)
                } else {
                    0
                }
        }),
{
}

/// No name is accepted twice: the lines of an accepted list name different tensors, none of which
/// was accepted before.
pub proof fn accepted_names_differ(account: Account, index: IndexView, lines: Seq<EntryView>)
    requires
        after_lines(account, index, lines) is Ok,
    ensures
        account.expected.subset_of(after_lines(account, index, lines)->Ok_0.expected),
        forall|i: int|
            0 <= i < lines.len() && !((#[trigger] lines[i]).kind is ExpertDone) ==> {
                &&& after_lines(account, index, lines)->Ok_0.expected.contains(lines[i].name)
                &&& !account.expected.contains(lines[i].name)
            },
        forall|i: int, j: int|
            0 <= i < j < lines.len() && !((#[trigger] lines[i]).kind is ExpertDone) && !((
            #[trigger] lines[j]).kind is ExpertDone) ==> lines[i].name != lines[j].name,
    decreases lines.len(),
{
    if lines.len() > 0 {
        let earlier = lines.drop_last();
        accepted_names_differ(account, index, earlier);
        let before = after_lines(account, index, earlier)->Ok_0;
        let after = after_lines(account, index, lines)->Ok_0;
        assert(after == after_line(before, index, lines.last())->Ok_0);
        assert(before.expected.subset_of(after.expected));
        assert forall|i: int|
            0 <= i < lines.len() && !((#[trigger] lines[i]).kind is ExpertDone) implies {
            &&& after.expected.contains(lines[i].name)
            &&& !account.expected.contains(lines[i].name)
        } by {
            if i < earlier.len() {
                assert(earlier[i] == lines[i]);
            } else {
                assert(!before.expected.contains(lines[i].name));
            }
        }
        assert forall|i: int, j: int|
            0 <= i < j < lines.len() && !((#[trigger] lines[i]).kind is ExpertDone) && !((
            #[trigger] lines[j]).kind is ExpertDone) implies lines[i].name != lines[j].name by {
            assert(earlier[i] == lines[i]);
            if j < earlier.len() {
                assert(earlier[j] == lines[j]);
            } else {
                assert(before.expected.contains(lines[i].name));
                assert(!before.expected.contains(lines[j].name));
            }
        }
    }
}

/// An accepted configuration leaves the schema and the caches within the machine's numbers,
/// as long as the dimensions that validation does not bound, and the low-rank output width where
/// pointers have 32 bits, do so themselves.
pub proof fn accepted_config_fits(config: DeepseekV4Config, context: usize)
    requires
        config.refusal() is None,
        config.open_dimensions_fit(),
    ensures
        config.has_base_ratios(),
        config.schema_fits(),
        context <= config.max_position_embeddings ==> config.cache_fits(context),
{
    assert((2 + config.hc_mult) * config.hc_mult <= 66 * 64) by (nonlinear_arith)
        requires
            config.hc_mult <= 64,
    ;
    assert(config.hc_mult * config.hidden_size <= 64 * 1048576) by (nonlinear_arith)
        requires
            config.hc_mult <= 64,
            config.hidden_size <= 1048576,
    ;
    assert(config.num_attention_heads * config.head_dim <= 4096 * 65536) by (nonlinear_arith)
        requires
            config.num_attention_heads <= 4096,
            config.head_dim <= 65536,
    ;
    assert(config.index_n_heads * config.index_head_dim <= 4096 * 65536) by (nonlinear_arith)
        requires
            config.index_n_heads <= 4096,
            config.index_head_dim <= 65536,
    ;
    assert(config.num_hidden_layers * config.n_routed_experts <= 256 * 65536) by (nonlinear_arith)
        requires
            config.num_hidden_layers <= 256,
            config.n_routed_experts <= 65536,
    ;
    if context <= config.max_position_embeddings {
        assert forall|layer: int|
            0 <= layer < config.num_hidden_layers && #[trigger] config.compress_ratios@[layer]
                > 0 implies {
            let ratio = config.compress_ratios@[layer];
            &&& overlap(ratio) * ratio <= usize::MAX
            &&& 2 * (overlap(ratio) * ratio) <= u64::MAX
            &&& compressed_values(context, ratio, config.head_dim) <= u64::MAX
            &&& compressor_values(ratio, config.head_dim) <= u64::MAX
            &&& compressed_values(context, ratio, config.index_head_dim) <= u64::MAX
            &&& compressor_values(ratio, config.index_head_dim) <= u64::MAX
        } by {
            let ratio = config.compress_ratios@[layer];
            lemma_ratio(config, 0, layer as nat);
            assert(ratio == 4 || ratio == 128);
            lemma_cache_sizes(context, ratio, config.head_dim);
            lemma_cache_sizes(context, ratio, config.index_head_dim);
        }
    }
}

/// No layer of an accepted schedule has a ratio that the check refuses.
pub proof fn lemma_ratio(config: DeepseekV4Config, from: nat, layer: nat)
    requires
        config.ratios_problem(from) is None,
        from <= layer < config.num_hidden_layers,
    ensures
        config.ratio_problem(layer) is None,
    decreases layer - from,
{
    if from < layer {
        lemma_ratio(config, from + 1, layer);
    }
}

proof fn lemma_cache_sizes(context: usize, ratio: usize, head_dim: usize)
    requires
        ratio == 4 || ratio == 128,
        context <= 1073741824,
        head_dim <= 65536,
    ensures
        overlap(ratio) * ratio <= 128,
        compressed_values(context, ratio, head_dim) <= u64::MAX,
        compressor_values(ratio, head_dim) <= u64::MAX,
{
    let entries = context as int / ratio as int;
    assert(0 <= entries <= context) by (nonlinear_arith)
        requires
            entries == context as int / ratio as int,
            ratio > 0,
    ;
    assert(entries * head_dim <= 1073741824 * 65536) by (nonlinear_arith)
        requires
            0 <= entries <= 1073741824,
            head_dim <= 65536,
    ;
    let span = overlap(ratio) * ratio;
    let width = overlap(ratio) * head_dim;
    assert(0 <= span <= 128);
    assert(0 <= width <= 131072);
    assert(2 * span * width <= 2 * 128 * 131072) by (nonlinear_arith)
        requires
            0 <= span <= 128,
            0 <= width <= 131072,
    ;
}

/// The values that the cache of one layer holds at most: its window, and where it compresses the
/// entries of all complete groups and the workspace of the compressor, which is twice as wide and deep
/// where groups overlap; where it compresses by four the same again for the indexer.
pub open spec fn values_of_layer(config: DeepseekV4Config, context: usize, ratio: usize) -> int {
    let window = if context < config.sliding_window {
        context
    } else {
        config.sliding_window
    };
    let head = config.head_dim as int;
    let index = config.index_head_dim as int;
    if ratio == 0 {
        window * head
    } else if ratio == 4 {
        window * head + (context as int / 4) * head + 2 * (8 * (2 * head)) + (context as int / 4)
            * index + 2 * (8 * (2 * index))
    } else {
        window * head + (context as int / ratio as int) * head + 2 * (ratio * head)
    }
}

pub open spec fn values_of_layers(config: DeepseekV4Config, context: usize, layers: nat) -> int
    decreases layers,
{
    if layers == 0 {
        0
    } else {
        values_of_layers(config, context, (layers - 1) as nat) + values_of_layer(
            config,
            context,
            config.compress_ratios@[layers - 1],
        )
    }
}

proof fn lemma_values(config: DeepseekV4Config, context: usize, layers: nat)
    requires
        config.sliding_window * config.head_dim <= u64::MAX,
    ensures
        layer_values(config, context, layers) matches Ok(values) ==> values == values_of_layers(
            config,
            context,
            layers,
        ),
    decreases layers,
{
    if layers > 0 {
        lemma_values(config, context, (layers - 1) as nat);
        let ratio = config.compress_ratios@[layers - 1];
        let head = config.head_dim as int;
        let index = config.index_head_dim as int;
        assert(accounting::smaller(context as int, config.sliding_window as int) * head
            <= config.sliding_window * head) by (nonlinear_arith)
            requires
                accounting::smaller(context as int, config.sliding_window as int)
                    <= config.sliding_window,
                0 <= head,
        ;
        if ratio == 4 {
            assert(2 * (2 * 4) * (2 * head) == 2 * (8 * (2 * head))) by (nonlinear_arith);
            assert(2 * (2 * 4) * (2 * index) == 2 * (8 * (2 * index))) by (nonlinear_arith);
            assert(compressor_values(ratio, config.head_dim) == 2 * (8 * (2 * head)));
            assert(compressor_values(ratio, config.index_head_dim) == 2 * (8 * (2 * index)));
        } else {
            assert(2 * (1 * ratio) * (1 * head) == 2 * (ratio * head)) by (nonlinear_arith);
        }
    }
}

/// The cache of a context takes four bytes for every value that its layers hold, and for one token's
/// hidden streams.
pub proof fn cache_bytes_are_those_of_the_layers(config: DeepseekV4Config, context: usize)
    requires
        config.sliding_window * config.head_dim <= u64::MAX,
    ensures
        kv_bytes(config, context) matches Ok(bytes) ==> bytes == 4 * (values_of_layers(
            config,
            context,
            config.num_hidden_layers as nat,
        ) + config.hc_mult * config.hidden_size),
{
    lemma_values(config, context, config.num_hidden_layers as nat);
}

/// As many layers are cached as fit beside what is resident anyway: all of them where all fit, and
/// otherwise as many of the largest one's size as there is room for.
pub proof fn layers_are_cached_while_they_fit(
    requirements: DeepseekV4Requirements,
    resident_budget: u64,
)
    requires
        requirements.streamed_layer_bytes > 0,
    ensures
        ({
            let count = requirements.cached_layers(resident_budget);
            let size = requirements.streamed_layer_bytes as int;
            let spare = resident_budget - requirements.resident_bytes;
            &&& 0 <= count <= requirements.decoder_layer_count
            &&& spare >= requirements.decoder_layer_bytes ==> count
                == requirements.decoder_layer_count
            &&& 0 <= spare < requirements.decoder_layer_bytes ==> count * size <= spare
            &&& count < requirements.decoder_layer_count ==> spare < (count + 1) * size
        }),
{
    let size = requirements.streamed_layer_bytes as int;
    let spare = accounting::larger(resident_budget - requirements.resident_bytes, 0);
    let whole = spare / size;
    let rest = spare % size;
    let count = requirements.cached_layers(resident_budget);
    vstd::arithmetic::div_mod::lemma_fundamental_div_mod(spare, size);
    vstd::arithmetic::div_mod::lemma_mod_bound(spare, size);
    assert(whole >= 0) by (nonlinear_arith)
        requires
            spare == size * whole + rest,
            0 <= rest < size,
            0 <= spare,
    ;
    assert(count <= whole ==> count * size <= spare) by (nonlinear_arith)
        requires
            spare == size * whole + rest,
            0 <= rest,
            0 < size,
    ;
    assert(count == whole ==> spare < (count + 1) * size) by (nonlinear_arith)
        requires
            spare == size * whole + rest,
            rest < size,
    ;
}

/// The projection onto the vocabulary is kept exactly where it fits beside all layers.
pub proof fn the_head_is_kept_beside_all_layers(
    requirements: DeepseekV4Requirements,
    resident_budget: u64,
)
    requires
        requirements.resident_bytes + requirements.decoder_layer_bytes
            + requirements.lm_head_resident_bytes <= u64::MAX,
    ensures
        requirements.caches_lm_head(resident_budget) <==> requirements.resident_bytes
            + requirements.decoder_layer_bytes + requirements.lm_head_resident_bytes
            <= resident_budget,
{
}

/// Where not all layers are cached, up to four of the places are those of layers that are read ahead,
/// one of them beside the cached ones.
pub proof fn up_to_four_layers_are_read_ahead(capacity: usize, layer_count: usize)
    requires
        capacity < usize::MAX,
    ensures
        ({
            let (cached, depth) = pipeline(capacity, layer_count);
            &&& 1 <= depth <= 4
            &&& capacity >= layer_count ==> cached == capacity && depth == 1
            &&& capacity < layer_count ==> cached + depth == capacity + 1 && (depth == 4 || cached
                == 0)
        }),
{
}

/// The most that two adjacent layers take together: some pair of neighbours takes it, and none more.
pub proof fn no_neighbours_take_more(items: Seq<u64>, left: int)
    requires
        items.len() > 1,
        0 <= left < items.len() - 1,
        forall|i: int| 0 <= i < items.len() - 1 ==> items[i] + #[trigger] items[i + 1] <= u64::MAX,
    ensures
        items[left] + items[left + 1] <= peak_pair(items),
        exists|i: int|
            0 <= i < items.len() - 1 && items[i] + #[trigger] items[i + 1] == peak_pair(items),
{
    let pairs = Seq::new((items.len() - 1) as nat, |at: int| pair(items, at));
    accounting::no_number_is_greater(pairs, left);
    let i = choose|i: int| 0 <= i < pairs.len() && pairs[i] == accounting::largest(pairs);
    assert(items[i] + items[i + 1] <= u64::MAX);
    assert(pairs[i] == pair(items, i));
    assert(items[left] + items[left + 1] <= u64::MAX);
    assert(pairs[left] == pair(items, left));
}

/// What a model needs is what its account holds: the largest neighbours, the last weights and the
/// pinned vectors are resident, the cached experts take their slots in every layer or at least the
/// largest expert, and all tensors that were not expected are counted.
pub proof fn needs_follow_from_the_account(
    config: DeepseekV4Config,
    index: IndexView,
    context_limit: usize,
    slots: usize,
    account: Account,
    embedding: TensorInfo,
    head: TensorInfo,
)
    ensures
        summary(config, index, context_limit, slots, account, embedding, head) matches Ok(needs)
            ==> {
            let experts = accounting::sum_of(account.slot_bytes) * slots;
            &&& needs.resident_bytes == peak_pair(account.layer_bytes) + account.final_bytes
                + account.vector_bytes
            &&& needs.decoder_layer_bytes == accounting::sum_of(account.layer_bytes)
            &&& needs.streamed_layer_bytes == accounting::largest(account.layer_bytes)
            &&& needs.expert_cache_bytes >= experts
            &&& needs.expert_cache_bytes >= account.maximum_expert_bytes
            &&& needs.expert_cache_bytes == experts || needs.expert_cache_bytes
                == account.maximum_expert_bytes
            &&& needs.maximum_expert_bytes == account.maximum_expert_bytes
            &&& needs.transient_expert_bytes == account.maximum_expert_bytes
            &&& kv_bytes(config, context_limit) == Ok::<u64, SchemaProblem>(needs.kv_cache_bytes)
            &&& needs.decoder_layer_count == config.num_hidden_layers
            &&& needs.context_limit == context_limit && needs.expert_slots_per_layer == slots
            &&& needs.streamed_embedding_bytes == embedding.data_len
            &&& needs.streamed_lm_head_bytes == head.data_len
            &&& head.dtype == DType::Bf16 ==> needs.lm_head_resident_bytes == head.data_len
            &&& head.dtype != DType::Bf16 ==> needs.lm_head_resident_bytes
                == index.layouts["head.weight"@].resident_bytes
            &&& needs.base_logical_parameters == account.base_parameters
            &&& needs.dspark_logical_parameters == account.dspark_parameters
        },
{
    assert(accounting::sum_of(account.slot_bytes) * slots >= 0) by (nonlinear_arith);
}

/// The scale of a weight has its name, with the ending for scales in place of that for weights.
pub proof fn scales_are_named_after_their_weights(stem: Seq<char>)
    ensures
        scale_name(stem + ".weight"@) == stem + ".scale"@,
{
    reveal_strlit(".weight");
    let name = stem + ".weight"@;
    assert(text::ends_in(name, ".weight"@)) by {
        assert(name.skip(name.len() - ".weight"@.len()) =~= ".weight"@);
    }
    assert(name.take(name.len() - ".weight"@.len()) =~= stem);
}

/// Whether a list holds a matrix.
pub open spec fn is_matrix_listed(
    list: Seq<EntryView>,
    name: Seq<char>,
    rows: usize,
    cols: usize,
    residency: Residency,
) -> bool {
    exists|j: int|
        0 <= j < list.len() && (#[trigger] list[j]).name == name && list[j].kind == (
        EntryKind::Matrix { rows, cols }) && list[j].residency == residency
}

/// Whether a list holds a vector.
pub open spec fn is_vector_listed(
    list: Seq<EntryView>,
    name: Seq<char>,
    length: usize,
    dtype: DType,
    residency: Residency,
) -> bool {
    exists|j: int|
        0 <= j < list.len() && (#[trigger] list[j]).name == name && list[j].kind == (
        EntryKind::Vector { length, dtype }) && list[j].residency == residency
}

/// Every block lists its mixing functions, its norms and the weights of its attention, under their names
/// and in their shapes.
pub proof fn blocks_list_their_attention(
    config: DeepseekV4Config,
    prefix: Seq<char>,
    ratio: usize,
    hash_router: bool,
    base_layer: Option<usize>,
)
    ensures
        ({
            let lines = block_lines(config, prefix, ratio, hash_router, base_layer);
            let residency = match base_layer {
                Some(layer) => Residency::BaseLayer(layer),
                None => Residency::DSpark,
            };
            let hidden = config.hidden_size;
            let mix = ((2 + config.hc_mult) * config.hc_mult) as usize;
            let wide = (config.hc_mult * config.hidden_size) as usize;
            let width = (config.num_attention_heads * config.head_dim) as usize;
            let low_rank = (config.o_groups * config.o_lora_rank) as usize;
            &&& is_matrix_listed(lines, prefix + ".hc_attn"@ + "_fn"@, mix, wide, residency)
            &&& is_vector_listed(lines, prefix + ".hc_attn"@ + "_base"@, mix, DType::F32, residency)
            &&& is_vector_listed(lines, prefix + ".hc_attn"@ + "_scale"@, 3, DType::F32, residency)
            &&& is_matrix_listed(lines, prefix + ".hc_ffn"@ + "_fn"@, mix, wide, residency)
            &&& is_vector_listed(lines, prefix + ".hc_ffn"@ + "_base"@, mix, DType::F32, residency)
            &&& is_vector_listed(lines, prefix + ".hc_ffn"@ + "_scale"@, 3, DType::F32, residency)
            &&& is_vector_listed(lines, prefix + ".attn_norm.weight"@, hidden, DType::Bf16, residency)
            &&& is_vector_listed(lines, prefix + ".ffn_norm.weight"@, hidden, DType::Bf16, residency)
            &&& is_vector_listed(lines, prefix + ".attn"@ + ".attn_sink"@, config.num_attention_heads, DType::F32, residency)
            &&& is_matrix_listed(lines, prefix + ".attn"@ + ".wq_a.weight"@, config.q_lora_rank, hidden, residency)
            &&& is_vector_listed(lines, prefix + ".attn"@ + ".q_norm.weight"@, config.q_lora_rank, DType::Bf16, residency)
            &&& is_matrix_listed(lines, prefix + ".attn"@ + ".wq_b.weight"@, width, config.q_lora_rank, residency)
            &&& is_matrix_listed(lines, prefix + ".attn"@ + ".wkv.weight"@, config.head_dim, hidden, residency)
            &&& is_vector_listed(lines, prefix + ".attn"@ + ".kv_norm.weight"@, config.head_dim, DType::Bf16, residency)
            &&& is_matrix_listed(lines, prefix + ".attn"@ + ".wo_a.weight"@, low_rank, (width as int / config.o_groups as int) as usize, residency)
            &&& is_matrix_listed(lines, prefix + ".attn"@ + ".wo_b.weight"@, hidden, low_rank, residency)
        }),
{
    let lines = block_lines(config, prefix, ratio, hash_router, base_layer);
    let front = front_lines(config, prefix, block_residency(base_layer));
    assert(front.len() == 16);
    assert(lines[0] == front[0]);
    assert(lines[1] == front[1]);
    assert(lines[2] == front[2]);
    assert(lines[3] == front[3]);
    assert(lines[4] == front[4]);
    assert(lines[5] == front[5]);
    assert(lines[6] == front[6]);
    assert(lines[7] == front[7]);
    assert(lines[8] == front[8]);
    assert(lines[9] == front[9]);
    assert(lines[10] == front[10]);
    assert(lines[11] == front[11]);
    assert(lines[12] == front[12]);
    assert(lines[13] == front[13]);
    assert(lines[14] == front[14]);
    assert(lines[15] == front[15]);
}

/// A block that compresses lists its compressor, twice as wide where groups overlap, and one that
/// compresses by four its indexer as well; one that does not compress lists neither.
pub proof fn blocks_list_their_compressors(
    config: DeepseekV4Config,
    attention: Seq<char>,
    ratio: usize,
    residency: Residency,
)
    requires
        2 * config.head_dim <= usize::MAX,
        2 * config.index_head_dim <= usize::MAX,
    ensures
        ({
            let lines = sparse_lines(config, attention, ratio, residency);
            let hidden = config.hidden_size;
            let compressor = attention + ".compressor"@;
            let indexer = attention + ".indexer"@;
            let inner = indexer + ".compressor"@;
            let index = config.index_head_dim;
            let wide = if ratio == 4 {
                (2 * config.head_dim) as usize
            } else {
                config.head_dim
            };
            &&& lines.len() == (if ratio == 0 {
                0int
            } else if ratio == 4 {
                10
            } else {
                4
            })
            &&& ratio > 0 ==> {
                &&& is_matrix_listed(lines, compressor + ".ape"@, ratio, wide, residency)
                &&& is_matrix_listed(lines, compressor + ".wkv.weight"@, wide, hidden, residency)
                &&& is_matrix_listed(lines, compressor + ".wgate.weight"@, wide, hidden, residency)
                &&& is_vector_listed(lines, compressor + ".norm.weight"@, config.head_dim, DType::Bf16, residency)
            }
            &&& ratio == 4 ==> {
                &&& is_matrix_listed(lines, indexer + ".wq_b.weight"@, (config.index_n_heads * index) as usize, config.q_lora_rank, residency)
                &&& is_matrix_listed(lines, indexer + ".weights_proj.weight"@, config.index_n_heads, hidden, residency)
                &&& is_matrix_listed(lines, inner + ".ape"@, 4, (2 * index) as usize, residency)
                &&& is_matrix_listed(lines, inner + ".wkv.weight"@, (2 * index) as usize, hidden, residency)
                &&& is_matrix_listed(lines, inner + ".wgate.weight"@, (2 * index) as usize, hidden, residency)
                &&& is_vector_listed(lines, inner + ".norm.weight"@, index, DType::Bf16, residency)
            }
        }),
{
    let lines = sparse_lines(config, attention, ratio, residency);
    if ratio > 0 {
        let own = compressor_lines(
            config,
            attention + ".compressor"@,
            ratio,
            config.head_dim,
            residency,
        );
        assert(lines[0] == own[0] && lines[1] == own[1] && lines[2] == own[2] && lines[3] == own[3]);
        if ratio == 4 {
            let more = indexer_lines(config, attention + ".indexer"@, ratio, residency);
            assert(more.len() == 6);
            assert(lines[4] == more[0] && lines[5] == more[1] && lines[6] == more[2] && lines[7]
                == more[3] && lines[8] == more[4] && lines[9] == more[5]);
        }
    }
}

/// Every block lists its router, with fixed experts for every token where it routes by hash and a
/// correction for every expert where it does not, and its shared expert.
pub proof fn blocks_list_their_router(
    config: DeepseekV4Config,
    ffn: Seq<char>,
    hash_router: bool,
    residency: Residency,
)
    ensures
        ({
            let lines = router_lines(config, ffn, hash_router, residency);
            let shared = ffn + ".shared_experts"@;
            let hidden = config.hidden_size;
            let inner = config.moe_intermediate_size;
            &&& lines.len() == 5
            &&& is_matrix_listed(lines, ffn + ".gate.weight"@, config.n_routed_experts, hidden, residency)
            &&& hash_router ==> lines[1].name == ffn + ".gate.tid2eid"@ && lines[1].kind == (
            EntryKind::Integers { rows: config.vocab_size, cols: config.num_experts_per_tok })
                && lines[1].residency == residency
            &&& !hash_router ==> is_vector_listed(lines, ffn + ".gate.bias"@, config.n_routed_experts, DType::F32, residency)
            &&& is_matrix_listed(lines, shared + ".w1.weight"@, inner, hidden, residency)
            &&& is_matrix_listed(lines, shared + ".w2.weight"@, hidden, inner, residency)
            &&& is_matrix_listed(lines, shared + ".w3.weight"@, inner, hidden, residency)
        }),
{
    let lines = router_lines(config, ffn, hash_router, residency);
    let shared = mlp_lines(
        ffn + ".shared_experts"@,
        config.hidden_size,
        config.moe_intermediate_size,
        residency,
    );
    assert(lines[0].name == ffn + ".gate.weight"@);
    assert(lines[1].residency == residency);
    assert(lines[2] == shared[0] && lines[3] == shared[1] && lines[4] == shared[2]);
}

/// A block is its attention, its compressors, its router and its routed experts, one behind the other.
/// Every expert lists its three matrices, and in a layer of the base model ends as one.
pub proof fn blocks_list_every_expert(
    config: DeepseekV4Config,
    prefix: Seq<char>,
    ratio: usize,
    hash_router: bool,
    base_layer: Option<usize>,
    expert: nat,
    i: int,
    j: int,
)
    requires
        expert < config.n_routed_experts,
        0 <= i < sparse_lines(config, prefix + ".attn"@, ratio, block_residency(base_layer)).len(),
        0 <= j < 5,
    ensures
        ({
            let lines = block_lines(config, prefix, ratio, hash_router, base_layer);
            let own = match base_layer {
                Some(layer) => Residency::BaseExpert(layer),
                None => Residency::DSpark,
            };
            let stem = prefix + ".ffn"@ + ".experts."@ + text::decimal(expert);
            let hidden = config.hidden_size;
            let inner = config.moe_intermediate_size;
            &&& lines.contains(
                sparse_lines(config, prefix + ".attn"@, ratio, block_residency(base_layer))[i],
            )
            &&& lines.contains(
                router_lines(config, prefix + ".ffn"@, hash_router, block_residency(base_layer))[j],
            )
            &&& is_matrix_listed(lines, stem + ".w1.weight"@, inner, hidden, own)
            &&& is_matrix_listed(lines, stem + ".w2.weight"@, hidden, inner, own)
            &&& is_matrix_listed(lines, stem + ".w3.weight"@, inner, hidden, own)
        }),
{
    let residency = block_residency(base_layer);
    let lines = block_lines(config, prefix, ratio, hash_router, base_layer);
    let front = front_lines(config, prefix, residency);
    let sparse = sparse_lines(config, prefix + ".attn"@, ratio, residency);
    let router = router_lines(config, prefix + ".ffn"@, hash_router, residency);
    let experts = experts_lines(
        config,
        prefix + ".ffn"@,
        config.n_routed_experts as nat,
        base_layer,
    );
    let own = expert_lines(config, prefix + ".ffn"@, expert, base_layer);
    assert(lines[front.len() + i] == sparse[i]);
    assert(lines[front.len() + sparse.len() + j] == router[j]);
    let at = lemma_expert_lines(
        config,
        prefix + ".ffn"@,
        config.n_routed_experts as nat,
        base_layer,
        expert,
    );
    let start = front.len() + sparse.len() + router.len() + at;
    assert(experts[at] == own[0] && experts[at + 1] == own[1] && experts[at + 2] == own[2]);
    assert(lines[start] == own[0]);
    assert(lines[start + 1] == own[1]);
    assert(lines[start + 2] == own[2]);
}

proof fn lemma_expert_lines(
    config: DeepseekV4Config,
    ffn: Seq<char>,
    experts: nat,
    base_layer: Option<usize>,
    expert: nat,
) -> (at: int)
    requires
        expert < experts,
    ensures
        0 <= at,
        at + 3 <= experts_lines(config, ffn, experts, base_layer).len(),
        experts_lines(config, ffn, experts, base_layer)[at] == expert_lines(config, ffn, expert, base_layer)[0],
        experts_lines(config, ffn, experts, base_layer)[at + 1] == expert_lines(config, ffn, expert, base_layer)[1],
        experts_lines(config, ffn, experts, base_layer)[at + 2] == expert_lines(config, ffn, expert, base_layer)[2],
    decreases experts,
{
    let before = (experts - 1) as nat;
    if expert < before {
        let at = lemma_expert_lines(config, ffn, before, base_layer, expert);
        at
    } else {
        experts_lines(config, ffn, before, base_layer).len() as int
    }
}

/// The body of the model lists every layer whole, by its ratio and with hash routing in the first layers
/// that have it, and behind them the last norm and the head; the tail lists every attached stage,
/// which neither compresses nor routes by hash.
pub proof fn models_list_every_layer(
    config: DeepseekV4Config,
    layer: nat,
    i: int,
    stage: nat,
    j: int,
)
    requires
        layer < config.num_hidden_layers,
        0 <= i < block_lines(
            config,
            "layers."@ + text::decimal(layer),
            config.compress_ratios@[layer as int],
            layer < config.num_hash_layers,
            Some(layer as usize),
        ).len(),
        config.num_hidden_layers + stage < config.compress_ratios@.len(),
        0 <= j < block_lines(config, "mtp."@ + text::decimal(stage), 0, false, None).len(),
    ensures
        body_lines(config).contains(
            block_lines(
                config,
                "layers."@ + text::decimal(layer),
                config.compress_ratios@[layer as int],
                layer < config.num_hash_layers,
                Some(layer as usize),
            )[i],
        ),
        tail_lines(config).contains(
            block_lines(config, "mtp."@ + text::decimal(stage), 0, false, None)[j],
        ),
        is_vector_listed(body_lines(config), "norm.weight"@, config.hidden_size, DType::Bf16, Residency::BaseFinal),
        is_matrix_listed(body_lines(config), "head.weight"@, config.vocab_size, config.hidden_size, Residency::TokenRows),
        is_matrix_listed(embedding_lines(config), "embed.weight"@, config.vocab_size, config.hidden_size, Residency::TokenRows),
{
    let layers = layers_lines(config, config.num_hidden_layers as nat);
    let body = body_lines(config);
    let a = lemma_layer_lines(config, config.num_hidden_layers as nat, layer, i);
    assert(body[a] == layers[a]);
    assert(body[layers.len() as int].name == "norm.weight"@);
    assert(body[layers.len() as int + 1].name == "head.weight"@);
    assert(embedding_lines(config)[0].name == "embed.weight"@);
    let stages = stages_lines(config, stage_count(config));
    let b = lemma_stage_lines(config, stage_count(config), stage, j);
    assert(tail_lines(config)[3 + b] == stages[b]);
}

proof fn lemma_layer_lines(config: DeepseekV4Config, layers: nat, layer: nat, i: int) -> (at: int)
    requires
        layer < layers,
        0 <= i < block_lines(
            config,
            "layers."@ + text::decimal(layer),
            config.compress_ratios@[layer as int],
            layer < config.num_hash_layers,
            Some(layer as usize),
        ).len(),
    ensures
        0 <= at < layers_lines(config, layers).len(),
        layers_lines(config, layers)[at] == block_lines(
            config,
            "layers."@ + text::decimal(layer),
            config.compress_ratios@[layer as int],
            layer < config.num_hash_layers,
            Some(layer as usize),
        )[i],
    decreases layers,
{
    let before = (layers - 1) as nat;
    if layer < before {
        let at = lemma_layer_lines(config, before, layer, i);
        at
    } else {
        layers_lines(config, before).len() + i
    }
}

proof fn lemma_stage_lines(config: DeepseekV4Config, stages: nat, stage: nat, j: int) -> (at: int)
    requires
        stage < stages,
        0 <= j < block_lines(config, "mtp."@ + text::decimal(stage), 0, false, None).len(),
    ensures
        0 <= at < stages_lines(config, stages).len(),
        stages_lines(config, stages)[at] == block_lines(
            config,
            "mtp."@ + text::decimal(stage),
            0,
            false,
            None,
        )[j],
    decreases stages,
{
    let before = (stages - 1) as nat;
    if stage < before {
        let at = lemma_stage_lines(config, before, stage, j);
        at
    } else {
        stages_lines(config, before).len() + j
    }
}

/// The head that reduces the streams is listed for the model and for its last attached stage, which also
/// has the norm and both heads; the projection of the target layers stands with the first stage.
pub proof fn models_list_their_heads(config: DeepseekV4Config, stem: Seq<char>, residency: Residency)
    requires
        stage_count(config) > 0,
    ensures
        ({
            let head = hc_head_lines(config, stem, residency);
            let stages = stage_head_lines(config);
            let hidden = config.hidden_size;
            let wide = (config.hc_mult * hidden) as usize;
            let last = "mtp."@ + text::decimal((config.compress_ratios@.len() - config.num_hidden_layers - 1) as nat);
            let own = Residency::DSpark;
            &&& head.len() == 3 && stages.len() == 9
            &&& is_matrix_listed(head, stem + "hc_head_fn"@, config.hc_mult, wide, residency)
            &&& is_vector_listed(head, stem + "hc_head_base"@, config.hc_mult, DType::F32, residency)
            &&& is_vector_listed(head, stem + "hc_head_scale"@, 1, DType::F32, residency)
            &&& is_matrix_listed(stages, "mtp.0.main_proj.weight"@, hidden, (hidden * config.dspark_target_layer_ids@.len()) as usize, own)
            &&& is_vector_listed(stages, "mtp.0.main_norm.weight"@, hidden, DType::Bf16, own)
            &&& is_matrix_listed(stages, last + "."@ + "hc_head_fn"@, config.hc_mult, wide, own)
            &&& is_vector_listed(stages, last + "."@ + "hc_head_base"@, config.hc_mult, DType::F32, own)
            &&& is_vector_listed(stages, last + "."@ + "hc_head_scale"@, 1, DType::F32, own)
            &&& is_vector_listed(stages, last + ".norm.weight"@, hidden, DType::Bf16, own)
            &&& is_matrix_listed(stages, last + ".markov_head.markov_w1.weight"@, config.vocab_size, config.dspark_markov_rank, own)
            &&& is_matrix_listed(stages, last + ".markov_head.markov_w2.weight"@, config.vocab_size, config.dspark_markov_rank, own)
            &&& is_matrix_listed(stages, last + ".confidence_head.proj.weight"@, 1, (hidden + config.dspark_markov_rank) as usize, own)
        }),
{
    let head = hc_head_lines(config, stem, residency);
    let stages = stage_head_lines(config);
    let last = "mtp."@ + text::decimal((stage_count(config) - 1) as nat);
    let own = hc_head_lines(config, last + "."@, Residency::DSpark);
    assert(head[0].name == stem + "hc_head_fn"@);
    assert(head[1].name == stem + "hc_head_base"@);
    assert(head[2].name == stem + "hc_head_scale"@);
    assert(stages[0].name == "mtp.0.main_proj.weight"@);
    assert(stages[1].name == "mtp.0.main_norm.weight"@);
    assert(stages[2] == own[0] && stages[3] == own[1] && stages[4] == own[2]);
    assert(stages[5].name == last + ".norm.weight"@);
    assert(stages[6].name == last + ".markov_head.markov_w1.weight"@);
    assert(stages[7].name == last + ".markov_head.markov_w2.weight"@);
    assert(stages[8].name == last + ".confidence_head.proj.weight"@);
}

/// The largest expert of a layer takes its slot, and the largest of all is kept; an expert without
/// weights is refused, and the next one starts from nothing.
pub proof fn the_largest_expert_takes_the_slot(account: Account, layer: usize, other: int)
    requires
        layer < account.slot_bytes.len(),
        0 <= other < account.slot_bytes.len(),
    ensures
        after_expert(account, layer) is Ok <==> account.expert_bytes > 0,
        after_expert(account, layer) matches Ok(after) ==> {
            let slot = after.slot_bytes[layer as int];
            let before = account.slot_bytes[layer as int];
            &&& slot >= before && slot >= account.expert_bytes
            &&& slot == before || slot == account.expert_bytes
            &&& other != layer ==> after.slot_bytes[other] == account.slot_bytes[other]
            &&& after.maximum_expert_bytes >= account.maximum_expert_bytes
            &&& after.maximum_expert_bytes >= account.expert_bytes
            &&& after.maximum_expert_bytes == account.maximum_expert_bytes
                || after.maximum_expert_bytes == account.expert_bytes
            &&& after.expert_bytes == 0
        },
{
}

/// A vector takes four bytes for every value, and is pinned where it belongs to a layer of the base
/// model. It is taken exactly as it is declared, and once.
pub proof fn vectors_of_layers_are_pinned(
    account: Account,
    index: IndexView,
    name: Seq<char>,
    length: usize,
    dtype: DType,
    residency: Residency,
)
    ensures
        after_vector(account, index, name, length, dtype, residency) matches Ok(after) ==> {
            &&& index.tensors.contains_key(name)
            &&& index.tensors[name].shape@ == seq![length as u64]
            &&& index.tensors[name].dtype == dtype
            &&& !account.expected.contains(name) && after.expected == account.expected.insert(name)
            &&& after.vector_bytes == account.vector_bytes + if residency is BaseLayer {
                4 * length
            } else {
                0
            }
        },
{
}

/// A matrix is taken exactly as it is declared, and once, together with the scales of a scaled format;
/// it is no pinned vector.
pub proof fn matrices_are_expected_with_their_scales(
    account: Account,
    index: IndexView,
    name: Seq<char>,
    rows: usize,
    cols: usize,
    residency: Residency,
)
    ensures
        after_matrix(account, index, name, rows, cols, residency) matches Ok(after) ==> {
            let format = index.layouts[name].format;
            &&& index.inspect(name, rows, cols) is Ok
            &&& !account.expected.contains(name)
            &&& (format is MxFp8E4M3 || format is MxFp4E2M1) ==> after.expected
                == account.expected.insert(name).insert(scale_name(name))
            &&& !(format is MxFp8E4M3 || format is MxFp4E2M1) ==> after.expected
                == account.expected.insert(name)
            &&& after.vector_bytes == account.vector_bytes
        },
{
}

/// Requirements are stated only for a context within the positions of the model and for no more slots
/// than experts.
pub proof fn requests_stay_within_the_model(
    config: DeepseekV4Config,
    index: IndexView,
    context_limit: usize,
    slots: usize,
)
    ensures
        requirements(config, index, context_limit, slots) is Ok ==> 0 < context_limit
            <= config.max_position_embeddings && slots <= config.n_routed_experts,
{
}

/// Integers are taken exactly as they are declared, in rows of 64 bits, and once; they take no resident
/// bytes.
pub proof fn integers_are_taken_as_declared(
    account: Account,
    index: IndexView,
    name: Seq<char>,
    rows: usize,
    cols: usize,
    residency: Residency,
)
    requires
        residency matches Residency::BaseLayer(layer) ==> layer < account.layer_bytes.len(),
    ensures
        after_integers(account, index, name, rows, cols, residency) matches Ok(after) ==> {
            &&& index.tensors.contains_key(name)
            &&& index.tensors[name].shape@ == seq![rows as u64, cols as u64]
            &&& index.tensors[name].dtype == DType::I64
            &&& after.expected == account.expected.insert(name) && !account.expected.contains(name)
            &&& after.layer_bytes == account.layer_bytes && after.final_bytes == account.final_bytes
            &&& after.vector_bytes == account.vector_bytes
        },
{
    if let Residency::BaseLayer(layer) = residency {
        assert(account.layer_bytes.update(layer as int, account.layer_bytes[layer as int])
            =~= account.layer_bytes);
    }
}

} // verus!
