use urbilateria::bits::{Float32, Float64};
use urbilateria::models::glm::attention::{
    take_reservation, AttentionError, MatrixShape, MlaAttention, MlaCache, MlaGeometry, MlaWeights,
};
use urbilateria::models::glm::config::{
    default_act, default_eps, default_index_freq, default_one, default_one_f64,
    default_rope_theta, default_rope_type, default_scoring, default_topk_method, default_true,
    GlmConfig, RopeParameters, TokenIds, MLA_LATENT_NORM_EPS,
};
use urbilateria::models::glm::experts::{
    measure_expert, name_expert, Access, ExpertStore, ExpertStoreError, Projection,
};
use urbilateria::models::glm::manifest::{list_core, preflight_runtime, Need, ResidentLoader};
use urbilateria::models::glm::moe::{MoeGeometry, RuntimeMoeError, RuntimeMoeLayer};
use urbilateria::models::glm::runtime::{
    admit_checkpoint, attention_geometry, inspect_runtime_requirements, kv_cache_bytes,
    RuntimeError, RuntimeModel,
};
use urbilateria::residency::ExpertTelemetry;
use urbilateria::runtime::RuntimeLoadOptions;
use urbilateria::storage::{
    inspect_weight_matrix, DType, TensorIndex, TensorInfo, WeightFormat, WeightLayout,
};

fn float(value: f64) -> Float64 {
    Float64 {
        bits: value.to_bits(),
    }
}

fn single(value: f32) -> Float32 {
    Float32 {
        bits: value.to_bits(),
    }
}

fn bits(values: &[f32]) -> Vec<u32> {
    values.iter().map(|value| value.to_bits()).collect()
}

fn strings(list: &[&str]) -> Vec<String> {
    list.iter().map(|text| text.to_string()).collect()
}

fn tiny_config() -> GlmConfig {
    GlmConfig {
        model_type: "glm_moe_dsa".to_string(),
        architectures: Vec::new(),
        hidden_size: 8,
        num_hidden_layers: 4,
        num_attention_heads: 2,
        num_key_value_heads: 2,
        attention_bias: false,
        mlp_bias: false,
        rope_interleave: true,
        indexer_rope_interleave: true,
        tie_word_embeddings: false,
        vocab_size: 32,
        intermediate_size: 16,
        moe_intermediate_size: 4,
        first_k_dense_replace: 1,
        n_routed_experts: 8,
        n_shared_experts: 1,
        num_experts_per_tok: 2,
        n_group: 1,
        topk_group: 1,
        norm_topk_prob: true,
        routed_scaling_factor: float(2.5),
        q_lora_rank: Some(4),
        kv_lora_rank: 4,
        qk_nope_head_dim: 2,
        qk_rope_head_dim: 2,
        qk_head_dim: 4,
        v_head_dim: 3,
        index_n_heads: 2,
        index_head_dim: 2,
        index_topk: 8,
        index_topk_freq: default_index_freq(),
        index_skip_topk_offset: 0,
        indexer_types: strings(&["full", "shared", "full", "shared"]),
        mlp_layer_types: strings(&["dense", "sparse", "sparse", "sparse"]),
        rms_norm_eps: float(0.00001),
        rope_parameters: RopeParameters {
            rope_theta: float(8_000_000.0),
            rope_type: "default".to_string(),
        },
        max_position_embeddings: 64,
        num_nextn_predict_layers: 0,
        eos_token_id: TokenIds::default(),
        pad_token_id: None,
        hidden_act: "silu".to_string(),
        scoring_func: "sigmoid".to_string(),
        topk_method: "noaux_tc".to_string(),
        dtype: None,
    }
}

fn refusal(config: &GlmConfig) -> String {
    config.validate().unwrap_err().message()
}

#[test]
fn parses_and_derives_layer_kinds() {
    let config = tiny_config();
    assert!(config.validate().is_ok());
    assert_eq!(config.sparse_layer_count(), 3);
    assert_eq!(config.full_indexer_layer_count(), 2);
    assert!(config.layer_has_full_indexer(0));
    assert!(!config.layer_has_full_indexer(1));
    assert_eq!(config.q_lora_rank_value(), 4);
}

#[test]
fn rejects_inconsistent_head_dimensions() {
    let mut config = tiny_config();
    config.qk_head_dim = 5;
    assert!(refusal(&config).contains("qk_head_dim"));
}

#[test]
fn rejects_hostile_group_geometry() {
    let mut config = tiny_config();
    config.n_group = 3;
    assert!(refusal(&config).contains("divisible"));
}

#[test]
fn rejects_unknown_layer_kinds_and_unsupported_rope() {
    let mut config = tiny_config();
    config.mlp_layer_types[2] = "mystery".to_string();
    assert!(refusal(&config).contains("expected dense or sparse"));

    let mut config = tiny_config();
    config.rope_parameters.rope_type = "yarn".to_string();
    assert!(refusal(&config).contains("only default RoPE"));
}

#[test]
fn rejects_router_geometry_that_cannot_expose_topk() {
    let mut config = tiny_config();
    config.n_group = 4;
    config.topk_group = 1;
    config.num_experts_per_tok = 3;
    assert!(refusal(&config).contains("fewer than num_experts_per_tok"));

    let mut config = tiny_config();
    config.routed_scaling_factor = float(-1.0);
    assert!(refusal(&config).contains("finite and positive"));
}

#[test]
fn rejects_projection_and_rope_semantic_drift() {
    for field in ["attention_bias", "mlp_bias", "tie_word_embeddings"] {
        let mut config = tiny_config();
        match field {
            "attention_bias" => config.attention_bias = true,
            "mlp_bias" => config.mlp_bias = true,
            _ => config.tie_word_embeddings = true,
        }
        let reason = refusal(&config);
        assert!(
            reason.contains(field) || reason.contains("bias-bearing projections"),
            "unexpected error for {field}: {reason}"
        );
    }

    for field in ["rope_interleave", "indexer_rope_interleave"] {
        let mut config = tiny_config();
        if field == "rope_interleave" {
            config.rope_interleave = false;
        } else {
            config.indexer_rope_interleave = false;
        }
        let reason = refusal(&config);
        assert!(
            reason.contains(field),
            "unexpected error for {field}: {reason}"
        );
    }
}

#[test]
fn defaults_are_those_of_the_format() {
    assert_eq!(f64::from_bits(default_rope_theta().bits), 10_000.0);
    assert_eq!(f64::from_bits(default_one_f64().bits), 1.0);
    assert_eq!(f64::from_bits(default_eps().bits), 1e-5);
    assert_eq!(f32::from_bits(MLA_LATENT_NORM_EPS), 1e-6);
    assert_eq!(default_one(), 1);
    assert!(default_true());
    assert_eq!(default_act(), "silu");
    assert_eq!(default_scoring(), "sigmoid");
    assert_eq!(default_topk_method(), "noaux_tc");
    assert_eq!(default_rope_type(), "default");
    assert_eq!(RopeParameters::default().rope_type, "default");
    assert_eq!(TokenIds::One(5).as_slice(), &[5]);
    assert_eq!(TokenIds::Many(vec![5, 6]).as_slice(), &[5, 6]);
    assert!(TokenIds::default().as_slice().is_empty());
}

fn shape(rows: usize, cols: usize) -> MatrixShape {
    MatrixShape { rows, cols }
}

fn tiny_geometry() -> MlaGeometry {
    MlaGeometry {
        hidden_size: 6,
        num_heads: 2,
        q_lora_rank: 4,
        kv_lora_rank: 3,
        qk_nope_head_dim: 2,
        qk_rope_head_dim: 2,
        v_head_dim: 3,
        latent_norm_eps: single(1e-6),
        rope_theta: single(10_000.0),
    }
}

fn tiny_weights() -> MlaWeights {
    MlaWeights {
        q_a: shape(4, 6),
        q_a_norm: bits(&[0.9, 1.0, 1.1, 1.2]),
        q_b: shape(8, 4),
        kv_a: shape(5, 6),
        kv_a_norm: bits(&[0.8, 1.0, 1.2]),
        kv_b: shape(10, 3),
        output: shape(6, 6),
    }
}

fn tiny_attention() -> MlaAttention {
    MlaAttention::new(tiny_geometry(), &tiny_weights()).unwrap()
}

#[test]
fn cache_has_only_latent_and_shared_rope_key() {
    let attention = tiny_attention();
    let mut cache = attention.new_cache().unwrap();
    assert_eq!(attention.check_input(3 * 6, 3).unwrap(), 18);
    for position in 0..3 {
        attention
            .append_token(&mut cache, position, &bits(&[0.1; 5]))
            .unwrap();
    }
    assert_eq!(cache.len(), 3);
    assert_eq!(cache.stored_f32_elements(), 3 * (3 + 2));
}

#[test]
fn cache_rejects_position_gaps_before_mutating() {
    let attention = tiny_attention();
    let mut cache = attention.new_cache().unwrap();
    let error = attention
        .append_token(&mut cache, 1, &bits(&[0.0; 5]))
        .unwrap_err();
    assert!(matches!(
        error,
        AttentionError::CachePosition {
            expected: 0,
            got: 1
        }
    ));
    assert_eq!(
        error.message(),
        "MLA cache expected position 0, got 1"
    );
    assert!(cache.is_empty());
}

#[test]
fn a_cache_gives_back_its_rows_and_forgets_what_is_cut() {
    let mut cache = MlaCache::new(2, 1).unwrap();
    cache.push(&vec![1, 2], &vec![3]);
    cache.push(&vec![4, 5], &vec![6]);
    assert_eq!(cache.latent_row(0), &[1, 2]);
    assert_eq!(cache.latent_row(1), &[4, 5]);
    assert_eq!(cache.rope_row(1), &[6]);
    cache.truncate(1).unwrap();
    assert_eq!(cache.len(), 1);
    assert_eq!(cache.latent_row(0), &[1, 2]);
    assert!(cache.truncate(2).is_err());
    cache.clear();
    assert!(cache.is_empty());
    assert!(MlaCache::new(0, 1).is_err());
    assert_eq!(
        MlaCache::with_capacity(2, 1, usize::MAX)
            .unwrap_err()
            .message(),
        "cannot allocate MLA cache: latent capacity overflows usize"
    );
}

#[test]
fn memory_that_cannot_be_reserved_is_refused() {
    let tokens = usize::MAX / 2;
    let latent = MlaCache::with_capacity(1, 1, tokens).unwrap_err().message();
    assert!(latent.starts_with(&format!(
        "cannot allocate MLA cache: {tokens} latent values: "
    )));
    assert!(!latent.ends_with(": "));
    assert_eq!(
        take_reservation(7, "rotary", Err("no room".to_string()))
            .unwrap_err()
            .message(),
        "cannot allocate MLA cache: 7 rotary values: no room"
    );
    assert_eq!(take_reservation(2, "latent", Ok(vec![1, 2])).unwrap(), vec![1, 2]);
    assert!(MlaCache::new(usize::MAX, 1).is_ok());
    assert_eq!(MlaCache::capacities(3, 2, 5).unwrap(), (15, 10));
    assert_eq!(
        MlaCache::capacities(1, 2, usize::MAX)
            .unwrap_err()
            .message(),
        "cannot allocate MLA cache: rotary capacity overflows usize"
    );
    assert!(MlaCache::with_capacity(1, 1, isize::MAX as usize / 4 + 1).is_err());
}

#[test]
fn weights_that_do_not_fit_are_refused() {
    let mut weights = tiny_weights();
    weights.kv_b = shape(9, 3);
    assert_eq!(
        MlaAttention::new_mixed(tiny_geometry(), &weights)
            .unwrap_err()
            .message(),
        "invalid MLA shape: kv_b must be [10, 3], got [9, 3]"
    );
    let mut weights = tiny_weights();
    weights.q_a_norm = bits(&[1.0]);
    assert_eq!(
        MlaAttention::new_mixed(tiny_geometry(), &weights)
            .unwrap_err()
            .message(),
        "invalid MLA shape: q_a_norm must have 4 values, got 1"
    );
    let mut weights = tiny_weights();
    weights.kv_a_norm[0] = f32::NAN.to_bits();
    assert_eq!(
        MlaAttention::new_mixed(tiny_geometry(), &weights)
            .unwrap_err()
            .message(),
        "invalid MLA shape: kv_a_norm contains NaN or infinity"
    );
    let mut geometry = tiny_geometry();
    geometry.qk_rope_head_dim = 3;
    assert_eq!(
        geometry.validate().unwrap_err().message(),
        "invalid MLA geometry: rotary head dimension must be even"
    );
    let mut geometry = tiny_geometry();
    geometry.num_heads = usize::MAX;
    assert_eq!(
        geometry.validate().unwrap_err().message(),
        format!(
            "invalid MLA geometry: query projection dimensions overflow: [{}, 4]",
            usize::MAX
        )
    );
    assert_eq!(tiny_geometry().q_head_dim().unwrap(), 4);
    assert_eq!(tiny_geometry().compressed_elements_per_token().unwrap(), 5);
    assert_eq!(tiny_attention().geometry(), tiny_geometry());
    let other = MlaCache::new(3, 4).unwrap();
    assert_eq!(
        tiny_attention().check_token(&other, 0).unwrap_err().message(),
        "MLA cache geometry [3, 4] does not match [3, 2]"
    );
    assert_eq!(
        tiny_attention().check_input(5, 1).unwrap_err().message(),
        "invalid MLA shape: input needs 6 values, got 5"
    );
}

fn declare(index: &mut TensorIndex, name: &str, dtype: DType, shape: &[u64]) {
    let data_len = shape.iter().product();
    assert!(index.declare(
        name.to_string(),
        TensorInfo {
            dtype,
            shape: shape.to_vec(),
            data_len,
            shard: 0,
            data_offset: 0,
        },
    ));
}

fn declare_matrix(
    index: &mut TensorIndex,
    name: &str,
    rows: usize,
    cols: usize,
    format: WeightFormat,
    resident_bytes: u64,
) {
    declare(index, name, DType::F32, &[rows as u64, cols as u64]);
    index.set_layout(
        name.to_string(),
        WeightLayout {
            rows,
            cols,
            format,
            resident_bytes,
        },
    );
}

/// Two experts of three four-bit matrices with two rows and two columns: two bytes and two scales
/// each.
fn expert_index() -> TensorIndex {
    let mut index = TensorIndex::new(1, 0, 0);
    for expert in 0..2 {
        for projection in ["down_proj", "gate_proj", "up_proj"] {
            declare_matrix(
                &mut index,
                &format!("model.layers.0.mlp.experts.{expert}.{projection}.weight"),
                2,
                2,
                WeightFormat::Int4 { group_size: 2 },
                10,
            );
        }
    }
    index
}

/// One expert after the other: begins a request, and loads what is not resident.
fn execute(
    store: &mut ExpertStore,
    layer: usize,
    expert: usize,
    input: &[f32],
) -> Result<(), ExpertStoreError> {
    if let Access::Load(bytes) = store.begin_execute(layer, expert, input.len())? {
        store.finish_load(layer, expert, bytes);
    }
    Ok(())
}

#[test]
fn deterministic_lru_records_hits_misses_bytes_and_evictions() {
    let mut store = ExpertStore::new(expert_index(), 1, 2, 2, 2, 1, 64).unwrap();
    execute(&mut store, 0, 0, &[0.5, -0.25]).unwrap();
    execute(&mut store, 0, 0, &[0.5, -0.25]).unwrap();
    execute(&mut store, 0, 1, &[0.5, -0.25]).unwrap();
    assert_eq!(
        store.telemetry(),
        &ExpertTelemetry {
            hits: 1,
            misses: 2,
            evictions: 1,
            bytes_read: 60,
            resident_experts: 1,
            resident_bytes: 30,
        }
    );
    store.reset_telemetry();
    assert_eq!(
        store.telemetry(),
        &ExpertTelemetry {
            resident_experts: 1,
            resident_bytes: 30,
            ..ExpertTelemetry::default()
        }
    );
}

#[test]
fn zero_slots_executes_without_retaining_an_expert() {
    let mut store = ExpertStore::new(expert_index(), 1, 2, 2, 2, 0, 64).unwrap();
    execute(&mut store, 0, 0, &[1.0, 0.0]).unwrap();
    execute(&mut store, 0, 0, &[1.0, 0.0]).unwrap();
    assert_eq!(store.telemetry().hits, 0);
    assert_eq!(store.telemetry().misses, 2);
    assert_eq!(store.telemetry().resident_experts, 0);
    assert_eq!(store.telemetry().resident_bytes, 0);
}

#[test]
fn the_expert_used_longest_ago_leaves_first() {
    let mut index = TensorIndex::new(1, 0, 0);
    for expert in 0..4 {
        for projection in ["gate_proj", "up_proj", "down_proj"] {
            declare_matrix(
                &mut index,
                &format!("model.layers.0.mlp.experts.{expert}.{projection}.weight"),
                2,
                2,
                WeightFormat::F32,
                16,
            );
        }
    }
    let mut store = ExpertStore::new(index, 1, 4, 2, 2, 2, 64).unwrap();
    execute(&mut store, 0, 0, &[0.0; 2]).unwrap();
    execute(&mut store, 0, 1, &[0.0; 2]).unwrap();
    execute(&mut store, 0, 0, &[0.0; 2]).unwrap();
    execute(&mut store, 0, 2, &[0.0; 2]).unwrap();
    assert_eq!(store.begin_execute(0, 0, 2).unwrap(), Access::Hit(0));
    assert_eq!(store.begin_execute(0, 1, 2).unwrap(), Access::Load(48));
}

#[test]
fn requests_outside_the_store_are_refused() {
    let mut store = ExpertStore::new(expert_index(), 1, 2, 2, 2, 1, 29).unwrap();
    let cases = [
        (store.begin_execute(1, 0, 2), "expert layer 1 is outside 0..1"),
        (store.begin_execute(0, 2, 2), "expert ID 2 is outside 0..2"),
        (
            store.begin_execute(0, 0, 3),
            "expert input needs 2 values, got 3",
        ),
        (
            store.begin_execute(0, 0, 2),
            "layer 0 expert 0 needs 30 bytes, per-expert limit is 29",
        ),
    ];
    for (result, message) in cases {
        assert_eq!(result.unwrap_err().message().unwrap(), message);
    }
    // The request that failed while loading has been counted.
    assert_eq!(store.telemetry().misses, 1);
    assert_eq!(
        ExpertStore::new(expert_index(), 0, 2, 2, 2, 1, 64)
            .err()
            .unwrap()
            .message()
            .unwrap(),
        "invalid expert store geometry: layers, experts, dimensions, and byte limit must be non-zero"
    );
    assert_eq!(measure_expert(&expert_index(), 0, 1, 2, 2, 64).unwrap(), 30);
    assert!(measure_expert(&expert_index(), 1, 1, 2, 2, 64).is_err());
    assert_eq!(
        name_expert(3, 7, Projection::Down),
        "model.layers.3.mlp.experts.7.down_proj.weight"
    );
}

#[test]
fn sparse_layers_check_their_parts() {
    let geometry = MoeGeometry {
        top_k: 1,
        n_group: 1,
        topk_group: 1,
        normalize: true,
        routed_scaling_factor: single(1.0),
    };
    let layer = RuntimeMoeLayer::new(5, 2, 2, bits(&[0.0, 0.0]), 2, geometry, Ok(())).unwrap();
    assert_eq!(layer.layer_index(), 5);
    assert_eq!(layer.hidden_size(), 2);
    assert_eq!(layer.expert_count(), 2);
    let store = ExpertStore::new(expert_index(), 1, 2, 2, 2, 1, 64).unwrap();
    assert!(layer.check_store(&store).is_ok());
    let wide = RuntimeMoeLayer::new(5, 3, 2, bits(&[0.0; 3]), 2, geometry, Ok(())).unwrap();
    assert_eq!(
        wide.check_store(&store).unwrap_err().message().unwrap(),
        "invalid streamed MoE shape: expert store is hidden=2 experts=2, layer needs hidden=2 experts=3"
    );
    let refusals = [
        (
            RuntimeMoeLayer::new(0, 0, 2, Vec::new(), 2, geometry, Ok(())),
            "invalid streamed MoE geometry: router dimensions must be non-zero",
        ),
        (
            RuntimeMoeLayer::new(0, 2, 2, bits(&[0.0]), 2, geometry, Ok(())),
            "invalid streamed MoE shape: router has 2 experts but correction bias has 1 values",
        ),
        (
            RuntimeMoeLayer::new(0, 1, 2, bits(&[f32::NAN]), 2, geometry, Ok(())),
            "invalid streamed MoE geometry: correction bias contains NaN or infinity",
        ),
        (
            RuntimeMoeLayer::new(0, 1, 2, bits(&[0.0]), 3, geometry, Ok(())),
            "invalid streamed MoE shape: router hidden size 2 differs from shared expert hidden size 3",
        ),
        (
            RuntimeMoeLayer::new(0, 1, 2, bits(&[0.0]), 2, geometry, Err("no experts".to_owned())),
            "no experts",
        ),
        (
            RuntimeMoeLayer::new(0, 1, 2, bits(&[0.0]), 3, geometry, Err("no experts".to_owned())),
            "invalid streamed MoE shape: router hidden size 2 differs from shared expert hidden size 3",
        ),
    ];
    for (result, message) in refusals {
        assert_eq!(result.unwrap_err().message().unwrap(), message);
    }
}

fn checkpoint_config(sparse: bool) -> GlmConfig {
    let mut config = tiny_config();
    config.hidden_size = 4;
    config.num_hidden_layers = 1;
    config.num_attention_heads = 1;
    config.num_key_value_heads = 1;
    config.vocab_size = 8;
    config.intermediate_size = 4;
    config.moe_intermediate_size = 2;
    config.first_k_dense_replace = if sparse { 0 } else { 1 };
    config.n_routed_experts = 2;
    config.num_experts_per_tok = 1;
    config.routed_scaling_factor = float(1.0);
    config.q_lora_rank = Some(2);
    config.kv_lora_rank = 2;
    config.v_head_dim = 2;
    config.index_n_heads = 0;
    config.index_head_dim = 0;
    config.index_topk = 0;
    config.indexer_types = Vec::new();
    config.mlp_layer_types = strings(&[if sparse { "sparse" } else { "dense" }]);
    config.rope_parameters.rope_theta = float(10_000.0);
    config.max_position_embeddings = 8;
    config.eos_token_id = TokenIds::Many(vec![6]);
    config.pad_token_id = Some(6);
    config
}

/// How a weight of the checkpoint is stored: as it is, or with eight and with four bits.
fn weight(index: &mut TensorIndex, name: &str, rows: usize, cols: usize, mixed: bool) {
    let plain = name.ends_with("mlp.gate.weight");
    let (format, bytes) = if !mixed || plain {
        (WeightFormat::F32, 4 * rows * cols)
    } else if name == "model.embed_tokens.weight" || name == "lm_head.weight" {
        (WeightFormat::Int8PerRow, rows * cols + 4 * rows)
    } else {
        (
            WeightFormat::Int4 { group_size: cols },
            rows * cols.div_ceil(2) + 4 * rows,
        )
    };
    declare_matrix(index, name, rows, cols, format, bytes as u64);
}

fn checkpoint(sparse: bool, mixed: bool) -> (GlmConfig, TensorIndex) {
    let config = checkpoint_config(sparse);
    config.validate().unwrap();
    let mut index = TensorIndex::new(1, 0, 0);
    for need in list_core(&config) {
        match need {
            Need::Matrix { name, rows, cols } => weight(&mut index, &name, rows, cols, mixed),
            Need::Vector { name, length } => {
                declare(&mut index, &name, DType::F32, &[length as u64])
            }
            Need::Experts {
                layer,
                count,
                hidden,
                intermediate,
            } => {
                for expert in 0..count {
                    for projection in [Projection::Gate, Projection::Up, Projection::Down] {
                        let name = name_expert(layer, expert, projection);
                        let (rows, cols) = if projection == Projection::Down {
                            (hidden, intermediate)
                        } else {
                            (intermediate, hidden)
                        };
                        weight(&mut index, &name, rows, cols, mixed);
                    }
                }
            }
        }
    }
    (config, index)
}

fn options(context_limit: usize) -> RuntimeLoadOptions {
    RuntimeLoadOptions {
        resident_budget_bytes: 1 << 20,
        expert_cache_budget_bytes: 1 << 20,
        kv_cache_budget_bytes: 1 << 20,
        expert_slots_per_layer: 1,
        maximum_expert_bytes: 1 << 20,
        context_limit,
    }
}

/// Reads the resident core under its budget, and loads the model.
fn load(
    (config, index): (GlmConfig, TensorIndex),
    context_limit: usize,
    instance_id: u64,
) -> RuntimeModel {
    let options = options(context_limit);
    let needs = admit_checkpoint(&config, &index, &options).unwrap();
    let mut loader = ResidentLoader::new(options.resident_budget_bytes);
    for need in list_core(&config) {
        match need {
            Need::Matrix { name, rows, cols } => {
                let layout = inspect_weight_matrix(&index, &name, rows, cols).unwrap();
                loader.charge(&name, layout.resident_bytes).unwrap();
            }
            Need::Vector { name, length } => {
                let bytes = loader.check_vector(&name, length).unwrap();
                loader.charge(&name, bytes).unwrap();
            }
            Need::Experts { .. } => {}
        }
    }
    assert_eq!(loader.used, needs.resident_bytes);
    assert_eq!(
        loader.remaining(),
        options.resident_budget_bytes - needs.resident_bytes
    );
    RuntimeModel::load(config, index, &options, instance_id, loader.used).unwrap()
}

#[test]
fn complete_tiny_checkpoint_loads_and_generates() {
    let (config, index) = checkpoint(false, false);
    let requirements = RuntimeModel::inspect_requirements(&config, &index, 4, 1).unwrap();
    assert!(requirements.resident_bytes > 0);
    assert_eq!(requirements.kv_cache_bytes, 64);
    assert_eq!(requirements.maximum_expert_bytes, 0);
    let model = load((config, index), 4, 1);
    assert!(model.resident_bytes() > 0);
    assert_eq!(model.context_limit(), 4);
    assert_eq!(model.config().vocab_size, 8);

    let mut state = model.new_state().unwrap();
    step(&model, &mut state, 1).unwrap();
    assert_eq!(state.position(), 1);
    assert_eq!(state.cached_f32_elements(), 4);
}

#[test]
fn complete_tiny_mixed_checkpoint_executes_int8_and_int4() {
    let (config, index) = checkpoint(false, true);
    assert_eq!(
        inspect_weight_matrix(&index, "model.embed_tokens.weight", 8, 4)
            .unwrap()
            .format,
        WeightFormat::Int8PerRow
    );
    assert_eq!(
        inspect_weight_matrix(&index, "model.layers.0.self_attn.q_a_proj.weight", 2, 4)
            .unwrap()
            .format,
        WeightFormat::Int4 { group_size: 4 }
    );
    let model = load((config, index), 3, 1);
    let mut state = model.new_state().unwrap();
    step(&model, &mut state, 1).unwrap();
    assert_eq!(state.position(), 1);
}

/// Takes one token through every layer; a sparse layer executes expert 0.
fn step(
    model: &RuntimeModel,
    state: &mut urbilateria::models::glm::runtime::RuntimeState,
    token: u32,
) -> Result<(), RuntimeError> {
    let start = model.begin_token(token, state)?;
    let geometry = attention_geometry(model.config(), single(10_000.0));
    let attention = MlaAttention { geometry };
    let width = geometry.compressed_elements_per_token().unwrap();
    for layer in 0..model.config().num_hidden_layers {
        let row = bits(&vec![token as f32; width]);
        attention
            .append_token(&mut state.layer_caches[layer], start, &row)
            .map_err(RuntimeError::Attention)?;
        if model.config().layer_is_sparse(layer) {
            let access = state
                .experts
                .begin_execute(layer, 0, model.config().hidden_size)
                .map_err(|error| RuntimeError::Moe(RuntimeMoeError::Expert(error)))?;
            if let Access::Load(bytes) = access {
                state.experts.finish_load(layer, 0, bytes);
            }
        }
    }
    model.finish_token(state);
    Ok(())
}

#[test]
fn complete_sparse_mixed_checkpoint_streams_and_reuses_expert() {
    let (config, index) = checkpoint(true, true);
    let zero_slot_requirements =
        RuntimeModel::inspect_requirements(&config, &index, 3, 0).unwrap();
    assert_eq!(zero_slot_requirements.transient_expert_bytes, 44);
    assert_eq!(zero_slot_requirements.expert_cache_bytes, 44);
    let requirements = RuntimeModel::inspect_requirements(&config, &index, 3, 1).unwrap();
    assert_eq!(requirements.maximum_expert_bytes, 44);
    assert_eq!(requirements.transient_expert_bytes, 44);
    assert_eq!(requirements.expert_cache_bytes, 44);
    let model = load((config, index), 3, 1);
    let mut state = model.new_state().unwrap();

    step(&model, &mut state, 1).unwrap();
    assert_eq!(state.expert_telemetry().misses, 1);
    assert_eq!(state.expert_telemetry().hits, 0);
    step(&model, &mut state, 2).unwrap();
    assert_eq!(state.expert_telemetry().misses, 1);
    assert_eq!(state.expert_telemetry().hits, 1);
    assert_eq!(state.expert_telemetry().resident_experts, 1);
}

#[test]
fn lazy_expert_failure_rolls_back_every_layer_cache() {
    let (config, index) = checkpoint(true, false);
    let requirements = RuntimeModel::inspect_requirements(&config, &index, 4, 1).unwrap();
    assert_eq!(requirements.maximum_expert_bytes, 96);
    assert_eq!(requirements.expert_cache_bytes, 96);
    let model = load((config, index), 4, 1);
    let mut state = model.new_state().unwrap();
    let start = model.begin_token(1, &state).unwrap();
    let geometry = attention_geometry(model.config(), single(10_000.0));
    let attention = MlaAttention { geometry };
    attention
        .append_token(&mut state.layer_caches[0], start, &bits(&[1.0; 4]))
        .unwrap();
    assert_eq!(state.cached_f32_elements(), 4);
    // The expert's payload turns out not to be finite.
    assert_eq!(
        state.experts.begin_execute(0, 0, 4).unwrap(),
        Access::Load(96)
    );
    let error = model.fail_token(
        &mut state,
        start,
        RuntimeError::Invalid("expert payload".to_string()),
        "expert payload",
    );
    assert_eq!(
        error.message().unwrap(),
        "invalid runtime model: expert payload"
    );
    assert_eq!(state.position(), 0);
    assert_eq!(state.cached_f32_elements(), 0);
}

#[test]
fn a_rollback_that_fails_says_so() {
    let model = load(checkpoint(false, false), 4, 1);
    let mut state = model.new_state().unwrap();
    let error = model.fail_token(
        &mut state,
        2,
        RuntimeError::Invalid("first".to_string()),
        "first",
    );
    assert_eq!(
        error.message().unwrap(),
        "invalid runtime model: state rollback failed after first: layer 0: MLA cache expected position 0, got 2"
    );
}

#[test]
fn context_limit_is_enforced_before_state_mutation() {
    let model = load(checkpoint(false, false), 1, 1);
    let mut state = model.new_state().unwrap();
    step(&model, &mut state, 1).unwrap();
    assert!(matches!(
        step(&model, &mut state, 2),
        Err(RuntimeError::ContextExhausted {
            position: 1,
            limit: 1
        })
    ));
    assert_eq!(state.position(), 1);
    assert_eq!(state.cached_f32_elements(), 4);
}

#[test]
fn invalid_token_is_rejected_before_state_mutation() {
    let model = load(checkpoint(false, false), 2, 1);
    let mut state = model.new_state().unwrap();
    step(&model, &mut state, 1).unwrap();
    assert!(matches!(
        step(&model, &mut state, 99),
        Err(RuntimeError::TokenOutOfRange {
            token: 99,
            vocabulary: 8
        })
    ));
    assert_eq!(state.position(), 1);
    assert_eq!(state.cached_f32_elements(), 4);
}

#[test]
fn state_cannot_be_mixed_between_runtime_instances() {
    let first = load(checkpoint(false, false), 2, 1);
    let second = load(checkpoint(false, false), 2, 2);
    let mut state = first.new_state().unwrap();
    assert!(matches!(
        step(&second, &mut state, 1),
        Err(RuntimeError::Invalid(reason))
            if reason.contains("different model instance")
    ));
    assert_eq!(state.position(), 0);
    assert_eq!(state.cached_f32_elements(), 0);
}

#[test]
fn session_checkpoint_replays_a_different_suffix_with_identical_logits() {
    let model = load(checkpoint(false, false), 8, 1);
    let mut state = model.new_state().unwrap();
    step(&model, &mut state, 1).unwrap();
    step(&model, &mut state, 2).unwrap();
    let saved = state.checkpoint();
    for token in [3, 4, 1, 2] {
        step(&model, &mut state, token).unwrap();
    }
    state.restore(saved).unwrap();
    step(&model, &mut state, 0).unwrap();
    let mut fresh = model.new_state().unwrap();
    for token in [1, 2, 0] {
        step(&model, &mut fresh, token).unwrap();
    }
    assert_eq!(state.position(), fresh.position());
    assert_eq!(state.cached_f32_elements(), fresh.cached_f32_elements());
    for position in 0..3 {
        assert_eq!(
            state.layer_caches[0].latent_row(position),
            fresh.layer_caches[0].latent_row(position)
        );
        assert_eq!(
            state.layer_caches[0].rope_row(position),
            fresh.layer_caches[0].rope_row(position)
        );
    }
    assert!(state.restore(9).is_err());
    assert_eq!(state.position(), 3);
}

#[test]
fn checkpoints_that_cannot_run_are_refused() {
    let (config, index) = checkpoint(true, false);
    let refusal = |context: usize, slots: usize| {
        RuntimeModel::inspect_requirements(&config, &index, context, slots)
            .unwrap_err()
            .message()
            .unwrap()
    };
    assert_eq!(
        refusal(0, 1),
        "invalid runtime model: context limit must be non-zero"
    );
    assert_eq!(
        refusal(4, 3),
        "invalid runtime model: expert_slots_per_layer=3 exceeds n_routed_experts=2"
    );
    assert_eq!(
        refusal(9, 1),
        "invalid runtime model: requested context 9 exceeds exact dense-MLA fallback limit 8"
    );
    let (config, mut index) = checkpoint(false, false);
    declare(
        &mut index,
        "model.layers.0.self_attn.indexer.wq_b.weight",
        DType::F32,
        &[1],
    );
    assert!(
        RuntimeModel::inspect_requirements(&config, &index, 4, 1)
            .unwrap_err()
            .message()
            .unwrap()
            .contains("DSA indexer execution is not implemented")
    );
    let (config, mut index) = checkpoint(false, false);
    declare(&mut index, "model.norm.weight.qs", DType::F32, &[1]);
    assert_eq!(
        RuntimeModel::inspect_requirements(&config, &index, 4, 1)
            .unwrap_err()
            .message()
            .unwrap(),
        "invalid runtime model: resident vector \"model.norm.weight\" unexpectedly has a .qs sidecar"
    );
    let (config, _) = checkpoint(false, false);
    assert!(preflight_runtime(&config, &TensorIndex::new(0, 0, 0)).is_err());
    assert_eq!(kv_cache_bytes(&config, 4).unwrap(), 64);
    assert_eq!(
        kv_cache_bytes(&config, usize::MAX)
            .unwrap_err()
            .message()
            .unwrap(),
        "invalid runtime model: compressed KV size overflows usize"
    );
}

#[test]
fn loading_stays_within_its_budgets() {
    let (config, index) = checkpoint(true, false);
    let refusal = |options: RuntimeLoadOptions| {
        admit_checkpoint(&config, &index, &options)
            .unwrap_err()
            .message()
            .unwrap()
    };
    let mut tight = options(4);
    tight.resident_budget_bytes = 1;
    assert!(refusal(tight).starts_with("resident tensor \"complete resident core\" needs "));
    let mut tight = options(4);
    tight.maximum_expert_bytes = 95;
    assert_eq!(
        refusal(tight),
        "invalid runtime model: largest routed expert needs 96 bytes, per-expert limit is 95"
    );
    let mut tight = options(4);
    tight.expert_cache_budget_bytes = 95;
    assert_eq!(
        refusal(tight),
        "expert working set needs at most 96 bytes, budget is 95 bytes"
    );
    let mut tight = options(4);
    tight.kv_cache_budget_bytes = 63;
    assert_eq!(
        refusal(tight),
        "compressed KV cache needs 64 bytes, budget is 63 bytes"
    );
    let mut none = options(4);
    none.kv_cache_budget_bytes = 0;
    assert_eq!(
        refusal(none),
        "invalid runtime model: resident, per-expert, and KV budgets plus context limit must be non-zero"
    );
    let (config, index) = checkpoint(false, false);
    let error = RuntimeModel::load(config, index, &options(4), 1, 3).err().unwrap();
    assert!(error
        .message()
        .unwrap()
        .ends_with(" disagree with loaded bytes 3"));
    let mut loader = ResidentLoader::new(10);
    assert!(loader.check_vector("v", 3).is_err());
    assert_eq!(loader.check_vector("v", 2).unwrap(), 8);
    loader.charge("v", 8).unwrap();
    assert_eq!(
        loader.charge("w", 3).unwrap_err().message().unwrap(),
        "resident tensor \"w\" needs 3 bytes, only 2 budget bytes remain"
    );
}

#[test]
fn reserved_caches_start_empty() {
    let attention = tiny_attention();
    let cache = attention.new_cache_with_capacity(8).unwrap();
    assert!(cache.is_empty());
    assert_eq!(cache.stored_f32_elements(), 0);
    assert!(attention.new_cache_with_capacity(usize::MAX).is_err());
}

#[test]
fn a_shared_index_serves_its_store() {
    let index = std::sync::Arc::new(expert_index());
    let mut store = ExpertStore::new_shared(index.clone(), 1, 2, 2, 2, 1, 64).unwrap();
    execute(&mut store, 0, 1, &[0.5, -0.25]).unwrap();
    assert_eq!(store.telemetry().misses, 1);
    assert!(ExpertStore::new_shared(index, 0, 2, 2, 2, 1, 64).is_err());
}

#[test]
fn requirements_name_the_first_thing_that_is_wrong() {
    let (config, index) = checkpoint(false, false);
    assert_eq!(
        inspect_runtime_requirements(&config, &index, 4, 1)
            .unwrap()
            .kv_cache_bytes,
        64
    );
    assert!(inspect_runtime_requirements(&config, &index, 0, 1).is_err());
    let mut broken = config;
    broken.hidden_size = 0;
    assert!(matches!(
        inspect_runtime_requirements(&broken, &index, 4, 1),
        Err(RuntimeError::Config(_))
    ));
}

#[test]
fn a_token_moves_the_state_on_or_leaves_it() {
    let model = load(checkpoint(true, false), 2, 1);
    let attention = MlaAttention {
        geometry: attention_geometry(model.config(), single(10_000.0)),
    };
    let layers = model.config().num_hidden_layers;
    let rows = |value: f32| vec![bits(&[value; 4]); layers];
    let mut state = model.new_state().unwrap();
    model
        .forward_token(1, &mut state, &attention, Ok(rows(1.0)))
        .unwrap();
    assert_eq!(state.position(), 1);
    assert_eq!(state.cached_f32_elements(), 4 * layers);
    assert_eq!(state.layer_caches[0].len(), 1);

    let failed = RuntimeError::Moe(RuntimeMoeError::Route("no expert".to_string()));
    let error = model
        .forward_token(1, &mut state, &attention, Err(failed))
        .unwrap_err();
    assert_eq!(error.message().unwrap(), "no expert");
    assert!(matches!(
        model.forward_token(8, &mut state, &attention, Ok(rows(2.0))),
        Err(RuntimeError::TokenOutOfRange {
            token: 8,
            vocabulary: 8
        })
    ));
    assert_eq!(state.position(), 1);
    assert_eq!(state.cached_f32_elements(), 4 * layers);

    model
        .forward_token(2, &mut state, &attention, Ok(rows(2.0)))
        .unwrap();
    assert!(matches!(
        model.forward_token(8, &mut state, &attention, Ok(rows(3.0))),
        Err(RuntimeError::TokenOutOfRange { .. })
    ));
    assert!(matches!(
        model.forward_token(3, &mut state, &attention, Ok(rows(3.0))),
        Err(RuntimeError::ContextExhausted {
            position: 2,
            limit: 2
        })
    ));
    assert_eq!(state.position(), 2);
    assert_eq!(state.cached_f32_elements(), 8 * layers);
}

#[test]
fn a_cache_of_another_shape_undoes_the_token() {
    let model = load(checkpoint(false, false), 2, 1);
    let mut geometry = attention_geometry(model.config(), single(10_000.0));
    let mut state = model.new_state().unwrap();
    geometry.kv_lora_rank += 1;
    let width = geometry.compressed_elements_per_token().unwrap();
    let rows = vec![bits(&vec![1.0; width]); model.config().num_hidden_layers];
    let attention = MlaAttention { geometry };
    assert!(matches!(
        model.forward_token(1, &mut state, &attention, Ok(rows)),
        Err(RuntimeError::Attention(AttentionError::CacheGeometry { .. }))
    ));
    assert_eq!(state.position(), 0);
    assert_eq!(state.cached_f32_elements(), 0);
}
