use urbilateria::bits::Float64;
use urbilateria::models::deepseek_v41::config::{
    AttentionMode, DeepseekV41Config, DeepseekV41QuantizationConfig, DeepseekV41TextConfig,
    DeepseekV41VisionConfig, RopeScaling,
};
use urbilateria::models::deepseek_v41::attention::{
    find_source, rope_parameters, window_positions, SharedAttentionStep, SourceState,
};
use urbilateria::models::deepseek_v41::blueprint::count_parts;
use urbilateria::models::deepseek_v41::engram::{can_plan_buckets, NgramHashState};
use urbilateria::models::deepseek_v41::loading::{
    check_values, list_layer_reads, name_expert, plan_expert, weight_storage_bytes,
};
use urbilateria::models::deepseek_v41::runtime::{
    check_needs, join_failures, DeepseekV41RuntimeError, DeepseekV41RuntimeModel,
};
use urbilateria::models::deepseek_v41::schema::{
    global_kv_cache_bytes, inspect_requirements, official_tensor_specs,
    sliding_window_cache_bytes, validate_specs,
};
use urbilateria::models::deepseek_v41::schema::{DeepseekV41Requirements, TensorSpec};
use urbilateria::runtime::RuntimeLoadOptions;
use urbilateria::storage::{DType, TensorIndex, TensorInfo, WeightFormat, WeightLayout};

fn float(value: f64) -> Float64 {
    Float64 {
        bits: value.to_bits(),
    }
}

fn release_config() -> DeepseekV41Config {
    let mut compress_ratios = vec![0, 0];
    compress_ratios.extend([2; 18]);
    compress_ratios.extend([1; 20]);
    compress_ratios.extend([0; 3]);
    DeepseekV41Config {
        architectures: vec!["DeepseekV41ForCausalLM".to_string()],
        model_type: "deepseek_v41".to_string(),
        dtype: "bfloat16".to_string(),
        bos_token_id: 0,
        eos_token_id: 1,
        pad_token_id: 2,
        image_token_id: 128_815,
        quantization_config: DeepseekV41QuantizationConfig {
            quant_method: "fp8".to_string(),
            activation_scheme: "dynamic".to_string(),
            weight_block_size: [32, 32],
            scale_fmt: "ue8m0".to_string(),
            expert_dtype: "fp4".to_string(),
        },
        text_config: DeepseekV41TextConfig {
            model_type: "deepseek_v41_text".to_string(),
            vocab_size: 129_280,
            hidden_size: 4096,
            moe_intermediate_size: 2048,
            num_hidden_layers: 40,
            num_attention_heads: 64,
            num_key_value_heads: 1,
            head_dim: 512,
            qk_rope_head_dim: 64,
            q_lora_rank: 1024,
            o_lora_rank: 1024,
            o_groups: 8,
            hidden_act: "silu".to_string(),
            swiglu_limit: float(10.0),
            rms_norm_eps: float(1e-6),
            attention_bias: false,
            attention_dropout: float(0.0),
            use_cache: true,
            tie_word_embeddings: false,
            max_position_embeddings: 1_048_576,
            rope_theta: float(10_000.0),
            rope_scaling: RopeScaling {
                rope_type: "yarn".to_string(),
                factor: 16,
                beta_fast: 32,
                beta_slow: 1,
                original_max_position_embeddings: 65_536,
            },
            n_routed_experts: 384,
            n_shared_experts: 1,
            num_experts_per_tok: 6,
            scoring_func: "sqrtsoftplus".to_string(),
            topk_method: "noaux_tc".to_string(),
            norm_topk_prob: true,
            routed_scaling_factor: float(1.5),
            sliding_window: 128,
            compress_ratios,
            compress_rope_theta: float(160_000.0),
            kv_source_layer_ids: vec![2, 8, 14, 20],
            index_source_layer_ids: vec![2, 8, 14, 20, 24, 28, 32, 36],
            index_n_heads: 64,
            index_head_dim: 128,
            index_topk: 512,
            candidate_source_layer_id: 20,
            candidate_topk_blocks: 64,
            candidate_block_size: 128,
            hc_mult: 4,
            hc_sinkhorn_iters: 20,
            hc_eps: float(1e-6),
            engram_layer_ids: vec![1, 14],
            engram_num_embeddings: vec![384_006_168, 384_016_682],
            engram_max_ngram_size: 4,
            engram_vocab_size: 16_000_000,
            engram_n_heads: 8,
            engram_head_dim: 256,
            engram_pad_token_id: 2,
            engram_compressed_vocab_size: 99_092,
            num_nextn_predict_layers: 3,
            dspark_block_size: 5,
            dspark_noise_token_id: 3,
            dspark_target_layer_ids: vec![37, 38, 39],
            dspark_markov_rank: 256,
            dspark_n_routed_experts: 128,
            dspark_num_experts_per_tok: 6,
        },
        vision_config: DeepseekV41VisionConfig {
            model_type: "deepseek_v41_vision".to_string(),
            num_hidden_layers: 32,
            hidden_size: 1024,
            num_attention_heads: 16,
            intermediate_size: 4096,
            patch_size: 14,
            rope_theta: float(10_000.0),
            downsample_ratio: 3,
            max_image_tokens: 16_384,
            min_pixels: 3136,
            max_wh_ratio: None,
        },
    }
}

#[test]
fn parses_release_config_and_exposes_ced_ownership() {
    let config = release_config();
    assert!(config.validate().is_ok());
    assert_eq!(config.encoder_layer_count(), 20);
    assert_eq!(config.decoder_layer_count(), 20);
    assert_eq!(
        config.attention_mode(0),
        Some(AttentionMode::SlidingWindowOnly)
    );
    assert_eq!(config.attention_mode(2), Some(AttentionMode::Full));
    assert_eq!(config.attention_mode(21), Some(AttentionMode::Reuse));
    assert_eq!(config.attention_mode(24), Some(AttentionMode::Reindex));
    assert_eq!(config.kv_source_for(36), Some(20));
    assert_eq!(config.index_source_for(35), Some(32));
    assert_eq!(config.kv_source_for(1), None);
    assert_eq!(config.attention_mode(40), None);
}

#[test]
fn rejects_old_v4_weight_blocks_and_ced_drift() {
    let mut config = release_config();
    config.quantization_config.weight_block_size = [128, 128];
    assert!(config.validate().is_err());

    let mut config = release_config();
    config.text_config.kv_source_layer_ids = vec![2, 8, 14, 21];
    assert_eq!(
        config.validate().unwrap_err().message(),
        "DeepSeek-V4.1: CSA2 KV/index/candidate source layout differs from the release"
    );
}

#[test]
fn each_part_of_a_configuration_is_checked() {
    let mut config = release_config();
    config.dtype = "float16".to_string();
    assert_eq!(
        config.validate().unwrap_err().message(),
        "DeepSeek-V4.1: dtype=\"float16\"; expected bfloat16"
    );
    let mut config = release_config();
    config.text_config.hidden_size = 0;
    assert_eq!(
        config.validate().unwrap_err().message(),
        "DeepSeek-V4.1: text_config.hidden_size=0 is outside 1..=1048576"
    );
    let mut config = release_config();
    config.image_token_id = 129_280;
    assert!(config.validate().is_err());
    let mut config = release_config();
    config.text_config.engram_pad_token_id = 3;
    assert!(config.validate_tokens().is_err());
    let mut config = release_config();
    config.text_config.compress_ratios[5] = 4;
    assert!(config.text_config.validate_csa2().is_err());
    let mut config = release_config();
    config.text_config.engram_max_ngram_size = 3;
    assert!(config.text_config.validate_engram().is_err());
    let mut config = release_config();
    config.text_config.dspark_block_size = 4;
    assert!(config.text_config.validate_dspark().is_err());
    let mut config = release_config();
    config.vision_config.num_attention_heads = 7;
    assert!(config.vision_config.validate().is_err());
}

#[test]
fn release_manifest_has_exact_tensor_count_and_cache_geometry() {
    let config = release_config();
    let specs = official_tensor_specs(&config).unwrap();
    assert_eq!(specs.len(), 96_085);
    assert_eq!(
        global_kv_cache_bytes(&config, 1_048_576).unwrap(),
        933_232_640
    );
    assert_eq!(sliding_window_cache_bytes(&config).unwrap(), 2_703_360);
}

/// The release with few experts and few vision blocks, whose checkpoint is quick to list.
fn small_config() -> DeepseekV41Config {
    let mut config = release_config();
    config.text_config.n_routed_experts = 2;
    config.text_config.num_experts_per_tok = 2;
    config.text_config.dspark_n_routed_experts = 2;
    config.text_config.dspark_num_experts_per_tok = 2;
    config.vision_config.num_hidden_layers = 1;
    config
}

fn width(dtype: DType) -> u64 {
    match dtype {
        DType::F32 => 4,
        DType::F16 | DType::Bf16 => 2,
        DType::I64 => 8,
        _ => 1,
    }
}

fn index_of(specs: &[TensorSpec]) -> TensorIndex {
    let mut index = TensorIndex::new(1, 1 << 40, 1 << 39);
    let mut offset = 0;
    for spec in specs {
        let data_len = spec.shape.iter().product::<u64>() * width(spec.dtype);
        assert!(index.declare(
            spec.name.clone(),
            TensorInfo {
                dtype: spec.dtype,
                shape: spec.shape.clone(),
                data_len,
                shard: 0,
                data_offset: offset,
            },
        ));
        offset += data_len;
        if spec.shape.len() == 2 && spec.name.ends_with(".weight") {
            let rows = spec.shape[0] as usize;
            let cols = spec.shape[1] as usize;
            let (cols, format) = match spec.dtype {
                DType::Bf16 => (cols, WeightFormat::Bf16),
                DType::F8E4M3 => (
                    cols,
                    WeightFormat::MxFp8E4M3 {
                        block_rows: 32,
                        block_cols: 32,
                    },
                ),
                _ => (2 * cols, WeightFormat::MxFp4E2M1 { group_size: 32 }),
            };
            index.set_layout(
                spec.name.clone(),
                WeightLayout {
                    rows,
                    cols,
                    format,
                    resident_bytes: data_len,
                },
            );
        }
    }
    index
}

#[test]
fn a_release_checkpoint_is_accounted_for() {
    let config = small_config();
    let specs = official_tensor_specs(&config).unwrap();
    let index = index_of(&specs);
    assert!(validate_specs(&index, &specs).is_ok());
    let needs = inspect_requirements(&config, &index, 1024, 1).unwrap();
    assert_eq!(needs.required_tensor_count, specs.len());
    assert_eq!(needs.checkpoint_tensor_count, specs.len());
    assert_eq!(needs.backbone_layer_count, 40);
    assert_eq!(
        needs.backbone_logical_parameters
            + needs.engram_logical_parameters
            + needs.vision_logical_parameters
            + needs.dspark_logical_parameters,
        specs.iter().map(|spec| spec.logical_elements).sum::<u64>()
    );
    // Cutting the budget by one layer caches one layer less.
    let budget = needs.streamed_layer_bytes + 10 * needs.backbone_layer_bytes;
    let cached = needs.cached_backbone_layers_for_resident_budget(budget);
    assert!(cached <= 40);
    assert_eq!(needs.cached_backbone_layers_for_resident_budget(0), 0);
}

#[test]
fn a_checkpoint_with_another_tensor_is_refused() {
    let config = small_config();
    let specs = official_tensor_specs(&config).unwrap();
    let mut index = index_of(&specs);
    assert!(index.declare(
        "stray".to_string(),
        TensorInfo {
            dtype: DType::F32,
            shape: vec![1],
            data_len: 4,
            shard: 0,
            data_offset: 0,
        },
    ));
    assert!(validate_specs(&index, &specs).is_err());
    let missing = index_of(&specs[1..]);
    assert!(validate_specs(&missing, &specs).is_err());
}

fn options(context_limit: usize) -> RuntimeLoadOptions {
    RuntimeLoadOptions {
        resident_budget_bytes: 1 << 40,
        expert_cache_budget_bytes: 1 << 40,
        kv_cache_budget_bytes: 1 << 40,
        expert_slots_per_layer: 1,
        maximum_expert_bytes: 1 << 40,
        context_limit,
    }
}

fn needs_of(config: &DeepseekV41Config) -> DeepseekV41Requirements {
    let specs = official_tensor_specs(config).unwrap();
    inspect_requirements(config, &index_of(&specs), 1024, 1).unwrap()
}

#[test]
fn budgets_are_checked_in_order() {
    let needs = needs_of(&small_config());
    assert!(check_needs(&needs, &options(1024)).is_ok());
    let mut tight = options(1024);
    tight.resident_budget_bytes = needs.streamed_layer_bytes - 1;
    tight.kv_cache_budget_bytes = 0;
    let error = check_needs(&needs, &tight).unwrap_err();
    assert_eq!(
        error.message().unwrap(),
        format!(
            "DeepSeek-V4.1 streamed layer peak needs {} bytes, authorized maximum is {}",
            needs.streamed_layer_bytes,
            needs.streamed_layer_bytes - 1
        )
    );
    tight.resident_budget_bytes = needs.streamed_layer_bytes;
    assert!(matches!(
        check_needs(&needs, &tight),
        Err(DeepseekV41RuntimeError::Budget {
            component: "KV/state cache",
            ..
        })
    ));
}

#[test]
fn a_token_map_that_is_not_the_release_is_refused_at_loading() {
    let config = small_config();
    let specs = official_tensor_specs(&config).unwrap();
    let index = index_of(&specs);
    let vocabulary = config.text_config.vocab_size;
    let tokens: Vec<String> = (0..vocabulary).map(|id| format!("t{id}")).collect();
    assert!(can_plan_buckets(&config));
    let error =
        DeepseekV41RuntimeModel::load(config, &index, options(1024), 7, &tokens, &tokens)
            .unwrap_err();
    assert!(error
        .message()
        .unwrap()
        .starts_with("invalid DeepSeek-V4.1 Engram state: token map mismatch: tokenizer="));
    assert!(matches!(error, DeepseekV41RuntimeError::Engram(_)));
}

#[test]
fn a_load_without_a_budget_is_refused_first() {
    let config = small_config();
    let index = TensorIndex::new(0, 0, 0);
    let mut empty = options(1024);
    empty.maximum_expert_bytes = 0;
    let error =
        DeepseekV41RuntimeModel::load(config, &index, empty, 7, &Vec::new(), &Vec::new())
            .unwrap_err();
    assert_eq!(
        error.message().unwrap(),
        "invalid DeepSeek-V4.1 runtime: resident/KV/per-expert budgets and context limit must be non-zero"
    );
}

#[test]
fn a_short_token_map_is_no_release_map() {
    let config = small_config();
    let tokens: Vec<String> = vec!["a".to_string()];
    assert!(NgramHashState::new(&config, &tokens, &tokens).is_err());
    assert!(NgramHashState::from_token_map(&config, vec![0, 1, 2]).is_err());
}

#[test]
fn windows_list_the_latest_positions() {
    assert_eq!(window_positions(0, 4), vec![0]);
    assert_eq!(window_positions(5, 4), vec![2, 3, 4, 5]);
}

#[test]
fn compressed_layers_have_their_own_rotary_base() {
    let config = release_config();
    let plain = rope_parameters(0, &config.text_config);
    assert_eq!(plain.base, config.text_config.rope_theta);
    assert_eq!(plain.original_length, None);
    let compressed = rope_parameters(2, &config.text_config);
    assert_eq!(compressed.base, config.text_config.compress_rope_theta);
    assert_eq!(compressed.original_length, Some(65_536));
    assert_eq!(compressed.factor, 16);
    let step = SharedAttentionStep::new();
    assert!(step.selected.is_empty());
    assert!(step.candidates.is_none());
}

#[test]
fn layer_reads_are_tensors_of_the_release() {
    let config = small_config();
    let specs = official_tensor_specs(&config).unwrap();
    let names: std::collections::BTreeSet<&str> =
        specs.iter().map(|spec| spec.name.as_str()).collect();
    for layer in [0, 1, 2, 20, 24, 39] {
        let reads = list_layer_reads(&config.text_config, layer);
        assert!(!reads.is_empty());
        for read in &reads {
            assert!(names.contains(read.name.as_str()), "{}", read.name);
        }
    }
    let expert = format!("{}.w1.weight", name_expert(39, 1));
    assert!(names.contains(expert.as_str()));
    assert_eq!(count_parts(33, 32), 2);
    assert_eq!(count_parts(64, 32), 2);
}

#[test]
fn a_compressed_layer_reads_its_latest_source() {
    let config = release_config();
    let owners = &config.text_config.kv_source_layer_ids;
    let layer = owners[1];
    let ratio = config.text_config.compress_ratios[layer];
    let sources: Vec<SourceState> = owners
        .iter()
        .map(|&owner| {
            SourceState::new(owner, config.text_config.compress_ratios[owner], 512, 128).unwrap()
        })
        .collect();
    assert_eq!(find_source(&config, layer, ratio, &sources).unwrap(), 1);
    let error = find_source(&config, layer, ratio + 1, &sources).unwrap_err();
    assert!(error
        .message()
        .unwrap()
        .contains("consumer compression ratio differs from its KV source"));
    let error = find_source(&config, layer, ratio, &Vec::new()).unwrap_err();
    assert_eq!(
        error.message().unwrap(),
        format!("invalid DeepSeek-V4.1 runtime: missing state for KV source {layer}")
    );
}

#[test]
fn expert_payloads_are_counted_with_their_scales() {
    let config = small_config();
    let specs = official_tensor_specs(&config).unwrap();
    let index = index_of(&specs);
    let text = &config.text_config;
    let base = name_expert(3, 1);
    let (resident, payload) = plan_expert(&index, &base, text, 1 << 40).unwrap();
    let held: u64 = ["w1", "w2", "w3"]
        .iter()
        .map(|part| index.get(&format!("{base}.{part}.weight")).unwrap().data_len)
        .sum();
    let scales: u64 = ["w1", "w2", "w3"]
        .iter()
        .map(|part| index.get(&format!("{base}.{part}.scale")).unwrap().data_len)
        .sum();
    assert_eq!(resident, held);
    assert_eq!(payload, held + scales);
    assert_eq!(
        weight_storage_bytes(&index, &format!("{base}.w1.weight")).unwrap() * 3,
        payload
    );
    assert!(matches!(
        plan_expert(&index, &base, text, resident - 1),
        Err(DeepseekV41RuntimeError::Budget {
            component: "routed expert",
            ..
        })
    ));
    assert!(check_values(&index, "norm.weight", text.hidden_size).is_ok());
    assert_eq!(
        check_values(&index, "norm.weight", 3)
            .unwrap_err()
            .message()
            .unwrap(),
        "invalid DeepSeek-V4.1 runtime: tensor \"norm.weight\" must contain 3 elements"
    );
    assert!(matches!(
        check_values(&index, "absent", 3),
        Err(DeepseekV41RuntimeError::Storage(_))
    ));
}

#[test]
fn a_token_that_cannot_be_undone_gives_both_reasons() {
    let restore = DeepseekV41RuntimeError::Invalid(
        "KV source 2 disappeared while restoring a failed token".to_string(),
    );
    assert_eq!(
        join_failures("no expert", &restore).message().unwrap(),
        "invalid DeepSeek-V4.1 runtime: token execution failed (no expert); state rollback also failed (invalid DeepSeek-V4.1 runtime: KV source 2 disappeared while restoring a failed token)"
    );
}
