use urbilateria::bits::Float64;
use urbilateria::models::deepseek_v41::config::{
    DeepseekV41Config, DeepseekV41QuantizationConfig, DeepseekV41TextConfig,
    DeepseekV41VisionConfig, RopeScaling,
};
use urbilateria::models::deepseek_v41::experts::{ExpertStore, TokenRun};
use urbilateria::residency::ExpertTelemetry;

fn float(value: f64) -> Float64 {
    Float64 {
        bits: value.to_bits(),
    }
}

fn release_config() -> DeepseekV41Config {
    let mut compress_ratios = vec![0, 0];
    compress_ratios.extend([2; 18]);
    compress_ratios.extend([1; 20]);
    compress_ratios.extend([0; 3]);
    DeepseekV41Config {
        architectures: vec!["DeepseekV41ForCausalLM".to_string()],
        model_type: "deepseek_v41".to_string(),
        dtype: "bfloat16".to_string(),
        bos_token_id: 0,
        eos_token_id: 1,
        pad_token_id: 2,
        image_token_id: 128_815,
        quantization_config: DeepseekV41QuantizationConfig {
            quant_method: "fp8".to_string(),
            activation_scheme: "dynamic".to_string(),
            weight_block_size: [32, 32],
            scale_fmt: "ue8m0".to_string(),
            expert_dtype: "fp4".to_string(),
        },
        text_config: DeepseekV41TextConfig {
            model_type: "deepseek_v41_text".to_string(),
            vocab_size: 129_280,
            hidden_size: 4096,
            moe_intermediate_size: 2048,
            num_hidden_layers: 40,
            num_attention_heads: 64,
            num_key_value_heads: 1,
            head_dim: 512,
            qk_rope_head_dim: 64,
            q_lora_rank: 1024,
            o_lora_rank: 1024,
            o_groups: 8,
            hidden_act: "silu".to_string(),
            swiglu_limit: float(10.0),
            rms_norm_eps: float(1e-6),
            attention_bias: false,
            attention_dropout: float(0.0),
            use_cache: true,
            tie_word_embeddings: false,
            max_position_embeddings: 1_048_576,
            rope_theta: float(10_000.0),
            rope_scaling: RopeScaling {
                rope_type: "yarn".to_string(),
                factor: 16,
                beta_fast: 32,
                beta_slow: 1,
                original_max_position_embeddings: 65_536,
            },
            n_routed_experts: 384,
            n_shared_experts: 1,
            num_experts_per_tok: 6,
            scoring_func: "sqrtsoftplus".to_string(),
            topk_method: "noaux_tc".to_string(),
            norm_topk_prob: true,
            routed_scaling_factor: float(1.5),
            sliding_window: 128,
            compress_ratios,
            compress_rope_theta: float(160_000.0),
            kv_source_layer_ids: vec![2, 8, 14, 20],
            index_source_layer_ids: vec![2, 8, 14, 20, 24, 28, 32, 36],
            index_n_heads: 64,
            index_head_dim: 128,
            index_topk: 512,
            candidate_source_layer_id: 20,
            candidate_topk_blocks: 64,
            candidate_block_size: 128,
            hc_mult: 4,
            hc_sinkhorn_iters: 20,
            hc_eps: float(1e-6),
            engram_layer_ids: vec![1, 14],
            engram_num_embeddings: vec![384_006_168, 384_016_682],
            engram_max_ngram_size: 4,
            engram_vocab_size: 16_000_000,
            engram_n_heads: 8,
            engram_head_dim: 256,
            engram_pad_token_id: 2,
            engram_compressed_vocab_size: 99_092,
            num_nextn_predict_layers: 3,
            dspark_block_size: 5,
            dspark_noise_token_id: 3,
            dspark_target_layer_ids: vec![37, 38, 39],
            dspark_markov_rank: 256,
            dspark_n_routed_experts: 128,
            dspark_num_experts_per_tok: 6,
        },
        vision_config: DeepseekV41VisionConfig {
            model_type: "deepseek_v41_vision".to_string(),
            num_hidden_layers: 32,
            hidden_size: 1024,
            num_attention_heads: 16,
            intermediate_size: 4096,
            patch_size: 14,
            rope_theta: float(10_000.0),
            downsample_ratio: 3,
            max_image_tokens: 16_384,
            min_pixels: 3136,
            max_wh_ratio: None,
        },
    }
}

/// Two layers of four experts.
fn text() -> DeepseekV41TextConfig {
    let mut text = release_config().text_config;
    text.num_hidden_layers = 2;
    text.n_routed_experts = 4;
    text.hidden_size = 2;
    text
}

fn store(slots: usize) -> ExpertStore {
    ExpertStore::new(&text(), slots, 72).unwrap()
}

fn acquire(store: &mut ExpertStore, layer: usize, expert: usize) {
    store.acquire(layer, expert, 72, 72).unwrap();
}

fn serial_acquire(store: &mut ExpertStore, layer: usize, ids: &[usize]) {
    for &id in ids {
        acquire(store, layer, id);
    }
}

/// Loads the missing experts of a batch while something else computes.
fn acquire_batch_while<T>(
    store: &mut ExpertStore,
    layer: usize,
    ids: &[usize],
    compute: impl FnOnce() -> Result<T, String>,
) -> Result<T, String> {
    let ids = ids.to_vec();
    let loads = store
        .plan_batch(layer, &ids)
        .map_err(|error| error.message().unwrap())?;
    let sizes: Vec<(u64, u64)> = loads.iter().map(|_| (72, 72)).collect();
    let computed = compute()?;
    store.commit_batch(layer, &ids, &sizes);
    Ok(computed)
}

#[test]
fn overlapped_expert_batch_preserves_order_duplicates_and_serial_telemetry() {
    let mut batch = store(3);
    let mut serial = store(3);
    acquire(&mut batch, 0, 1);
    acquire(&mut serial, 0, 1);

    let ids = [2, 1, 2, 0];
    assert_eq!(batch.plan_batch(0, &ids.to_vec()).unwrap(), vec![2, 0]);
    let mut computations = 0;
    let computed = acquire_batch_while(&mut batch, 0, &ids, || {
        computations += 1;
        Ok(vec![7.0f32, 9.0])
    })
    .unwrap();
    assert_eq!(computations, 1);
    assert_eq!(computed, [7.0, 9.0]);
    serial_acquire(&mut serial, 0, &ids);
    assert_eq!(batch.telemetry(), serial.telemetry());
    assert_eq!(batch.telemetry().hits, 2);
    assert_eq!(batch.telemetry().misses, 3);
    assert_eq!(batch.telemetry().bytes_read, 216);
    assert_eq!(batch.telemetry().resident_bytes, 216);

    for (layer, ids) in [(0, &[0, 2, 1, 0][..]), (1, &[1, 0, 1][..])] {
        acquire_batch_while(&mut batch, layer, ids, || Ok(())).unwrap();
        serial_acquire(&mut serial, layer, ids);
        assert_eq!(batch.telemetry(), serial.telemetry());
    }
}

#[test]
fn overlapped_expert_batch_rejects_insufficient_slots_before_computing() {
    for slots in [0, 1] {
        let mut batch = store(slots);
        acquire(&mut batch, 0, 1);
        let before = batch.telemetry().clone();
        let error = acquire_batch_while::<()>(&mut batch, 0, &[2, 1, 2], || {
            panic!("insufficient cache capacity must fail before the callback")
        })
        .unwrap_err();
        assert!(error.contains("free cache slots"));
        assert_eq!(batch.telemetry(), &before);
        assert_eq!(batch.contains(0, 1), slots == 1);
        assert!(!batch.contains(0, 2));
    }
}

#[test]
fn moe_streaming_and_overlapped_paths_match_outputs_and_serial_cache_policy() {
    for slots in [0, 1] {
        let mut streaming = store(slots);
        let mut overlapped = store(4);
        let mut serial = store(slots);
        for routes in [vec![1, 0], vec![1, 0], vec![1, 2], vec![0, 3]] {
            let plan = streaming.plan_token(0, &routes);
            assert!(matches!(plan.run, TokenRun::Sequential));
            let wide = overlapped.plan_token(0, &routes);
            assert_eq!(plan.order, wide.order);
            assert_eq!(plan.experts, wide.experts);
            assert!(matches!(wide.run, TokenRun::Overlapped { .. }));
            for &expert in &plan.experts {
                acquire(&mut streaming, 0, expert);
            }
            acquire_batch_while(&mut overlapped, 0, &wide.experts, || Ok(())).unwrap();
            let mut ids = routes.clone();
            ids.sort_unstable();
            assert_eq!(plan.experts, ids);
            serial_acquire(&mut serial, 0, &ids);
            assert_eq!(streaming.telemetry(), serial.telemetry());
            assert_eq!(streaming.telemetry().resident_experts, slots);
            assert_eq!(streaming.telemetry().resident_bytes, slots as u64 * 72);
            for id in 0..4 {
                assert_eq!(streaming.contains(0, id), serial.contains(0, id));
            }
        }
    }
}

#[test]
fn failed_shared_computation_leaves_expert_cache_unchanged_and_retry_succeeds() {
    let mut batch = store(3);
    let mut serial = store(3);
    acquire(&mut batch, 0, 1);
    acquire(&mut serial, 0, 1);
    let before = batch.telemetry().clone();
    let ids = [1, 2, 0, 2];
    let error = acquire_batch_while::<()>(&mut batch, 0, &ids, || {
        Err("shared compute failed".to_string())
    })
    .unwrap_err();
    assert!(error.contains("shared compute failed"));
    assert_eq!(batch.telemetry(), &before);
    assert!(batch.contains(0, 1));
    for id in [0, 2, 3] {
        assert!(!batch.contains(0, id));
    }
    acquire_batch_while(&mut batch, 0, &ids, || Ok(())).unwrap();
    serial_acquire(&mut serial, 0, &ids);
    assert_eq!(batch.telemetry(), serial.telemetry());
}

#[test]
fn stores_and_requests_outside_the_model_are_refused() {
    assert!(ExpertStore::new(&text(), 5, 72).is_err());
    assert!(ExpertStore::new(&text(), 1, 0).is_err());
    let mut store = store(1);
    assert!(store.acquire(2, 0, 72, 72).is_err());
    assert!(store.acquire(0, 4, 72, 72).is_err());
    assert_eq!(store.telemetry(), &ExpertTelemetry::default());
}
