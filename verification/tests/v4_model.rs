use urbilateria::bits::{Float32, Float64};
use urbilateria::models::deepseek_v4::attention::{
    choose_entries, select_entries, window_indices, AttentionState,
};
use urbilateria::models::deepseek_v4::batching::{
    check_expert_batch, check_prefill_batch, check_route_weight, gather_group, group_inputs,
    join_rows, start_hidden,
};
use urbilateria::models::deepseek_v4::config::{
    DeepseekV4Config, QuantizationConfig, RopeScaling,
};
use urbilateria::models::deepseek_v4::experts::{
    execution_order, BatchMode, DeepExpertStore, TokenBatch, TokenMode,
};
use urbilateria::models::deepseek_v4::grouping::{
    group_by_last_use, group_routes, last_use_order, plan_chunks, scatter,
};
use urbilateria::models::deepseek_v4::loading::{list_matrices, list_vectors};
use urbilateria::models::deepseek_v4::math::{
    round_to_bf16, round_to_bf16_in_place, select_experts, validate_positive, validate_routing,
    DeepseekMathError,
};
use urbilateria::models::deepseek_v4::operands::{
    check_bounded_swiglu, check_paired_rope, check_sparse_attention,
    check_sparse_attention_with_sink, check_unit_rms_norm, identity_pre_mix,
};
use urbilateria::models::deepseek_v4::pipeline::{retain_layer, LayerQueue, NextLayer};
use urbilateria::models::deepseek_v4::runtime::{
    layer_flow_id, route_windows, DeepseekRuntimeError, DeepseekRuntimeModel,
};
use urbilateria::models::deepseek_v4::schema::{decoder_layer_pipeline, native_scale_name};
use urbilateria::runtime::RuntimeLoadOptions;
use urbilateria::storage::TensorIndex;

fn float(value: f64) -> Float64 {
    Float64 {
        bits: value.to_bits(),
    }
}

fn single(value: f32) -> Float32 {
    Float32 {
        bits: value.to_bits(),
    }
}

fn bits(values: &[f32]) -> Vec<u32> {
    values.iter().map(|value| value.to_bits()).collect()
}

fn flash_config() -> DeepseekV4Config {
    let mut compress_ratios = vec![0, 0];
    for layer in 2..43 {
        compress_ratios.push(if layer % 2 == 0 { 4 } else { 128 });
    }
    compress_ratios.extend([0; 3]);
    DeepseekV4Config {
        model_type: "deepseek_v4".to_string(),
        architectures: vec!["DeepseekV4ForCausalLM".to_string()],
        hidden_size: 4096,
        num_hidden_layers: 43,
        num_attention_heads: 64,
        num_key_value_heads: 1,
        head_dim: 512,
        q_lora_rank: 1024,
        qk_rope_head_dim: 64,
        o_groups: 8,
        o_lora_rank: 1024,
        sliding_window: 128,
        compress_ratios,
        compress_rope_theta: float(160_000.0),
        index_n_heads: 64,
        index_head_dim: 128,
        index_topk: 512,
        vocab_size: 129_280,
        bos_token_id: 0,
        eos_token_id: 1,
        max_position_embeddings: 1_048_576,
        rms_norm_eps: float(1e-6),
        rope_theta: float(10_000.0),
        rope_scaling: RopeScaling {
            beta_fast: 32,
            beta_slow: 1,
            factor: float(16.0),
            original_max_position_embeddings: 65_536,
            rope_type: "yarn".to_string(),
        },
        hc_mult: 4,
        hc_sinkhorn_iters: 20,
        hc_eps: float(1e-6),
        moe_intermediate_size: 2048,
        n_routed_experts: 256,
        n_shared_experts: 1,
        num_experts_per_tok: 6,
        num_hash_layers: 3,
        norm_topk_prob: true,
        routed_scaling_factor: float(1.5),
        scoring_func: "sqrtsoftplus".to_string(),
        topk_method: "noaux_tc".to_string(),
        swiglu_limit: float(10.0),
        expert_dtype: "fp4".to_string(),
        quantization_config: QuantizationConfig {
            activation_scheme: "dynamic".to_string(),
            fmt: "e4m3".to_string(),
            quant_method: "fp8".to_string(),
            scale_fmt: "ue8m0".to_string(),
            weight_block_size: [128, 128],
        },
        num_nextn_predict_layers: 1,
        dspark_block_size: 5,
        dspark_noise_token_id: 2,
        dspark_target_layer_ids: vec![40, 41, 42],
        dspark_markov_rank: 256,
        tie_word_embeddings: false,
        attention_bias: false,
        hidden_act: "silu".to_string(),
    }
}

#[test]
fn parses_flash_0731_geometry() {
    let config = flash_config();
    assert!(config.validate().is_ok());
    assert_eq!(config.num_hidden_layers, 43);
    assert_eq!(config.num_hash_layers, 3);
    assert_eq!(config.indexed_layer_count(), 21);
    assert_eq!(config.declared_dspark_stage_count(), 3);
    assert_eq!(config.base_compress_ratio(42), Some(4));
    assert_eq!(config.base_compress_ratio(43), None);
}

#[test]
fn rejects_short_compression_schedule() {
    let mut config = flash_config();
    config.compress_ratios = vec![0, 0, 4];
    let error = config.validate().unwrap_err();
    assert!(error.message().contains("compress_ratios"));
}

#[test]
fn refused_configurations_name_what_is_wrong() {
    let mut config = flash_config();
    config.model_type = "other".to_string();
    assert_eq!(
        config.validate().unwrap_err().message(),
        "DeepSeek-V4: model_type=\"other\"; expected \"deepseek_v4\""
    );
    let mut config = flash_config();
    config.head_dim = 1 << 17;
    assert_eq!(
        config.validate().unwrap_err().message(),
        "DeepSeek-V4: head_dim=131072 is outside 1..=65536"
    );
    let mut config = flash_config();
    config.hc_eps = float(f64::NAN);
    assert_eq!(
        config.validate().unwrap_err().message(),
        "DeepSeek-V4: hc_eps must be finite and positive"
    );
}

#[test]
fn exact_release_tensor_count_is_stable() {
    let config = flash_config();
    let base_without_compressors = 6 + config.num_hidden_layers * 1565;
    let compressors = 21 * 11 + 20 * 4;
    let dspark = 3 * 1565 + 10;
    assert_eq!(base_without_compressors + compressors + dspark, 72_317);
}

#[test]
fn partial_layer_residency_trades_cache_slots_for_four_layer_lookahead() {
    assert_eq!(decoder_layer_pipeline(0, 43), (0, 1));
    assert_eq!(decoder_layer_pipeline(1, 43), (0, 2));
    assert_eq!(decoder_layer_pipeline(2, 43), (0, 3));
    assert_eq!(decoder_layer_pipeline(3, 43), (0, 4));
    assert_eq!(decoder_layer_pipeline(17, 43), (14, 4));
    assert_eq!(decoder_layer_pipeline(43, 43), (43, 1));
}

#[test]
fn window_indices_match_the_official_ring_order() {
    assert_eq!(window_indices(0, 4), vec![0]);
    assert_eq!(window_indices(2, 4), vec![0, 1, 2]);
    assert_eq!(window_indices(3, 4), vec![0, 1, 2, 3]);
    assert_eq!(window_indices(4, 4), vec![1, 2, 3, 0]);
}

#[test]
fn bf16_rounding_is_ties_to_even_and_rejects_overflow() {
    let mut values = vec![0x3f80_8000, 0x3f81_8000];
    round_to_bf16_in_place(&mut values).unwrap();
    assert_eq!(values, bits(&[1.0, 1.015625]));

    let mut overflow = bits(&[f32::MAX]);
    assert!(matches!(
        round_to_bf16_in_place(&mut overflow),
        Err(DeepseekMathError::NonFinite)
    ));
}

#[test]
fn avx2_bf16_rounding_matches_scalar_values_and_error_position() {
    let mut state = 0x1234_5678u32;
    for length in 0usize..40 {
        let input = (0..length)
            .map(|_| {
                state = state.wrapping_mul(1_664_525).wrapping_add(1_013_904_223);
                let sign = state & 0x8000_0000;
                let exponent = ((state >> 23) % 254) << 23;
                sign | exponent | (state & 0x007f_ffff)
            })
            .collect::<Vec<u32>>();
        let mut expected = input.clone();
        for value in &mut expected {
            *value = round_to_bf16(*value).unwrap();
        }
        let mut actual = input;
        round_to_bf16_in_place(&mut actual).unwrap();
        assert_eq!(actual, expected);
    }

    for invalid in [f32::INFINITY, f32::NAN, f32::MAX] {
        for position in 0usize..17 {
            let mut expected = bits(&[1.234_375f32; 17]);
            expected[position] = invalid.to_bits();
            let mut actual = expected.clone();
            let mut failed = false;
            for value in &mut expected {
                match round_to_bf16(*value) {
                    Ok(rounded) => *value = rounded,
                    Err(_) => {
                        failed = true;
                        break;
                    }
                }
            }
            assert!(failed && round_to_bf16_in_place(&mut actual).is_err());
            assert_eq!(actual, expected);
        }
    }
}

/// The scores by which experts are selected, and the learned weights.
fn scored(logits: &[f32], bias: Option<&[f32]>) -> (Vec<u32>, Vec<f32>) {
    let scores: Vec<f32> = logits.iter().map(|x| x.exp().ln_1p().sqrt()).collect();
    let selection = scores
        .iter()
        .enumerate()
        .map(|(index, score)| score + bias.map_or(0.0, |bias| bias[index]))
        .collect::<Vec<_>>();
    (bits(&selection), scores)
}

fn route(
    logits: &[f32],
    bias: Option<&[f32]>,
    hash: Option<&[usize]>,
    top_k: usize,
    factor: f32,
) -> Vec<(usize, f32)> {
    let bias_bits = bias.map(bits);
    validate_routing(
        &bits(logits),
        bias_bits.as_deref(),
        hash,
        top_k,
        single(factor),
    )
    .unwrap();
    let (selection, scores) = scored(logits, bias);
    let chosen = select_experts(&selection, hash, top_k).unwrap();
    let total: f32 = chosen.iter().map(|&expert| scores[expert]).sum();
    chosen
        .iter()
        .map(|&expert| (expert, scores[expert] / total * factor))
        .collect()
}

#[test]
fn hash_router_uses_fixed_ids_but_learned_weights() {
    let choices = route(&[0.0, 1.0, 2.0, 3.0], None, Some(&[3, 0]), 2, 1.5);
    assert_eq!(
        choices.iter().map(|choice| choice.0).collect::<Vec<_>>(),
        [3, 0]
    );
    assert!((choices.iter().map(|choice| choice.1).sum::<f32>() - 1.5).abs() < 1e-6);
}

#[test]
fn correction_bias_selects_but_does_not_weight() {
    let plain = route(&[3.0, 2.0, 1.0], None, None, 1, 1.0);
    let biased = route(&[3.0, 2.0, 1.0], Some(&[0.0, 0.0, 10.0]), None, 1, 1.0);
    assert_eq!(plain[0].0, 0);
    assert_eq!(biased[0].0, 2);
    assert_eq!(biased[0].1, 1.0);
}

#[test]
fn routing_that_cannot_be_done_is_refused() {
    assert!(validate_routing(&bits(&[1.0]), None, None, 2, single(1.0)).is_err());
    assert!(validate_routing(&bits(&[f32::NAN]), None, None, 1, single(1.0)).is_err());
    assert!(validate_routing(&bits(&[1.0]), None, None, 1, single(0.0)).is_err());
    assert!(validate_positive("eps", single(-1.0)).is_err());
    assert!(select_experts(&bits(&[1.0, 2.0]), Some(&[0, 2]), 2).is_err());
}

#[test]
fn sparse_attention_rejects_invalid_geometry() {
    for result in [
        check_sparse_attention(7, 0, 7, &vec![7], &vec![0], 1),
        check_sparse_attention(7, 1, 0, &vec![7], &vec![0], 1),
        check_sparse_attention(7, 2, 7, &vec![7], &vec![0], 1),
        check_sparse_attention(7, 1, 7, &vec![7], &vec![0], 0),
        check_sparse_attention(7, 1, 7, &vec![7], &vec![], 1),
        check_sparse_attention(7, 1, 7, &vec![7], &vec![1], 1),
        check_sparse_attention(7, 1, 7, &vec![6], &vec![0], 1),
    ] {
        assert!(matches!(result, Err(DeepseekMathError::Shape(_))));
    }
    assert!(check_sparse_attention(7, 1, 7, &vec![7], &vec![0], 1).is_ok());
    assert!(check_sparse_attention_with_sink(2, 1, 2, &vec![2], &vec![0], 1, single(1.0)).is_ok());
    assert!(
        check_sparse_attention_with_sink(2, 1, 2, &vec![2], &vec![0], 1, single(0.0)).is_err()
    );
}

#[test]
fn operands_are_checked_before_the_arithmetic() {
    assert!(check_unit_rms_norm(5, 5, single(1e-6)).is_ok());
    assert!(check_unit_rms_norm(5, 2, single(1e-6)).is_err());
    assert!(check_bounded_swiglu(&bits(&[1.0]), &bits(&[1.0]), single(10.0)).is_ok());
    assert!(check_bounded_swiglu(&bits(&[1.0]), &bits(&[1.0, 2.0]), single(10.0)).is_err());
    assert!(matches!(
        check_bounded_swiglu(&bits(&[1.0, 2.0]), &bits(&[3.0, f32::NAN]), single(10.0)),
        Err(DeepseekMathError::NonFinite)
    ));
    assert!(check_paired_rope(&bits(&[1.0, 2.0]), single(10_000.0), single(1.0)).is_ok());
    assert!(check_paired_rope(&bits(&[1.0]), single(10_000.0), single(1.0)).is_err());
    assert_eq!(identity_pre_mix(2).unwrap(), bits(&[1.0, 0.0]));
    assert!(identity_pre_mix(0).is_err());
}

#[test]
fn a_chosen_entry_stands_behind_the_window() {
    assert_eq!(select_entries(2, 0, 4, vec![]), vec![0, 1, 2]);
    assert_eq!(select_entries(5, 128, 4, vec![]), vec![2, 3, 0, 1]);
    assert_eq!(select_entries(0, 4, 4, vec![6, 5]), vec![0, 6, 5]);
    assert_eq!(
        choose_entries(&bits(&[1.0, 3.0, 2.0]), 2, 4),
        vec![5, 6]
    );
}

#[test]
fn a_token_is_undone_by_its_checkpoint() {
    let mut config = flash_config();
    config.sliding_window = 2;
    config.head_dim = 2;
    config.index_head_dim = 2;
    let mut state = AttentionState::new(&config, 0).unwrap();
    state.write_local(bits(&[1.0, 2.0]));
    state.advance();
    let held = state.stored_f32_elements();
    let checkpoint = state.checkpoint_next_token();
    state.write_local(bits(&[3.0, 4.0]));
    state.advance();
    assert_eq!(state.next_position(), 2);
    state.restore(checkpoint);
    assert_eq!(state.next_position(), 1);
    assert_eq!(state.stored_f32_elements(), held);
    assert_eq!(
        state.cache_rows(2),
        vec![bits(&[1.0, 2.0]), bits(&[0.0, 0.0])]
    );
    assert!(state.check_position(1, 0).is_ok());
    assert!(state.check_position(2, 0).is_err());
    assert!(state.compressor_state().is_none());
    assert!(state.indexer_state().is_none());
}

fn routes() -> Vec<Vec<usize>> {
    vec![vec![2, 0], vec![0, 3], vec![2, 1]]
}

#[test]
fn routes_are_grouped_by_their_expert() {
    let groups = group_routes(&routes());
    let experts: Vec<usize> = groups.iter().map(|group| group.expert).collect();
    assert_eq!(experts, vec![2, 0, 3, 1]);
    assert_eq!(groups[0].positions, vec![(0, 0), (2, 0)]);
    assert_eq!(last_use_order(&routes()), vec![0, 3, 2, 1]);
    let late: Vec<usize> = group_by_last_use(&routes())
        .iter()
        .map(|group| group.expert)
        .collect();
    assert_eq!(late, vec![0, 3, 2, 1]);
    assert_eq!(plan_chunks(5, 2), vec![(0, 1), (1, 3), (3, 5)]);
    assert_eq!(plan_chunks(4, 2), vec![(0, 2), (2, 4)]);
}

#[test]
fn scattered_outputs_stand_where_their_routes_did() {
    let ids = routes();
    let groups = group_routes(&ids);
    let values: Vec<Vec<Vec<u32>>> = groups
        .iter()
        .map(|group| {
            group
                .positions
                .iter()
                .map(|&(token, route)| vec![(100 * token + 10 * route + group.expert) as u32])
                .collect()
        })
        .collect();
    let output = scatter(&ids, &groups, &values).unwrap();
    for (token, experts) in ids.iter().enumerate() {
        for (route, &expert) in experts.iter().enumerate() {
            assert_eq!(
                output[token][route],
                vec![(100 * token + 10 * route + expert) as u32]
            );
        }
    }
}

fn batch() -> TokenBatch {
    TokenBatch {
        expert_ids: routes(),
        route_weights: vec![bits(&[1.0, 2.0]), bits(&[3.0, 4.0]), bits(&[5.0, 6.0])],
        inputs: vec![vec![1, 1], vec![2, 2], vec![3, 3]],
        mx_inputs: vec![vec![4, 4], vec![5, 5], vec![6, 6]],
        traces: 3,
    }
}

#[test]
fn a_group_gathers_the_inputs_of_its_tokens() {
    let batch = batch();
    let groups = group_routes(&batch.expert_ids);
    let gathered = gather_group(&batch, &groups[0]);
    assert_eq!(gathered.input, vec![1, 1, 3, 3]);
    assert_eq!(gathered.mx_input, vec![4, 4, 6, 6]);
    assert_eq!(gathered.route_weights, bits(&[1.0, 5.0]));
    assert_eq!(join_rows(&vec![vec![1], vec![2, 3]]), vec![1, 2, 3]);
    assert_eq!(
        group_inputs(&vec![vec![1, 2, 3, 4], vec![5, 6, 7, 8]], 2, 2, 2, 1).unwrap(),
        vec![3, 4, 7, 8]
    );
    assert_eq!(start_hidden(&vec![7, 8], 2), vec![7, 8, 7, 8]);
    assert!(check_prefill_batch(2, 2).is_ok());
    assert!(check_prefill_batch(2, 3).is_err());
    assert!(check_expert_batch(2, 4, 4, 2, None).is_ok());
    assert!(check_expert_batch(2, 4, 3, 2, None).is_err());
    assert!(check_route_weight(1.0f32.to_bits()).is_ok());
    assert!(check_route_weight(f32::INFINITY.to_bits()).is_err());
}

fn store(slots: usize) -> DeepExpertStore {
    DeepExpertStore::with_geometry(2, 4, 2, slots, 100).unwrap()
}

#[test]
fn a_batch_counts_as_if_its_experts_came_one_by_one() {
    let mut grouped = store(4);
    let mut serial = store(4);
    let batch = batch();
    let (groups, loads) = grouped.plan_token_batch(0, &batch).unwrap();
    assert_eq!(loads, vec![2, 0, 3, 1]);
    let sizes = vec![(10, 20); loads.len()];
    let values: Vec<Vec<Vec<u32>>> = groups
        .iter()
        .map(|group| group.positions.iter().map(|_| vec![0, 0]).collect())
        .collect();
    grouped
        .commit_token_batch(0, &batch, &groups, &sizes, &values)
        .unwrap();
    for experts in &batch.expert_ids {
        for &expert in experts {
            serial.acquire(0, expert, 10, 20).unwrap();
        }
    }
    assert_eq!(grouped.telemetry(), serial.telemetry());
    assert_eq!(grouped.telemetry().bytes_read, 80);
    assert_eq!(grouped.telemetry().resident_bytes, 40);
}

#[test]
fn a_narrow_layer_streams_its_batch_in_chunks() {
    let mut narrow = store(2);
    let batch = batch();
    assert_eq!(
        narrow.batch_mode(0, &batch.expert_ids, 3, 3).unwrap(),
        BatchMode::Streamed
    );
    let plan = narrow.plan_streamed_batch(0, &batch).unwrap();
    assert_eq!(plan.chunks, vec![(0, 2), (2, 4)]);
    for &(start, end) in &plan.chunks {
        let rows: Vec<usize> = plan.groups[start..end]
            .iter()
            .map(|group| group.positions.len())
            .collect();
        let sizes = vec![(10, 20); end - start];
        narrow
            .commit_chunk(0, &plan.groups, start, end, &sizes, &rows)
            .unwrap();
    }
    assert_eq!(narrow.telemetry().accesses(), 6);
    assert_eq!(narrow.telemetry().resident_experts, 2);
    // The two experts that were used last stay.
    assert!(narrow.contains(0, 2) && narrow.contains(0, 1));
}

#[test]
fn lent_slots_are_taken_back() {
    let mut store = store(1);
    let steady = store.begin_prefill_layer(0);
    assert_eq!(steady, 1);
    for expert in 0..3 {
        store.acquire(0, expert, 10, 10).unwrap();
    }
    // Both layers had one free place.
    assert_eq!(store.telemetry().resident_experts, 2);
    let evicted = store.finish_prefill_layer(0, steady);
    assert_eq!(evicted.len(), 1);
    assert_eq!(evicted[0].expert, 1);
    assert_eq!(store.telemetry().resident_experts, 1);
    assert!(store.contains(0, 2));
}

#[test]
fn tokens_run_by_what_is_resident() {
    let mut wide = store(4);
    let (mode, evicted) = wide.token_mode(0, &vec![1, 2]);
    assert_eq!(mode, TokenMode::Parallel);
    assert!(evicted.is_empty());
    wide.acquire(0, 1, 10, 10).unwrap();
    assert!(wide.can_acquire_batch(0, &vec![1, 2]));
    assert_eq!(wide.list_missing(0, &vec![1, 2]), vec![2]);
    let mut none = store(0);
    assert!(!none.can_acquire_batch(0, &vec![1]));
    assert_eq!(none.token_mode(0, &vec![1, 2]).0, TokenMode::Sequential);
    let mut narrow = store(1);
    assert_eq!(narrow.token_mode(0, &vec![1, 2]).0, TokenMode::Pipelined);
    assert_eq!(execution_order(&vec![3, 1, 2]), vec![1, 2, 0]);
    assert_eq!(
        execution_order(&vec![usize::MAX, 0, usize::MAX / 2, usize::MAX / 2 + 1]),
        vec![1, 2, 3, 0]
    );
    assert!(wide.check_request(2, 0).is_err());
    assert!(wide.check_request(0, 4).is_err());
    assert!(DeepExpertStore::new(&flash_config(), 257, 1).is_err());
}

#[test]
fn a_prepared_token_counts_like_single_accesses() {
    // Expert 3 is the least recent: it leaves before its own turn comes.
    let mut ahead = store(3);
    let mut plain = store(3);
    for expert in [3, 0] {
        ahead.acquire(0, expert, 10, 20).unwrap();
        plain.acquire(0, expert, 10, 20).unwrap();
    }
    let experts = vec![1, 2, 3];
    let (mode, evicted) = ahead.token_mode(0, &experts);
    assert_eq!(mode, TokenMode::Parallel);
    let names: Vec<usize> = evicted.iter().map(|entry| entry.expert).collect();
    assert_eq!(names, vec![3, 0]);
    let loads = ahead.plan_batch(0, &experts).unwrap();
    assert_eq!(loads, vec![1, 2, 3]);
    ahead.commit_batch(0, &experts, &vec![(10, 20); 3]);
    for &expert in &experts {
        plain.acquire(0, expert, 10, 20).unwrap();
    }
    assert_eq!(ahead.telemetry(), plain.telemetry());
    assert_eq!(ahead.telemetry().evictions, 2);
    assert_eq!(ahead.telemetry().misses, 5);
    for expert in 0..4 {
        assert_eq!(ahead.contains(0, expert), plain.contains(0, expert));
    }
    // The order of leaving is the same too.
    for expert in [0, 1] {
        assert_eq!(
            ahead.acquire(0, expert, 10, 20).unwrap(),
            plain.acquire(0, expert, 10, 20).unwrap()
        );
    }
    assert!(ahead.prepare_ordered_batch(0, &vec![0, 1, 2, 3]).is_none());
}

#[test]
fn the_queue_hands_out_layers_in_order() {
    let mut queue = LayerQueue::new();
    let mut cached = vec![false; 4];
    assert_eq!(queue.fill(0, &cached, 2), vec![1, 2]);
    assert!(matches!(queue.take(1, &cached), Ok(NextLayer::Queued(_))));
    assert!(retain_layer(&mut cached, 0, 1));
    assert!(!retain_layer(&mut cached, 3, 1));
    assert_eq!(cached, vec![true, false, false, false]);
    assert_eq!(queue.drain(), vec![2]);
    assert!(matches!(queue.take(4, &cached), Ok(NextLayer::Done)));
}

#[test]
fn flow_ids_tell_layers_apart() {
    let mut seen = std::collections::BTreeSet::new();
    for position in 0..4 {
        for layer in 0..43 {
            assert!(seen.insert(layer_flow_id(position, layer)));
        }
    }
    assert_eq!(route_windows(50), vec![(0, 24), (24, 48), (48, 50)]);
    assert_eq!(native_scale_name("a.weight"), "a.scale");
}

#[test]
fn layer_reads_follow_the_compression_ratio() {
    let config = flash_config();
    let plain = list_vectors(&config, 0).len();
    assert_eq!(plain, 9);
    assert_eq!(list_vectors(&config, 3).len(), 11);
    assert_eq!(list_vectors(&config, 4).len(), 12);
    assert!(list_matrices(&config, 4).len() > list_matrices(&config, 3).len());
    assert!(list_matrices(&config, 3).len() > list_matrices(&config, 0).len());
}

#[test]
fn a_checkpoint_without_tensors_is_not_loaded() {
    let index = TensorIndex::new(0, 0, 0);
    let options = RuntimeLoadOptions {
        resident_budget_bytes: 1 << 20,
        expert_cache_budget_bytes: 1 << 20,
        kv_cache_budget_bytes: 1 << 20,
        expert_slots_per_layer: 1,
        maximum_expert_bytes: 1 << 20,
        context_limit: 4,
    };
    assert!(matches!(
        DeepseekRuntimeModel::load(flash_config(), &index, options, 1),
        Err(DeepseekRuntimeError::Schema(_))
    ));
    let mut empty = options;
    empty.context_limit = 0;
    let error = DeepseekRuntimeModel::load(flash_config(), &index, empty, 1).unwrap_err();
    assert!(error.message().unwrap().contains("must be non-zero"));
}
