use urbilateria::bits::{Float32, Float64};
use urbilateria::models::deepseek_v4::attention::{rope_parameters, AttentionState};
use urbilateria::models::deepseek_v4::batching::{
    are_wide, attention_inputs, indexer_inputs, output_inputs,
};
use urbilateria::models::deepseek_v4::compressor::{
    CompressorError, CompressorWeights, MatrixShape, PreparedCompressor,
};
use urbilateria::models::deepseek_v4::config::{
    default_hidden_act, DeepseekV4Config, QuantizationConfig, RopeScaling,
};
use urbilateria::models::deepseek_v4::experts::DeepExpertStore;
use urbilateria::models::deepseek_v4::loading::{
    assign_vectors, list_native_names, list_vectors, plan_expert, plan_matrix,
    weight_storage_bytes, DecoderLayerBuffers, MatrixLoad, MatrixRead,
};
use urbilateria::models::deepseek_v4::math::{are_finite, DeepseekMathError};
use urbilateria::models::deepseek_v4::operands::{
    check_collapse_bf16, check_engram_inject, check_hyper_connection_head,
    check_hyper_connection_post, check_hyper_connection_pre, check_post_bf16, check_single_pass,
    MixShape, PredictorShape,
};
use urbilateria::models::deepseek_v4::runtime::{
    plan_load, DeepseekRuntimeError, DeepseekRuntimeModel, HeadLoad,
};
use urbilateria::models::deepseek_v4::schema::{
    inspect_block, inspect_requirements, kv_cache_bytes_for_context, native_scale_name, Entry,
    EntryKind, SchemaError,
};
use urbilateria::recency::{find_victims, holds, list_distinct, position_of};
use urbilateria::runtime::RuntimeLoadOptions;
use urbilateria::storage::{DType, TensorIndex, TensorInfo, WeightFormat, WeightLayout};

fn float(value: f64) -> Float64 {
    Float64 {
        bits: value.to_bits(),
    }
}

fn single(value: f32) -> Float32 {
    Float32 {
        bits: value.to_bits(),
    }
}

fn bits(values: &[f32]) -> Vec<u32> {
    values.iter().map(|value| value.to_bits()).collect()
}

/// Three layers: a plain one, one that compresses and indexes, and one that compresses.
fn tiny_config() -> DeepseekV4Config {
    DeepseekV4Config {
        model_type: "deepseek_v4".to_string(),
        architectures: vec!["DeepseekV4ForCausalLM".to_string()],
        hidden_size: 4,
        num_hidden_layers: 3,
        num_attention_heads: 2,
        num_key_value_heads: 1,
        head_dim: 2,
        q_lora_rank: 2,
        qk_rope_head_dim: 2,
        o_groups: 1,
        o_lora_rank: 2,
        sliding_window: 4,
        compress_ratios: vec![0, 4, 128],
        compress_rope_theta: float(160_000.0),
        index_n_heads: 1,
        index_head_dim: 2,
        index_topk: 4,
        vocab_size: 8,
        bos_token_id: 0,
        eos_token_id: 7,
        max_position_embeddings: 256,
        rms_norm_eps: float(1e-6),
        rope_theta: float(10_000.0),
        rope_scaling: RopeScaling {
            beta_fast: 32,
            beta_slow: 1,
            factor: float(40.0),
            original_max_position_embeddings: 4,
            rope_type: "yarn".to_string(),
        },
        hc_mult: 2,
        hc_sinkhorn_iters: 2,
        hc_eps: float(1e-6),
        moe_intermediate_size: 2,
        n_routed_experts: 3,
        n_shared_experts: 1,
        num_experts_per_tok: 2,
        num_hash_layers: 1,
        norm_topk_prob: true,
        routed_scaling_factor: float(1.5),
        scoring_func: "sqrtsoftplus".to_string(),
        topk_method: "noaux_tc".to_string(),
        swiglu_limit: float(10.0),
        expert_dtype: "fp4".to_string(),
        quantization_config: QuantizationConfig {
            activation_scheme: "dynamic".to_string(),
            fmt: "e4m3".to_string(),
            quant_method: "fp8".to_string(),
            scale_fmt: "ue8m0".to_string(),
            weight_block_size: [128, 128],
        },
        num_nextn_predict_layers: 0,
        dspark_block_size: 0,
        dspark_noise_token_id: 1,
        dspark_target_layer_ids: vec![],
        dspark_markov_rank: 2,
        tie_word_embeddings: false,
        attention_bias: false,
        hidden_act: default_hidden_act(),
    }
}

fn add(index: &mut TensorIndex, name: &str, dtype: DType, shape: &[u64], size: u64) {
    let data_len = shape.iter().product::<u64>() * size;
    assert!(index.declare(
        name.to_string(),
        TensorInfo {
            dtype,
            shape: shape.to_vec(),
            data_len,
            shard: 0,
            data_offset: index.names().len() as u64 * 1000,
        },
    ));
}

fn add_matrix(index: &mut TensorIndex, name: &str, rows: usize, cols: usize) {
    add(index, name, DType::F32, &[rows as u64, cols as u64], 4);
    index.set_layout(
        name.to_string(),
        WeightLayout {
            rows,
            cols,
            format: WeightFormat::F32,
            resident_bytes: 4 * rows as u64 * cols as u64,
        },
    );
}

fn add_entries(index: &mut TensorIndex, entries: &[Entry]) {
    for entry in entries {
        match entry.kind {
            EntryKind::Matrix { rows, cols } => add_matrix(index, &entry.name, rows, cols),
            EntryKind::Vector { length, dtype } => {
                add(index, &entry.name, dtype, &[length as u64], 4)
            }
            EntryKind::Integers { rows, cols } => add(
                index,
                &entry.name,
                DType::I64,
                &[rows as u64, cols as u64],
                8,
            ),
            EntryKind::ExpertDone { .. } => {}
        }
    }
}

fn tiny_index(config: &DeepseekV4Config) -> TensorIndex {
    let mut index = TensorIndex::new(1, 1 << 20, 1 << 19);
    add_matrix(
        &mut index,
        "embed.weight",
        config.vocab_size,
        config.hidden_size,
    );
    for layer in 0..config.num_hidden_layers {
        let mut entries = Vec::new();
        inspect_block(
            &mut entries,
            config,
            &format!("layers.{layer}"),
            config.base_compress_ratio(layer).unwrap_or(0),
            layer < config.num_hash_layers,
            Some(layer),
        );
        add_entries(&mut index, &entries);
    }
    add(
        &mut index,
        "norm.weight",
        DType::Bf16,
        &[config.hidden_size as u64],
        2,
    );
    add_matrix(
        &mut index,
        "head.weight",
        config.vocab_size,
        config.hidden_size,
    );
    add_matrix(
        &mut index,
        "hc_head_fn",
        config.hc_mult,
        config.hc_mult * config.hidden_size,
    );
    add(
        &mut index,
        "hc_head_base",
        DType::F32,
        &[config.hc_mult as u64],
        4,
    );
    add(&mut index, "hc_head_scale", DType::F32, &[1], 4);
    index
}

fn options(context_limit: usize) -> RuntimeLoadOptions {
    RuntimeLoadOptions {
        resident_budget_bytes: 1 << 20,
        expert_cache_budget_bytes: 1 << 20,
        kv_cache_budget_bytes: 1 << 20,
        expert_slots_per_layer: 1,
        maximum_expert_bytes: 1 << 20,
        context_limit,
    }
}

fn tiny_model(instance_id: u64) -> DeepseekRuntimeModel {
    let config = tiny_config();
    let index = tiny_index(&config);
    DeepseekRuntimeModel::load(config, &index, options(6), instance_id).unwrap()
}

#[test]
fn a_complete_checkpoint_is_planned_and_loaded() {
    let config = tiny_config();
    let index = tiny_index(&config);
    let needs = inspect_requirements(&config, &index, 6, 1).unwrap();
    assert_eq!(needs.unexpected_tensor_count, 0);
    assert_eq!(needs.required_tensor_count, index.names().len());
    assert_eq!(needs.decoder_layer_count, 3);
    let plan = plan_load(&config, &index, &options(6)).unwrap();
    assert_eq!(plan.cached_decoder_layers, 3);
    assert_eq!(plan.decoder_layer_prefetch_depth, 1);
    assert_eq!(plan.head, HeadLoad::Resident);

    let mut tight = options(6);
    tight.resident_budget_bytes = needs.resident_bytes;
    let plan = plan_load(&config, &index, &tight).unwrap();
    assert_eq!(plan.cached_decoder_layers, 0);
    assert_eq!(plan.decoder_layer_prefetch_depth, 1);
    assert_eq!(plan.head, HeadLoad::Streamed);
    tight.resident_budget_bytes -= 1;
    assert!(matches!(
        plan_load(&config, &index, &tight),
        Err(DeepseekRuntimeError::Budget {
            component: "resident layer pipeline",
            ..
        })
    ));
    let budget = needs.resident_bytes + needs.decoder_layer_bytes;
    assert_eq!(needs.cached_decoder_layers_for_resident_budget(budget), 3);
    assert_eq!(
        needs.decoder_layer_pipeline_for_resident_budget(budget),
        (3, 1)
    );
    assert!(!needs.caches_lm_head_for_resident_budget(budget));
    assert!(needs.caches_lm_head_for_resident_budget(budget + needs.lm_head_resident_bytes));
    assert_eq!(
        kv_cache_bytes_for_context(&config, 6).unwrap(),
        needs.kv_cache_bytes
    );
}

#[test]
fn a_stray_tensor_keeps_the_model_from_loading() {
    let config = tiny_config();
    let mut index = tiny_index(&config);
    add(&mut index, "stray", DType::F32, &[1], 4);
    let error = DeepseekRuntimeModel::load(config, &index, options(6), 1).unwrap_err();
    assert!(error
        .message()
        .unwrap()
        .contains("1 tensors outside the strict release schema"));
}

#[test]
fn a_failed_token_and_a_failed_prompt_leave_no_trace() {
    let model = tiny_model(7);
    let mut state = model.new_state().unwrap();
    let start = model.begin_token(3, &mut state).unwrap();
    state.attention[0].write_local(bits(&[1.0, 2.0]));
    state.attention[0].advance();
    model.finish_token(&mut state, start, false);
    assert_eq!(state.position(), 0);
    assert_eq!(state.attention[0].next_position(), 0);
    assert_eq!(state.attention[0].cache_rows(2)[0], bits(&[0.0, 0.0]));

    let start = model.begin_prefill(&[1, 2], &state).unwrap();
    assert_eq!(start.tokens, vec![1, 2]);
    for _ in 0..2 {
        state.attention[0].write_local(bits(&[1.0, 2.0]));
        state.attention[0].advance();
    }
    model.finish_prefill(&mut state, start, false);
    assert_eq!(state.position(), 0);
    assert_eq!(state.attention[0].next_position(), 0);

    let start = model.begin_prefill(&[1, 2], &state).unwrap();
    model.finish_prefill(&mut state, start, true);
    assert_eq!(state.position(), 2);
    let start = model.begin_token(3, &mut state).unwrap();
    assert_eq!(start.position, 2);
    model.finish_token(&mut state, start, true);
    assert_eq!(state.position(), 3);
}

#[test]
fn prompts_that_cannot_run_are_refused() {
    let model = tiny_model(7);
    let other = tiny_model(8);
    let mut state = model.new_state().unwrap();
    assert!(other
        .begin_prefill(&[1], &state)
        .unwrap_err()
        .message()
        .unwrap()
        .contains("another runtime instance"));
    assert!(other.begin_token(1, &mut state).is_err());
    assert!(model
        .begin_prefill(&[], &state)
        .unwrap_err()
        .message()
        .unwrap()
        .contains("at least one token"));
    assert!(matches!(
        model.begin_prefill(&[1, 8], &state),
        Err(DeepseekRuntimeError::TokenOutOfRange {
            token: 8,
            vocabulary: 8
        })
    ));
    assert!(matches!(
        model.begin_prefill(&[1; 7], &state),
        Err(DeepseekRuntimeError::ContextExhausted {
            position: 6,
            limit: 6
        })
    ));
    assert!(model.begin_prefill(&[1; 6], &state).is_ok());
}

fn compressor(ratio: usize, wide: usize) -> Option<CompressorWeights> {
    let shape = |rows, cols| MatrixShape { rows, cols };
    let weights = CompressorWeights::new(
        ratio,
        2,
        2,
        false,
        shape(ratio, wide),
        shape(wide, 4),
        shape(wide, 4),
        2,
        single(1e-6),
    )
    .unwrap();
    assert_eq!(weights.input_size(), 4);
    Some(weights)
}

fn projection(wide: usize) -> Option<PreparedCompressor> {
    Some(PreparedCompressor {
        kv: bits(&vec![1.0; wide]),
        score: bits(&vec![0.0; wide]),
    })
}

#[test]
fn every_fourth_position_owes_a_compressed_entry() {
    let model = tiny_model(1);
    let mut state = model.new_state().unwrap();
    let state = &mut state.attention[1];
    let weights = compressor(4, 4);
    assert!(state.write_index(&None, None).is_err());
    for position in 0..8 {
        state.write_local(bits(&[position as f32, 0.0]));
        let index_due = state.write_index(&weights, projection(4)).unwrap();
        let due = state.write_compressed(&weights, projection(4)).unwrap();
        assert_eq!(index_due, due);
        assert_eq!(due, (position % 4 == 3).then_some(position - position % 4));
        if due.is_some() {
            state.emit_index(bits(&[0.5, 0.5]));
            state.emit_compressed(bits(&[0.25, 0.25]));
        }
        state.advance();
    }
    assert_eq!(state.indexer_state().unwrap().compressed().len(), 2);
    assert_eq!(state.compressor_state().unwrap().compressed().len(), 2);
    let rows = state.cache_rows(2);
    assert_eq!(rows.len(), 4 + 2);
    assert_eq!(rows[0], bits(&[4.0, 0.0]));
    assert_eq!(rows[5], bits(&[0.25, 0.25]));
}

#[test]
fn rows_of_a_batch_stand_one_behind_the_other() {
    let rows = vec![vec![1, 2], vec![3, 4]];
    assert!(are_wide(&rows, 2));
    assert!(!are_wide(&rows, 3));
    assert_eq!(attention_inputs(&rows, 2).unwrap(), vec![1, 2, 3, 4]);
    assert_eq!(output_inputs(&rows, 2).unwrap(), vec![1, 2, 3, 4]);
    assert!(attention_inputs(&vec![], 2)
        .unwrap_err()
        .message()
        .unwrap()
        .contains("attention projection batch has invalid input geometry"));
    assert!(output_inputs(&rows, 3)
        .unwrap_err()
        .message()
        .unwrap()
        .contains("invalid low-rank geometry"));
    let queries = vec![vec![5], vec![6]];
    assert_eq!(
        indexer_inputs(&rows, &queries, 2, 1).unwrap(),
        (vec![1, 2, 3, 4], vec![5, 6])
    );
    assert!(indexer_inputs(&rows, &vec![vec![5]], 2, 1).is_err());
}

#[test]
fn hyper_connections_check_their_operands() {
    let ones = |count: usize| bits(&vec![1.0; count]);
    let pre = |hidden: usize, iterations: usize, eps: f32| {
        check_hyper_connection_pre(
            &ones(hidden),
            4,
            2,
            8,
            8,
            &ones(3),
            &ones(8),
            iterations,
            single(eps),
            single(1e-6),
        )
    };
    assert!(pre(8, 2, 1e-6).is_ok());
    assert!(pre(7, 2, 1e-6).is_err());
    assert!(pre(8, 0, 1e-6).is_err());
    assert!(pre(8, 2, 0.0).is_err());
    let mix = MixShape {
        pre: 2,
        post: 2,
        combination: 4,
    };
    assert!(check_hyper_connection_post(4, 8, 4, mix).is_ok());
    assert!(check_hyper_connection_post(3, 8, 4, mix).is_err());
    assert!(check_post_bf16(4, 8, 4, mix).is_ok());
    assert!(check_post_bf16(4, 7, 4, mix).is_err());
    assert!(check_hyper_connection_head(8, 4, 2, 2, 8, 2, single(1e-6), single(1e-6)).is_ok());
    assert!(check_hyper_connection_head(8, 4, 2, 2, 8, 1, single(1e-6), single(1e-6)).is_err());
    assert!(check_collapse_bf16(8, 2, 4).is_ok());
    assert!(check_collapse_bf16(8, 0, 4).is_err());
    assert!(check_engram_inject(8, 12, 8, 8, 4, 2, single(1e-6)).is_ok());
    assert!(check_engram_inject(8, 11, 8, 8, 4, 2, single(1e-6)).is_err());
    let predictor = PredictorShape {
        function_rows: 8,
        function_cols: 8,
        scale: 3,
        base: 8,
    };
    let pass = |incoming: &[f32], predictor: PredictorShape| {
        check_single_pass(
            8,
            &bits(incoming),
            4,
            2,
            predictor,
            2,
            single(1e-6),
            single(1e-6),
        )
    };
    assert!(pass(&[1.0, 0.0], predictor).is_ok());
    assert!(pass(&[1.0], predictor).is_err());
    assert!(check_single_pass(
        8,
        &bits(&[1.0]),
        4,
        usize::MAX,
        predictor,
        2,
        single(1e-6),
        single(1e-6),
    )
    .is_err());
    assert!(pass(&[1.0, f32::NAN], predictor).is_err());
    assert!(pass(
        &[1.0, 0.0],
        PredictorShape {
            scale: 2,
            ..predictor
        }
    )
    .is_err());
    assert!(are_finite(&bits(&[1.0, -2.0])));
    assert!(!are_finite(&bits(&[1.0, f32::INFINITY])));
}

#[test]
fn vectors_go_where_they_are_used() {
    let config = tiny_config();
    let values = (0..list_vectors(&config, 1).len() as u32)
        .map(|value| vec![value])
        .collect();
    let vectors = assign_vectors(&config, 1, values);
    assert_eq!(vectors.attn_hc_base, vec![0]);
    assert_eq!(vectors.ffn_hc_scale, vec![3]);
    assert_eq!(vectors.sink, vec![6]);
    assert_eq!(vectors.compressor_norm, Some(vec![9]));
    assert_eq!(vectors.indexer_compressor_norm, Some(vec![10]));
    assert_eq!(vectors.correction_bias, Some(vec![11]));
    let first = assign_vectors(&config, 0, vec![vec![0]; 9]);
    assert_eq!(first.compressor_norm, None);
    assert_eq!(first.correction_bias, None);
}

fn add_native(index: &mut TensorIndex, name: &str, rows: usize, cols: usize) {
    let scale = native_scale_name(name);
    add(index, &scale, DType::F8E8M0, &[rows as u64, 1], 1);
    add(index, name, DType::I8, &[rows as u64, cols as u64 / 2], 1);
    index.set_layout(
        name.to_string(),
        WeightLayout {
            rows,
            cols,
            format: WeightFormat::MxFp4E2M1 { group_size: 32 },
            resident_bytes: rows as u64 * (cols as u64 / 2 + 1),
        },
    );
}

#[test]
fn native_matrices_are_read_into_buffers_of_their_size() {
    let mut index = TensorIndex::new(1, 1 << 20, 1 << 19);
    add_native(&mut index, "a.weight", 4, 32);
    add_matrix(&mut index, "b.weight", 2, 2);
    let mut buffers = DecoderLayerBuffers {
        lengths: Vec::new(),
    };
    assert!(matches!(
        plan_matrix(&index, "a.weight", 4, 32, &mut buffers, false),
        Ok(MatrixLoad::Fresh)
    ));
    buffers.push_weight(WeightFormat::F32, 1, 1);
    assert!(buffers.lengths.is_empty());
    let native = WeightFormat::MxFp4E2M1 { group_size: 32 };
    buffers.push_weight(native, 64, 4);
    buffers.push_weight(native, 8, 2);
    assert_eq!(buffers.take_matching(9, 9), None);
    match plan_matrix(&index, "a.weight", 4, 32, &mut buffers, false).unwrap() {
        MatrixLoad::Native {
            buffer,
            values_len,
            scales_len,
            scales_first,
            scale_name,
            ..
        } => {
            assert_eq!((buffer, values_len, scales_len), (Some(0), 64, 4));
            assert!(scales_first);
            assert_eq!(scale_name, "a.scale");
        }
        MatrixLoad::Fresh => panic!("a pair of buffers was at hand"),
    }
    assert_eq!(buffers.lengths, vec![(8, 2)]);
    assert!(matches!(
        plan_matrix(&index, "b.weight", 2, 2, &mut buffers, true),
        Ok(MatrixLoad::Fresh)
    ));
    assert!(matches!(
        plan_matrix(&index, "a.weight", 4, 32, &mut buffers, true),
        Ok(MatrixLoad::Native { buffer: None, .. })
    ));
    assert!(matches!(
        plan_matrix(&index, "c.weight", 4, 32, &mut buffers, true),
        Err(DeepseekRuntimeError::Storage(_))
    ));
    assert_eq!(weight_storage_bytes(&index, "a.weight").unwrap(), 68);
    assert_eq!(weight_storage_bytes(&index, "b.weight").unwrap(), 16);
}

#[test]
fn experts_are_read_within_their_budget() {
    let mut config = tiny_config();
    config.hidden_size = 32;
    config.moe_intermediate_size = 32;
    let mut index = TensorIndex::new(1, 1 << 20, 1 << 19);
    for part in ["w1", "w2", "w3"] {
        add_native(&mut index, &format!("e.{part}.weight"), 32, 32);
    }
    let plan = plan_expert(&index, "e", &config, 1 << 20, None).unwrap();
    assert_eq!(plan.bytes, 3 * 32 * 17);
    assert_eq!(plan.read_bytes, 3 * 32 * 17);
    assert!(!plan.reused);
    assert!(plan_expert(&index, "e", &config, 1 << 20, Some(3)).unwrap().reused);
    assert!(!plan_expert(&index, "e", &config, 1 << 20, Some(2)).unwrap().reused);
    assert!(matches!(
        plan_expert(&index, "e", &config, 10, None),
        Err(DeepseekRuntimeError::Budget {
            component: "routed expert",
            required: 1632,
            maximum: 10
        })
    ));
    let read = |name: &str| MatrixRead {
        name: name.to_string(),
        rows: 32,
        cols: 32,
    };
    assert_eq!(
        list_native_names(&index, &vec![read("e.w1.weight"), read("e.w3.weight")]).unwrap(),
        vec!["e.w1.weight", "e.w1.scale", "e.w3.weight", "e.w3.scale"]
    );
    add_matrix(&mut index, "plain.weight", 32, 32);
    assert!(list_native_names(&index, &vec![read("plain.weight")])
        .unwrap_err()
        .message()
        .unwrap()
        .contains("reusable expert tensor \"plain.weight\" is not native group-32 MXFP4"));
    add_native(&mut index, "odd", 32, 32);
    assert!(list_native_names(&index, &vec![read("odd")])
        .unwrap_err()
        .message()
        .unwrap()
        .contains("reusable MXFP4 tensor \"odd\" has no .weight suffix"));
}

#[test]
fn the_next_expert_is_loaded_while_one_runs() {
    let mut store = DeepExpertStore::with_geometry(1, 3, 2, 1, 100).unwrap();
    assert!(store.can_stream_grouped_batch(0));
    assert_eq!(
        store.acquire_ahead(0, 1, 10, 20, Some(2)).unwrap(),
        (None, true)
    );
    assert!(!store.can_stream_grouped_batch(0));
    let (evicted, load) = store.acquire_ahead(0, 2, 10, 20, Some(2)).unwrap();
    assert_eq!(evicted.map(|entry| entry.expert), Some(1));
    assert!(!load);
    assert_eq!(store.acquire_ahead(0, 2, 0, 0, None).unwrap(), (None, false));
    assert!(store.acquire_ahead(0, 3, 0, 0, None).is_err());
    assert_eq!(store.telemetry().hits, 1);
}

#[test]
fn what_a_cache_drops_is_known_beforehand() {
    assert_eq!(list_distinct(&vec![3, 1, 3, 2]), vec![3, 1, 2]);
    assert_eq!(position_of(&vec![5, 6, 6], 6), Some(1));
    assert!(!holds(&vec![5, 6], 7));
    assert_eq!(find_victims(&vec![3, 0], &vec![1, 2, 3], 3), vec![3, 0]);
    assert_eq!(find_victims(&vec![3, 0], &vec![3, 1, 2], 3), vec![0]);
    assert_eq!(find_victims(&vec![3], &vec![1, 2], 3), Vec::<usize>::new());
}

#[test]
fn errors_of_the_parts_keep_their_words() {
    let text = |error: DeepseekRuntimeError| error.message().unwrap();
    assert_eq!(
        text(DeepseekRuntimeError::DeepseekMath(DeepseekMathError::Shape(
            "odd".to_string()
        ))),
        "DeepSeek-V4 shape error: odd"
    );
    assert_eq!(
        text(DeepseekRuntimeError::DeepseekMath(
            DeepseekMathError::Invalid("odd".to_string())
        )),
        "invalid DeepSeek-V4 math: odd"
    );
    assert_eq!(
        text(DeepseekRuntimeError::DeepseekMath(
            DeepseekMathError::NonFinite
        )),
        "DeepSeek-V4 math produced NaN or infinity"
    );
    assert_eq!(
        text(DeepseekRuntimeError::Compressor(CompressorError::Invalid(
            "odd".to_string()
        ))),
        "invalid DeepSeek-V4 compressor: odd"
    );
    assert_eq!(
        text(DeepseekRuntimeError::Schema(SchemaError::Invalid(
            "odd".to_string()
        ))),
        "invalid DeepSeek-V4 checkpoint: odd"
    );
    assert_eq!(
        text(DeepseekRuntimeError::Budget {
            component: "KV/state cache",
            required: 3,
            maximum: 2
        }),
        "DeepSeek-V4 KV/state cache needs 3 bytes, authorized maximum is 2"
    );
    assert_eq!(
        text(DeepseekRuntimeError::TokenOutOfRange {
            token: 9,
            vocabulary: 8
        }),
        "token ID 9 is outside vocabulary 0..8"
    );
    assert_eq!(
        text(DeepseekRuntimeError::ContextExhausted {
            position: 4,
            limit: 4
        }),
        "runtime position 4 reaches context limit 4"
    );
}

#[test]
fn compressed_layers_rotate_by_another_base() {
    let config = tiny_config();
    let plain = rope_parameters(0, &config);
    assert_eq!(plain.base, config.rope_theta);
    assert_eq!(plain.original_length, None);
    assert_eq!(f64::from_bits(plain.factor.bits), 1.0);
    for ratio in [4, 128] {
        let compressed = rope_parameters(ratio, &config);
        assert_eq!(compressed.base, config.compress_rope_theta);
        assert_eq!(
            compressed.original_length,
            Some(config.rope_scaling.original_max_position_embeddings)
        );
        assert_eq!(compressed.factor, config.rope_scaling.factor);
        assert_eq!(compressed.beta_fast, config.rope_scaling.beta_fast);
        assert_eq!(compressed.beta_slow, config.rope_scaling.beta_slow);
    }
    assert_eq!(plain.beta_fast, config.rope_scaling.beta_fast);
    assert_eq!(plain.beta_slow, config.rope_scaling.beta_slow);
}

/// One token in one layer, with sums in place of the arithmetic. The result is what it hands on.
fn pass_layer(state: &mut AttentionState, hidden: u32) -> u32 {
    let widths = match state.ratio() {
        0 => (None, None),
        4 => (Some(4), Some(4)),
        _ => (None, Some(2)),
    };
    let ratio = state.ratio();
    let prepared = |wide: Option<usize>| {
        wide.map(|wide| PreparedCompressor {
            kv: vec![hidden; wide],
            score: vec![hidden + 1; wide],
        })
    };
    let weights = |wide: Option<usize>| wide.and_then(|wide| compressor(ratio, wide));
    state.write_local(vec![hidden, hidden + 7]);
    if state
        .write_index(&weights(widths.0), prepared(widths.0))
        .unwrap()
        .is_some()
    {
        state.emit_index(vec![hidden, 1]);
    }
    if state
        .write_compressed(&weights(widths.1), prepared(widths.1))
        .unwrap()
        .is_some()
    {
        state.emit_compressed(vec![hidden, 2]);
    }
    let sum = state
        .cache_rows(2)
        .iter()
        .flatten()
        .fold(hidden, |sum, value| sum.wrapping_mul(31).wrapping_add(*value));
    state.advance();
    sum % 1000
}

#[test]
fn layers_first_and_tokens_first_leave_the_same_state() {
    let model = tiny_model(7);
    let tokens = [1, 5, 2, 7, 3, 6];
    let mut first = model.new_state().unwrap();
    let start = model.begin_prefill(&tokens, &first).unwrap();
    let mut hidden: Vec<u32> = tokens.to_vec();
    for layer in 0..3 {
        for value in &mut hidden {
            *value = pass_layer(&mut first.attention[layer], *value);
        }
    }
    model.finish_prefill(&mut first, start, true);

    let mut second = model.new_state().unwrap();
    let mut last = 0;
    for token in tokens {
        let start = model.begin_token(token, &mut second).unwrap();
        last = token;
        for layer in 0..3 {
            last = pass_layer(&mut second.attention[layer], last);
        }
        model.finish_token(&mut second, start, true);
    }
    assert_eq!(hidden[5], last);
    assert_eq!(first.position(), 6);
    assert_eq!(second.position(), 6);
    assert_eq!(first.cached_f32_elements(), second.cached_f32_elements());
    for layer in 0..3 {
        assert_eq!(
            first.attention[layer].cache_rows(2),
            second.attention[layer].cache_rows(2)
        );
        assert_eq!(
            first.attention[layer].next_position(),
            second.attention[layer].next_position()
        );
    }
}

#[test]
fn buffers_start_empty() {
    assert!(DecoderLayerBuffers::default().lengths.is_empty());
}
