use urbilateria::accounting::{checked_sum_of, find_largest};
use urbilateria::bits::{Float32, Float64};
use urbilateria::config::{check_range, checked_product, multiply};
use urbilateria::ranking::{rank, total_order_key, total_order_keys};
use urbilateria::residency::{ExpertTelemetry, LayerLruCache};
use urbilateria::storage::{
    inspect_weight_matrix, DType, StorageError, TensorIndex, TensorInfo, WeightFormat,
    WeightLayout,
};
use urbilateria::text::{
    characters, find, is_white_space, join, join_number, push_decimal, rfind, same_text,
    strip_suffix, trim,
};

#[test]
fn the_most_recent_experts_stay() {
    let mut cache = LayerLruCache::new(2, 2);
    let mut telemetry = ExpertTelemetry::default();
    assert_eq!(cache.layer_count(), 2);
    assert!(cache.access(&mut telemetry, 0, 5, 10, 20).is_none());
    assert!(cache.access(&mut telemetry, 0, 6, 10, 20).is_none());
    assert!(cache.access(&mut telemetry, 0, 5, 10, 20).is_none());
    let evicted = cache.access(&mut telemetry, 0, 7, 10, 20).unwrap();
    assert_eq!(evicted.expert, 6);
    assert!(cache.contains(0, 5) && cache.contains(0, 7) && !cache.contains(0, 6));
    assert!(cache.layer_is_empty(1));
    assert_eq!(
        telemetry,
        ExpertTelemetry {
            hits: 1,
            misses: 3,
            evictions: 1,
            bytes_read: 60,
            resident_experts: 2,
            resident_bytes: 20,
        }
    );
    assert_eq!(cache.missing(0, &vec![6, 7, 6, 8]), vec![6, 8]);
    assert!(!cache.can_insert_without_eviction(0, &vec![6]));
    assert!(cache.can_insert_without_eviction(1, &vec![6, 7]));
    let drained = cache.drain_layer(&mut telemetry, 0);
    assert_eq!(drained.len(), 2);
    assert_eq!(telemetry.resident_experts, 0);
    assert_eq!(telemetry.accesses(), 4);
}

#[test]
fn a_layer_without_slots_holds_nothing() {
    let mut cache = LayerLruCache::new(1, 0);
    let mut telemetry = ExpertTelemetry::default();
    for _ in 0..2 {
        cache.access(&mut telemetry, 0, 1, 10, 20);
    }
    assert_eq!(telemetry.misses, 2);
    assert_eq!(telemetry.resident_bytes, 0);
    assert!(!cache.contains(0, 1));
}

#[test]
fn lent_capacity_is_given_back() {
    let mut cache = LayerLruCache::new(3, 1);
    let mut telemetry = ExpertTelemetry::default();
    cache.access(&mut telemetry, 2, 9, 1, 1);
    let steady = cache.lend_unused_capacity(0, 8);
    assert_eq!(steady, 1);
    // One place of its own and one of the empty layer; the third layer's is taken.
    assert_eq!(cache.layer_capacity(0), 2);
    cache.access_all(&mut telemetry, 0, &vec![3, 4], &vec![(1, 1), (1, 1)]);
    let evicted = cache.restore_layer_capacity(&mut telemetry, 0, steady);
    assert_eq!(evicted.len(), 1);
    assert_eq!(evicted[0].expert, 3);
    assert_eq!(cache.layer_capacity(0), 1);
}

#[test]
fn borrowed_places_leave_the_same_experts_behind() {
    let uses = vec![4, 1, 4, 2, 5, 1, 3];
    let sizes = vec![(10, 20); uses.len()];
    let mut plain = LayerLruCache::new(3, 2);
    let mut counted = ExpertTelemetry::default();
    plain.access_all(&mut counted, 1, &uses, &sizes);
    let mut wide = LayerLruCache::new(3, 2);
    let mut telemetry = ExpertTelemetry::default();
    let steady = wide.lend_unused_capacity(1, 5);
    assert_eq!(wide.layer_capacity(1), 5);
    wide.access_all(&mut telemetry, 1, &uses, &sizes);
    assert_eq!(telemetry.hits, 2);
    let evicted: Vec<usize> = wide
        .restore_layer_capacity(&mut telemetry, 1, steady)
        .iter()
        .map(|entry| entry.expert)
        .collect();
    assert_eq!(evicted, vec![4, 2, 5]);
    assert_eq!(telemetry.accesses(), counted.accesses());
    assert_eq!(telemetry.resident_experts, counted.resident_experts);
    assert_eq!(telemetry.resident_bytes, counted.resident_bytes);
    assert_eq!(
        plain.drain_layer(&mut counted, 1),
        wide.drain_layer(&mut telemetry, 1)
    );
}

#[test]
fn ranks_go_down_and_ties_go_to_the_first() {
    let bits: Vec<u32> = [1.0f32, 3.0, 3.0, -0.0, 0.0]
        .iter()
        .map(|value| value.to_bits())
        .collect();
    assert_eq!(rank(&total_order_keys(&bits)), vec![1, 2, 0, 4, 3]);
    assert!(total_order_key(f32::NAN.to_bits()) > total_order_key(f32::INFINITY.to_bits()));
    for left in [-2.0f32, -0.5, 0.25, 7.0] {
        for right in [-2.0f32, -0.5, 0.25, 7.0] {
            assert_eq!(
                total_order_key(left.to_bits()) < total_order_key(right.to_bits()),
                left < right
            );
        }
    }
}

fn info(dtype: DType, shape: &[u64]) -> TensorInfo {
    TensorInfo {
        dtype,
        shape: shape.to_vec(),
        data_len: 0,
        shard: 0,
        data_offset: 0,
    }
}

#[test]
fn an_index_keeps_the_first_declaration() {
    let mut index = TensorIndex::new(3, 100, 90);
    assert!(index.declare("a".to_string(), info(DType::F32, &[1])));
    assert!(!index.declare("a".to_string(), info(DType::Bf16, &[2])));
    assert_eq!(index.names(), &vec!["a".to_string()]);
    assert_eq!(index.require("a").unwrap().dtype, DType::F32);
    assert!(matches!(index.require("b"), Err(StorageError::Missing(name)) if name == "b"));
    assert!(index.get("b").is_none());
    assert_eq!(index.shards(), 3);
    assert_eq!(index.total_file_bytes(), 100);
    assert_eq!(index.total_payload_bytes(), 90);
    assert_eq!(DType::F8E4M3.name(), "F8_E4M3");
    let layout = WeightLayout {
        rows: 2,
        cols: 3,
        format: WeightFormat::MxFp4E2M1 { group_size: 32 },
        resident_bytes: 7,
    };
    index.set_layout("m".to_string(), layout);
    assert_eq!(inspect_weight_matrix(&index, "m", 2, 3).unwrap(), layout);
    assert!(inspect_weight_matrix(&index, "m", 3, 2).is_err());
    assert!(layout.format.has_native_scale());
    assert!(!WeightFormat::F32.has_native_scale());
}

#[test]
fn checked_arithmetic_names_what_overflows() {
    assert_eq!(multiply(&[2, 3, 4]), Some(24));
    assert_eq!(multiply(&[usize::MAX, 2]), None);
    assert_eq!(
        checked_product("thing", &[usize::MAX, 2])
            .unwrap_err()
            .message(),
        format!("thing dimensions overflow usize: [{}, 2]", usize::MAX)
    );
    assert_eq!(
        check_range("n", 5, 1, 4).unwrap_err().message(),
        "n=5 is outside [1, 4]"
    );
    assert_eq!(checked_sum_of(&vec![1, 2, 3]), Some(6));
    assert_eq!(checked_sum_of(&vec![u64::MAX, 1]), None);
    assert_eq!(find_largest(&vec![1, 9, 3]), 9);
}

#[test]
fn texts_are_cut_and_joined_by_characters() {
    let mut digits = String::new();
    push_decimal(&mut digits, 0);
    push_decimal(&mut digits, u64::MAX);
    assert_eq!(digits, "018446744073709551615");
    assert_eq!(join("a", "b"), "ab");
    assert_eq!(join_number("layer ", 12), "layer 12");
    assert!(same_text("é", "é"));
    assert!(!same_text("a", "ab"));
    assert_eq!(strip_suffix("x.weight", ".weight"), Some("x"));
    assert_eq!(strip_suffix("x.scale", ".weight"), None);
    assert_eq!(trim("\t é \n"), "é");
    assert!(is_white_space('\u{3000}'));
    assert!(!is_white_space('x'));
    let text = characters("abcabc");
    assert_eq!(find(&text, &characters("bc")), Some(1));
    assert_eq!(rfind(&text, 6, &characters("bc")), Some(4));
    assert_eq!(rfind(&text, 5, &characters("bc")), Some(1));
    assert_eq!(find(&text, &characters("cc")), None);
}

#[test]
fn positive_finite_values_are_told_by_their_bits() {
    for (value, expected) in [
        (1.0f64, true),
        (f64::MIN_POSITIVE / 2.0, true),
        (0.0, false),
        (-1.0, false),
        (f64::INFINITY, false),
        (f64::NAN, false),
    ] {
        let held = Float64 {
            bits: value.to_bits(),
        };
        assert_eq!(held.is_positive_finite(), expected);
        assert_eq!(held.is_zero(), value == 0.0);
        let single = Float32 {
            bits: (value as f32).to_bits(),
        };
        assert_eq!(
            single.is_positive_finite(),
            (value as f32).is_finite() && value as f32 > 0.0
        );
    }
}
