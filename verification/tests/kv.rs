use urbilateria::models::deepseek_v41::kv::{
    IndexKeyCache, IndexKeyRow, KvCacheError, MainKvCache, MainKvRow, WindowKvCache, WindowKvRow,
};

fn bits(values: &[f32]) -> Vec<u32> {
    values.iter().map(|value| value.to_bits()).collect()
}

fn decode_e2m1(code: u8) -> f32 {
    let magnitudes = [0.0, 0.5, 1.0, 1.5, 2.0, 3.0, 4.0, 6.0];
    let value = magnitudes[usize::from(code & 7)];
    if code & 8 == 0 {
        value
    } else {
        -value
    }
}

fn decode_e4m3fn(code: u8) -> f32 {
    if code & 0x7f == 0x7f {
        return f32::NAN;
    }
    let sign = if code & 0x80 == 0 { 1.0 } else { -1.0 };
    let exponent = i32::from((code >> 3) & 0x0f);
    let mantissa = f32::from(code & 7);
    if exponent == 0 {
        sign * mantissa * 2.0f32.powi(-9)
    } else {
        sign * (1.0 + mantissa / 8.0) * 2.0f32.powi(exponent - 7)
    }
}

fn decode_e8m0(code: u8) -> f32 {
    2.0f32.powi(i32::from(code) - 127)
}

fn nearest(value: f32, codes: u8, decode: fn(u8) -> f32) -> u8 {
    let mut best = 0;
    for code in 0..=codes {
        let held = decode(code);
        if held.is_finite() && (held - value).abs() < (decode(best) - value).abs() {
            best = code;
        }
    }
    best
}

fn power_of_two_at_least(value: f32) -> u8 {
    let mut code = 1;
    while decode_e8m0(code) < value {
        code += 1;
    }
    code
}

fn maximum(group: &[f32], floor: f32) -> f32 {
    group.iter().fold(floor, |held, value| held.max(value.abs()))
}

fn main_codes(values: &[f32]) -> (Vec<u8>, Vec<u8>) {
    let mut codes = Vec::new();
    let mut scales = Vec::new();
    for group in values.chunks_exact(16) {
        let scale = nearest(maximum(group, 0.0) / 6.0, 0x7e, decode_e4m3fn).max(1);
        scales.push(scale);
        for value in group {
            codes.push(nearest(value / decode_e4m3fn(scale), 15, decode_e2m1));
        }
    }
    (codes, scales)
}

fn index_codes(values: &[f32]) -> (Vec<u8>, Vec<u8>) {
    let mut codes = Vec::new();
    let mut scales = Vec::new();
    for group in values.chunks_exact(32) {
        let scale = power_of_two_at_least(maximum(group, 1.0e-30) / 6.0);
        scales.push(scale);
        for value in group {
            codes.push(nearest(value / decode_e8m0(scale), 15, decode_e2m1));
        }
    }
    (codes, scales)
}

fn window_codes(values: &[f32]) -> (Vec<u8>, Vec<u8>) {
    let mut codes = Vec::new();
    let mut scales = Vec::new();
    for group in values.chunks_exact(32) {
        let scale = power_of_two_at_least(maximum(group, 1.0e-4) / 448.0);
        scales.push(scale);
        for value in group {
            codes.push(nearest(value / decode_e8m0(scale), 0xfe, decode_e4m3fn));
        }
    }
    (codes, scales)
}

fn decode_main(row: &MainKvRow) -> Vec<f32> {
    row.codes()
        .iter()
        .enumerate()
        .map(|(column, &code)| decode_e2m1(code) * decode_e4m3fn(row.scales()[column / 16]))
        .collect()
}

fn decode_window(row: &WindowKvRow) -> Vec<f32> {
    let (values, scales) = row.codes().unwrap();
    values
        .iter()
        .enumerate()
        .map(|(column, &code)| decode_e4m3fn(code) * decode_e8m0(scales[column / 32]))
        .collect()
}

fn reason(error: KvCacheError) -> String {
    error.message()
}

#[test]
fn main_kv_uses_exact_288_byte_release_layout() {
    let values = (0..512)
        .map(|index| (index as f32 - 256.0) / 19.0)
        .collect::<Vec<_>>();
    let (codes, scales) = main_codes(&values);
    let row = MainKvRow::quantize(&bits(&values), &codes, scales).unwrap();
    assert_eq!(row.packed().len(), 256);
    assert_eq!(row.scales().len(), 32);
    assert_eq!(row.storage_bytes(), 288);
    assert!(decode_main(&row).iter().all(|value| value.is_finite()));
    assert_eq!(row.codes(), codes);
}

#[test]
fn zero_groups_keep_the_required_nonzero_e4m3_scale() {
    let values = [0.0; 16];
    let (codes, scales) = main_codes(&values);
    let row = MainKvRow::quantize(&bits(&values), &codes, scales).unwrap();
    assert_eq!(decode_e4m3fn(row.scales()[0]), 2.0f32.powi(-9));
    assert_eq!(decode_main(&row), vec![0.0; 16]);
}

fn push_main(cache: &mut MainKvCache, values: &[f32]) -> Result<(), KvCacheError> {
    let (codes, scales) = main_codes(values);
    cache.push(&bits(values), &codes, scales)
}

#[test]
fn cache_rollback_restores_a_failed_token_boundary() {
    let mut cache = MainKvCache::new(16).unwrap();
    push_main(&mut cache, &[1.0; 16]).unwrap();
    let checkpoint = cache.checkpoint();
    push_main(&mut cache, &[2.0; 16]).unwrap();
    cache.rollback(checkpoint).unwrap();
    assert_eq!(cache.len(), 1);
    assert_eq!(cache.storage_bytes(), 9);
}

#[test]
fn index_key_uses_exact_68_byte_release_layout() {
    let values = (0..128)
        .map(|index| (index as f32 - 64.0) / 7.0)
        .collect::<Vec<_>>();
    let (codes, scales) = index_codes(&values);
    let row = IndexKeyRow::quantize(&bits(&values), &codes, scales).unwrap();
    assert_eq!(row.packed().len(), 64);
    assert_eq!(row.scales().len(), 4);
    assert_eq!(row.storage_bytes(), 68);
    let decoded = row
        .codes()
        .iter()
        .enumerate()
        .map(|(column, &code)| decode_e2m1(code) * decode_e8m0(row.scales()[column / 32]))
        .collect::<Vec<_>>();
    assert!(decoded.iter().all(|value| value.is_finite()));
}

fn append(
    cache: &mut WindowKvCache,
    position: usize,
    values: &[f32],
) -> Result<urbilateria::models::deepseek_v41::kv::WindowKvUndo, KvCacheError> {
    let (codes, scales) = window_codes(values);
    cache.append(position, &bits(values), codes, scales)
}

#[test]
fn window_ring_uses_528_byte_rows_and_rejects_stale_positions() {
    let mut cache = WindowKvCache::new(512, 2).unwrap();
    let first = append(&mut cache, 0, &[1.0; 512]).unwrap();
    assert_eq!(cache.get(0).unwrap().storage_bytes(), 528);
    append(&mut cache, 1, &[2.0; 512]).unwrap();
    append(&mut cache, 2, &[3.0; 512]).unwrap();
    assert!(cache.get(0).is_none());
    assert!(cache.get(2).is_some());
    assert!(cache.rollback(first).is_err());
}

#[test]
fn window_ring_rollback_restores_overwritten_slot() {
    let mut cache = WindowKvCache::new(32, 1).unwrap();
    append(&mut cache, 0, &[1.0; 32]).unwrap();
    let undo = append(&mut cache, 1, &[2.0; 32]).unwrap();
    cache.rollback(undo).unwrap();
    assert_eq!(cache.next_position(), 1);
    assert_eq!(decode_window(cache.get(0).unwrap()), vec![1.0; 32]);
}

#[test]
fn widths_that_do_not_fill_groups_are_refused() {
    assert_eq!(
        reason(MainKvCache::new(17).unwrap_err()),
        "invalid DeepSeek-V4.1 KV cache: cache width must be a non-zero multiple of 16"
    );
    assert_eq!(
        reason(IndexKeyCache::new(0).unwrap_err()),
        "invalid DeepSeek-V4.1 KV cache: index key width must be a non-zero multiple of 32"
    );
    assert!(WindowKvCache::new(32, 0).is_err());
    assert!(WindowKvCache::new(33, 1).is_err());
}

#[test]
fn index_keys_roll_back_to_a_row_count() {
    let mut cache = IndexKeyCache::new(32).unwrap();
    assert!(cache.is_empty());
    for step in 0..3 {
        let values = [step as f32; 32];
        let (codes, scales) = index_codes(&values);
        cache.push(&bits(&values), &codes, scales).unwrap();
    }
    assert_eq!(cache.len(), 3);
    assert_eq!(cache.storage_bytes(), 3 * 17);
    cache.rollback(1).unwrap();
    assert_eq!(cache.len(), 1);
    assert!(cache.row(0).is_some());
    assert!(cache.row(1).is_none());
    assert_eq!(
        reason(cache.rollback(2).unwrap_err()),
        "invalid DeepSeek-V4.1 KV cache: index-key rollback checkpoint is beyond the current cache"
    );
}

#[test]
fn rows_with_values_that_are_not_finite_are_refused() {
    let mut values = [1.0f32; 16];
    values[3] = f32::NAN;
    let mut cache = MainKvCache::new(16).unwrap();
    assert!(cache.push(&bits(&values), &[0; 16], vec![1]).is_err());
    assert!(cache.is_empty());
    let narrow = [1.0f32; 32];
    let (codes, scales) = main_codes(&narrow);
    assert!(cache.push(&bits(&narrow), &codes, scales).is_err());
}

#[test]
fn rows_are_taken_from_their_parts_only_where_these_fit() {
    let row = MainKvRow::from_parts(16, vec![0x21; 8], vec![0x38]).unwrap();
    assert_eq!(row.codes(), vec![1, 2, 1, 2, 1, 2, 1, 2, 1, 2, 1, 2, 1, 2, 1, 2]);
    assert_eq!(row.width(), 16);
    assert_eq!(
        reason(MainKvRow::from_parts(16, vec![0; 7], vec![0x38]).unwrap_err()),
        "invalid DeepSeek-V4.1 KV cache: packed values/scales do not match the declared row width"
    );
    assert_eq!(
        reason(MainKvRow::from_parts(16, vec![0; 8], vec![0]).unwrap_err()),
        "invalid DeepSeek-V4.1 KV cache: cache contains a non-finite or non-positive E4M3 scale"
    );
}

#[test]
fn a_copy_of_a_ring_goes_its_own_way() {
    let mut cache = WindowKvCache::new(32, 2).unwrap();
    append(&mut cache, 0, &[1.0; 32]).unwrap();
    let copy = cache.copy();
    append(&mut cache, 1, &[2.0; 32]).unwrap();
    assert_eq!(cache.next_position(), 2);
    assert_eq!(copy.next_position(), 1);
    assert_eq!(cache.storage_bytes(), 66);
    assert_eq!(copy.storage_bytes(), 33);
}

#[test]
fn bytes_follow_from_widths_and_counts() {
    let mut main = MainKvCache::new(32).unwrap();
    for step in 1..4 {
        push_main(&mut main, &[step as f32; 32]).unwrap();
        assert_eq!(main.storage_bytes(), step * (32 / 2 + 32 / 16));
    }
    let mut ring = WindowKvCache::new(64, 3).unwrap();
    for position in 0..5 {
        append(&mut ring, position, &[1.0; 64]).unwrap();
        let held = (position + 1).min(3);
        assert_eq!(ring.storage_bytes(), held * (64 + 64 / 32));
        for other in 0..8 {
            let last = other <= position && position < other + 3;
            assert_eq!(ring.get(other).is_some(), last);
        }
    }
}

#[test]
fn rows_and_caches_can_be_cloned_and_compared() {
    let mut main = MainKvCache::new(16).unwrap();
    push_main(&mut main, &[1.0; 16]).unwrap();
    let copy = main.clone();
    push_main(&mut main, &[2.0; 16]).unwrap();
    assert_eq!(copy.len(), 1);
    assert_eq!(main.row(0), copy.row(0));
    assert_ne!(main.row(1), copy.row(0));
}
