use urbilateria::models::deepseek_v4::compressor as v4;
use urbilateria::models::deepseek_v41::compressor::{CompressorState, Pushed};

fn bits(values: &[f32]) -> Vec<u32> {
    values.iter().map(|value| value.to_bits()).collect()
}

fn floats(values: &[u32]) -> Vec<f32> {
    values.iter().map(|value| f32::from_bits(*value)).collect()
}

/// The pooled row of a full group.
fn pool(width: usize, values: &[u32], scores: &[u32]) -> Vec<f32> {
    let values = floats(values);
    let scores = floats(scores);
    let rows = values.len() / width;
    (0..width)
        .map(|column| {
            let maximum = (0..rows)
                .map(|row| scores[row * width + column])
                .fold(f32::NEG_INFINITY, f32::max);
            let mut numerator = 0.0f64;
            let mut denominator = 0.0f64;
            for row in 0..rows {
                let offset = row * width + column;
                let weight = f64::from((scores[offset] - maximum).exp());
                numerator += weight * f64::from(values[offset]);
                denominator += weight;
            }
            (numerator / denominator) as f32
        })
        .collect()
}

fn push(
    state: &mut CompressorState,
    width: usize,
    position: usize,
    projected: &[f32],
    gate: Option<&[f32]>,
) -> Result<Option<Vec<f32>>, String> {
    let scores = gate.map(bits);
    match state.push(position, &bits(projected), scores.as_deref()) {
        Ok(Pushed::Row(row)) => Ok(Some(floats(&row))),
        Ok(Pushed::Pending) => Ok(None),
        Ok(Pushed::Pool { values, scores }) => Ok(Some(pool(width, &values, &scores))),
        Err(error) => Err(error.message()),
    }
}

#[test]
fn ratio_two_pools_each_feature_with_its_own_softmax() {
    let mut state = CompressorState::new(2, 2).unwrap();
    assert_eq!(
        push(&mut state, 2, 0, &[1.0, 10.0], Some(&[0.0, 10.0])).unwrap(),
        None
    );
    let pooled = push(&mut state, 2, 1, &[3.0, 20.0], Some(&[0.0, 0.0]))
        .unwrap()
        .unwrap();
    assert_eq!(pooled[0], 2.0);
    assert!((pooled[1] - 10.000454).abs() < 1e-5);
    assert_eq!(state.pending_tokens(), 0);
}

#[test]
fn prefill_tail_is_carried_into_decode() {
    let mut state = CompressorState::new(4, 1).unwrap();
    for position in 0..3 {
        assert!(
            push(&mut state, 1, position, &[position as f32], Some(&[0.0]))
                .unwrap()
                .is_none()
        );
    }
    assert_eq!(state.pending_tokens(), 3);
    assert_eq!(
        push(&mut state, 1, 3, &[3.0], Some(&[0.0])).unwrap(),
        Some(vec![1.5])
    );
}

#[test]
fn ratio_one_has_no_gate_or_partial_state() {
    let mut state = CompressorState::new(1, 2).unwrap();
    assert_eq!(
        push(&mut state, 2, 0, &[2.0, 3.0], None).unwrap(),
        Some(vec![2.0, 3.0])
    );
    assert_eq!(state.pending_tokens(), 0);
    assert!(push(&mut state, 2, 1, &[2.0, 3.0], Some(&[0.0, 0.0])).is_err());
}

#[test]
fn refused_tokens_change_nothing() {
    let mut state = CompressorState::new(2, 1).unwrap();
    assert!(push(&mut state, 1, 1, &[1.0], Some(&[0.0])).is_err());
    assert!(push(&mut state, 1, 0, &[f32::NAN], Some(&[0.0])).is_err());
    assert!(push(&mut state, 1, 0, &[1.0], None).is_err());
    assert_eq!(state.next_position(), 0);
    assert_eq!(state.state_bytes(), 16);
    let copy = state.copy();
    push(&mut state, 1, 0, &[1.0], Some(&[0.0])).unwrap();
    assert_eq!(state.next_position(), 1);
    assert_eq!(copy.next_position(), 0);
}

fn shape(rows: usize, cols: usize) -> v4::MatrixShape {
    v4::MatrixShape { rows, cols }
}

fn weights(ratio: usize, wide: usize) -> v4::CompressorWeights {
    v4::CompressorWeights::new(
        ratio,
        2,
        2,
        false,
        shape(ratio, wide),
        shape(wide, 2),
        shape(wide, 2),
        2,
        urbilateria::bits::Float32 {
            bits: 1e-6f32.to_bits(),
        },
    )
    .unwrap()
}

fn prepared(values: &[f32]) -> v4::PreparedCompressor {
    v4::PreparedCompressor {
        kv: bits(values),
        score: bits(&vec![0.0; values.len()]),
    }
}

/// The pooled features of a complete group.
fn pooled_entry(state: &v4::CompressorState, ratio: usize, head_dim: usize) -> Vec<f32> {
    let (kv, score) = state.workspace();
    (0..head_dim)
        .map(|feature| {
            let places = v4::pool_candidates(ratio, head_dim, feature);
            let maximum = places
                .iter()
                .map(|&(row, column)| f32::from_bits(score[row][column]))
                .fold(f32::NEG_INFINITY, f32::max);
            let mut numerator = 0.0f64;
            let mut denominator = 0.0f64;
            for &(row, column) in &places {
                let weight = f64::from((f32::from_bits(score[row][column]) - maximum).exp());
                numerator += weight * f64::from(f32::from_bits(kv[row][column]));
                denominator += weight;
            }
            (numerator / denominator) as f32
        })
        .collect()
}

/// The entry with unit mean square, rounded to eight bits.
fn normalized(values: &[f32], eps: f64) -> Vec<u32> {
    let square: f64 = values.iter().map(|&value| f64::from(value).powi(2)).sum();
    let factor = 1.0 / (square / values.len() as f64 + eps).sqrt();
    values
        .iter()
        .map(|&value| {
            let scaled = (f64::from(value) * factor) as f32;
            urbilateria::models::deepseek_v4::math::round_to_bf16(scaled.to_bits()).unwrap()
        })
        .collect()
}

#[test]
fn non_overlapping_compressor_emits_only_complete_groups() {
    let weights = weights(2, 2);
    let mut state = v4::CompressorState::new(2, 2).unwrap();
    assert!(state
        .accept(&weights, prepared(&[1.0, 0.0]), 0)
        .unwrap()
        .is_none());
    assert!(state.compressed().is_empty());
    let start = state
        .accept(&weights, prepared(&[3.0, 0.0]), 1)
        .unwrap()
        .unwrap();
    assert_eq!(start, 0);
    let entry = normalized(&pooled_entry(&state, 2, 2), 1e-6);
    state.emit(entry);
    assert_eq!(floats(&state.compressed()[0])[0], 1.4140625); // sqrt(2) with eight bits
    assert_eq!(state.compressed().len(), 1);
}

#[test]
fn checkpoint_restores_rolling_workspace_and_truncates_history() {
    let weights = weights(2, 2);
    let mut state = v4::CompressorState::new(2, 2).unwrap();
    state.accept(&weights, prepared(&[1.0, 1.0]), 0).unwrap();
    state.accept(&weights, prepared(&[1.0, 1.0]), 1).unwrap();
    state.emit(bits(&[3.0, 4.0]));
    state.accept(&weights, prepared(&[1.0, 1.0]), 2).unwrap();
    let checkpoint = state.checkpoint();
    let stored = state.stored_f32_elements();
    let kv = state.workspace().0.clone();
    let score = state.workspace().1.clone();

    state.accept(&weights, prepared(&[5.0, 5.0]), 3).unwrap();
    state.emit(bits(&[7.0, 8.0]));
    assert_eq!(state.next_position(), 4);
    assert_eq!(state.compressed().len(), 2);
    state.restore(checkpoint);

    assert_eq!(state.next_position(), 3);
    assert_eq!(state.stored_f32_elements(), stored);
    assert_eq!(state.workspace().0, &kv);
    assert_eq!(state.workspace().1, &score);
    assert_eq!(state.compressed().len(), 1);
    assert_eq!(floats(&state.compressed()[0]), vec![3.0, 4.0]);
}

#[test]
fn pooled_candidates_cover_both_halves_of_an_overlapping_group() {
    assert_eq!(v4::pool_candidates(2, 2, 1), vec![(0, 1), (1, 1)]);
    let overlapping = v4::pool_candidates(4, 2, 1);
    assert_eq!(overlapping.len(), 8);
    assert_eq!(overlapping[0], (0, 1));
    assert_eq!(overlapping[7], (7, 3));
}
