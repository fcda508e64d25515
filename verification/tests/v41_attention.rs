use urbilateria::models::deepseek_v41::attention::{
    check_window, find_owner, gather_rows, RoundedRow, RowPlace, SharedAttentionStep, SourceState,
};
use urbilateria::models::deepseek_v41::compressor::Pushed;
use urbilateria::models::deepseek_v41::kv::WindowKvCache;

fn bits(values: &[f32]) -> Vec<u32> {
    values.iter().map(|value| value.to_bits()).collect()
}

/// A row of ones: code 2 of the four-bit format, with the scale 1 of each group.
fn ones(width: usize, group: usize, scale: u8) -> RoundedRow {
    RoundedRow {
        values: bits(&vec![1.0; width]),
        codes: vec![2; width],
        scales: vec![scale; width / group],
    }
}

fn push_window(ring: &mut WindowKvCache, position: usize) {
    ring.append(position, &bits(&[1.0; 32]), vec![0x38; 32], vec![127])
        .unwrap();
}

#[test]
fn a_source_takes_one_key_and_one_entry_per_group() {
    let mut source = SourceState::new(2, 2, 16, 32).unwrap();
    let mut shared = SharedAttentionStep::new();
    let gates = bits(&[0.0; 16]);
    let pushed = source
        .compress(0, &bits(&[1.0; 16]), Some(&gates))
        .unwrap();
    assert!(matches!(pushed, Pushed::Pending));
    assert_eq!(
        source
            .record_key(2, 0, true, false, None, &mut shared)
            .unwrap(),
        0
    );
    let pushed = source
        .compress(1, &bits(&[1.0; 16]), Some(&gates))
        .unwrap();
    assert!(matches!(pushed, Pushed::Pool { .. }));
    assert_eq!(source.key_position(), 0);
    assert_eq!(
        source
            .record_key(2, 1, true, true, Some(ones(32, 32, 127)), &mut shared)
            .unwrap(),
        1
    );
    assert_eq!(source.key_position(), 2);
    source.record_entry(ones(16, 16, 0x38)).unwrap();
    assert_eq!(source.entry_position(), 2);
    // A key is missing at the next complete group.
    let error = source
        .record_key(2, 3, true, false, None, &mut shared)
        .unwrap_err();
    assert_eq!(
        error.message().unwrap(),
        "invalid DeepSeek-V4.1 runtime: index source 2 has 1 keys at position 3, expected 2"
    );
    let error = source
        .record_key(2, 3, false, true, None, &mut shared)
        .unwrap_err();
    assert_eq!(
        error.message().unwrap(),
        "invalid DeepSeek-V4.1 runtime: index owner has incomplete key projection weights"
    );
}

#[test]
fn rows_are_gathered_from_the_window_and_then_from_the_source() {
    let mut ring = WindowKvCache::new(32, 2).unwrap();
    for position in 0..3 {
        push_window(&mut ring, position);
    }
    assert!(check_window(0, &ring, 3).is_ok());
    assert!(check_window(0, &ring, 2).is_err());
    let mut source = SourceState::new(2, 1, 16, 32).unwrap();
    source.record_entry(ones(16, 16, 0x38)).unwrap();
    let mut shared = SharedAttentionStep::new();
    shared.selected = vec![0];
    let rows = gather_rows(&ring, 2, 2, Some(&source), &shared).unwrap();
    assert_eq!(rows.len(), 3);
    assert!(matches!(rows[0], RowPlace::Window(1)));
    assert!(matches!(rows[1], RowPlace::Window(2)));
    assert!(matches!(rows[2], RowPlace::Entry(0)));
    shared.selected = vec![1];
    assert!(gather_rows(&ring, 2, 2, Some(&source), &shared).is_err());
    assert!(gather_rows(&ring, 3, 2, None, &SharedAttentionStep::new()).is_err());
    assert_eq!(find_owner(&vec![source], 2), Some(0));
    assert_eq!(find_owner(&Vec::new(), 2), None);
}

#[test]
fn sources_of_unusable_widths_are_refused() {
    assert!(SourceState::new(2, 0, 16, 32).is_err());
    assert!(SourceState::new(2, 2, 17, 32).is_err());
    assert!(SourceState::new(2, 2, 16, 33).is_err());
}
