use urbilateria::models::deepseek_v41::indexer::{select_candidate_blocks, select_positions};

fn bits(values: &[f32]) -> Vec<u32> {
    values.iter().map(|value| value.to_bits()).collect()
}

#[test]
fn candidate_selection_pins_newest_partial_block() {
    let scores = [10.0, 9.0, 1.0, 1.0, -5.0, -6.0, 100.0, 100.0];
    let keep = select_candidate_blocks(&bits(&scores), 6, 2, 2).unwrap();
    assert_eq!(
        keep,
        vec![true, true, false, false, true, true, false, false]
    );
}

#[test]
fn final_topk_is_sorted_by_position_and_marks_unreachable_prefill_slots() {
    let selected = select_positions(&bits(&[1.0, 4.0, 3.0, 99.0]), 3, 4, 128, None).unwrap();
    assert_eq!(selected, vec![Some(128), Some(129), Some(130), None]);
}

#[test]
fn candidate_mask_is_applied_before_topk() {
    let selected = select_positions(
        &bits(&[9.0, 8.0, 7.0, 6.0]),
        4,
        2,
        0,
        Some(&[false, true, false, true]),
    )
    .unwrap();
    assert_eq!(selected, vec![Some(1), Some(3)]);
}

#[test]
fn equal_scores_go_to_the_earlier_position() {
    let selected = select_positions(&bits(&[2.0, 2.0, 2.0]), 3, 2, 10, None).unwrap();
    assert_eq!(selected, vec![Some(10), Some(11)]);
}

#[test]
fn selections_outside_their_bounds_are_refused() {
    let error = select_positions(&bits(&[1.0]), 2, 1, 0, None).unwrap_err();
    assert!(!error.message().is_empty());
    assert!(select_candidate_blocks(&bits(&[1.0]), 1, 1, 0).is_err());
    assert!(select_positions(&bits(&[1.0, 2.0]), 2, 1, 0, Some(&[true])).is_err());
}
