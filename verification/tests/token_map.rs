use urbilateria::models::deepseek_v41::token_map::{
    build_compressed_token_map, collapse_spaces, finish_normalization, is_mark_category, make_key,
    normalize_engram_token, strip_marks, token_map_fingerprint,
};

fn texts(list: &[&str]) -> Vec<String> {
    list.iter().map(|text| text.to_string()).collect()
}

#[test]
fn normalization_preserves_a_single_space_and_collapses_accents_and_case() {
    assert_eq!(normalize_engram_token(" "), " ");
    assert_eq!(normalize_engram_token("  A\u{301}\tB  "), "a b");
}

#[test]
fn compatibility_forms_are_composed_and_decomposed() {
    // The ligature and the full-width letter are compatibility forms.
    assert_eq!(normalize_engram_token("\u{fb01}"), "fi");
    assert_eq!(normalize_engram_token("\u{ff21}"), "a");
    // A precomposed letter loses its accent.
    assert_eq!(normalize_engram_token("\u{e9}"), "e");
}

#[test]
fn marks_are_stripped_and_letters_are_lowered() {
    assert_eq!(strip_marks("e\u{301}x"), "ex");
    // Nonspacing, spacing and enclosing marks.
    assert_eq!(strip_marks("a\u{300}\u{903}\u{20dd}B"), "ab");
    assert!(is_mark_category("Mn") && is_mark_category("Mc") && is_mark_category("Me"));
    assert!(!is_mark_category("Lu") && !is_mark_category("Sm"));
    assert_eq!(finish_normalization("E\u{301}\tF"), "e f");
}

#[test]
fn blanks_collapse_once() {
    let once = collapse_spaces("a \t b\n\nc");
    assert_eq!(once, "a b c");
    assert_eq!(collapse_spaces(&once), once);
}

#[test]
fn keys_fall_back_to_the_raw_token() {
    let key = make_key("Word", "raw");
    assert_eq!(key, "word");
    assert_eq!(make_key("\u{fffd}x", "raw"), "raw");
}

#[test]
fn tokens_share_an_id_exactly_with_their_key() {
    let decoded = texts(&["A", "a", "b", "A\u{301}", "\u{fffd}", " "]);
    let raw = texts(&["t0", "t1", "t2", "t3", "t4", "t5"]);
    let map = build_compressed_token_map(&decoded, &raw);
    assert_eq!(map, vec![0, 0, 1, 0, 2, 3]);
    for left in 0..map.len() {
        for right in 0..map.len() {
            assert_eq!(
                map[left] == map[right],
                make_key(&decoded[left], &raw[left]) == make_key(&decoded[right], &raw[right])
            );
        }
    }
}

#[test]
fn the_fingerprint_is_fnv1a_over_little_endian_bytes() {
    let mut expected = 0xcbf2_9ce4_8422_2325u64;
    for value in [1u32, 0x0102_0304] {
        for byte in value.to_le_bytes() {
            expected = (expected ^ u64::from(byte)).wrapping_mul(0x0000_0100_0000_01b3);
        }
    }
    assert_eq!(token_map_fingerprint(&vec![1, 0x0102_0304]), expected);
}
