use urbilateria::primes::{is_prime, miller_rabin_round, modular_pow, next_unseen_prime};

#[test]
fn primality_reference_rejects_composites() {
    assert!(is_prime(16_000_057));
    assert!(!is_prime(16_000_057 * 3));
}

#[test]
fn release_prime_layout_sums_to_both_table_sizes() {
    let engram_layer_ids = [1usize, 14];
    let engram_max_ngram_size = 4;
    let engram_vocab_size = 16_000_000u64;
    let engram_n_heads = 8;
    let mut seen: Vec<u64> = Vec::new();
    let mut sums = Vec::new();
    for _ in &engram_layer_ids {
        let mut sum = 0;
        for _ in 1..engram_max_ngram_size {
            let mut current = engram_vocab_size - 1;
            for _ in 0..engram_n_heads {
                current = next_unseen_prime(current, &seen).unwrap();
                seen.push(current);
                sum += current;
            }
        }
        sums.push(sum);
    }
    assert_eq!(sums, vec![384_006_168, 384_016_682]);
}

#[test]
fn small_numbers_are_classified() {
    let primes: Vec<u64> = (0..60).filter(|&n| is_prime(n)).collect();
    assert_eq!(
        primes,
        vec![2, 3, 5, 7, 11, 13, 17, 19, 23, 29, 31, 37, 41, 43, 47, 53, 59]
    );
}

#[test]
fn a_prime_passes_every_round() {
    // 97 - 1 == 3 * 2^5
    for base in 1..97 {
        assert!(miller_rabin_round(97, 3, 5, base));
    }
    // 2047 == 23 * 89 is a strong pseudoprime to base 2 and no prime.
    assert!(!is_prime(2047));
}

#[test]
fn powers_are_taken_modulo() {
    assert_eq!(modular_pow(3, 4, 7), 4);
    assert_eq!(modular_pow(2, 64, 1_000_000_007), 582_344_008);
    assert_eq!(modular_pow(5, 0, 9), 1);
}

#[test]
fn the_next_prime_skips_what_was_seen() {
    assert_eq!(next_unseen_prime(7, &Vec::new()), Some(11));
    assert_eq!(next_unseen_prime(7, &vec![11, 13]), Some(17));
    assert_eq!(next_unseen_prime(u64::MAX, &Vec::new()), None);
}
