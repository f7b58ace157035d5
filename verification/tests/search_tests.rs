use rand::RngExt;

fn leading_zero_bits_of(hash: &[u8]) -> u32 {
    let mut count = 0u32;
    for n in hash {
        if *n == 0u8 {
            count += 8;
        } else {
            count += n.leading_zeros();
            return count;
        }
    }
    count
}

#[test]
fn it_works_on_random_input() {
    let base_string: String = rand::rng()
        .sample_iter(rand::distr::Alphanumeric)
        .take(30)
        .map(char::from)
        .collect();
    let nb_zeros = rand::rng().random_range(0..6);
    let nb_threads = 10;
    let extra_string = cracker::search::generate_valid_string(&base_string, nb_zeros, nb_threads)
        .unwrap();

    let new_string = base_string.clone() + &extra_string;
    let hash = openssl::sha::sha1(&new_string.into_bytes());
    let count_leading_zeros = hash
        .iter()
        .try_fold(0, |acc, n| {
            if *n == 0u8 {
                Ok(acc + 8)
            } else {
                Err(acc + n.leading_zeros())
            }
        })
        .unwrap_or_else(|e| e);

    assert!(count_leading_zeros >= (nb_zeros * 4));
}

#[test]
fn finds_suffix_at_difficulty_two() {
    let base = String::from("aaaa");
    let suffix = cracker::search::generate_valid_string(&base, 2, 4).unwrap();
    assert!(suffix.is_ascii());
    assert!(suffix.len() <= cracker::space::max_padding(2) as usize);
    let whole = format!("{}{}", base, suffix);
    let hash = openssl::sha::sha1(whole.as_bytes());
    assert!(leading_zero_bits_of(&hash) >= 8);
}

#[test]
fn zero_difficulty_always_succeeds() {
    let base = String::from("any base at all");
    let result = cracker::search::generate_valid_string(&base, 0, 3);
    assert!(result.is_some());
}

#[test]
fn zero_difficulty_with_empty_base() {
    let base = String::new();
    let result = cracker::search::generate_valid_string(&base, 0, 1);
    assert!(result.is_some());
}

#[test]
fn worker_counts_agree_on_success() {
    let base = String::from("hello");
    let one = cracker::search::generate_valid_string(&base, 1, 1).unwrap();
    let eight = cracker::search::generate_valid_string(&base, 1, 8).unwrap();
    for suffix in [one, eight] {
        let whole = format!("{}{}", base, suffix);
        let hash = openssl::sha::sha1(whole.as_bytes());
        assert!(leading_zero_bits_of(&hash) >= 4);
    }
}

#[test]
fn evaluator_is_pure() {
    let message: Vec<u8> = b"the same message twice".to_vec();
    let first = cracker::hashing::evaluate_message(&message);
    let second = cracker::hashing::evaluate_message(&message);
    assert_eq!(first, second);
}

#[test]
fn leading_zero_count_is_exact() {
    // Two zero bytes, then 0b0000_0011: 8 + 8 + 6 bits.
    let digest: Vec<u8> = vec![0u8, 0u8, 3u8, 0xFFu8];
    assert_eq!(cracker::hashing::count_leading_zero_bits(&digest), 22);
    let all_zero: Vec<u8> = vec![0u8; 20];
    assert_eq!(cracker::hashing::count_leading_zero_bits(&all_zero), 160);
    let no_zero: Vec<u8> = vec![0x80u8; 20];
    assert_eq!(cracker::hashing::count_leading_zero_bits(&no_zero), 0);
}

#[test]
fn evaluator_matches_independent_count() {
    let message: Vec<u8> = vec![0u8, 0u8, 0u8, 1u8];
    let counted = cracker::hashing::evaluate_message(&message);
    let hash = openssl::sha::sha1(&message);
    assert_eq!(counted, leading_zero_bits_of(&hash));
}

#[test]
fn search_range_returns_lowest_hit() {
    let base: Vec<u8> = b"aaaa".to_vec();
    let hit = cracker::search::search_range(&base, 0, 5, 300).unwrap();
    assert_eq!(hit, vec![5u8]);
}

#[test]
fn search_range_skips_disallowed_candidates() {
    let base: Vec<u8> = b"aaaa".to_vec();
    // 9 (tab) and 10 (newline) are disallowed digits, so the scan of
    // [9, 32) at difficulty zero must land on 11.
    let hit = cracker::search::search_range(&base, 0, 9, 32).unwrap();
    assert_eq!(hit, vec![11u8]);
}

#[test]
fn empty_range_finds_nothing() {
    let base: Vec<u8> = b"aaaa".to_vec();
    assert!(cracker::search::search_range(&base, 0, 7, 7).is_none());
}

#[test]
fn encoding_round_trip() {
    // 28370 = 0b110111011010010 -> digits 0x52, 0x5D, 0x01, least
    // significant first.
    let digits = cracker::encoding::encode_candidate(28370).unwrap();
    assert_eq!(digits, vec![0x52u8, 0x5Du8, 0x01u8]);
    let decoded = digits
        .iter()
        .rev()
        .fold(0u128, |acc, d| acc * 128 + *d as u128);
    assert_eq!(decoded, 28370);
}

#[test]
fn encoding_edge_values() {
    assert_eq!(cracker::encoding::encode_candidate(0).unwrap(), vec![0u8]);
    assert_eq!(cracker::encoding::encode_candidate(127).unwrap(), vec![127u8]);
    assert_eq!(cracker::encoding::encode_candidate(128).unwrap(), vec![0u8, 1u8]);
}

#[test]
fn encoding_rejects_whitespace_digits() {
    for value in [9u128, 10, 13, 32] {
        assert!(cracker::encoding::encode_candidate(value).is_none());
    }
    // 9 + 128 has the tab byte as its low digit.
    assert!(cracker::encoding::encode_candidate(137).is_none());
}

#[test]
fn space_growth_is_monotone() {
    let mut previous = 0u32;
    for difficulty in 0..=31u32 {
        let padding = cracker::space::max_padding(difficulty);
        assert!(padding >= previous);
        previous = padding;
    }
}

#[test]
fn space_covers_expected_trials() {
    for difficulty in 0..=31u32 {
        assert!(cracker::space::max_value(difficulty) >= 16u128.pow(difficulty));
    }
}

#[test]
fn space_exact_values() {
    assert_eq!(cracker::space::max_padding(0), 0);
    assert_eq!(cracker::space::max_padding(1), 1);
    assert_eq!(cracker::space::max_padding(2), 2);
    assert_eq!(cracker::space::max_padding(7), 4);
    assert_eq!(cracker::space::max_value(0), 1);
    assert_eq!(cracker::space::max_value(2), 16384);
}

#[test]
fn partition_covers_space_exactly() {
    let ranges = cracker::partition::worker_ranges(100, 7);
    assert_eq!(ranges.len(), 7);
    assert_eq!(ranges[0].lower, 0);
    assert_eq!(ranges[6].upper, 100);
    for k in 1..7 {
        assert_eq!(ranges[k].lower, ranges[k - 1].upper);
    }
    for k in 0..6 {
        assert_eq!(ranges[k].upper - ranges[k].lower, 14);
    }
    assert_eq!(ranges[6].upper - ranges[6].lower, 16);
}

#[test]
fn partition_with_more_workers_than_candidates() {
    let ranges = cracker::partition::worker_ranges(5, 10);
    assert_eq!(ranges.len(), 10);
    assert_eq!(ranges[0].lower, 0);
    assert_eq!(ranges[9].upper, 5);
    for k in 1..10 {
        assert_eq!(ranges[k].lower, ranges[k - 1].upper);
    }
}

#[test]
fn partition_single_worker() {
    let ranges = cracker::partition::worker_ranges(16384, 1);
    assert_eq!(ranges.len(), 1);
    assert_eq!(ranges[0].lower, 0);
    assert_eq!(ranges[0].upper, 16384);
}
