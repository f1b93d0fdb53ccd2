use blockchain::chain::Chain;
use blockchain::digest::DIGEST_LENGTH;
use blockchain::pow::MiningError;
use blockchain::record::BlockHeader;

fn header(difficulty: u32) -> BlockHeader {
    BlockHeader {
        timestamp: 1700000000,
        nonce: 0,
        previous_hash: "0".repeat(64),
        merkle_root: "85d6a56566ad9de487829bf78b32336360ec10dbc6edcae0352943b34b8c2205".to_string(),
        difficulty,
    }
}

fn hash_with_nonce(difficulty: u32, nonce: u32) -> String {
    let mut candidate = header(difficulty);
    candidate.nonce = nonce;
    Chain::hash(&candidate)
}

#[test]
fn digest_length_is_64() {
    assert_eq!(DIGEST_LENGTH, 64);
}

#[test]
fn prefix_of_zeros_is_admitted() {
    assert!(Chain::meets_difficulty("000abc", 1));
    assert!(Chain::meets_difficulty("000abc", 2));
    assert!(Chain::meets_difficulty("000abc", 3));
}

#[test]
fn prefix_with_a_letter_is_not_admitted() {
    assert!(!Chain::meets_difficulty("000abc", 4));
    assert!(!Chain::meets_difficulty("a00000", 1));
    assert!(!Chain::meets_difficulty("0f0000", 2));
}

#[test]
fn prefix_with_a_nonzero_digit_is_not_admitted() {
    assert!(!Chain::meets_difficulty("100000", 1));
    assert!(!Chain::meets_difficulty("001000", 3));
    assert!(!Chain::meets_difficulty("009", 3));
}

#[test]
fn empty_prefix_is_not_admitted() {
    assert!(!Chain::meets_difficulty("000abc", 0));
    assert!(!Chain::meets_difficulty("", 0));
    assert!(!Chain::meets_difficulty(&"0".repeat(64), 0));
}

#[test]
fn prefix_longer_than_the_digest_is_not_admitted() {
    assert!(!Chain::meets_difficulty("000", 4));
    assert!(!Chain::meets_difficulty("", 1));
    assert!(!Chain::meets_difficulty(&"0".repeat(64), 65));
}

#[test]
fn whole_digest_of_zeros_is_admitted() {
    assert!(Chain::meets_difficulty(&"0".repeat(64), 64));
    assert!(Chain::meets_difficulty("000", 3));
}

#[test]
fn prefix_is_counted_in_characters() {
    assert!(Chain::meets_difficulty("00\u{e9}", 2));
    assert!(!Chain::meets_difficulty("00\u{e9}", 3));
    assert!(!Chain::meets_difficulty("00\u{e9}", 4));
}

#[test]
fn proof_of_work_finds_the_least_admitted_nonce() {
    let mut mined = header(1);
    assert_eq!(Chain::proof_of_work(&mut mined), Ok(()));
    assert!(Chain::hash(&mined).starts_with('0'));
    for nonce in 0..mined.nonce {
        assert!(!hash_with_nonce(1, nonce).starts_with('0'));
    }
}

#[test]
fn proof_of_work_changes_the_nonce_only() {
    let mut mined = header(1);
    assert_eq!(Chain::proof_of_work(&mut mined), Ok(()));
    let found = mined.nonce;
    mined.nonce = 0;
    assert_eq!(mined, header(1));
    assert_eq!(Chain::hash(&mined), hash_with_nonce(1, 0));
    assert!(hash_with_nonce(1, found).starts_with('0'));
}

#[test]
fn proof_of_work_with_two_leading_zeros() {
    let mut mined = header(2);
    assert_eq!(Chain::proof_of_work(&mut mined), Ok(()));
    assert!(Chain::hash(&mined).starts_with("00"));
    for nonce in 0..mined.nonce {
        assert!(!hash_with_nonce(2, nonce).starts_with("00"));
    }
}

#[test]
fn proof_of_work_starts_at_nonce_zero() {
    let mut fresh = header(1);
    assert_eq!(Chain::proof_of_work(&mut fresh), Ok(()));
    let mut used = header(1);
    used.nonce = 4000000;
    assert_eq!(Chain::proof_of_work(&mut used), Ok(()));
    assert_eq!(used.nonce, fresh.nonce);
}

#[test]
fn proof_of_work_with_difficulty_zero_admits_nothing() {
    let mut candidate = header(0);
    candidate.nonce = 9;
    assert_eq!(Chain::proof_of_work(&mut candidate), Err(MiningError::NonceSpaceExhausted));
    let mut expected = header(0);
    expected.nonce = 9;
    assert_eq!(candidate, expected);
}

#[test]
fn proof_of_work_refuses_a_difficulty_beyond_the_digest() {
    let mut candidate = header(65);
    candidate.nonce = 3;
    assert_eq!(Chain::proof_of_work(&mut candidate), Err(MiningError::DifficultyExceedsDigest));
    let mut expected = header(65);
    expected.nonce = 3;
    assert_eq!(candidate, expected);
    let mut largest = header(u32::MAX);
    assert_eq!(Chain::proof_of_work(&mut largest), Err(MiningError::DifficultyExceedsDigest));
}

#[test]
fn search_within_a_limit_finds_what_the_full_search_finds() {
    let mut full = header(1);
    assert_eq!(Chain::proof_of_work(&mut full), Ok(()));
    let mut bounded = header(1);
    assert!(Chain::search_nonce(&mut bounded, full.nonce));
    assert_eq!(bounded, full);
}

#[test]
fn search_below_the_least_nonce_fails_and_restores_the_header() {
    let mut full = header(2);
    assert_eq!(Chain::proof_of_work(&mut full), Ok(()));
    assert!(full.nonce > 0);
    let mut bounded = header(2);
    bounded.nonce = 77;
    assert!(!Chain::search_nonce(&mut bounded, full.nonce - 1));
    let mut expected = header(2);
    expected.nonce = 77;
    assert_eq!(bounded, expected);
}

#[test]
fn search_with_the_whole_digest_as_prefix_gives_up_at_the_limit() {
    let mut candidate = header(64);
    assert!(!Chain::search_nonce(&mut candidate, 50));
    assert_eq!(candidate, header(64));
}

#[test]
fn search_with_limit_zero_tries_nonce_zero_only() {
    let mut candidate = header(1);
    let admitted = Chain::search_nonce(&mut candidate, 0);
    assert_eq!(admitted, hash_with_nonce(1, 0).starts_with('0'));
    assert_eq!(candidate.nonce, 0);
}
