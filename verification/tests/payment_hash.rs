use walletka_node::error::NodeError;
use walletka_node::payment_hash::{
    format_payment_hash, identifier_from_entropy, is_all_zero, parse_payment_hash, same_bytes,
    test_payment_hash,
};

fn counting() -> [u8; 32] {
    let mut bytes = [0u8; 32];
    let mut i = 0;
    while i < 32 {
        bytes[i] = (i as u8) * 8 + 1;
        i += 1;
    }
    bytes
}

#[test]
fn format_writes_two_lower_case_digits_per_byte() {
    assert_eq!(format_payment_hash(&[0u8; 32]), "00".repeat(32));
    assert_eq!(format_payment_hash(&[0xffu8; 32]), "ff".repeat(32));
    assert_eq!(format_payment_hash(&[0x0au8; 32]), "0a".repeat(32));
    assert_eq!(
        format_payment_hash(&counting()),
        "0109111921293139414951596169717981899199a1a9b1b9c1c9d1d9e1e9f1f9"
    );
}

#[test]
fn parse_reads_sixty_four_digits() {
    assert_eq!(
        parse_payment_hash("0109111921293139414951596169717981899199a1a9b1b9c1c9d1d9e1e9f1f9"),
        Ok(counting())
    );
    assert_eq!(parse_payment_hash(&"00".repeat(32)), Ok([0u8; 32]));
}

#[test]
fn parse_takes_either_case() {
    assert_eq!(parse_payment_hash(&"AB".repeat(32)), Ok([0xabu8; 32]));
    assert_eq!(parse_payment_hash(&"aB".repeat(32)), Ok([0xabu8; 32]));
    assert_eq!(
        parse_payment_hash("0109111921293139414951596169717981899199A1A9B1B9C1C9D1D9E1E9F1F9"),
        Ok(counting())
    );
}

#[test]
fn parse_refuses_other_lengths() {
    assert_eq!(parse_payment_hash(""), Err(NodeError::InvalidPaymentHash));
    assert_eq!(parse_payment_hash("ab"), Err(NodeError::InvalidPaymentHash));
    assert_eq!(parse_payment_hash(&"a".repeat(63)), Err(NodeError::InvalidPaymentHash));
    assert_eq!(parse_payment_hash(&"a".repeat(65)), Err(NodeError::InvalidPaymentHash));
    assert_eq!(parse_payment_hash(&"a".repeat(66)), Err(NodeError::InvalidPaymentHash));
    assert_eq!(parse_payment_hash(&"a".repeat(128)), Err(NodeError::InvalidPaymentHash));
}

#[test]
fn parse_refuses_other_characters() {
    let mut text = "a".repeat(63);
    text.push('g');
    assert_eq!(parse_payment_hash(&text), Err(NodeError::InvalidPaymentHash));
    let mut text = "a".repeat(63);
    text.push(' ');
    assert_eq!(parse_payment_hash(&text), Err(NodeError::InvalidPaymentHash));
    let mut text = "0x".to_string();
    text.push_str(&"a".repeat(62));
    assert_eq!(parse_payment_hash(&text), Err(NodeError::InvalidPaymentHash));
    let mut text = "a".repeat(62);
    text.push('\u{e9}');
    assert_eq!(text.len(), 64);
    assert_eq!(parse_payment_hash(&text), Err(NodeError::InvalidPaymentHash));
    let mut text = "a".repeat(63);
    text.push('\u{e9}');
    assert_eq!(text.chars().count(), 64);
    assert_eq!(parse_payment_hash(&text), Err(NodeError::InvalidPaymentHash));
}

#[test]
fn writing_then_reading_gives_the_bytes_back() {
    let bytes = counting();
    assert_eq!(parse_payment_hash(&format_payment_hash(&bytes)), Ok(bytes));
    let bytes = [0x5cu8; 32];
    assert_eq!(parse_payment_hash(&format_payment_hash(&bytes)), Ok(bytes));
}

#[test]
fn same_bytes_compares_every_byte() {
    let a = counting();
    let mut b = counting();
    assert!(same_bytes(&a, &b));
    b[31] ^= 1;
    assert!(!same_bytes(&a, &b));
    b[31] ^= 1;
    b[0] ^= 0x80;
    assert!(!same_bytes(&a, &b));
    assert!(same_bytes(&[0u8; 33], &[0u8; 33]));
}

#[test]
fn all_zero_is_told_from_the_rest() {
    assert!(is_all_zero(&[0u8; 32]));
    let mut bytes = [0u8; 32];
    bytes[31] = 1;
    assert!(!is_all_zero(&bytes));
    let mut bytes = [0u8; 32];
    bytes[0] = 0x80;
    assert!(!is_all_zero(&bytes));
}

#[test]
fn entropy_serves_unless_it_is_missing_or_zero() {
    assert_eq!(identifier_from_entropy(Some(counting())), Ok(counting()));
    assert_eq!(identifier_from_entropy(Some([0u8; 32])), Err(NodeError::EntropyUnavailable));
    assert_eq!(identifier_from_entropy(None), Err(NodeError::EntropyUnavailable));
}

#[test]
fn a_supplied_identifier_wins_over_entropy() {
    let supplied = Some("cd".repeat(32));
    assert_eq!(test_payment_hash(&supplied, Some(counting())), Ok([0xcdu8; 32]));
    assert_eq!(test_payment_hash(&supplied, None), Ok([0xcdu8; 32]));
    let bad = Some("xyz".to_string());
    assert_eq!(test_payment_hash(&bad, Some(counting())), Err(NodeError::InvalidPaymentHash));
    assert_eq!(test_payment_hash(&None, Some(counting())), Ok(counting()));
    assert_eq!(test_payment_hash(&None, Some([0u8; 32])), Err(NodeError::EntropyUnavailable));
    assert_eq!(test_payment_hash(&None, None), Err(NodeError::EntropyUnavailable));
}
