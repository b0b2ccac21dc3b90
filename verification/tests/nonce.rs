use web_modules::nonce::{
    encode_hex, generate_nonce, hex_digit, nonce_from_entropy, CspNonce, NonceError,
};

#[test]
fn hex_digits() {
    let digits: String = (0u8..16).map(hex_digit).collect();
    assert_eq!(digits, "0123456789abcdef");
    assert_eq!(hex_digit(16), 'g');
    assert_eq!(hex_digit(168), '\u{ff}');
}

#[test]
fn bytes_in_hexadecimal() {
    assert_eq!(encode_hex(&[0x00, 0x0f, 0xa5, 0xff]), "000fa5ff");
    assert_eq!(encode_hex(&[]), "");
    assert_ne!(encode_hex(&[0x01, 0x10]), encode_hex(&[0x10, 0x01]));
}

#[test]
fn minted_nonces_have_the_form_of_a_nonce_and_differ() {
    let one = generate_nonce().unwrap();
    let two = generate_nonce().unwrap();
    assert_eq!(one.len(), 32);
    assert!(one.chars().all(|c| matches!(c, '0'..='9' | 'a'..='f')));
    assert_ne!(one, two);
    assert_ne!(one, "0".repeat(32));
}

#[test]
fn a_nonce_shows_its_value() {
    let nonce = CspNonce("0a1b".to_string());
    assert_eq!(nonce.as_str(), "0a1b");
    assert_eq!(nonce.to_string(), "0a1b");
    assert_eq!(nonce.clone().0, "0a1b");
}

#[test]
fn the_answer_of_the_random_source_decides() {
    let bytes = [0x5a; 16];
    assert_eq!(nonce_from_entropy(Ok(()), &bytes), Ok("5a".repeat(16)));
    assert_eq!(
        nonce_from_entropy(Err(getrandom::Error::UNSUPPORTED), &bytes),
        Err(NonceError::EntropyUnavailable)
    );
}
