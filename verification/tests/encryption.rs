use blockchain::encryption::Exchange;

#[test]
fn basic_handshake() {}

#[test]
fn safe_char_sum() {
    let max_char: u32 = char::MAX as u32;
    let max_key = u32::MAX - max_char;
    assert!(matches!(max_key.checked_add(max_char), Some(_)));
}

#[test]
fn basic_decription() {
    let exchange = Exchange { shared_key: 255 };
    let message = "Hi there! 😃";

    let ciphertext = exchange.encrypt(message);
    let decrypted_msg = exchange.decrypt(&ciphertext);
    assert_eq!(message, decrypted_msg);
}

#[test]
fn encrypt_shifts_ascii() {
    let exchange = Exchange { shared_key: 1 };
    assert_eq!(exchange.encrypt("abc"), "bcd");
    assert_eq!(exchange.decrypt("bcd"), "abc");
}

#[test]
fn encrypt_with_zero_key_is_identity() {
    let exchange = Exchange { shared_key: 0 };
    assert_eq!(exchange.encrypt("hello"), "hello");
    assert_eq!(exchange.decrypt("hello"), "hello");
}
