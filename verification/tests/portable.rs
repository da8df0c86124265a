use codex_local_sync::portable::{
    apple_quote, decode_hex, decode_utf8_hex, encode_utf8_hex, shell_quote,
};

#[test]
fn hex_round_trip_of_a_path() {
    let encoded = encode_utf8_hex("C:/数据/a b");
    assert_eq!(encode_utf8_hex("ab"), "6162");
    assert_eq!(decode_utf8_hex(&encoded), Some("C:/数据/a b".to_string()));
}

#[test]
fn invalid_hex_is_rejected() {
    assert_eq!(decode_hex("0"), None);
    assert_eq!(decode_hex("zz"), None);
    assert_eq!(decode_hex("ff00"), Some(vec![255u8, 0]));
    assert_eq!(decode_hex("aé"), None);
    assert_eq!(decode_hex("+f"), Some(vec![15u8]));
    assert_eq!(decode_utf8_hex("aé"), None);
    assert_eq!(decode_utf8_hex("ff"), None);
}

#[test]
fn shell_and_apple_quoting() {
    assert_eq!(shell_quote("it's"), "'it'\\''s'");
    assert_eq!(apple_quote("a\"b\\c"), "\"a\\\"b\\\\c\"");
}
