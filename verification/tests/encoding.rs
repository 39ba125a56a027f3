use emotechat_backend::base62_decode;
use emotechat_backend::base62_encode;

#[test]
fn encode_zero_is_first_symbol() {
    assert_eq!(base62_encode(0), "a");
}

#[test]
fn encode_single_symbols() {
    assert_eq!(base62_encode(1), "b");
    assert_eq!(base62_encode(25), "z");
    assert_eq!(base62_encode(26), "A");
    assert_eq!(base62_encode(51), "Z");
    assert_eq!(base62_encode(52), "0");
    assert_eq!(base62_encode(61), "9");
}

#[test]
fn encode_multi_symbol_values() {
    assert_eq!(base62_encode(62), "ba");
    assert_eq!(base62_encode(63), "bb");
    assert_eq!(base62_encode(62 * 62), "baa");
    assert_eq!(base62_encode(12345), "dnh");
}

#[test]
fn encode_length_never_shrinks() {
    let mut prev_len = base62_encode(0).len();
    for n in 1u64..5000 {
        let len = base62_encode(n).len();
        assert!(len >= prev_len);
        prev_len = len;
    }
}

#[test]
fn encode_length_grows_at_base_powers() {
    assert_eq!(base62_encode(61).chars().count(), 1);
    assert_eq!(base62_encode(62).chars().count(), 2);
    assert_eq!(base62_encode(62 * 62 - 1).chars().count(), 2);
    assert_eq!(base62_encode(62 * 62).chars().count(), 3);
}

#[test]
fn decode_undoes_encode() {
    for n in (0u64..5000).chain([u64::MAX - 1, u64::MAX]) {
        assert_eq!(base62_decode(&base62_encode(n)), Some(n));
    }
}

#[test]
fn decode_rejects_what_the_encoder_never_produces() {
    assert_eq!(base62_decode(""), None);
    assert_eq!(base62_decode("a!"), None);
    assert_eq!(base62_decode("ab"), None, "zero-symbol padding is not canonical");
    assert_eq!(base62_decode("monka\u{B7}a"), None);
    // one above u64::MAX
    assert_eq!(base62_decode("v8QrKbgkrIq"), None);
}

#[test]
fn decode_known_values() {
    assert_eq!(base62_decode("a"), Some(0));
    assert_eq!(base62_decode("9"), Some(61));
    assert_eq!(base62_decode("ba"), Some(62));
    assert_eq!(base62_decode("dnh"), Some(12345));
}

#[test]
fn encode_is_injective_on_a_range() {
    let mut seen = std::collections::HashSet::new();
    for n in 0u64..5000 {
        assert!(seen.insert(base62_encode(n)), "duplicate encoding for {}", n);
    }
}
