use parano1d_permanode::hexcodec::{decode_hex, encode_hex, pairs_cut_on_chars};
use parano1d_permanode::live_rpc::{expected_hashes, hex_decode};
use parano1d_permanode::text::{
    decimal_i64, decimal_u128, decimal_u64, digit_str, hex_fixed_u64, parse_i64, parse_u128, parse_u64,
};

#[test]
fn decimal_text_matches_std() {
    for n in [0u64, 7, 10, 99, 100, 4_730_400, u64::MAX] {
        assert_eq!(decimal_u64(n), n.to_string());
    }
    assert_eq!(decimal_u128(u128::MAX), u128::MAX.to_string());
    for i in [0i64, -1, 42, -987_654, i64::MIN, i64::MAX] {
        assert_eq!(decimal_i64(i), i.to_string());
    }
    assert_eq!(digit_str(11), "b");
    assert_eq!(hex_fixed_u64(0xcbf2_9ce4_8422_2325, 16), "cbf29ce484222325");
    assert_eq!(hex_fixed_u64(0xab, 4), "00ab");
    assert_eq!(hex_fixed_u64(0x1234, 2), "34");
}

#[test]
fn parsing_numbers_like_std() {
    for s in ["0", "42", "18446744073709551615", "18446744073709551616", "", "-1", "+7", "1a", " 1", "007"] {
        assert_eq!(parse_u64(s), s.parse::<u64>().ok(), "{s}");
        assert_eq!(parse_u128(s), s.parse::<u128>().ok(), "{s}");
        assert_eq!(parse_i64(s), s.parse::<i64>().ok(), "{s}");
    }
    for s in ["-9223372036854775808", "-9223372036854775809", "9223372036854775807", "9223372036854775808", "-", "+", "-0"] {
        assert_eq!(parse_i64(s), s.parse::<i64>().ok(), "{s}");
    }
}

#[test]
fn hex_round_trip() {
    let bytes = vec![0u8, 1, 0xab, 0xff, 0x10];
    let text = encode_hex(&bytes);
    assert_eq!(text, "0001abff10");
    assert_eq!(decode_hex(&text), Some(bytes));
    assert_eq!(decode_hex("ABcd"), Some(vec![0xab, 0xcd]));
    assert_eq!(decode_hex(""), Some(vec![]));
    assert_eq!(decode_hex("abc"), None);
    assert_eq!(decode_hex("zz"), None);
    assert_eq!(encode_hex(&[]), "");
}

#[test]
fn pairwise_hex_decode() {
    assert_eq!(hex_decode("00ff10"), Some(vec![0, 0xff, 0x10]));
    assert_eq!(hex_decode("FfAa"), Some(vec![0xff, 0xaa]));
    assert_eq!(hex_decode("+f"), Some(vec![0x0f]));
    assert_eq!(hex_decode("0"), None);
    assert_eq!(hex_decode("g0"), None);
    assert_eq!(hex_decode(""), Some(vec![]));
}

#[test]
fn expected_hashes_is_two_to_the_256_over_target() {
    // target 1 (little endian): 2^256
    let one = format!("01{}", "00".repeat(31));
    assert_eq!(
        expected_hashes(&one).as_deref(),
        Some("115792089237316195423570985008687907853269984665640564039457584007913129639936")
    );
    // target 2^255 (top bit of the last byte): 2
    let half = format!("{}80", "00".repeat(31));
    assert_eq!(expected_hashes(&half).as_deref(), Some("2"));
    // target 3: floor(2^256 / 3)
    assert_eq!(
        expected_hashes("03").as_deref(),
        Some("38597363079105398474523661669562635951089994888546854679819194669304376546645")
    );
    assert_eq!(expected_hashes(&"00".repeat(32)), None);
    assert_eq!(expected_hashes("xyz1"), None);
    assert_eq!(expected_hashes("abc"), None);
}

#[test]
fn pair_cuts() {
    assert!(pairs_cut_on_chars("00ff"));
    assert!(pairs_cut_on_chars("abc"));
    assert!(pairs_cut_on_chars(""));
    assert!(pairs_cut_on_chars("é0"));
    assert!(!pairs_cut_on_chars("0é0"));
    assert!(pairs_cut_on_chars("é"));
    assert!(pairs_cut_on_chars("aé"));
}
