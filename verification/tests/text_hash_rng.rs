use heirloom::hash::{hex_u64, stable_hash_bytes, stable_hash_tokens, StableFnv64};
use heirloom::rng::{mix_u64, HeirloomRng};
use heirloom::text::{char_is_whitespace, chars_of, decimal_u64, lex_order, str_eq, trim_bounds, Lex};

#[test]
fn decimal_renders_without_leading_zeros() {
    assert_eq!(decimal_u64(0), "0");
    assert_eq!(decimal_u64(7), "7");
    assert_eq!(decimal_u64(1234567890), "1234567890");
    assert_eq!(decimal_u64(u64::MAX), "18446744073709551615");
}

#[test]
fn lex_order_agrees_with_string_order() {
    let words = ["", "a", "ab", "abc", "b", "lm_head", "linear", "linear.0", "Z", "é"];
    for a in words {
        for b in words {
            let expected = if a < b {
                Lex::Before
            } else if a == b {
                Lex::Same
            } else {
                Lex::After
            };
            assert_eq!(lex_order(a, b), expected, "{a:?} vs {b:?}");
        }
    }
}

#[test]
fn str_eq_compares_characters() {
    assert!(str_eq("aten.add", "aten.add"));
    assert!(!str_eq("aten.add", "aten.sub"));
    assert!(!str_eq("aten", "aten.add"));
    assert!(str_eq("", ""));
}

#[test]
fn trim_bounds_strips_unicode_white_space() {
    let chars = chars_of("\u{3000} \t(2, 3)\n\u{a0}");
    let (start, end) = trim_bounds(&chars, 0, chars.len());
    let trimmed: String = chars[start..end].iter().collect();
    assert_eq!(trimmed, "(2, 3)");
    assert!(char_is_whitespace('\u{2028}'));
    assert!(!char_is_whitespace('x'));
    let blank = chars_of("  ");
    let (s, e) = trim_bounds(&blank, 0, blank.len());
    assert_eq!(s, e);
}

#[test]
fn stable_hash_matches_fnv1a_vectors() {
    assert_eq!(stable_hash_bytes(b""), "cbf29ce484222325");
    assert_eq!(stable_hash_bytes(b"a"), "af63dc4c8601ec8c");
    assert_eq!(stable_hash_bytes(b"heirloom"), "63269c18106ca8c4");
    let mut streaming = StableFnv64::new();
    streaming.update(b"heir");
    streaming.update(b"loom");
    assert_eq!(streaming.finish_hex(), "63269c18106ca8c4");
    assert_eq!(hex_u64(0x1f), "000000000000001f");
    assert_ne!(stable_hash_tokens(&[1, 2, 3]), stable_hash_tokens(&[3, 2, 1]));
}

#[test]
fn rng_first_draws_follow_splitmix64() {
    let mut rng = HeirloomRng::new(0);
    assert_eq!(rng.next_u64(), 0xe220a8397b1dcdaf);
    assert_eq!(rng.state(), 0x9e3779b97f4a7c15);
    assert_eq!(rng.next_u64(), 0x6e789e6aa1b965f4);
    let mut resumed = HeirloomRng::from_state(0x9e3779b97f4a7c15);
    assert_eq!(resumed.next_u64(), 0x6e789e6aa1b965f4);
    assert_eq!(mix_u64(0), 0xe220a8397b1dcdaf);
}
