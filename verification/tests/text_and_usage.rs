use serde_json::Value;
use thunder::numbers::{product_capped, signed};
use thunder::text::{
    chars_of, copy_optional, end_without, joined, optional_is, text_between, text_less,
    trimmed_between, white_space, without_trailing_slashes,
};
use thunder::usage::{extract_usage, extract_usage_from_bytes, UsageTokens};

#[test]
fn white_space_is_that_of_std() {
    for code in 0..=0x10ffffu32 {
        if let Some(c) = char::from_u32(code) {
            assert_eq!(white_space(c), c.is_whitespace(), "{code:x}");
        }
    }
}

#[test]
fn trailing_slashes_are_taken_off() {
    assert_eq!(without_trailing_slashes("http://host:1//"), "http://host:1");
    assert_eq!(without_trailing_slashes("http://host:1"), "http://host:1");
    assert_eq!(without_trailing_slashes("/a/b/"), "/a/b");
    assert_eq!(without_trailing_slashes("///"), "");
    assert_eq!(without_trailing_slashes(""), "");
}

#[test]
fn slices_count_characters() {
    let chars = chars_of("aé中z");
    assert_eq!(chars, vec!['a', 'é', '中', 'z']);
    assert_eq!(text_between(&chars, 1, 3), "é中");
    assert_eq!(text_between(&chars, 2, 2), "");
    assert_eq!(end_without(&chars, 4, 'z'), 3);
    assert_eq!(end_without(&chars, 4, 'x'), 4);
    let padded = chars_of("\u{2003} \tab c\r\u{a0}");
    assert_eq!(trimmed_between(&padded, 0, padded.len()), (3, 7));
    let blank = chars_of("  ");
    let (from, to) = trimmed_between(&blank, 0, 2);
    assert_eq!(from, to);
}

#[test]
fn texts_are_compared_as_std_compares_them() {
    let texts = vec!["", "a", "aa", "ab", "b", "é", "中", "\u{10000}", "\u{ffff}"];
    for x in &texts {
        for y in &texts {
            assert_eq!(text_less(x, y), x < y, "{x} {y}");
        }
    }
}

#[test]
fn optional_texts() {
    let some = Some("a".to_string());
    assert_eq!(copy_optional(&some), some);
    assert_eq!(copy_optional(&None), None);
    assert!(optional_is(&some, &"a".to_string()));
    assert!(!optional_is(&some, &"b".to_string()));
    assert!(!optional_is(&None, &"a".to_string()));
    assert_eq!(joined("ab", "c"), "abc");
}

#[test]
fn numbers_wrap_and_cap() {
    assert_eq!(signed(0), 0);
    assert_eq!(signed(i64::MAX as u64), i64::MAX);
    assert_eq!(signed(i64::MAX as u64 + 1), i64::MIN);
    assert_eq!(signed(u64::MAX), -1);
    assert_eq!(product_capped(16, 1000), 16000);
    assert_eq!(product_capped(0, u64::MAX), 0);
    assert_eq!(product_capped(u64::MAX, 2), u64::MAX);
    assert_eq!(product_capped(1 << 32, 1 << 32), u64::MAX);
    assert_eq!(product_capped(1 << 32, (1 << 32) - 1), u64::MAX - (1 << 32) + 1);
}

fn read(text: &str) -> Option<UsageTokens> {
    extract_usage(&text.parse::<Value>().unwrap())
}

#[test]
fn usage_is_read() {
    let usage = read(
        r#"{"usage":{"prompt_tokens":7,"completion_tokens":5,"total_tokens":12,"cached_tokens":3}}"#,
    )
    .unwrap();
    assert_eq!(
        usage,
        UsageTokens {
            prompt_tokens: Some(7),
            completion_tokens: Some(5),
            total_tokens: Some(12),
            cached_tokens: Some(3),
        }
    );
    assert_eq!(usage.total_tokens(), Some(12));
}

#[test]
fn usage_without_counts_is_empty() {
    assert_eq!(read(r#"{"usage":{}}"#), Some(UsageTokens::default()));
    assert_eq!(read(r#"{"usage":null}"#), Some(UsageTokens::default()));
    assert_eq!(
        read(r#"{"usage":{"total_tokens":-1,"prompt_tokens":1.5,"completion_tokens":"3"}}"#),
        Some(UsageTokens::default())
    );
}

#[test]
fn no_usage_is_read_without_the_member() {
    assert_eq!(read(r#"{"id":1}"#), None);
    assert_eq!(read("[1]"), None);
    assert_eq!(read("null"), None);
}

#[test]
fn cached_tokens_fall_back_to_the_prompt_details() {
    let nested = r#"{"usage":{"prompt_tokens_details":{"cached_tokens":9}}}"#;
    assert_eq!(read(nested).unwrap().cached_tokens, Some(9));
    let both = r#"{"usage":{"cached_tokens":2,"prompt_tokens_details":{"cached_tokens":9}}}"#;
    assert_eq!(read(both).unwrap().cached_tokens, Some(2));
    let null = r#"{"usage":{"cached_tokens":null,"prompt_tokens_details":{"cached_tokens":9}}}"#;
    assert_eq!(read(null).unwrap().cached_tokens, None);
    let no_details = r#"{"usage":{"prompt_tokens_details":3}}"#;
    assert_eq!(read(no_details).unwrap().cached_tokens, None);
}

#[test]
fn usage_is_read_from_bytes() {
    let usage = extract_usage_from_bytes(br#" {"usage":{"total_tokens":18446744073709551615}} "#);
    assert_eq!(usage.unwrap().total_tokens, Some(u64::MAX));
    assert_eq!(extract_usage_from_bytes(b"not json"), None);
    assert_eq!(extract_usage_from_bytes(b""), None);
    assert_eq!(extract_usage_from_bytes(b"{\"usage\":{}} trailing"), None);
    assert_eq!(extract_usage_from_bytes(&[0xff]), None);
    let built = Value::Object(serde_json::Map::new()).to_string();
    assert_eq!(extract_usage_from_bytes(built.as_bytes()), None);
}
