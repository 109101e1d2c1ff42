use openai_models::text::{
    char_is_whitespace, chars_end_with, chars_of, compare_chars, push_decimal, string_of,
    trim_chars, Rank,
};

fn chars(s: &str) -> Vec<char> {
    s.chars().collect()
}

#[test]
fn whitespace_is_what_std_calls_whitespace() {
    let mut code: u32 = 0;
    while code <= 0x10ffff {
        if let Some(c) = char::from_u32(code) {
            assert_eq!(char_is_whitespace(c), c.is_whitespace(), "U+{:04X}", code);
        }
        code += 1;
    }
}

#[test]
fn trim_agrees_with_std() {
    for s in ["", " ", "a", " a", "a ", " a b ", "\n\t x \r\n", "\u{3000}x\u{2028}", "  /  "] {
        let trimmed: String = trim_chars(&chars(s)).into_iter().collect();
        assert_eq!(trimmed, s.trim());
    }
}

#[test]
fn chars_and_strings_round_trip() {
    let s = "地址 https://x 返回 HTTP 404";
    assert_eq!(chars_of(s), chars(s));
    assert_eq!(string_of(&chars(s)), s);
    assert_eq!(string_of(&Vec::new()), "");
    assert_eq!(string_of(&vec!['a', 'é', '模']), "aé模");
}

#[test]
fn suffix_test_agrees_with_std() {
    for (s, suffix) in [
        ("https://a/v1", "/v1"),
        ("https://a/v1", "/models"),
        ("/v1", "/v1"),
        ("v1", "/v1"),
        ("", ""),
        ("abc", ""),
        ("", "a"),
        ("a/models", "/models"),
        ("a/modelz", "/models"),
    ] {
        assert_eq!(chars_end_with(&chars(s), &chars(suffix)), s.ends_with(suffix));
    }
}

#[test]
fn decimal_rendering_is_exact() {
    for (n, text) in [
        (0u64, "0"),
        (7, "7"),
        (10, "10"),
        (404, "404"),
        (65535, "65535"),
        (1234567890, "1234567890"),
        (u64::MAX, "18446744073709551615"),
    ] {
        let mut out = String::from("HTTP ");
        push_decimal(&mut out, n);
        assert_eq!(out, format!("HTTP {}", text));
    }
}

#[test]
fn order_agrees_with_std() {
    let words = ["", "a", "a-model", "a-modelz", "b", "z-model", "Z", "é", "模型", "ab", "\u{10000}"];
    for a in words {
        for b in words {
            let expected = if a < b {
                Rank::Before
            } else if a == b {
                Rank::Same
            } else {
                Rank::After
            };
            assert_eq!(compare_chars(&chars(a), &chars(b)), expected, "{:?} against {:?}", a, b);
        }
    }
}
