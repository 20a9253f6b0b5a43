use llm_router_gateway_api::text::{
    chars_of, joined, contains, decimal_string, starts_with, str_eq, string_of, trim, trimmed_eq,
    whitespace,
};

#[test]
fn chars_and_back() {
    let s = "héllo \u{1F600} wörld";
    assert_eq!(string_of(&chars_of(s)), s);
    assert_eq!(chars_of("").len(), 0);
    assert_eq!(chars_of("é").len(), 1);
}

#[test]
fn equality_and_prefixes() {
    assert!(str_eq("abc", "abc"));
    assert!(!str_eq("abc", "abd"));
    assert!(!str_eq("abc", "ab"));
    assert!(str_eq("", ""));
    assert!(starts_with("/health/readiness", "/health"));
    assert!(starts_with("/health", "/health"));
    assert!(!starts_with("/healt", "/health"));
    assert!(starts_with("x", ""));
    assert_eq!(joined("ab", "cd"), "abcd");
}

#[test]
fn contains_agrees_with_the_standard_library() {
    let cases = [
        ("meta/llama-3.1-8b-instruct", "meta/llama-3"),
        ("meta/llama-3.1-8b-instruct", "llama-3.1"),
        ("abc", ""),
        ("", ""),
        ("", "a"),
        ("abc", "abcd"),
        ("aab", "ab"),
        ("aaa", "aa"),
        ("abab", "bab"),
        ("xyz", "zz"),
        ("mistralai/mixtral-8x7b", "mixtral"),
    ];
    for (text, needle) in cases {
        assert_eq!(contains(text, needle), text.contains(needle), "{:?} {:?}", text, needle);
    }
}

#[test]
fn trim_agrees_with_the_standard_library() {
    let cases = [
        "",
        " ",
        "abc",
        "  abc  ",
        "\t\n abc \r\n",
        "a b",
        " a b ",
        "\u{a0}x\u{a0}",
        "\u{2003}x\u{3000}",
        "\u{85}x\u{1680}",
        "\u{2028}\u{2029}x\u{202f}\u{205f}",
        "\u{200b}x\u{200b}",
        "\u{b}\u{c}x",
        "\u{1c}x",
    ];
    for s in cases {
        assert_eq!(trim(s), s.trim(), "{:?}", s);
    }
    assert!(trimmed_eq(" p1 ", "p1"));
    assert!(trimmed_eq("p1", "\tp1\n"));
    assert!(!trimmed_eq("p 1", "p1"));
    assert!(trimmed_eq("  ", ""));
}

#[test]
fn whitespace_agrees_with_the_standard_library() {
    let mut code: u32 = 0;
    while code <= 0x3100 {
        if let Some(c) = char::from_u32(code) {
            assert_eq!(whitespace(c), c.is_whitespace(), "U+{:04X}", code);
        }
        code += 1;
    }
    assert!(!whitespace('\u{e0020}'));
    assert!(!whitespace('\u{feff}'));
}

#[test]
fn decimal_digits() {
    assert_eq!(decimal_string(0), "0");
    assert_eq!(decimal_string(9), "9");
    assert_eq!(decimal_string(10), "10");
    assert_eq!(decimal_string(503), "503");
    assert_eq!(decimal_string(u64::MAX), "18446744073709551615");
}
