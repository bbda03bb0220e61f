use vroomrs::pattern::{matches_pattern, strip_pattern};
use vroomrs::text::{
    chars_of, component_start, contains_chars, first_component_len, matches_at, str_contains,
    str_equals, str_starts_with, trimmed_len,
};

#[test]
fn prefixes_and_substrings() {
    assert!(str_starts_with("node:internal", "node:"));
    assert!(!str_starts_with("a/node:internal", "node:"));
    assert!(str_starts_with("abc", ""));
    assert!(str_starts_with("", ""));
    assert!(!str_starts_with("ab", "abc"));
    assert!(str_contains("/a/node_modules/b", "node_modules"));
    assert!(str_contains("node_modules", "node_modules"));
    assert!(!str_contains("node_module", "node_modules"));
    assert!(str_contains("abc", ""));
    assert!(str_contains("", ""));
    assert!(!str_contains("", "a"));
    assert!(str_contains("aab", "ab"));
    assert!(str_contains("xäöü", "öü"));
    assert!(!str_contains("xäöü", "ou"));
    assert!(str_equals("main", "main"));
    assert!(!str_equals("main", "main "));
    assert!(!str_equals("main", "Main"));
    assert!(str_equals("", ""));
}

#[test]
fn characters_and_positions() {
    let text = chars_of("a/bä/c");
    assert_eq!(text, vec!['a', '/', 'b', 'ä', '/', 'c']);
    assert!(matches_at(&text, &chars_of("bä"), 2));
    assert!(!matches_at(&text, &chars_of("bä"), 1));
    assert!(!matches_at(&text, &chars_of("c/"), 5));
    assert!(matches_at(&text, &chars_of(""), 6));
    assert!(!matches_at(&text, &chars_of(""), 7));
    assert!(contains_chars(&text, &chars_of("ä/")));
    assert_eq!(component_start(&text, 6, '/'), 5);
    assert_eq!(component_start(&text, 5, '/'), 5);
    assert_eq!(component_start(&text, 4, '/'), 2);
    assert_eq!(component_start(&text, 1, '/'), 0);
    assert_eq!(component_start(&text, 0, '/'), 0);
    assert_eq!(component_start(&text, 6, '.'), 0);
    assert_eq!(first_component_len(&text, '/'), 1);
    assert_eq!(first_component_len(&text, 'a'), 0);
    assert_eq!(first_component_len(&text, '.'), 6);
    assert_eq!(first_component_len(&chars_of(""), '.'), 0);
    assert_eq!(trimmed_len(&text, '/'), 6);
    assert_eq!(trimmed_len(&text, 'c'), 5);
    assert_eq!(trimmed_len(&chars_of("a//"), '/'), 1);
    assert_eq!(trimmed_len(&chars_of("//"), '/'), 0);
    assert_eq!(trimmed_len(&chars_of(""), '/'), 0);
}

#[test]
fn patterns_match_and_strip() {
    assert!(matches_pattern(r"^a+b", "aaab"));
    assert!(!matches_pattern(r"^a+b", "baab"));
    assert_eq!(strip_pattern(r"\d+", "a1b22c"), "abc");
    assert_eq!(strip_pattern(r"\d+", "abc"), "abc");
    // what is no pattern matches nothing and strips nothing
    assert!(!matches_pattern(r"(", "("));
    assert_eq!(strip_pattern(r"(", "a(b"), "a(b");
}
