use mta_core::text::{
    fn_contains, fn_count_chars, fn_detect_language, fn_ends_with, fn_levenshtein_distance,
    fn_rsplit_once, fn_split_once, fn_starts_with, fn_strip_prefix, fn_strip_suffix, fn_substring,
    language_or_unknown, fn_split, fn_rsplit, fn_to_lowercase, fn_to_uppercase, fn_trim_start, fn_trim_end, fn_lines, tokenize_words,
};
use mta_core::text::{
    fn_count_lowercase, fn_count_spaces, fn_count_uppercase, fn_has_digits, fn_is_lowercase, fn_is_uppercase, fn_len, fn_contains_ignore_case, fn_eq_ignore_case, fn_list_contains_ignore_case, fn_trim, tokenize_mode, TokenizeMode,
};

#[test]
fn levenshtein_values() {
    assert_eq!(fn_levenshtein_distance("kitten", "sitting"), 3);
    assert_eq!(fn_levenshtein_distance("", "abc"), 3);
    assert_eq!(fn_levenshtein_distance("abc", ""), 3);
    assert_eq!(fn_levenshtein_distance("same", "same"), 0);
    assert_eq!(fn_levenshtein_distance("flaw", "lawn"), 2);
    assert_eq!(fn_levenshtein_distance("ñandú", "nandu"), 2);
}

#[test]
fn search_functions() {
    assert!(fn_contains("hello world", "o w"));
    assert!(!fn_contains("hello world", "xyz"));
    assert!(fn_contains("abc", ""));
    assert!(fn_starts_with("hello", "he"));
    assert!(!fn_starts_with("he", "hello"));
    assert!(fn_ends_with("hello", "llo"));
    assert!(!fn_ends_with("hello", "hel"));
    assert_eq!(fn_count_chars("añb"), 3);
}

#[test]
fn split_functions() {
    assert_eq!(
        fn_split_once("a=b=c", "="),
        Some(("a".to_string(), "b=c".to_string()))
    );
    assert_eq!(
        fn_rsplit_once("a=b=c", "="),
        Some(("a=b".to_string(), "c".to_string()))
    );
    assert_eq!(fn_split_once("abc", ":"), None);
    assert_eq!(fn_rsplit_once("abc", ":"), None);
    assert_eq!(
        fn_split_once("key: value", ": "),
        Some(("key".to_string(), "value".to_string()))
    );
}

#[test]
fn strip_and_substring() {
    assert_eq!(fn_strip_prefix("foobar", "foo"), Some("bar".to_string()));
    assert_eq!(fn_strip_prefix("foobar", "bar"), None);
    assert_eq!(fn_strip_suffix("foobar", "bar"), Some("foo".to_string()));
    assert_eq!(fn_strip_suffix("foobar", "foo"), None);
    assert_eq!(fn_substring("hello world", 6, 5), "world");
    assert_eq!(fn_substring("hello", 3, 10), "lo");
    assert_eq!(fn_substring("hello", 10, 2), "");
    assert_eq!(fn_substring("añbc", 1, 2), "ñb");
}

#[test]
fn language_detection() {
    assert_eq!(fn_detect_language("There is no reason not to learn Esperanto."), "eng");
    assert_eq!(language_or_unknown(None), "unknown");
    assert_eq!(language_or_unknown(Some("deu".to_string())), "deu");
}

#[test]
fn character_classes() {
    assert_eq!(fn_count_spaces("a b\tc\nd"), 3);
    assert_eq!(fn_count_uppercase("Hello World 1"), 2);
    assert_eq!(fn_count_lowercase("Hello World 1"), 8);
    assert!(fn_is_uppercase("ABC 12!"));
    assert!(!fn_is_uppercase("ABc"));
    assert!(fn_is_lowercase("abc 12!"));
    assert!(!fn_is_lowercase("aBc"));
    assert!(fn_has_digits("abc1"));
    assert!(!fn_has_digits("abc"));
    assert_eq!(fn_len("añb"), 4);
}

#[test]
fn case_insensitive() {
    assert!(fn_eq_ignore_case("Hello", "hELLO"));
    assert!(!fn_eq_ignore_case("Hello", "Hell"));
    assert!(!fn_eq_ignore_case("[", "{"));
    assert!(fn_contains_ignore_case("Hello World", "WORLD"));
    assert!(!fn_contains_ignore_case("Hello World", "planet"));
    let items = vec!["Foo".to_string(), "Bar".to_string()];
    assert!(fn_list_contains_ignore_case(&items, "bar"));
    assert!(!fn_list_contains_ignore_case(&items, "baz"));
}

#[test]
fn trim_and_modes() {
    assert_eq!(fn_trim("  a b \n"), "a b");
    assert_eq!(fn_trim(" \t "), "");
    assert_eq!(tokenize_mode("html"), Some(TokenizeMode::Html));
    assert_eq!(tokenize_mode("words"), Some(TokenizeMode::Words));
    assert_eq!(
        tokenize_mode("url"),
        Some(TokenizeMode::Typed { urls: true, urls_without_scheme: true, emails: true })
    );
    assert_eq!(
        tokenize_mode("uri_strict"),
        Some(TokenizeMode::Typed { urls: true, urls_without_scheme: false, emails: false })
    );
    assert_eq!(
        tokenize_mode("email"),
        Some(TokenizeMode::Typed { urls: false, urls_without_scheme: false, emails: true })
    );
    assert_eq!(tokenize_mode("other"), None);
}

#[test]
fn split_matches_std() {
    let cases = [
        ("a,b,,c", ","),
        ("aaa", "aa"),
        ("", ","),
        ("abc", ""),
        ("", ""),
        ("a--b--", "--"),
        ("ñ, é", ", "),
        ("no separator", ";"),
    ];
    for (s, sep) in cases {
        let want: Vec<String> = s.split(sep).map(|p| p.to_string()).collect();
        assert_eq!(fn_split(s, sep), want, "split {:?} by {:?}", s, sep);
        let want: Vec<String> = s.rsplit(sep).map(|p| p.to_string()).collect();
        assert_eq!(fn_rsplit(s, sep), want, "rsplit {:?} by {:?}", s, sep);
    }
    assert_eq!(fn_split("a,b", ","), vec!["a".to_string(), "b".to_string()]);
    assert_eq!(fn_rsplit("a,b", ","), vec!["b".to_string(), "a".to_string()]);
}

#[test]
fn case_mapping_and_one_sided_trims() {
    assert_eq!(fn_to_lowercase("HeLLo Ä"), "hello ä");
    assert_eq!(fn_to_uppercase("HeLLo ä"), "HELLO Ä");
    assert_eq!(fn_trim_start("  a b  "), "a b  ");
    assert_eq!(fn_trim_end("  a b  "), "  a b");
}

#[test]
fn lines_match_std() {
    for s in ["a\nb\r\nc", "a\n", "", "\n\n", "x\r", "one\r\n\r\ntwo\n"] {
        let want: Vec<String> = s.lines().map(|l| l.to_string()).collect();
        assert_eq!(fn_lines(s), want, "lines of {:?}", s);
    }
}

#[test]
fn words_tokenizer() {
    assert_eq!(
        tokenize_words("  hello world! foo42\tbar \n baz-qux ünï "),
        vec!["hello".to_string(), "foo42".to_string(), "bar".to_string(), "ünï".to_string()]
    );
    assert!(tokenize_words("").is_empty());
    assert!(tokenize_words("   ").is_empty());
    assert_eq!(tokenize_words("one"), vec!["one".to_string()]);
}
