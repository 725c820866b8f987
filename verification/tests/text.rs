use cardex::order::sort_order;
use cardex::text::{
    dec_string, eq_ignore_ascii_case, join_strings, lex_less, repeat_str, split_whitespace, str_eq,
    trim_char_vec,
};

fn v(s: &str) -> Vec<char> {
    s.chars().collect()
}

#[test]
fn decimal_and_repetition() {
    assert_eq!(dec_string(0), "0");
    assert_eq!(dec_string(4096), "4096");
    assert_eq!(dec_string(u64::MAX), u64::MAX.to_string());
    assert_eq!(repeat_str("ab", 3), "ababab");
    assert_eq!(repeat_str("x", 0), "");
}

#[test]
fn joining_and_splitting() {
    assert_eq!(join_strings(&vec!["a".into(), "b".into(), "c".into()], ", "), "a, b, c");
    assert_eq!(join_strings(&vec![], ", "), "");
    let words: Vec<String> = split_whitespace(" one\ttwo \n three\u{3000}four ").iter().map(|w| w.iter().collect()).collect();
    assert_eq!(words, vec!["one", "two", "three", "four"]);
    assert!(split_whitespace("   ").is_empty());
}

#[test]
fn comparisons() {
    assert!(str_eq("abc", "abc"));
    assert!(!str_eq("abc", "abd"));
    assert!(eq_ignore_ascii_case("PoKeMoN", "pokemon"));
    assert!(!eq_ignore_ascii_case("Pokémon", "pokemon"));
    assert!(lex_less(&v("a"), &v("b")));
    assert!(lex_less(&v("ab"), &v("abc")));
    assert!(!lex_less(&v("b"), &v("ab")));
    assert!(!lex_less(&v("same"), &v("same")));
    assert!(lex_less(&v("Z"), &v("a")));
}

#[test]
fn trimming_quotes() {
    assert_eq!(trim_char_vec(&v("\"\"x\"\""), '"'), v("x"));
    assert_eq!(trim_char_vec(&v("\"\""), '"'), v(""));
    assert_eq!(trim_char_vec(&v("a\"b"), '"'), v("a\"b"));
}

#[test]
fn stable_sort_by_keys() {
    let keys = vec![
        (v("swsh3"), 20u64, v("20")),
        (v("base1"), 4, v("4")),
        (v("swsh3"), 4, v("4")),
        (v("base1"), 4, v("4")),
    ];
    assert_eq!(sort_order(&keys), vec![1, 3, 2, 0]);
    assert!(sort_order(&vec![]).is_empty());
}
