use hunter_searcher::lexer::Lexer;
use hunter_searcher::text::{contains_chars, cut_at, join_chars, replace_chars, split_words};

fn chars(s: &str) -> Vec<char> {
    s.chars().collect()
}

fn tokens(s: &str) -> Vec<String> {
    let cs = chars(s);
    let mut lexer = Lexer::new(&cs);
    let mut out = Vec::new();
    while let Some(t) = lexer.next_token() {
        out.push(t.iter().collect());
    }
    out
}

#[test]
fn split_and_join_words() {
    let ws = split_words(&chars("  a bb\t\nccc  "));
    assert_eq!(ws, vec![chars("a"), chars("bb"), chars("ccc")]);
    assert_eq!(join_chars(&ws), chars("a bb ccc"));
    assert!(split_words(&chars(" \n ")).is_empty());
}

#[test]
fn replace_every_occurrence() {
    assert_eq!(replace_chars(&chars("abcabc"), &chars("bc"), &chars("")), chars("aa"));
    assert_eq!(replace_chars(&chars("aaa"), &chars("aa"), &chars("b")), chars("ba"));
}

#[test]
fn substring_and_cut() {
    assert!(contains_chars(&chars("example.com"), &chars("ample")));
    assert!(!contains_chars(&chars("example.com"), &chars("org")));
    assert!(contains_chars(&chars("x"), &chars("")));
    assert_eq!(cut_at(&chars("a/b?c"), '?'), chars("a/b"));
    assert_eq!(cut_at(&chars("abc"), '#'), chars("abc"));
}

#[test]
fn lexer_reads_words_numbers_and_skips_symbols() {
    assert_eq!(
        tokens("Hello, world! It costs $4.50 on 2024-01-02."),
        vec!["Hello", "world", "It", "costs", "$4.50", "on", "2024-01-02."]
    );
}

#[test]
fn lexer_on_empty_and_blank_text() {
    assert!(tokens("").is_empty());
    assert!(tokens("  \t !! ").is_empty());
    assert_eq!(tokens("abc123 x"), vec!["abc123", "x"]);
}
