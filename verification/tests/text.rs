use cargo_workspaces::lines::{contains_crlf, join_lines, split_lines};
use cargo_workspaces::text::{
    find, find_from, from_chars, is_whitespace, replace, same, slice, starts_with, str_contains,
    str_eq, stripped, to_chars, trimmed,
};

fn chars(s: &str) -> Vec<char> {
    s.chars().collect()
}

fn text(v: Vec<char>) -> String {
    v.into_iter().collect()
}

#[test]
fn characters_go_there_and_back() {
    assert_eq!(to_chars("héllo\n"), chars("héllo\n"));
    assert_eq!(from_chars(&chars("héllo\n")), "héllo\n");
    assert_eq!(to_chars(""), Vec::<char>::new());
    assert_eq!(text(slice(&chars("abcdef"), 2, 4)), "cd");
    assert_eq!(text(slice(&chars("abcdef"), 3, 3)), "");
}

#[test]
fn white_space_is_trimmed_at_both_ends() {
    assert_eq!(text(trimmed(&chars("  \t a b \r\n"))), "a b");
    assert_eq!(text(trimmed(&chars("\u{a0}x\u{3000}"))), "x");
    assert_eq!(text(trimmed(&chars("   "))), "");
    assert_eq!(text(trimmed(&chars(""))), "");
    assert_eq!(text(trimmed(&chars("x"))), "x");
    assert!(is_whitespace(' ') && is_whitespace('\u{2028}') && is_whitespace('\u{85}'));
    assert!(!is_whitespace('x') && !is_whitespace('\u{200b}') && !is_whitespace('\0'));
}

#[test]
fn characters_are_stripped_at_both_ends() {
    assert_eq!(text(stripped(&chars("\"\"a\"b\""), '"')), "a\"b");
    assert_eq!(text(stripped(&chars("\"\"\""), '"')), "");
    assert_eq!(text(stripped(&chars("ab"), '"')), "ab");
}

#[test]
fn prefixes_and_occurrences_are_found() {
    assert!(starts_with(&chars("[package]"), &chars("[pack")));
    assert!(starts_with(&chars("abc"), &chars("")));
    assert!(!starts_with(&chars("ab"), &chars("abc")));
    assert!(!starts_with(&chars("abd"), &chars("abc")));
    assert!(find(&chars("say error: no"), &chars("error:")));
    assert!(find(&chars("error:"), &chars("error:")));
    assert!(find(&chars("abc"), &chars("")));
    assert!(!find(&chars("erro r:"), &chars("error:")));
    assert!(!find(&chars("ab"), &chars("abc")));
    assert!(str_contains("a %n b", "%n"));
    assert!(!str_contains("a % n b", "%n"));
    assert_eq!(find_from(&chars("a = b = c"), &chars(" = "), 0), Some(1));
    assert_eq!(find_from(&chars("a = b = c"), &chars(" = "), 2), Some(5));
    assert_eq!(find_from(&chars("a = b = c"), &chars(" = "), 6), None);
    assert_eq!(find_from(&chars("abc"), &chars("abcd"), 0), None);
}

#[test]
fn texts_are_compared_by_their_characters() {
    assert!(str_eq("HEAD", "HEAD"));
    assert!(!str_eq("HEAD", "HEAD "));
    assert!(!str_eq("0", "1"));
    assert!(same(&chars(""), &chars("")));
    assert!(!same(&chars("a"), &chars("")));
}

#[test]
fn every_occurrence_is_replaced() {
    assert_eq!(replace("%n@%n", "%n", "pkg"), "pkg@pkg");
    assert_eq!(replace("Release %v", "%v", "1.0.0"), "Release 1.0.0");
    assert_eq!(replace("aaa", "aa", "b"), "ba");
    assert_eq!(replace("abc", "x", "y"), "abc");
    assert_eq!(replace("", "x", "y"), "");
    assert_eq!(replace("xx", "x", ""), "");
    assert_eq!(replace("%", "%n", "pkg"), "%");
    assert_eq!(replace("abc", "", "x"), "abc");
}

#[test]
fn text_is_split_into_lines() {
    let split = |s: &str| split_lines(&chars(s));
    assert_eq!(split("a\nb"), vec!["a", "b"]);
    assert_eq!(split("a\nb\n"), vec!["a", "b"]);
    assert_eq!(split("a\r\nb\r\n"), vec!["a", "b"]);
    assert_eq!(split("a\n\nb"), vec!["a", "", "b"]);
    assert_eq!(split("\n"), vec![""]);
    assert_eq!(split(""), Vec::<String>::new());
    assert_eq!(split("a\r"), vec!["a\r"]);
    assert_eq!(split("a\rb\r\n"), vec!["a\rb"]);
    assert_eq!(split("\r\n\r\n"), vec!["", ""]);
    assert_eq!(split("a\r\r\n"), vec!["a\r"]);
}

#[test]
fn lines_are_joined() {
    let list = |v: &[&str]| v.iter().map(|s| s.to_string()).collect::<Vec<String>>();
    assert_eq!(join_lines(&list(&["a", "b", "c"]), "\n"), "a\nb\nc");
    assert_eq!(join_lines(&list(&["a", ""]), "\r\n"), "a\r\n");
    assert_eq!(join_lines(&list(&["a"]), "\n"), "a");
    assert_eq!(join_lines(&list(&[]), "\n"), "");
}

#[test]
fn carriage_return_and_line_feed_are_seen_together_only() {
    assert!(contains_crlf(&chars("a\r\nb")));
    assert!(contains_crlf(&chars("\r\n")));
    assert!(!contains_crlf(&chars("a\rb\nc")));
    assert!(!contains_crlf(&chars("\n\r")));
    assert!(!contains_crlf(&chars("")));
    assert!(!contains_crlf(&chars("\r")));
}
