//! Tests for trimming, collapsing, joining and splitting.

use chatbot_rs::text::collapse_newlines;
use chatbot_rs::text::is_space;
use chatbot_rs::text::join_parts;
use chatbot_rs::text::normalize;
use chatbot_rs::text::split_paragraphs;
use chatbot_rs::text::trim;

#[test]
fn trim_removes_surrounding_whitespace() {
    assert_eq!(trim("  hello  "), "hello");
    assert_eq!(trim("\t\n hello world \r\n"), "hello world");
    assert_eq!(trim("hello"), "hello");
    assert_eq!(trim("   "), "");
    assert_eq!(trim(""), "");
}

#[test]
fn trim_handles_unicode_whitespace() {
    assert_eq!(trim("\u{00A0}hello\u{3000}"), "hello");
}

#[test]
fn is_space_matches_std() {
    for c in [' ', '\t', '\n', '\r', '\u{00A0}', '\u{2028}', 'a', '0', '-'] {
        assert_eq!(is_space(c), c.is_whitespace());
    }
}

#[test]
fn collapse_doubles_once() {
    assert_eq!(collapse_newlines("a\n\nb"), "a\nb");
    assert_eq!(collapse_newlines("a\nb"), "a\nb");
    assert_eq!(collapse_newlines(""), "");
    // A run of three newlines leaves one doubled newline behind, exactly as
    // a left-to-right single pass does.
    assert_eq!(collapse_newlines("a\n\n\nb"), "a\n\nb");
    assert_eq!(collapse_newlines("a\n\n\n\nb"), "a\n\nb");
}

#[test]
fn collapse_matches_replace() {
    for s in ["a\n\nb\n\n\nc", "\n\n\n", "x", "\n", "a\n\nb\n\nc"] {
        assert_eq!(collapse_newlines(s), s.replace("\n\n", "\n"));
    }
}

#[test]
fn normalize_trims_then_collapses() {
    assert_eq!(normalize("  line one\n\nline two  "), "line one\nline two");
    assert_eq!(normalize("\n\nabc\n\n"), "abc");
    assert_eq!(normalize(""), "");
}

#[test]
fn normalize_idempotent_without_triple_newlines() {
    for s in ["  a\n\nb ", "a\nb", "  x  ", "", "a\n\nb\n\nc"] {
        let once = normalize(s);
        assert_eq!(normalize(&once), once);
    }
}

#[test]
fn normalize_not_idempotent_on_triple_newline() {
    // The idempotence law excludes texts whose trimmed form holds a run of
    // three newlines; this input shows why.
    let s = "a\n\n\nb";
    let once = normalize(s);
    assert_eq!(once, "a\n\nb");
    assert_eq!(normalize(&once), "a\nb");
}

#[test]
fn join_parts_in_order() {
    let parts = vec!["a".to_string(), "b".to_string(), "c".to_string()];
    assert_eq!(join_parts(&parts, "\n\n"), "a\n\nb\n\nc");
    assert_eq!(join_parts(&parts, "\n"), "a\nb\nc");
    let one = vec!["only".to_string()];
    assert_eq!(join_parts(&one, "\n\n"), "only");
    let none: Vec<String> = Vec::new();
    assert_eq!(join_parts(&none, "\n\n"), "");
}

#[test]
fn split_paragraphs_on_blank_lines() {
    assert_eq!(split_paragraphs("x\n\ny"), vec!["x", "y"]);
    assert_eq!(split_paragraphs("x"), vec!["x"]);
    assert_eq!(split_paragraphs(""), vec![""]);
    assert_eq!(split_paragraphs("a\n\n\nb"), vec!["a", "\nb"]);
    // Agrees with std's splitter on the same separator.
    for s in ["one\n\ntwo\n\nthree", "\n\n", "a\nb"] {
        let got = split_paragraphs(s);
        let expected: Vec<String> = s.split("\n\n").map(|p| p.to_string()).collect();
        assert_eq!(got, expected);
    }
}
