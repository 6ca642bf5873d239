use cpnews::text::chars_to_string;
use cpnews::text::clean_summary;
use cpnews::text::str_to_chars;

fn clean(s: &str) -> String {
    let chars = str_to_chars(s);
    let out = clean_summary(&chars);
    chars_to_string(&out)
}

#[test]
fn short_summary_is_trimmed() {
    assert_eq!(clean("  hello world  "), "hello world");
    assert_eq!(clean("hello world"), "hello world");
    assert_eq!(clean("\t one\ntwo \r\n"), "one\ntwo");
}

#[test]
fn empty_and_blank_summaries() {
    assert_eq!(clean(""), "");
    assert_eq!(clean("   \t  \n"), "");
}

#[test]
fn exactly_hundred_words_kept_as_is() {
    let words: Vec<String> = (0..100).map(|i| format!("w{i}")).collect();
    let text = words.join(" ");
    assert_eq!(clean(&text), text);
}

#[test]
fn over_hundred_words_truncated_with_marker() {
    let words: Vec<String> = (0..150).map(|i| format!("w{i}")).collect();
    let text = words.join("  ");
    let expected = format!("{}...", words[..100].join(" "));
    let got = clean(&text);
    assert_eq!(got, expected);
    assert_eq!(got.split_whitespace().count(), 100);
    assert!(got.ends_with("..."));
}

#[test]
fn truncation_normalizes_inner_whitespace() {
    let words: Vec<String> = (0..101).map(|i| format!("x{i}")).collect();
    let text = words.join("\n\t ");
    let expected = format!("{}...", words[..100].join(" "));
    assert_eq!(clean(&text), expected);
}

#[test]
fn unicode_whitespace_splits_words() {
    // U+3000 (ideographic space) separates words just as ASCII space does.
    assert_eq!(clean("\u{3000}你好\u{3000}世界\u{3000}"), "你好\u{3000}世界");
}
