use cpnews::codec::parse_news_json;
use cpnews::codec::render_news_json;
use cpnews::NewsItem;

fn item(title: &str, summary: &str, date: &str, link: &str) -> NewsItem {
    NewsItem {
        title: title.to_string(),
        summary: summary.to_string(),
        date: date.to_string(),
        link: link.to_string(),
    }
}

#[test]
fn empty_list_renders_and_parses() {
    let items: Vec<NewsItem> = vec![];
    let text = render_news_json(&items);
    assert_eq!(text, "[]");
    assert_eq!(parse_news_json(&text), items);
}

#[test]
fn three_items_round_trip() {
    let items = vec![
        item("BTC rallies", "Bitcoin is up today", "2023-11-14 22:13", "https://example.com/a"),
        item("ETH news", "以太坊动态", "2023-11-14 23:00", ""),
        item("Solana", "short note", "2023-11-15 01:30", "https://example.com/c"),
    ];
    let text = render_news_json(&items);
    let back = parse_news_json(&text);
    assert_eq!(back, items);
}

#[test]
fn tricky_characters_round_trip() {
    let items = vec![
        item("quote \" inside", "back\\slash", "2020-01-01 00:00", "https://e.com/?q=\"x\""),
        item("newline\nand tab\t", "control \u{1} char", "2020-01-02 00:00", ""),
        item("emoji 🎉 and 中文", "mixed \"\\\" escapes", "2020-01-03 00:00", "x"),
    ];
    let text = render_news_json(&items);
    let back = parse_news_json(&text);
    assert_eq!(back, items);
}

#[test]
fn rendered_text_is_plain_json() {
    let items = vec![item("a \"b\"", "line\none", "2021-02-03 04:05", "https://x.y/z")];
    let text = render_news_json(&items);
    let value: serde_json::Value = serde_json::from_str(&text).expect("valid JSON");
    let arr = value.as_array().expect("array");
    assert_eq!(arr.len(), 1);
    assert_eq!(arr[0]["title"], "a \"b\"");
    assert_eq!(arr[0]["summary"], "line\none");
    assert_eq!(arr[0]["date"], "2021-02-03 04:05");
    assert_eq!(arr[0]["link"], "https://x.y/z");
}

#[test]
fn empty_text_loads_nothing() {
    assert_eq!(parse_news_json(""), Vec::<NewsItem>::new());
}

#[test]
fn malformed_text_loads_nothing() {
    assert_eq!(parse_news_json("not json at all"), Vec::<NewsItem>::new());
    assert_eq!(parse_news_json("{\"title\":\"a\"}"), Vec::<NewsItem>::new());
    assert_eq!(parse_news_json("["), Vec::<NewsItem>::new());
    assert_eq!(parse_news_json("[{\"title\":\"a\""), Vec::<NewsItem>::new());
    let items = vec![item("t", "s", "d", "l")];
    let mut text = render_news_json(&items);
    text.push('x');
    assert_eq!(parse_news_json(&text), Vec::<NewsItem>::new());
}
