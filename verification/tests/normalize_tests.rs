use cpnews::news::process_cryptocompare;
use cpnews::news::process_odaily;
use cpnews::news::CryptoCompareNews;
use cpnews::news::FetchError;
use cpnews::news::OdailyNews;
use cpnews::news::OdailyNewsData;
use cpnews::news::RawRecord;
use cpnews::news::RawValue;

fn field(name: &str, value: RawValue) -> (String, RawValue) {
    (name.to_string(), value)
}

fn s(v: &str) -> RawValue {
    RawValue::Str(v.to_string())
}

fn cc_record(title: &str, body: &str, published_on: i64, url: &str) -> RawRecord {
    RawRecord {
        fields: vec![
            field("title", s(title)),
            field("body", s(body)),
            field("published_on", RawValue::Int(published_on)),
            field("url", s(url)),
        ],
    }
}

fn od_record(ty: &str, title: &str, description: &str, published_at: &str, link: &str) -> RawRecord {
    RawRecord {
        fields: vec![
            field("type", s(ty)),
            field("title", s(title)),
            field("description", s(description)),
            field("published_at", s(published_at)),
            field("link", s(link)),
        ],
    }
}

#[test]
fn cryptocompare_three_valid_two_invalid() {
    let records = vec![
        cc_record("A", "first body", 1_700_000_000, "https://e.com/a"),
        cc_record("", "missing title", 1_700_000_000, "https://e.com/bad"),
        cc_record("B", "second body", 1_700_000_060, "https://e.com/b"),
        RawRecord { fields: vec![field("title", s("no body at all"))] },
        cc_record("C", "third body", 1_700_000_120, "https://e.com/c"),
    ];
    let resp = CryptoCompareNews { news_type: 100, data: records };
    let items = process_cryptocompare(&resp).expect("success envelope");
    assert_eq!(items.len(), 3);
    assert_eq!(items[0].title, "A");
    assert_eq!(items[0].summary, "first body");
    assert_eq!(items[0].date, "2023-11-14 22:13");
    assert_eq!(items[0].link, "https://e.com/a");
    assert_eq!(items[1].title, "B");
    assert_eq!(items[2].title, "C");
}

#[test]
fn cryptocompare_drops_malformed_fields() {
    let records = vec![
        // wrong-typed title
        RawRecord {
            fields: vec![
                field("title", RawValue::Int(5)),
                field("body", s("b")),
                field("published_on", RawValue::Int(0)),
                field("url", s("u")),
            ],
        },
        // empty body
        cc_record("t", "", 0, "u"),
        // blank body cleans to empty
        cc_record("t", "   ", 0, "u"),
        // non-integer timestamp
        RawRecord {
            fields: vec![
                field("title", s("t")),
                field("body", s("b")),
                field("published_on", RawValue::Other),
                field("url", s("u")),
            ],
        },
        // timestamp beyond year 9999
        cc_record("t", "b", 260_000_000_000, "u"),
        // empty url
        cc_record("t", "b", 0, ""),
    ];
    let resp = CryptoCompareNews { news_type: 100, data: records };
    let items = process_cryptocompare(&resp).expect("success envelope");
    assert_eq!(items.len(), 0);
}

#[test]
fn cryptocompare_caps_at_thirty() {
    let records: Vec<RawRecord> =
        (0..35).map(|i| cc_record(&format!("t{i}"), "body", 1_700_000_000, "u")).collect();
    let resp = CryptoCompareNews { news_type: 100, data: records };
    let items = process_cryptocompare(&resp).expect("success envelope");
    assert_eq!(items.len(), 30);
    assert_eq!(items[0].title, "t0");
    assert_eq!(items[29].title, "t29");
}

#[test]
fn cryptocompare_truncates_long_body() {
    let words: Vec<String> = (0..120).map(|i| format!("w{i}")).collect();
    let body = words.join(" ");
    let resp = CryptoCompareNews {
        news_type: 100,
        data: vec![cc_record("t", &body, 1_700_000_000, "u")],
    };
    let items = process_cryptocompare(&resp).expect("success envelope");
    assert_eq!(items[0].summary, format!("{}...", words[..100].join(" ")));
}

#[test]
fn cryptocompare_server_error() {
    let resp = CryptoCompareNews { news_type: 99, data: vec![] };
    let err = process_cryptocompare(&resp).expect_err("bad envelope");
    assert!(matches!(err, FetchError::Server));
    assert_eq!(err.text(), "remote server error");
}

#[test]
fn odaily_filters_by_type() {
    let records = vec![
        od_record("newsflashes", "A", "first", "2023-11-14 22:13", "https://e.com/a"),
        od_record("articles", "B", "skipped", "2023-11-14 22:14", "https://e.com/b"),
        RawRecord { fields: vec![field("title", s("no type"))] },
        od_record("newsflashes", "C", "  second  ", "2023-11-14 22:15", "https://e.com/c"),
    ];
    let resp = OdailyNews { code: 0, data: OdailyNewsData { arr_news: records } };
    let items = process_odaily(&resp).expect("success envelope");
    assert_eq!(items.len(), 2);
    assert_eq!(items[0].title, "A");
    assert_eq!(items[0].summary, "first");
    assert_eq!(items[0].date, "2023-11-14 22:13");
    assert_eq!(items[1].title, "C");
    assert_eq!(items[1].summary, "second");
}

#[test]
fn odaily_drops_incomplete_records() {
    let records = vec![
        od_record("newsflashes", "", "d", "p", "l"),
        od_record("newsflashes", "t", "", "p", "l"),
        od_record("newsflashes", "t", "d", "", "l"),
        od_record("newsflashes", "t", "d", "p", ""),
    ];
    let resp = OdailyNews { code: 0, data: OdailyNewsData { arr_news: records } };
    let items = process_odaily(&resp).expect("success envelope");
    assert_eq!(items.len(), 0);
}

#[test]
fn odaily_server_error() {
    let resp = OdailyNews { code: 7, data: OdailyNewsData { arr_news: vec![] } };
    let err = process_odaily(&resp).expect_err("bad envelope");
    assert!(matches!(err, FetchError::Server));
}

#[test]
fn fetch_error_messages() {
    assert_eq!(FetchError::Transport("connection refused".to_string()).text(), "connection refused");
    assert_eq!(FetchError::Decode("bad json".to_string()).text(), "bad json");
    assert_eq!(FetchError::Server.text(), "remote server error");
}

#[test]
fn duplicate_field_counts_by_first() {
    let rec = RawRecord {
        fields: vec![
            field("title", s("first")),
            field("title", s("second")),
            field("body", s("b")),
            field("published_on", RawValue::Int(0)),
            field("url", s("u")),
        ],
    };
    let resp = CryptoCompareNews { news_type: 100, data: vec![rec] };
    let items = process_cryptocompare(&resp).expect("success envelope");
    assert_eq!(items[0].title, "first");
}
