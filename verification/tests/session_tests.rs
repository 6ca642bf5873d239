use cpnews::codec::parse_news_json;
use cpnews::codec::render_news_json;
use cpnews::news::process_cryptocompare;
use cpnews::news::CryptoCompareNews;
use cpnews::news::RawRecord;
use cpnews::news::RawValue;
use cpnews::session::App;
use cpnews::session::ChannelItem;
use cpnews::session::CurrentPanel;
use cpnews::session::MsgType;
use cpnews::session::UpdateChannel;
use cpnews::NewsItem;

fn item(title: &str) -> NewsItem {
    NewsItem {
        title: title.to_string(),
        summary: "s".to_string(),
        date: "2023-11-14 22:13".to_string(),
        link: String::new(),
    }
}

#[test]
fn default_state() {
    let app = App::default();
    assert!(app.is_cn);
    assert!(!app.is_fetching);
    assert!(!app.is_scroll_to_top);
    assert!(app.news_items_cn.is_empty());
    assert!(app.news_items_en.is_empty());
    assert!(matches!(app.currency_panel, CurrentPanel::News));
    assert_eq!(app.msg_spec.msg, "");
    assert!(matches!(app.msg_spec.msg_type, MsgType::Info));
}

#[test]
fn refresh_gate_blocks_second_dispatch() {
    let mut app = App::default();
    assert!(app.fetch_data());
    assert!(app.is_fetching);
    // a second refresh while fetching is a no-op: no second worker
    assert!(!app.fetch_data());
    assert!(app.is_fetching);
}

#[test]
fn any_message_clears_the_flag_once() {
    let mut app = App::default();
    let mut ch = UpdateChannel::new(10);
    assert!(app.fetch_data());
    assert!(ch.try_send(ChannelItem::ErrMsg("boom".to_string())));
    app.update_data(&mut ch, 1000);
    assert!(!app.is_fetching);
    assert_eq!(app.msg_spec.msg, "boom");
    assert!(matches!(app.msg_spec.msg_type, MsgType::Warn));
    assert_eq!(app.msg_spec.timestamp, 1000);
    // the queue is now empty: a further poll changes nothing
    app.update_data(&mut ch, 2000);
    assert_eq!(app.msg_spec.timestamp, 1000);
    assert!(!app.is_fetching);
}

#[test]
fn empty_items_message_preserves_list() {
    let mut app = App::default();
    app.news_items_cn = vec![item("kept")];
    let mut ch = UpdateChannel::new(10);
    ch.try_send(ChannelItem::NewsItems((true, vec![])));
    app.update_data(&mut ch, 0);
    assert_eq!(app.news_items_cn.len(), 1);
    assert_eq!(app.news_items_cn[0].title, "kept");
}

#[test]
fn nonempty_items_message_replaces_list_wholesale() {
    let mut app = App::default();
    app.news_items_cn = vec![item("old1"), item("old2")];
    let mut ch = UpdateChannel::new(10);
    ch.try_send(ChannelItem::NewsItems((true, vec![item("new")])));
    app.update_data(&mut ch, 0);
    assert_eq!(app.news_items_cn.len(), 1);
    assert_eq!(app.news_items_cn[0].title, "new");
    assert!(app.news_items_en.is_empty());
}

#[test]
fn items_for_other_locale_leave_this_one_alone() {
    let mut app = App::default();
    app.news_items_cn = vec![item("cn")];
    let mut ch = UpdateChannel::new(10);
    ch.try_send(ChannelItem::NewsItems((false, vec![item("en")])));
    app.update_data(&mut ch, 0);
    assert_eq!(app.news_items_cn[0].title, "cn");
    assert_eq!(app.news_items_en[0].title, "en");
}

#[test]
fn full_queue_drops_without_blocking() {
    let mut ch = UpdateChannel::new(2);
    assert!(ch.try_send(ChannelItem::ErrMsg("a".to_string())));
    assert!(ch.try_send(ChannelItem::ErrMsg("b".to_string())));
    // the queue is full: the message is dropped, the sender goes on
    assert!(!ch.try_send(ChannelItem::ErrMsg("c".to_string())));
    match ch.try_recv() {
        Some(ChannelItem::ErrMsg(m)) => assert_eq!(m, "a"),
        _ => panic!("expected the oldest message"),
    }
    match ch.try_recv() {
        Some(ChannelItem::ErrMsg(m)) => assert_eq!(m, "b"),
        _ => panic!("expected the second message"),
    }
    assert!(ch.try_recv().is_none());
}

#[test]
fn toggle_refreshes_only_an_empty_target() {
    let mut app = App::default();
    app.news_items_en = vec![item("cached")];
    // en list is filled: no refresh on switching to English
    assert!(!app.toggle_language());
    assert!(!app.is_cn);
    assert!(!app.is_fetching);
    // cn list is empty: switching back triggers a refresh
    assert!(app.toggle_language());
    assert!(app.is_cn);
    assert!(app.is_fetching);
    // while fetching, a toggle does not dispatch a second worker
    assert!(!app.toggle_language());
    assert!(app.is_fetching);
}

#[test]
fn message_expires_after_display_window() {
    let mut app = App::default();
    app.show_message("hi".to_string(), MsgType::Info, 100);
    assert!(app.message_visible(100));
    assert!(app.message_visible(104));
    assert!(!app.message_visible(105));
}

#[test]
fn normalize_save_load_round_trip() {
    // three valid and two invalid raw records, through the whole pipeline
    let valid = |t: &str| RawRecord {
        fields: vec![
            ("title".to_string(), RawValue::Str(t.to_string())),
            ("body".to_string(), RawValue::Str("body text".to_string())),
            ("published_on".to_string(), RawValue::Int(1_700_000_000)),
            ("url".to_string(), RawValue::Str("https://e.com".to_string())),
        ],
    };
    let invalid = RawRecord { fields: vec![("title".to_string(), RawValue::Str(String::new()))] };
    let resp = CryptoCompareNews {
        news_type: 100,
        data: vec![valid("a"), invalid.clone(), valid("b"), invalid, valid("c")],
    };
    let items = process_cryptocompare(&resp).expect("success envelope");
    assert_eq!(items.len(), 3);
    let text = render_news_json(&items);
    let loaded = parse_news_json(&text);
    assert_eq!(loaded, items);
}
