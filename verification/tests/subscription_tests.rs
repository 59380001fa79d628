use nq_deribit::model::{Currency, IndexName, InstrumentKind, Interval};
use nq_deribit::subscription::{
    AnnouncementsChannel, BookChannel, BookGroup, Channels, GroupedBookChannel,
    InstrumentStateChannel, TradesByKindChannel, UserChangesByInstrument, UserTradesChannel,
    DeribitPriceIndexChannel,
};

#[test]
fn test_channel_display() {
    let ch = InstrumentStateChannel(InstrumentKind::Option, Currency::BTC);
    assert_eq!(ch.to_string(), "instrument_state.option.BTC");
}

#[test]
fn test_channel_deserialize() {
    let ch = InstrumentStateChannel::parse("instrument_state.option.ETH").unwrap();
    assert_eq!(ch.0, InstrumentKind::Option);
    assert_eq!(ch.1, Currency::ETH);
}

#[test]
fn mod_test() {
    let ch = AnnouncementsChannel();
    assert_eq!(ch.to_string(), "announcements");
    assert!(AnnouncementsChannel::parse("announcements").is_some());
    assert!(AnnouncementsChannel::parse("announce").is_none());
}

#[test]
fn test_channel() {
    let book = BookChannel("BTC".to_owned(), Interval::Raw);
    assert_eq!(book.to_string(), "book.BTC.raw");
    let back = BookChannel::parse(&book.to_string()).unwrap();
    assert_eq!(back.0, "BTC");
    assert_eq!(back.1, Interval::Raw);
}

#[test]
fn test_gen_channel() {
    let t = TradesByKindChannel(InstrumentKind::Future, Currency::BTC, Interval::Agg2);
    let text = t.to_string();
    assert_eq!(text, "trades.future.BTC.agg2");
    let back = TradesByKindChannel::parse(&text).unwrap();
    assert_eq!(back.0, InstrumentKind::Future);
    assert_eq!(back.1, Currency::BTC);
    assert_eq!(back.2, Interval::Agg2);
}

#[test]
fn channel_parse_failures() {
    assert!(InstrumentStateChannel::parse("instrument_state.bond.BTC").is_none());
    assert!(InstrumentStateChannel::parse("instrument_state.option").is_none());
    assert!(InstrumentStateChannel::parse("book.option.BTC").is_none());
    // An unknown interval reads as the default.
    let b = BookChannel::parse("book.ETH-PERPETUAL.1s").unwrap();
    assert_eq!(b.1, Interval::Ms100);
    // Extra fields are ignored.
    let b = BookChannel::parse("book.X.raw.extra").unwrap();
    assert_eq!(b.0, "X");
}

#[test]
fn grouped_book_channel() {
    let g = GroupedBookChannel("BTC-PERPETUAL".into(), BookGroup::Group(5), "10".into(), Interval::Ms100);
    assert_eq!(g.to_string(), "book.BTC-PERPETUAL.5.10.100ms");
    let back = GroupedBookChannel::parse("book.BTC-PERPETUAL.none.10.100ms").unwrap();
    assert_eq!(back.1, BookGroup::Ungrouped);
    assert!(GroupedBookChannel::parse("book.BTC-PERPETUAL.x.10.100ms").is_none());
    assert_eq!(BookGroup::parse("+7"), Some(BookGroup::Group(7)));
    assert_eq!(BookGroup::parse("-7"), None);
}

#[test]
fn user_changes_and_index_channels() {
    let c = UserChangesByInstrument("BTC-PERPETUAL".into(), Interval::Raw);
    assert_eq!(c.to_string(), "user.changes.BTC-PERPETUAL.raw");
    let p = DeribitPriceIndexChannel(IndexName::new("btc".into(), "usd".into()));
    assert_eq!(p.to_string(), "deribit_price_index.btc_usd");
    let back = DeribitPriceIndexChannel::parse("deribit_price_index.eth_usdc").unwrap();
    assert_eq!(back.0.to_string(), "eth_usdc");
}

#[test]
fn user_trades_channel() {
    let c = UserTradesChannel::parse("user.trades.BTC-PERPETUAL.raw").unwrap();
    assert_eq!(c.to_string(), "user.trades.BTC-PERPETUAL.raw");
    let k = UserTradesChannel::parse("user.trades.future.BTC.100ms").unwrap();
    assert!(matches!(k, UserTradesChannel::ByKind { .. }));
    assert_eq!(k.to_string(), "user.trades.future.BTC.100ms");
    assert!(UserTradesChannel::parse("user.orders.future.BTC.100ms").is_none());
    assert!(UserTradesChannel::parse("user.trades.x").is_none());
}

#[test]
fn channels_to_subscription_strs() {
    let chs = Channels::from(vec![
        InstrumentStateChannel(InstrumentKind::Option, Currency::BTC),
        InstrumentStateChannel(InstrumentKind::Future, Currency::ETH),
    ]);
    assert_eq!(
        chs.to_subscription_strs(),
        vec!["instrument_state.option.BTC".to_string(), "instrument_state.future.ETH".to_string()]
    );
}

#[test]
fn announcements_test() {
    let a = AnnouncementsChannel();
    let json_str = serde_json::to_string(&a.to_string()).unwrap();
    assert_eq!(json_str, "\"announcements\"");
    let text: String = serde_json::from_str(&json_str).unwrap();
    assert!(AnnouncementsChannel::parse(&text).is_some());
}

#[test]
fn deribit_price_index_test() {
    let jsonstr = r#"{"channel":"deribit_price_index.btc_usdc"}"#;
    let value: serde_json::Value = serde_json::from_str(jsonstr).unwrap();
    let text = value.get("channel").and_then(|v| v.as_str()).unwrap();
    let channel = DeribitPriceIndexChannel::parse(text).unwrap();
    let mut object = serde_json::Map::new();
    object.insert("channel".to_string(), serde_json::Value::String(channel.to_string()));
    let newjsonstr = serde_json::to_string(&serde_json::Value::Object(object)).unwrap();
    assert_eq!(jsonstr, newjsonstr, "should eq");
}
