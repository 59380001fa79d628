use nq_deribit::errors::{DeribitError, TransportError};
use nq_deribit::model::{
    Currency, Direction, IndexName, InstrumentKind, InstrumentState, Interval, LiquidationType,
    LiquidityType, ModelError, OrderState, OrderTrigger, OrderType, TickDirection, TimeInForce,
};
use nq_deribit::protocol::request_payload;
use nq_deribit::request::{
    AuthRequest, GetInstrumentsRequest, GetOrderBookRequest, GrantType, HelloRequest,
    PrivateUnsubscribeRequest, PublicSubscribeRequest, Request, SetHeartbeatRequest, TestRequest,
};

#[test]
fn test_get_instruments_method() {
    assert_eq!(GetInstrumentsRequest::METHOD, "public/get_instruments");
    assert!(GetInstrumentsRequest::HAS_PAYLOAD);
}

#[test]
fn request_methods_and_payloads() {
    assert_eq!(GetOrderBookRequest::METHOD, "public/get_order_book");
    assert!(!GetOrderBookRequest::HAS_PAYLOAD);
    assert!(GetOrderBookRequest::new("BTC-PERPETUAL").no_payload());
    assert_eq!(PublicSubscribeRequest::METHOD, "public/subscribe");
    assert_eq!(AuthRequest::METHOD, "public/auth");
    assert_eq!(SetHeartbeatRequest::METHOD, "public/set_heartbeat");
    assert_eq!(TestRequest::METHOD, "public/test");
}

#[test]
fn test_transport_error_display() {
    let err = TransportError::NotConnected;
    assert!(err.message().contains("not connected"));
}

#[test]
fn transport_error_messages() {
    let closed = TransportError::Closed { code: Some(1000), reason: "bye".into() };
    assert_eq!(closed.message(), "websocket closed: code=Some(1000) reason=bye");
    let closed = TransportError::Closed { code: None, reason: String::new() };
    assert_eq!(closed.message(), "websocket closed: code=None reason=");
    assert_eq!(TransportError::SendFailed("x".into()).message(), "send failed: x");
}

#[test]
fn deribit_error_messages() {
    let e = DeribitError::RemoteError { code: -11050, message: "bad_request".into() };
    assert_eq!(e.message(), "Deribit remote error {code: -11050, message: bad_request}");
    assert_eq!(DeribitError::RequestTimeout.message(), "Request timed out");
    assert_eq!(DeribitError::UnknownCurrency("XYZ".into()).message(), "Unknown currency XYZ");
}

#[test]
fn currency_names_round_trip() {
    for c in [Currency::BTC, Currency::ETH, Currency::USDC, Currency::USDT, Currency::EURR, Currency::Any] {
        assert_eq!(Currency::parse(&c.to_string()), Ok(c));
    }
    assert_eq!(Currency::Any.to_string(), "any");
    assert_eq!(Currency::parse("btc"), Err(ModelError::InvalidCurrency("btc".into())));
}

#[test]
fn direction_and_kind_names() {
    assert_eq!(Direction::parse("buy"), Ok(Direction::Buy));
    assert_eq!(Direction::Sell.to_string(), "sell");
    assert_eq!(Direction::parse("hold"), Err(ModelError::InvalidDirection("hold".into())));
    assert_eq!(InstrumentKind::parse("option_combo"), Ok(InstrumentKind::OptionCombo));
    assert_eq!(InstrumentKind::FutureCombo.to_string(), "future_combo");
    assert!(matches!(InstrumentKind::parse("bond"), Err(ModelError::UnsupportedInstrumentKind(_))));
    assert_eq!(InstrumentState::parse("settled"), Ok(InstrumentState::Settled));
    assert!(matches!(InstrumentState::parse("open"), Err(ModelError::UnsupportedInstrumentState(_))));
}

#[test]
fn serde_only_enum_names() {
    assert_eq!(LiquidationType::MakerTaker.to_string(), "MT");
    assert_eq!(LiquidationType::parse("T"), Some(LiquidationType::Taker));
    assert_eq!(LiquidityType::parse("X"), None);
    assert_eq!(OrderType::StopMarket.to_string(), "stop_market");
    assert_eq!(OrderState::parse("untriggered"), Some(OrderState::Untriggered));
    assert_eq!(OrderTrigger::IndexPrice.to_string(), "index_price");
    assert_eq!(TimeInForce::parse("fill_or_kill"), Some(TimeInForce::FillOrKill));
}

#[test]
fn tick_direction_codes() {
    assert_eq!(TickDirection::from_code(2), Ok(TickDirection::Minus));
    assert_eq!(TickDirection::ZeroMinus.code(), 3);
    assert_eq!(TickDirection::from_code(4), Err(ModelError::UnsupportedTickDirection(4)));
}

#[test]
fn interval_names_and_default() {
    assert_eq!(Interval::parse("raw"), Interval::Raw);
    assert_eq!(Interval::parse("agg2"), Interval::Agg2);
    assert_eq!(Interval::parse("100ms"), Interval::Ms100);
    assert_eq!(Interval::parse("1s"), Interval::Ms100);
    assert_eq!(Interval::default(), Interval::Ms100);
    assert_eq!(Interval::Ms100.to_string(), "100ms");
}

#[test]
fn index_test() {
    let name = IndexName::new("btc".to_string(), "usdc".to_string());
    let text = name.to_string();
    assert_eq!(text, "btc_usdc");
    let back = IndexName::parse(&text);
    assert_eq!(back.to_string(), "btc_usdc");
}

#[test]
fn index_name_cases_and_parts() {
    let upper = IndexName::new_upper("btc".to_string(), "usd".to_string());
    assert_eq!(upper.to_string(), "BTC_USD");
    assert_eq!(upper.to_lower().to_string(), "btc_usd");
    assert_eq!(IndexName::new_lower("ETH".into(), "USDC".into()).to_uppper().to_string(), "ETH_USDC");
    assert_eq!(IndexName::parse("a_b_c").to_string(), "");
    assert_eq!(IndexName::parse("ab").to_string(), "");
    assert_eq!(IndexName::new("".into(), "usd".into()).to_string(), "");
}

#[test]
fn auth_requests() {
    let a = AuthRequest::credential_auth("id", "secret");
    assert_eq!(a.grant_type, GrantType::ClientCredentials);
    assert_eq!(a.client_id.as_deref(), Some("id"));
    assert_eq!(a.client_secret.as_deref(), Some("secret"));
    assert!(a.refresh_token.is_none());
    assert!(GrantType::ClientCredentials.credential_auth_req("i", "s").is_some());
    assert!(GrantType::RefreshToken.credential_auth_req("i", "s").is_none());
    let r = GrantType::RefreshToken.refresh_token_auth_req("tok").unwrap();
    assert_eq!(r.refresh_token.as_deref(), Some("tok"));
    assert!(GrantType::ClientSignature.refresh_token_auth_req("tok").is_none());
    assert_eq!(GrantType::default(), GrantType::ClientCredentials);
}

#[test]
fn market_data_requests() {
    let r = GetInstrumentsRequest::options(Currency::ETH);
    assert_eq!(r.currency, Currency::ETH);
    assert_eq!(r.kind, Some(InstrumentKind::Option));
    assert_eq!(r.expired, Some(false));
    assert_eq!(SetHeartbeatRequest::with_interval(30).interval, 30);
    assert_eq!(TestRequest::expect("x").expected_result.as_deref(), Some("x"));
    assert!(TestRequest::new().expected_result.is_none());
}

#[test]
fn test_get_instruments_request_serialization() {
    let req = GetInstrumentsRequest::options(Currency::BTC);
    let json = req.params_json();
    assert!(json.contains("\"currency\":\"BTC\""));
    assert!(json.contains("\"kind\":\"option\""));
    assert!(json.contains("\"expired\":false"));
    assert!(!json.contains("null"));
}

#[test]
fn request_params_leave_out_unset_fields() {
    assert_eq!(
        GetInstrumentsRequest::options(Currency::ETH).params_json(),
        "{\"currency\":\"ETH\",\"kind\":\"option\",\"expired\":false}"
    );
    let bare = GetInstrumentsRequest { currency: Currency::Any, kind: None, expired: None };
    assert_eq!(bare.params_json(), "{\"currency\":\"any\"}");
    assert_eq!(GetOrderBookRequest::new("BTC-PERPETUAL").params_json(), "{\"instrument_name\":\"BTC-PERPETUAL\"}");
    assert_eq!(
        GetOrderBookRequest::with_depth("BTC-PERPETUAL", 5).params_json(),
        "{\"instrument_name\":\"BTC-PERPETUAL\",\"depth\":5}"
    );
    assert_eq!(SetHeartbeatRequest::with_interval(30).params_json(), "{\"interval\":30}");
    assert_eq!(TestRequest::new().params_json(), "{}");
    assert_eq!(TestRequest::expect("a\"b").params_json(), "{\"expected_result\":\"a\\\"b\"}");
    let hello = HelloRequest { client_name: "nq".to_string(), client_version: "1.0".to_string() };
    assert_eq!(hello.params_json(), "{\"client_name\":\"nq\",\"client_version\":\"1.0\"}");
    assert_eq!(
        AuthRequest::credential_auth("id", "secret").params_json(),
        "{\"grant_type\":\"client_credentials\",\"client_id\":\"id\",\"client_secret\":\"secret\"}"
    );
    assert_eq!(
        AuthRequest::refresh_token_auth("tok").params_json(),
        "{\"grant_type\":\"refresh_token\",\"refresh_token\":\"tok\"}"
    );
    let unsub = PrivateUnsubscribeRequest::new(vec!["a".to_string(), "b".to_string()]);
    assert_eq!(unsub.params_json(), "{\"channels\":[\"a\",\"b\"]}");
}

#[test]
fn request_payload_frames_a_request() {
    let sub = PublicSubscribeRequest::new(vec!["ticker.BTC-PERPETUAL.agg2".to_string()]);
    assert_eq!(
        request_payload(3, &sub, None),
        "{\"jsonrpc\":\"2.0\",\"id\":3,\"method\":\"public/subscribe\",\"params\":{\"channels\":[\"ticker.BTC-PERPETUAL.agg2\"]}}"
    );
    // A request that sends no parameters, with an access token: keys in order.
    assert_eq!(
        request_payload(4, &GetOrderBookRequest::new("BTC-PERPETUAL"), Some("tok")),
        "{\"access_token\":\"tok\",\"id\":4,\"jsonrpc\":\"2.0\",\"method\":\"public/get_order_book\"}"
    );
}
