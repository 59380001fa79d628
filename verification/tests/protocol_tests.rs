use nq_deribit::errors::DeribitError;
use nq_deribit::protocol::{awaited, classify_client_incoming, reply_outcome, token_after_auth, Awaited};
use nq_deribit::transport::{keepalive, on_frame, Frame, FrameStep, Keepalive};
use nq_deribit::connection::{
    chunks, connect_retry_delay, jitter_seed, next_connect_backoff, on_setup_failure, ResponseRouter,
    SetupRetry,
};
use nq_deribit::jsonrpc::{initial_id_generator, DefaultIDGenerator, IDGenerator};
use nq_deribit::metrics::extract_channel_group;
use nq_deribit::protocol::{
    channels_params_json, classify_incoming, payload_id, request_json, setup_auth_json,
    set_heartbeat_json, test_request_json, Incoming, OutgoingAction, ProtocolHandler, SetupCall,
    SetupFailure, SetupNext,
};

fn make_handler() -> ProtocolHandler {
    ProtocolHandler::new(30, 0, None, None)
}

#[test]
fn test_handle_heartbeat() {
    let handler = make_handler();
    let mut ids = initial_id_generator();
    let actions = handler.handle_notification("heartbeat", &mut ids);
    assert_eq!(actions.len(), 1);
    let payload = match &actions[0] {
        OutgoingAction::ExpectResponse(payload, _) => payload,
        OutgoingAction::Send(payload) => payload,
    };
    assert!(payload.contains("public/test"));
}

#[test]
fn test_handle_subscription() {
    let handler = make_handler();
    let mut ids = initial_id_generator();
    let actions = handler.handle_notification("subscription", &mut ids);
    assert!(actions.is_empty());
}

#[test]
fn test_handle_unknown_method() {
    let handler = make_handler();
    let mut ids = initial_id_generator();
    let actions = handler.handle_notification("unknown_thing", &mut ids);
    assert!(actions.is_empty());
}

#[test]
fn heartbeat_answer_uses_next_id() {
    let handler = make_handler();
    let mut ids = DefaultIDGenerator::new(41);
    let actions = handler.handle_notification("heartbeat", &mut ids);
    assert_eq!(
        actions,
        vec![OutgoingAction::ExpectResponse(
            "{\"id\":42,\"jsonrpc\":\"2.0\",\"method\":\"public/test\",\"params\":{}}".into(),
            42
        )]
    );
    assert_eq!(ids.next_id(), 43);
}

#[test]
fn id_generator_counts_up() {
    let mut ids = initial_id_generator();
    assert_eq!(ids.next_id(), 1);
    assert_eq!(ids.next_id(), 2);
    let mut other = DefaultIDGenerator::new(-5);
    assert_eq!(other.next_id(), -4);
}

#[test]
fn request_texts() {
    assert_eq!(test_request_json(7), "{\"id\":7,\"jsonrpc\":\"2.0\",\"method\":\"public/test\",\"params\":{}}");
    assert_eq!(
        set_heartbeat_json(1, 30),
        "{\"id\":1,\"jsonrpc\":\"2.0\",\"method\":\"public/set_heartbeat\",\"params\":{\"interval\":30}}"
    );
    assert_eq!(
        setup_auth_json(2, "cid", "s\"e"),
        "{\"client_id\":\"cid\",\"client_secret\":\"s\\\"e\",\"grant_type\":\"client_credentials\",\"id\":2,\"jsonrpc\":\"2.0\"}"
    );
    let params = channels_params_json(&["a.b".to_string(), "c".to_string()]);
    assert_eq!(params, "{\"channels\":[\"a.b\",\"c\"]}");
    assert_eq!(
        request_json(3, "public/subscribe", Some(&params), None),
        "{\"jsonrpc\":\"2.0\",\"id\":3,\"method\":\"public/subscribe\",\"params\":{\"channels\":[\"a.b\",\"c\"]}}"
    );
    assert_eq!(
        request_json(4, "public/get_order_book", None, Some("tok")),
        "{\"access_token\":\"tok\",\"id\":4,\"jsonrpc\":\"2.0\",\"method\":\"public/get_order_book\"}"
    );
    assert_eq!(channels_params_json(&[]), "{\"channels\":[]}");
}

#[test]
fn json_string_escapes_control_characters() {
    let params = channels_params_json(&["a\nb\u{1}\\".to_string()]);
    assert_eq!(params, "{\"channels\":[\"a\\nb\\u0001\\\\\"]}");
}

#[test]
fn classify_texts() {
    assert_eq!(classify_incoming("{\"jsonrpc\":\"2.0\",\"id\":5,\"result\":1}"), Incoming::Response(5));
    assert_eq!(
        classify_incoming("{\"jsonrpc\":\"2.0\",\"method\":\"heartbeat\",\"params\":{}}"),
        Incoming::Notification("heartbeat".into())
    );
    assert_eq!(classify_incoming("{\"x\":1}"), Incoming::Unrecognized);
    assert_eq!(classify_incoming("not json"), Incoming::Unreadable);
    assert_eq!(payload_id("{\"id\":9}"), Some(9));
    assert_eq!(payload_id("{\"id\":\"9\"}"), None);
}

#[test]
fn setup_sequence() {
    let with_creds = ProtocolHandler::new(30, 1, Some("id".into()), Some("secret".into()));
    assert_eq!(with_creds.setup_first(), SetupCall::SetHeartbeat);
    assert_eq!(with_creds.setup_after(SetupCall::SetHeartbeat, true, 2), SetupNext::Call(SetupCall::Auth));
    assert_eq!(with_creds.setup_after(SetupCall::Auth, false, 2), SetupNext::Call(SetupCall::Subscribe(0)));
    assert_eq!(with_creds.setup_after(SetupCall::Subscribe(0), true, 2), SetupNext::Call(SetupCall::Subscribe(1)));
    assert_eq!(with_creds.setup_after(SetupCall::Subscribe(1), true, 2), SetupNext::Done);
    assert_eq!(
        with_creds.setup_after(SetupCall::Subscribe(1), false, 2),
        SetupNext::Failed(SetupFailure::Resubscribe)
    );
    let plain = make_handler();
    assert_eq!(plain.setup_after(SetupCall::SetHeartbeat, true, 0), SetupNext::Done);
    assert_eq!(
        plain.setup_after(SetupCall::SetHeartbeat, false, 0),
        SetupNext::Failed(SetupFailure::Heartbeat)
    );
    assert!(SetupFailure::Heartbeat.message().contains("heartbeat"));
    assert_eq!(plain.setup_timeout_secs(SetupCall::Subscribe(0)), 60);
    assert_eq!(plain.setup_timeout_secs(SetupCall::SetHeartbeat), 10);
}

#[test]
fn setup_call_texts() {
    let handler = ProtocolHandler::new(15, 0, Some("id".into()), Some("sec".into()));
    let batches = vec![vec!["ticker.BTC-PERP.agg2".to_string()]];
    let mut ids = DefaultIDGenerator::new(0);
    assert_eq!(
        handler.setup_call_json(SetupCall::SetHeartbeat, &batches, &mut ids),
        "{\"id\":1,\"jsonrpc\":\"2.0\",\"method\":\"public/set_heartbeat\",\"params\":{\"interval\":15}}"
    );
    assert!(handler.setup_call_json(SetupCall::Auth, &batches, &mut ids).contains("\"id\":2"));
    assert_eq!(
        handler.setup_call_json(SetupCall::Subscribe(0), &batches, &mut ids),
        "{\"jsonrpc\":\"2.0\",\"id\":3,\"method\":\"public/subscribe\",\"params\":{\"channels\":[\"ticker.BTC-PERP.agg2\"]}}"
    );
}

#[test]
fn batches_of_250() {
    let chs: Vec<String> = (0..501).map(|i| format!("c{}", i)).collect();
    let b = chunks(&chs, 250);
    assert_eq!(b.len(), 3);
    assert_eq!(b[0].len(), 250);
    assert_eq!(b[1].len(), 250);
    assert_eq!(b[2], vec!["c500".to_string()]);
    assert!(chunks(&[], 250).is_empty());
}

#[test]
fn backoff_and_jitter() {
    assert_eq!(next_connect_backoff(1), 2);
    assert_eq!(next_connect_backoff(40), 60);
    assert_eq!(next_connect_backoff(60), 60);
    assert_eq!(jitter_seed(3), 3_000_000);
    // backoff 8: jitter 2, spread (seed + 8) % 5.
    assert_eq!(connect_retry_delay(0, 8), 6 + 3);
    assert_eq!(connect_retry_delay(2, 8), 6);
    assert_eq!(connect_retry_delay(0, 1), 1 + 0);
    assert_eq!(connect_retry_delay(u64::MAX, 60), 45 + ((u64::MAX.wrapping_add(60)) % 31));
}

#[test]
fn setup_backoff_gives_up() {
    assert_eq!(on_setup_failure(5), SetupRetry::Retry { wait_secs: 5, next: 10 });
    assert_eq!(on_setup_failure(80), SetupRetry::Retry { wait_secs: 80, next: 120 });
    assert_eq!(on_setup_failure(120), SetupRetry::Exit);
}

#[test]
fn router_finds_waiters_and_clears_when_full() {
    let mut r: ResponseRouter<&str> = ResponseRouter::new();
    r.register(1, "one");
    r.register(2, "two");
    assert_eq!(r.take(1), Some("one"));
    assert_eq!(r.take(1), None);
    assert_eq!(r.len(), 1);
    for id in 10..1009 {
        r.register(id, "x");
    }
    assert_eq!(r.len(), 1000);
    r.register(5000, "last");
    assert_eq!(r.len(), 1);
    assert_eq!(r.take(2), None);
    assert_eq!(r.take(5000), Some("last"));
}

#[test]
fn channel_group_of_notifications() {
    let text = r#"{"jsonrpc":"2.0","method":"subscription","params":{"channel":"ticker.BTC-PERPETUAL.raw","data":{}}}"#;
    assert_eq!(extract_channel_group(text), "ticker");
    assert_eq!(extract_channel_group(r#"{"params":{"channel":"announcements","data":{}}}"#), "announcements");
    assert_eq!(extract_channel_group(r#"{"params":{}}"#), "unknown");
    assert_eq!(extract_channel_group(r#"{"channel":"open"#), "unknown");
}

#[test]
fn only_subscriptions_are_handed_on_unchanged() {
    let handler = make_handler();
    let text = r#"{"jsonrpc":"2.0","method":"subscription","params":{"channel":"ticker.BTC-PERPETUAL.raw","data":{}}}"#;
    assert_eq!(handler.forwarded("subscription", text), Some(text.to_string()));
    assert_eq!(handler.forwarded("heartbeat", text), None);
    assert_eq!(handler.forwarded("unknown_thing", text), None);
}

#[test]
fn keepalive_pings_on_schedule_and_gives_up_without_pongs() {
    // 15 s pings, 30 s pong timeout; times in milliseconds.
    assert_eq!(keepalive(1_000, 0, 0, 15_000, 30_000), Keepalive::Wait);
    assert_eq!(keepalive(15_000, 0, 0, 15_000, 30_000), Keepalive::Ping);
    assert_eq!(keepalive(20_000, 15_000, 16_000, 15_000, 30_000), Keepalive::Wait);
    assert_eq!(keepalive(30_000, 15_000, 0, 15_000, 30_000), Keepalive::Ping);
    assert_eq!(keepalive(30_001, 30_000, 0, 15_000, 30_000), Keepalive::Dead);
    assert!(matches!(on_frame(Frame::Pong(vec![1])), FrameStep::Alive));
}

#[test]
fn answers_map_to_results_and_remote_errors() {
    use_reply_outcome();
}

fn use_reply_outcome() {
    assert!(matches!(reply_outcome(Some(5), None), Some(Ok(5))));
    match reply_outcome(Some(5), Some((11050, "bad_request".to_string()))) {
        Some(Err(DeribitError::RemoteError { code, message })) => {
            assert_eq!(code, 11050);
            assert_eq!(message, "bad_request");
        }
        _ => panic!("expected the remote error"),
    }
    assert!(reply_outcome::<i32>(None, None).is_none());
}

#[test]
fn token_changes_only_with_an_answered_credentials_call() {
    let old = Some("old".to_string());
    assert_eq!(token_after_auth(old.clone(), None), old);
    assert_eq!(token_after_auth(old.clone(), Some(Some("new".to_string()))), Some("new".to_string()));
    assert_eq!(token_after_auth(old, Some(None)), None);
}

#[test]
fn a_waiting_call_takes_only_its_own_answer() {
    assert_eq!(awaited(7, r#"{"jsonrpc":"2.0","id":7,"result":"ok"}"#), Awaited::Answer);
    assert_eq!(awaited(7, r#"{"jsonrpc":"2.0","id":8,"result":"ok"}"#), Awaited::Other);
    assert_eq!(awaited(7, r#"{"jsonrpc":"2.0","method":"heartbeat","params":{"type":"heartbeat"}}"#), Awaited::Other);
    assert_eq!(awaited(7, "not json"), Awaited::Unreadable);
}

#[test]
fn a_non_integer_id_is_a_notification_to_a_connection_but_passed_over_by_the_client() {
    let text = "{\"jsonrpc\":\"2.0\",\"id\":\"x\",\"method\":\"heartbeat\",\"params\":{}}";
    assert_eq!(classify_incoming(text), Incoming::Notification("heartbeat".to_string()));
    assert_eq!(classify_client_incoming(text), Incoming::Unrecognized);
    assert_eq!(classify_client_incoming("{\"id\":3,\"result\":1}"), Incoming::Response(3));
    assert_eq!(
        classify_client_incoming("{\"method\":\"subscription\",\"params\":{}}"),
        Incoming::Notification("subscription".to_string())
    );
    assert_eq!(classify_client_incoming("nope"), Incoming::Unreadable);
    assert_eq!(payload_id("{\"id\":\"x\"}"), None);
}
