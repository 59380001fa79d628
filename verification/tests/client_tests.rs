use nq_deribit::client::{Config, Rendezvous};

fn config() -> Config {
    Config::with_url("wss://example.com/ws".to_string())
}

#[test]
fn client_config_defaults() {
    let c = config();
    assert_eq!(c.url, "wss://example.com/ws");
    assert!(c.proxy.is_none());
    assert_eq!(c.heartbeat_interval, 30);
    assert_eq!(c.request_timeout, 60);
    assert!(c.public_subscribe_channels.is_empty());
    assert!(c.private_subscribe_channels.is_empty());
    assert_eq!(c.subscription_channel_capacity, 50000);
    assert_eq!(c.message_channel_capacity, 1000);
    assert_eq!(c.responser_channel_capacity, 1000);
}

#[test]
fn client_setup_requests_follow_the_settings() {
    let mut c = config();
    assert!(c.auth_req().is_none());
    assert!(c.public_sub_req().is_none());
    assert!(c.private_sub_req().is_none());
    c.client_id = Some("id".to_string());
    assert!(c.auth_req().is_none());
    c.client_secret = Some("secret".to_string());
    let auth = c.auth_req().unwrap();
    assert_eq!(auth.client_id.as_deref(), Some("id"));
    assert_eq!(auth.client_secret.as_deref(), Some("secret"));
    c.public_subscribe_channels = vec!["markprice.options.btc_usd".to_string()];
    assert_eq!(c.public_sub_req().unwrap().channels, vec!["markprice.options.btc_usd".to_string()]);
    c.private_subscribe_channels = vec!["user.portfolio.btc".to_string(), "user.changes.any.any.raw".to_string()];
    assert_eq!(c.private_sub_req().unwrap().channels.len(), 2);
}

#[test]
fn request_registered_first_meets_its_answer() {
    let mut r: Rendezvous<u32> = Rendezvous::new();
    assert_eq!(r.on_waiter(7, 70), None);
    assert_eq!(r.on_answer(8, "other".to_string()), None);
    assert_eq!(r.on_answer(7, "seven".to_string()), Some((70, "seven".to_string())));
    // The request met its answer and no longer waits.
    assert_eq!(r.on_answer(7, "again".to_string()), None);
}

#[test]
fn answer_arriving_first_meets_its_request() {
    let mut r: Rendezvous<u32> = Rendezvous::new();
    assert_eq!(r.on_answer(5, "five".to_string()), None);
    assert_eq!(r.on_waiter(5, 50), Some((50, "five".to_string())));
    assert_eq!(r.on_waiter(5, 51), None);
    assert_eq!(r.on_answer(5, "five again".to_string()), Some((51, "five again".to_string())));
}

#[test]
fn a_full_table_forgets_before_taking_more() {
    let mut r: Rendezvous<u32> = Rendezvous::new();
    for id in 0..1000 {
        assert_eq!(r.on_waiter(id, id as u32), None);
    }
    assert_eq!(r.on_waiter(1000, 1000), None);
    // The first 1000 requests were forgotten when the 1001st came.
    assert_eq!(r.on_answer(0, "zero".to_string()), None);
    assert_eq!(r.on_answer(1000, "last".to_string()), Some((1000, "last".to_string())));
}
