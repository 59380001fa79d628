use std::collections::HashMap;

use nq_deribit::bridge::{BatchConfig, BridgeConfig, BridgeHandle, BridgeRegistry, HttpConfig};
use nq_deribit::template::{Template, TemplateError, Vars};

fn vars(topic: &str, payload: &str) -> Vars {
    let mut m = Vars::new();
    m.insert("topic".into(), topic.into());
    m.insert("payload".into(), payload.into());
    m.insert("clientid".into(), "client-1".into());
    m.insert("timestamp".into(), "1000".into());
    m
}

#[test]
fn single_plain_text() {
    let t = Template::parse("hello", false).unwrap();
    assert_eq!(t.render_single(&Vars::new()), "hello");
}

#[test]
fn single_with_variable() {
    let t = Template::parse("{\"t\":\"${topic}\"}", false).unwrap();
    assert_eq!(t.render_single(&vars("test/foo", "bar")), "{\"t\":\"test/foo\"}");
}

#[test]
fn single_missing_var_is_empty() {
    let t = Template::parse("${nope}", false).unwrap();
    assert_eq!(t.render_single(&Vars::new()), "");
}

#[test]
fn single_rejects_foreach() {
    assert!(matches!(
        Template::parse("[${foreach ,}x${end}]", false),
        Err(TemplateError::ForeachInSingleMode)
    ));
}

#[test]
fn batch_requires_foreach() {
    assert!(matches!(
        Template::parse("no foreach", true),
        Err(TemplateError::ForeachMissingInBatchMode)
    ));
}

#[test]
fn batch_missing_end() {
    assert!(matches!(
        Template::parse("[${foreach ,}no-end", true),
        Err(TemplateError::MissingEnd)
    ));
}

#[test]
fn batch_nested_foreach() {
    assert!(matches!(
        Template::parse("${foreach ,}${foreach ,}x${end}${end}", true),
        Err(TemplateError::NestedForeach)
    ));
}

#[test]
fn batch_two_messages() {
    let t = Template::parse("[${foreach ,}{\"t\":\"${topic}\"}${end}]", true).unwrap();
    let msgs = vec![vars("a", "p1"), vars("b", "p2")];
    assert_eq!(t.render_batch(&msgs), "[{\"t\":\"a\"},{\"t\":\"b\"}]");
}

#[test]
fn batch_empty() {
    let t = Template::parse("[${foreach ,}{\"t\":\"${topic}\"}${end}]", true).unwrap();
    assert_eq!(t.render_batch(&[]), "[]");
}

#[test]
fn bare_dollar_is_literal() {
    let t = Template::parse("$notavar ${topic}", false).unwrap();
    assert_eq!(t.render_single(&vars("t", "p")), "$notavar t");
}

#[test]
fn template_text_without_variables_renders_to_itself() {
    let t = Template::parse("plain {\"a\":1} text $", false).unwrap();
    assert_eq!(t.render_single(&vars("x", "y")), "plain {\"a\":1} text $");
}

#[test]
fn template_error_messages() {
    assert!(!TemplateError::MissingEnd.message().is_empty());
    assert_ne!(TemplateError::MissingEnd.message(), TemplateError::NestedForeach.message());
}

fn config(id: &str, batch_size: u32) -> BridgeConfig {
    BridgeConfig {
        id: id.into(),
        mqtt_topics: vec!["t/test".into()],
        http: HttpConfig {
            url: "https://example.com/webhook".into(),
            method: "POST".into(),
            headers: HashMap::new(),
        },
        template: if batch_size > 1 {
            "[${foreach ,}{\"t\":\"${topic}\"}${end}]".into()
        } else {
            "{\"t\":\"${topic}\"}".into()
        },
        batch: BatchConfig {
            size: batch_size,
            interval_ms: 1000,
            max_inflight: 4,
            request_timeout_ms: 10_000,
        },
        payload_parse: false,
    }
}

fn make_config(batch_size: u32) -> BridgeConfig {
    config("test-handle", batch_size)
}

fn handle_vars(topic: &str) -> Vars {
    let mut m = Vars::new();
    m.insert("topic".into(), topic.into());
    m.insert("payload".into(), "p".into());
    m.insert("clientid".into(), "c1".into());
    m.insert("timestamp".into(), "1".into());
    m
}

#[test]
fn validate_rejects_empty_id() {
    let config = BridgeConfig {
        id: String::new(),
        mqtt_topics: vec!["test".into()],
        http: HttpConfig {
            url: "https://x.com".into(),
            method: "POST".into(),
            headers: HashMap::new(),
        },
        template: "x".into(),
        batch: BatchConfig { size: 1, interval_ms: 1000, max_inflight: 4, request_timeout_ms: 10000 },
        payload_parse: false,
    };
    assert!(config.validate().is_err());
}

#[test]
fn validate_rejects_zero_batch_size() {
    let config = BridgeConfig {
        id: "test".into(),
        mqtt_topics: vec!["test".into()],
        http: HttpConfig {
            url: "https://x.com".into(),
            method: "POST".into(),
            headers: HashMap::new(),
        },
        template: "x".into(),
        batch: BatchConfig { size: 0, interval_ms: 1000, max_inflight: 4, request_timeout_ms: 10000 },
        payload_parse: false,
    };
    let err = config.validate().unwrap_err();
    assert!(err.iter().any(|e| e.contains("batch.size")));
}

#[test]
fn validate_accepts_good_config() {
    assert!(make_config(3).validate().is_ok());
    assert!(make_config(1).validate().is_ok());
    assert!(make_config(3).is_batch_mode());
    assert!(!make_config(1).is_batch_mode());
}

#[test]
fn config_defaults() {
    assert_eq!(nq_deribit::bridge::default_http_method(), "POST");
    assert_eq!(nq_deribit::bridge::default_max_inflight(), 4);
}

#[test]
fn single_mode_renders_immediately() {
    let h = BridgeHandle::new(make_config(1)).unwrap();
    let batch = h.render_single(&handle_vars("t/1"));
    assert_eq!(batch.body, "{\"t\":\"t/1\"}");
    assert_eq!(batch.message_count, 1);
}

#[test]
fn batch_buffers_until_size() {
    let mut h = BridgeHandle::new(make_config(3)).unwrap();
    assert!(h.push(handle_vars("a"), 0).is_none());
    assert!(h.push(handle_vars("b"), 0).is_none());
    let batch = h.push(handle_vars("c"), 0).unwrap();
    assert_eq!(batch.message_count, 3);
    assert_eq!(batch.body, "[{\"t\":\"a\"},{\"t\":\"b\"},{\"t\":\"c\"}]");
}

#[test]
fn drain_empty_returns_none() {
    let mut h = BridgeHandle::new(make_config(3)).unwrap();
    assert!(h.drain().is_none());
}

#[test]
fn timer_false_on_empty() {
    let h = BridgeHandle::new(make_config(3)).unwrap();
    assert!(!h.should_flush_by_timer(u64::MAX));
}

#[test]
fn invalid_template_fails_construction() {
    let mut cfg = make_config(1);
    cfg.template = "${foreach ,}broken".into();
    assert!(BridgeHandle::new(cfg).is_err());
}

#[test]
fn timer_flushes_after_interval() {
    let mut h = BridgeHandle::new(make_config(3)).unwrap();
    assert!(h.push(handle_vars("a"), 5_000_000_000).is_none());
    // 1000 ms interval: not yet due after 999 ms nor after exactly 1000 ms,
    // due once it has waited longer.
    assert!(!h.should_flush_by_timer(5_999_000_000));
    assert!(!h.should_flush_by_timer(6_000_000_000));
    assert!(h.should_flush_by_timer(6_000_000_001));
    let batch = h.drain().unwrap();
    assert_eq!(batch.message_count, 1);
    assert_eq!(batch.body, "[{\"t\":\"a\"}]");
    assert!(h.drain().is_none());
}

#[test]
fn registry_routes_by_topic_and_removes() {
    let mut reg = BridgeRegistry::new();
    assert!(reg.add(config("one", 1)).is_ok());
    assert!(reg.add(config("two", 3)).is_ok());
    assert_eq!(reg.len(), 2);
    assert_eq!(reg.handles_for_topic("t/test"), vec!["one".to_string(), "two".to_string()]);
    assert!(reg.handles_for_topic("t/other").is_empty());
    let sent = reg.deliver("one", handle_vars("t/test"), 0).unwrap();
    assert_eq!(sent.body, "{\"t\":\"t/test\"}");
    assert!(reg.deliver("two", handle_vars("t/test"), 0).is_none());
    let (topics, drained) = reg.remove("two").unwrap();
    assert_eq!(topics, vec!["t/test".to_string()]);
    assert_eq!(drained.unwrap().message_count, 1);
    assert_eq!(reg.handles_for_topic("t/test"), vec!["one".to_string()]);
    assert!(reg.remove("two").is_err());
    assert!(reg.contains("one"));
    assert!(!reg.contains("two"));
}

#[test]
fn registry_flushes_only_due_bridges_and_drains_the_rest() {
    let mut reg = BridgeRegistry::new();
    assert!(reg.add(config("a", 3)).is_ok());
    assert!(reg.add(config("b", 3)).is_ok());
    assert!(reg.add(config("c", 3)).is_ok());
    // "a" buffers at t = 0, "b" at t = 0.5 s; "c" stays empty.
    assert!(reg.deliver("a", handle_vars("x"), 0).is_none());
    assert!(reg.deliver("b", handle_vars("y"), 500_000_000).is_none());
    // At t = 1.2 s only "a" has waited longer than its 1000 ms interval.
    let due = reg.flush_due(1_200_000_000);
    assert_eq!(due.len(), 1);
    assert_eq!(due[0].0, "a");
    assert_eq!(due[0].1.body, "[{\"t\":\"x\"}]");
    assert_eq!(due[0].1.message_count, 1);
    assert!(reg.flush_due(1_200_000_000).is_empty());
    // Draining gives what is left, in bridge order.
    assert!(reg.deliver("c", handle_vars("z"), 1_200_000_000).is_none());
    let rest = reg.drain_all();
    assert_eq!(rest.len(), 2);
    assert_eq!(rest[0].0, "b");
    assert_eq!(rest[0].1.body, "[{\"t\":\"y\"}]");
    assert_eq!(rest[1].0, "c");
    assert!(reg.drain_all().is_empty());
}

#[test]
fn delivered_batches_go_to_the_bridge_endpoint() {
    let mut reg = BridgeRegistry::new();
    let mut single = config("s", 1);
    single.http.url = "https://example.com/single".into();
    single.http.method = "PUT".into();
    single.http.headers.insert("X-Key".into(), "v".into());
    assert!(reg.add(single).is_ok());
    assert!(reg.add(config("b", 2)).is_ok());
    let b = reg.deliver("s", handle_vars("x"), 0).unwrap();
    assert_eq!(b.url, "https://example.com/single");
    assert_eq!(b.method, "PUT");
    assert_eq!(b.headers.get("X-Key").map(String::as_str), Some("v"));
    assert!(reg.deliver("b", handle_vars("y"), 0).is_none());
    let b = reg.deliver("b", handle_vars("z"), 0).unwrap();
    assert_eq!(b.url, "https://example.com/webhook");
    assert_eq!(b.method, "POST");
    assert_eq!(b.message_count, 2);
}

#[test]
fn batch_template_renders_from_its_parts() {
    let t = Template::parse("${topic}[${foreach ;}${topic}${end}]", true).unwrap();
    assert_eq!(t.render_batch(&[vars("a", "p"), vars("b", "q")]), "[a;b]");
}

#[test]
fn unclosed_dollar_brace_stays_text() {
    let t = Template::parse("x ${topic", false).unwrap();
    assert_eq!(t.render_single(&vars("a", "p")), "x ${topic");
}
