use nq_deribit::model::{Currency, Interval};
use nq_deribit::monitor::{
    apply_poll, dry_run_preview, expiry_cutoff_ms, instrument_state_channels, options_within_cutoff,
    resident_kb, ticker_channel, ticker_topic, track_instrument, track_new_options, AppConfig,
    OptionListing,
};
use nq_deribit::text::second_word_exec;
use nq_deribit::subscriber::{
    channels_from_text, dry_run_flag, is_valid_channel, resolve_channels, validate_channels,
};

#[test]
fn channels_from_text_trims_and_skips_blanks() {
    let text = "ticker.BTC-PERPETUAL.raw\n  book.ETH.100ms  \r\n\n\t\nquote.BTC\n";
    assert_eq!(
        channels_from_text(text),
        vec!["ticker.BTC-PERPETUAL.raw".to_string(), "book.ETH.100ms".to_string(), "quote.BTC".to_string()]
    );
    assert!(channels_from_text("").is_empty());
}

#[test]
fn channel_prefixes() {
    assert!(is_valid_channel("ticker.BTC-PERPETUAL.raw"));
    assert!(is_valid_channel("announcements."));
    assert!(!is_valid_channel("announcements"));
    assert!(!is_valid_channel("foo.bar"));
    let chs = vec!["book.BTC.raw".to_string(), "bogus".to_string(), "user.orders.x".to_string(), "x.y".to_string()];
    assert_eq!(validate_channels(&chs), vec!["bogus".to_string(), "x.y".to_string()]);
}

#[test]
fn channel_sources_in_order() {
    let default_text = "ticker.A.raw\n";
    assert_eq!(resolve_channels(Some(" book.X.raw \n"), Some("a,b"), default_text), vec!["book.X.raw".to_string()]);
    assert_eq!(resolve_channels(Some("  \n"), Some(" a , ,b"), default_text), vec!["a".to_string(), "b".to_string()]);
    assert_eq!(resolve_channels(None, Some(" , "), default_text), vec!["ticker.A.raw".to_string()]);
    assert_eq!(resolve_channels(None, None, default_text), vec!["ticker.A.raw".to_string()]);
}

#[test]
fn dry_run_setting() {
    assert!(dry_run_flag(Some("true")));
    assert!(dry_run_flag(Some("1")));
    assert!(!dry_run_flag(Some("yes")));
    assert!(!dry_run_flag(None));
}

#[test]
fn dry_run_preview_cuts_long_messages() {
    assert_eq!(dry_run_preview("short"), "short");
    let long = "x".repeat(250);
    assert_eq!(dry_run_preview(&long), format!("{}…", "x".repeat(200)));
    let exact = "y".repeat(200);
    assert_eq!(dry_run_preview(&exact), exact);
}

#[test]
fn monitor_settings_defaults_and_values() {
    let c = AppConfig::from_values(None, None, None, None, None);
    assert_eq!(c.currencies, vec![Currency::BTC, Currency::ETH]);
    assert_eq!(c.ticker_interval, Interval::Agg2);
    assert_eq!(c.mqtt_topic_prefix, "t/deribit/option_ticker");
    assert_eq!(c.poll_interval_secs, 300);
    assert_eq!(c.pool_capacity, 200);
    let c = AppConfig::from_values(Some(" eth , usdc,xyz,any"), Some("raw"), Some("p"), Some("60"), Some("bad"));
    assert_eq!(c.currencies, vec![Currency::ETH, Currency::USDC]);
    assert_eq!(c.ticker_interval, Interval::Raw);
    assert_eq!(c.mqtt_topic_prefix, "p");
    assert_eq!(c.poll_interval_secs, 60);
    assert_eq!(c.pool_capacity, 200);
}

#[test]
fn ticker_channels_and_topics() {
    assert_eq!(ticker_channel("BTC-27JUN25-100000-C", Interval::Agg2), "ticker.BTC-27JUN25-100000-C.agg2");
    assert_eq!(
        instrument_state_channels(&[Currency::BTC, Currency::ETH]),
        vec!["instrument_state.option.BTC".to_string(), "instrument_state.option.ETH".to_string()]
    );
    assert_eq!(ticker_topic("t/deribit/option_ticker", "BTC-X"), "t/deribit/option_ticker/BTC-X");
}

#[test]
fn expiry_filter() {
    let cutoff = expiry_cutoff_ms(1_000);
    assert_eq!(cutoff, (1_000 + 30 * 24 * 3600) * 1000);
    let listings = vec![
        OptionListing { instrument_name: "soon".into(), expiration_timestamp: cutoff },
        OptionListing { instrument_name: "late".into(), expiration_timestamp: cutoff + 1 },
    ];
    assert_eq!(options_within_cutoff(&listings, cutoff), vec!["soon".to_string()]);
}

#[test]
fn poll_updates_followed_options() {
    let mut followed = vec!["a".to_string(), "b".to_string()];
    let active = vec!["b".to_string(), "c".to_string(), "c".to_string(), "d".to_string()];
    let diff = apply_poll(&mut followed, &active);
    assert_eq!(diff.new, vec!["c".to_string(), "d".to_string()]);
    assert_eq!(diff.expired, vec!["a".to_string()]);
    assert_eq!(followed, vec!["b".to_string(), "c".to_string(), "d".to_string()]);
}

#[test]
fn new_options_and_instrument_state() {
    let mut followed = vec!["a".to_string()];
    let fresh = track_new_options(&mut followed, &["a".to_string(), "b".to_string(), "b".to_string()]);
    assert_eq!(fresh, vec!["b".to_string(), "b".to_string()]);
    assert_eq!(followed, vec!["a".to_string(), "b".to_string()]);
    assert!(track_instrument(&mut followed, "c".to_string()));
    assert!(!track_instrument(&mut followed, "a".to_string()));
    assert_eq!(followed.len(), 3);
}

#[test]
fn resident_memory_is_read_from_the_vmrss_line() {
    let status = "Name:\tmonitor\nVmPeak:\t  900 kB\nVmRSS:\t   12345 kB\nVmSwap:\t0 kB\n";
    assert_eq!(resident_kb(status), Some(12345));
    assert_eq!(resident_kb("VmRSS:\t77 kB\r\nThreads: 4\r\n"), Some(77));
    assert_eq!(resident_kb("Name: x\nThreads: 4\n"), None);
    assert_eq!(resident_kb(""), None);
    // Only the first VmRSS line counts, even where its number cannot be read.
    assert_eq!(resident_kb("VmRSS: lots kB\nVmRSS: 5 kB\n"), None);
    assert_eq!(resident_kb("VmRSS:"), None);
    assert_eq!(resident_kb("VmRSS: 99999999999999999999 kB"), None);
    assert_eq!(resident_kb("  VmRSS: 5 kB"), None);
}

#[test]
fn second_word_is_the_second_whitespace_separated_word() {
    assert_eq!(second_word_exec("  a  b c"), "b");
    assert_eq!(second_word_exec("a\tb"), "b");
    assert_eq!(second_word_exec("alone"), "");
    assert_eq!(second_word_exec("   "), "");
}
