//! The option monitor: its settings, the ticker channels of the options it
//! follows, and how the set of followed options changes with each poll.
use vstd::prelude::*;
use crate::model::{
    currency_of, interval_name, interval_of, upper_case, Currency, Interval, InstrumentKind,
};
use crate::subscription::{Channel, InstrumentStateChannel};
use crate::text::{
    bounded_unsigned_of, chars_of, parse_unsigned, push_all, push_char, second_word,
    second_word_exec, split, split_exec, starts_with, starts_with_exec, string_from_range, trim,
    trim_exec, vec_contains, views,
};

verus! {

// ------------------------------------------------------------ settings

/// The settings of the option monitor.
#[derive(Debug)]
pub struct AppConfig {
    pub currencies: Vec<Currency>,
    pub ticker_interval: Interval,
    pub mqtt_topic_prefix: String,
    pub poll_interval_secs: u64,
    pub pool_capacity: usize,
}

/// The currencies that a comma-separated list names: each piece trimmed and
/// put in upper case; pieces that name no currency are left out.
pub open spec fn currency_list(pieces: Seq<Seq<char>>) -> Seq<Currency>
    decreases pieces.len(),
{
    if pieces.len() == 0 {
        Seq::empty()
    } else {
        currency_list(pieces.drop_last()) + match currency_of(upper_case(trim(pieces.last()))) {
            Some(c) => seq![c],
            None => Seq::empty(),
        }
    }
}

/// The value of an optional setting, or its default.
pub open spec fn setting_or(value: Option<&str>, default: Seq<char>) -> Seq<char> {
    match value {
        Some(v) => v@,
        None => default,
    }
}

/// The view of an optional setting.
pub open spec fn opt_str(value: Option<&str>) -> Option<Seq<char>> {
    match value {
        Some(v) => Some(v@),
        None => None,
    }
}

/// A number setting: the number it reads as, or `default` where it is
/// absent or is no number up to `max`.
pub open spec fn number_or(value: Option<Seq<char>>, max: nat, default: nat) -> nat {
    match value {
        Some(v) => match bounded_unsigned_of(v, max) {
            Some(n) => n,
            None => default,
        },
        None => default,
    }
}

/// The currencies named in the comma-separated list `text`.
pub fn parse_currencies(text: &str) -> (r: Vec<Currency>)
    ensures
        r@ == currency_list(split(text@, ',')),
{
    let pieces = split_exec(text, ',');
    let ghost ps = split(text@, ',');
    let mut out: Vec<Currency> = Vec::new();
    let mut i: usize = 0;
    while i < pieces.len()
        invariant
            i <= pieces@.len(),
            views(pieces@) == ps,
            out@ == currency_list(ps.take(i as int)),
        decreases pieces@.len() - i,
    {
        let t = trim_exec(pieces[i].as_str());
        let u = crate::model::to_upper(t.as_str());
        proof {
            assert(ps[i as int] == pieces@[i as int]@);
            assert(ps.take(i + 1).drop_last() =~= ps.take(i as int));
        }
        match Currency::parse(u.as_str()) {
            Ok(c) => {
                out.push(c);
            },
            Err(_) => {},
        }
        proof {
            assert(out@ =~= currency_list(ps.take(i + 1)));
        }
        i = i + 1;
    }
    assert(ps.take(i as int) =~= ps);
    out
}

impl AppConfig {
    /// The settings from the values of the settings that were given:
    /// the currency list (default "BTC,ETH"), the ticker interval (default
    /// "agg2"), the topic prefix (default "t/deribit/option_ticker"), the
    /// poll interval in seconds (default 300) and the number of channels per
    /// connection (default 200).
    pub fn from_values(
        currencies: Option<&str>,
        ticker_interval: Option<&str>,
        mqtt_topic_prefix: Option<&str>,
        poll_interval_secs: Option<&str>,
        pool_capacity: Option<&str>,
    ) -> (r: AppConfig)
        ensures
            r.currencies@ == currency_list(split(setting_or(currencies, "BTC,ETH"@), ',')),
            r.ticker_interval == interval_of(setting_or(ticker_interval, "agg2"@)),
            r.mqtt_topic_prefix@ == setting_or(mqtt_topic_prefix, "t/deribit/option_ticker"@),
            r.poll_interval_secs == number_or(opt_str(poll_interval_secs), u64::MAX as nat, 300),
            r.pool_capacity == number_or(opt_str(pool_capacity), usize::MAX as nat, 200),
    {
        let cur = match currencies {
            Some(c) => c,
            None => "BTC,ETH",
        };
        let interval = match ticker_interval {
            Some(i) => i,
            None => "agg2",
        };
        let prefix = match mqtt_topic_prefix {
            Some(p) => p,
            None => "t/deribit/option_ticker",
        };
        let poll: u64 = match poll_interval_secs {
            Some(p) => match parse_unsigned(p, u64::MAX) {
                Some(n) => n,
                None => 300,
            },
            None => 300,
        };
        let capacity: usize = match pool_capacity {
            Some(p) => match parse_unsigned(p, usize::MAX as u64) {
                Some(n) => n as usize,
                None => 200,
            },
            None => 200,
        };
        AppConfig {
            currencies: parse_currencies(cur),
            ticker_interval: Interval::parse(interval),
            mqtt_topic_prefix: prefix.to_owned(),
            poll_interval_secs: poll,
            pool_capacity: capacity,
        }
    }
}

// ------------------------------------------------------------ channels and topics

/// The ticker channel of an instrument: `ticker.<name>.<interval>`.
pub open spec fn ticker_channel_text(name: Seq<char>, interval: Interval) -> Seq<char> {
    "ticker."@ + name + seq!['.'] + interval_name(interval)
}

/// The ticker channel of instrument `name`.
pub fn ticker_channel(name: &str, interval: Interval) -> (r: String)
    ensures
        r@ == ticker_channel_text(name@, interval),
{
    let mut r = "ticker.".to_owned();
    push_all(&mut r, name);
    push_char(&mut r, '.');
    push_all(&mut r, interval.to_string().as_str());
    r
}

/// The ticker channel of an instrument whose name holds no dot names the
/// instrument and the interval: split at its dots it is `ticker`, the
/// instrument name and the interval's name, and that last field reads back as
/// the interval.
pub proof fn law_ticker_channel_fields(name: Seq<char>, interval: Interval)
    requires
        crate::subscription::lacks(name, '.'),
    ensures
        split(ticker_channel_text(name, interval), '.') == seq!["ticker"@, name, interval_name(interval)],
        interval_of(split(ticker_channel_text(name, interval), '.')[2]) == interval,
        starts_with(ticker_channel_text(name, interval), "ticker."@),
{
    reveal_strlit("ticker");
    reveal_strlit("ticker.");
    reveal_strlit("raw");
    reveal_strlit("100ms");
    reveal_strlit("agg2");
    let parts = seq!["ticker"@, name, interval_name(interval)];
    assert(crate::subscription::lacks(interval_name(interval), '.'));
    assert(crate::subscription::lacks("ticker"@, '.'));
    assert forall|k: int| 0 <= k < parts.len() implies crate::subscription::lacks(#[trigger] parts[k], '.') by {}
    reveal_with_fuel(crate::text::join, 4);
    assert(parts.skip(1).skip(1) =~= seq![interval_name(interval)]);
    assert(parts.skip(1)[0] == name);
    assert(crate::text::join(parts, '.') =~= ticker_channel_text(name, interval));
    crate::subscription::law_split_join(parts, '.');
    crate::model::law_interval_roundtrip(interval);
    assert(ticker_channel_text(name, interval).take(7) =~= "ticker."@);
}

/// The ticker channels of the instruments `names`, in order.
pub fn ticker_channels(names: &[String], interval: Interval) -> (r: Vec<String>)
    ensures
        r@.len() == names@.len(),
        forall|i: int| 0 <= i < names@.len() ==> r@[i]@ == ticker_channel_text(names@[i]@, interval),
{
    let mut out: Vec<String> = Vec::new();
    let mut i: usize = 0;
    while i < names.len()
        invariant
            i <= names@.len(),
            out@.len() == i,
            forall|k: int| 0 <= k < i ==> out@[k]@ == ticker_channel_text(names@[k]@, interval),
        decreases names@.len() - i,
    {
        out.push(ticker_channel(names[i].as_str(), interval));
        i = i + 1;
    }
    out
}

/// The instrument state channels of the options of `currencies`:
/// `instrument_state.option.<currency>`.
pub fn instrument_state_channels(currencies: &[Currency]) -> (r: Vec<String>)
    ensures
        r@.len() == currencies@.len(),
        forall|i: int|
            0 <= i < currencies@.len() ==> r@[i]@ == InstrumentStateChannel(
                InstrumentKind::Option,
                currencies@[i],
            ).channel_text(),
{
    let mut out: Vec<String> = Vec::new();
    let mut i: usize = 0;
    while i < currencies.len()
        invariant
            i <= currencies@.len(),
            out@.len() == i,
            forall|k: int|
                0 <= k < i ==> out@[k]@ == InstrumentStateChannel(
                    InstrumentKind::Option,
                    currencies@[k],
                ).channel_text(),
        decreases currencies@.len() - i,
    {
        let ch = InstrumentStateChannel(InstrumentKind::Option, currencies[i]);
        out.push(ch.to_string());
        i = i + 1;
    }
    out
}

/// The MQTT topic of an instrument's ticker: `<prefix>/<instrument>`.
pub fn ticker_topic(prefix: &str, instrument_name: &str) -> (r: String)
    ensures
        r@ == prefix@ + seq!['/'] + instrument_name@,
{
    let mut r = prefix.to_owned();
    push_char(&mut r, '/');
    push_all(&mut r, instrument_name);
    r
}

/// Whether a notification's channel is a ticker channel.
pub fn is_ticker_channel(channel: &str) -> (r: bool)
    ensures
        r == starts_with(channel@, "ticker."@),
{
    starts_with_exec(channel, "ticker.")
}

/// Whether a notification's channel is an instrument state channel.
pub fn is_instrument_state_channel(channel: &str) -> (r: bool)
    ensures
        r == starts_with(channel@, "instrument_state."@),
{
    starts_with_exec(channel, "instrument_state.")
}

// ------------------------------------------------------------ expiry

/// How far ahead an option may expire to be followed: 30 days, in seconds.
pub const MAX_EXPIRY_SECS: u64 = 2_592_000;

/// The latest expiration time, in milliseconds, of an option followed at
/// `now_secs`: 30 days on.
pub fn expiry_cutoff_ms(now_secs: u64) -> (r: u64)
    requires
        (now_secs + MAX_EXPIRY_SECS) * 1000 <= u64::MAX,
    ensures
        r == (now_secs + MAX_EXPIRY_SECS) * 1000,
{
    (now_secs + MAX_EXPIRY_SECS) * 1000
}

/// An option as the monitor sees it: its name and when it expires, in
/// milliseconds since the epoch.
#[derive(Debug)]
pub struct OptionListing {
    pub instrument_name: String,
    pub expiration_timestamp: u64,
}

/// The names of the listed options that expire no later than `cutoff_ms`.
pub open spec fn names_within(listings: Seq<OptionListing>, cutoff_ms: u64) -> Seq<Seq<char>>
    decreases listings.len(),
{
    if listings.len() == 0 {
        Seq::empty()
    } else {
        names_within(listings.drop_last(), cutoff_ms) + if listings.last().expiration_timestamp
            <= cutoff_ms {
            seq![listings.last().instrument_name@]
        } else {
            Seq::empty()
        }
    }
}

/// The names of the options of `listings` that expire by `cutoff_ms`, in
/// order.
pub fn options_within_cutoff(listings: &[OptionListing], cutoff_ms: u64) -> (r: Vec<String>)
    ensures
        views(r@) == names_within(listings@, cutoff_ms),
{
    let mut out: Vec<String> = Vec::new();
    let mut i: usize = 0;
    while i < listings.len()
        invariant
            i <= listings@.len(),
            views(out@) == names_within(listings@.take(i as int), cutoff_ms),
        decreases listings@.len() - i,
    {
        proof {
            assert(listings@.take(i + 1).drop_last() =~= listings@.take(i as int));
        }
        if listings[i].expiration_timestamp <= cutoff_ms {
            let n = listings[i].instrument_name.clone();
            proof {
                assert(views(out@.push(n)) =~= views(out@).push(n@));
            }
            out.push(n);
        }
        proof {
            assert(views(out@) =~= names_within(listings@.take(i + 1), cutoff_ms));
        }
        i = i + 1;
    }
    assert(listings@.take(i as int) =~= listings@);
    out
}

// ------------------------------------------------------------ followed options

/// No name occurs twice in `s`.
pub open spec fn distinct(s: Seq<Seq<char>>) -> bool {
    forall|i: int, j: int| 0 <= i < j < s.len() ==> s[i] != s[j]
}

/// What a poll changed: the options that appeared and those that went away.
#[derive(Debug)]
pub struct OptionDiff {
    pub new: Vec<String>,
    pub expired: Vec<String>,
}

/// Follows the options of a poll: those of `active` that were not followed
/// are added, in the order of `active` and each once; the followed ones that
/// `active` no longer lists are dropped. Returns both lists.
#[verifier::spinoff_prover]
pub fn apply_poll(followed: &mut Vec<String>, active: &[String]) -> (r: OptionDiff)
    requires
        distinct(views(old(followed)@)),
    ensures
        distinct(views(final(followed)@)),
        distinct(views(r.new@)),
        forall|n: Seq<char>| views(final(followed)@).contains(n) <==> views(active@).contains(n),
        forall|n: Seq<char>|
            views(r.new@).contains(n) <==> (views(active@).contains(n) && !views(
                old(followed)@,
            ).contains(n)),
        forall|n: Seq<char>|
            views(r.expired@).contains(n) <==> (views(old(followed)@).contains(n) && !views(
                active@,
            ).contains(n)),
        views(r.expired@) == views(old(followed)@).filter(|n: Seq<char>| !views(active@).contains(n)),
{
    let mut new: Vec<String> = Vec::new();
    let mut i: usize = 0;
    while i < active.len()
        invariant
            i <= active@.len(),
            distinct(views(new@)),
            forall|n: Seq<char>|
                views(new@).contains(n) <==> (views(active@.take(i as int)).contains(n) && !views(
                    followed@,
                ).contains(n)),
            followed@ == old(followed)@,
        decreases active@.len() - i,
    {
        let a = &active[i];
        let ghost prev = views(active@.take(i as int));
        proof {
            assert(views(active@.take(i + 1)) =~= prev.push(a@));
            lemma_push_contains(prev, a@);
        }
        let in_followed = vec_contains(followed.as_slice(), a);
        let in_new = vec_contains(new.as_slice(), a);
        let ghost new_before = views(new@);
        assert(in_new == new_before.contains(a@));
        assert(in_followed == views(followed@).contains(a@));
        if !in_followed && !in_new {
            let c = a.clone();
            assert(c@ == a@);
            proof {
                let p = views(new@);
                assert(views(new@.push(c)) =~= p.push(a@));
                assert forall|k: int| 0 <= k < p.len() implies p[k] != a@ by {
                    assert(p.contains(p[k]));
                }
                lemma_push_contains(p, a@);
            }
            new.push(c);
        }
        proof {
            assert forall|n: Seq<char>|
                views(new@).contains(n) <==> (views(active@.take(i + 1)).contains(n) && !views(
                    followed@,
                ).contains(n)) by {
                assert(views(active@.take(i + 1)) == prev.push(a@));
                assert(prev.push(a@).contains(n) <==> (prev.contains(n) || n == a@));
                assert(new_before.contains(n) <==> (prev.contains(n) && !views(followed@).contains(n)));
                if !in_followed && !in_new {
                    assert(views(new@).contains(n) <==> (new_before.contains(n) || n == a@));
                } else {
                    assert(views(new@) == new_before);
                }
            }
        }
        i = i + 1;
    }
    assert(active@.take(i as int) =~= active@);
    let ghost act = views(active@);
    let mut expired: Vec<String> = Vec::new();
    let mut kept: Vec<String> = Vec::new();
    let mut j: usize = 0;
    while j < followed.len()
        invariant
            j <= followed@.len(),
            followed@ == old(followed)@,
            act == views(active@),
            distinct(views(followed@)),
            views(expired@) == views(followed@.take(j as int)).filter(|n: Seq<char>| !act.contains(n)),
            views(kept@) == views(followed@.take(j as int)).filter(|n: Seq<char>| act.contains(n)),
        decreases followed@.len() - j,
    {
        let t = followed[j].clone();
        let in_active = vec_contains(active, &t);
        proof {
            let before = views(followed@.take(j as int));
            assert(views(followed@.take(j + 1)) =~= before.push(t@));
            before.lemma_filter_push(t@, |n: Seq<char>| !act.contains(n));
            before.lemma_filter_push(t@, |n: Seq<char>| act.contains(n));
        }
        if in_active {
            proof {
                assert(views(kept@.push(t)) =~= views(kept@).push(t@));
            }
            kept.push(t);
        } else {
            proof {
                assert(views(expired@.push(t)) =~= views(expired@).push(t@));
            }
            expired.push(t);
        }
        j = j + 1;
    }
    assert(followed@.take(j as int) =~= followed@);
    let ghost old_views = views(followed@);
    let ghost kept_views = views(kept@);
    let ghost new_views = views(new@);
    let mut k: usize = 0;
    while k < new.len()
        invariant
            k <= new@.len(),
            views(kept@) == kept_views + new_views.take(k as int),
            new_views == views(new@),
        decreases new@.len() - k,
    {
        let c = new[k].clone();
        proof {
            assert(views(kept@.push(c)) =~= views(kept@).push(new_views[k as int]));
            assert(new_views.take(k + 1) =~= new_views.take(k as int).push(new_views[k as int]));
            assert(kept_views + new_views.take(k + 1) =~= (kept_views + new_views.take(
                k as int,
            )).push(new_views[k as int]));
        }
        kept.push(c);
        k = k + 1;
    }
    proof {
        assert(new_views.take(k as int) =~= new_views);
        lemma_filter_contains(old_views, |n: Seq<char>| act.contains(n));
        lemma_filter_contains(old_views, |n: Seq<char>| !act.contains(n));
        lemma_filter_distinct(old_views, |n: Seq<char>| act.contains(n));
        let fin = kept_views + new_views;
        assert(views(kept@) == fin);
        assert forall|n: Seq<char>| fin.contains(n) <==> act.contains(n) by {
            if fin.contains(n) {
                let x = choose|x: int| 0 <= x < fin.len() && fin[x] == n;
                if x < kept_views.len() {
                    assert(kept_views.contains(n));
                } else {
                    assert(new_views.contains(new_views[x - kept_views.len()]));
                }
            }
            if act.contains(n) {
                if old_views.contains(n) {
                    assert(kept_views.contains(n));
                    let x = choose|x: int| 0 <= x < kept_views.len() && kept_views[x] == n;
                    assert(fin[x] == n);
                } else {
                    assert(new_views.contains(n));
                    let x = choose|x: int| 0 <= x < new_views.len() && new_views[x] == n;
                    assert(fin[kept_views.len() + x] == n);
                }
            }
        }
        assert forall|a: int, b: int| 0 <= a < b < fin.len() implies fin[a] != fin[b] by {
            if b < kept_views.len() {
            } else if a >= kept_views.len() {
                assert(fin[a] == new_views[a - kept_views.len()]);
                assert(fin[b] == new_views[b - kept_views.len()]);
            } else {
                assert(kept_views.contains(fin[a]));
                assert(new_views.contains(new_views[b - kept_views.len()]));
            }
        }
    }
    *followed = kept;
    OptionDiff { new, expired }
}

/// Membership in a sequence with one more name.
pub proof fn lemma_push_contains(p: Seq<Seq<char>>, a: Seq<char>)
    ensures
        forall|n: Seq<char>| p.push(a).contains(n) <==> (p.contains(n) || n == a),
{
    assert forall|n: Seq<char>| p.push(a).contains(n) <==> (p.contains(n) || n == a) by {
        if p.push(a).contains(n) && n != a {
            let x = choose|x: int| 0 <= x < p.len() + 1 && p.push(a)[x] == n;
            assert(p[x] == n);
        }
        if p.contains(n) {
            let x = choose|x: int| 0 <= x < p.len() && p[x] == n;
            assert(p.push(a)[x] == n);
        }
        if n == a {
            assert(p.push(a)[p.len() as int] == n);
        }
    }
}

/// Membership in a filtered sequence.
pub proof fn lemma_filter_contains(s: Seq<Seq<char>>, f: spec_fn(Seq<char>) -> bool)
    ensures
        forall|n: Seq<char>| s.filter(f).contains(n) <==> (s.contains(n) && f(n)),
{
    assert forall|n: Seq<char>| s.filter(f).contains(n) <==> (s.contains(n) && f(n)) by {
        if s.contains(n) && f(n) {
            let x = choose|x: int| 0 <= x < s.len() && s[x] == n;
            s.lemma_filter_contains(f, x);
        }
        if s.filter(f).contains(n) {
            s.lemma_filter_contains_rev(f, n);
            let x = choose|x: int| 0 <= x < s.filter(f).len() && s.filter(f)[x] == n;
            s.lemma_filter_pred(f, x);
        }
    }
}

/// A filtered sequence of distinct names has distinct names.
pub proof fn lemma_filter_distinct(s: Seq<Seq<char>>, f: spec_fn(Seq<char>) -> bool)
    requires
        distinct(s),
    ensures
        distinct(s.filter(f)),
    decreases s.len(),
{
    broadcast use vstd::seq_lib::group_filter_ensures;
    reveal(Seq::filter);
    if s.len() > 0 {
        lemma_filter_distinct(s.drop_last(), f);
        lemma_filter_contains(s.drop_last(), f);
        assert(s.filter(f) == if f(s.last()) {
            s.drop_last().filter(f).push(s.last())
        } else {
            s.drop_last().filter(f)
        });
        assert(!s.drop_last().contains(s.last())) by {
            if s.drop_last().contains(s.last()) {
                let x = choose|x: int| 0 <= x < s.drop_last().len() && s.drop_last()[x] == s.last();
                assert(s[x] == s[s.len() - 1]);
            }
        }
    }
}

/// Follows the options `names` that were not followed yet; returns them, in
/// order (a name given twice is returned twice).
#[verifier::spinoff_prover]
pub fn track_new_options(followed: &mut Vec<String>, names: &[String]) -> (r: Vec<String>)
    requires
        distinct(views(old(followed)@)),
    ensures
        distinct(views(final(followed)@)),
        views(r@) == views(names@).filter(|n: Seq<char>| !views(old(followed)@).contains(n)),
        forall|n: Seq<char>|
            views(final(followed)@).contains(n) <==> (views(old(followed)@).contains(n) || views(
                names@,
            ).contains(n)),
{
    let ghost before = views(followed@);
    let mut out: Vec<String> = Vec::new();
    let mut i: usize = 0;
    while i < names.len()
        invariant
            i <= names@.len(),
            followed@ == old(followed)@,
            before == views(followed@),
            views(out@) == views(names@.take(i as int)).filter(|n: Seq<char>| !before.contains(n)),
        decreases names@.len() - i,
    {
        let n = names[i].clone();
        let known = vec_contains(followed.as_slice(), &n);
        proof {
            let b = views(names@.take(i as int));
            assert(views(names@.take(i + 1)) =~= b.push(n@));
            b.lemma_filter_push(n@, |x: Seq<char>| !before.contains(x));
        }
        if !known {
            proof {
                assert(views(out@.push(n)) =~= views(out@).push(n@));
            }
            out.push(n);
        }
        i = i + 1;
    }
    assert(names@.take(i as int) =~= names@);
    let mut k: usize = 0;
    while k < out.len()
        invariant
            k <= out@.len(),
            distinct(views(followed@)),
            forall|n: Seq<char>|
                views(followed@).contains(n) <==> (before.contains(n) || views(out@.take(
                    k as int,
                )).contains(n)),
        decreases out@.len() - k,
    {
        let n = out[k].clone();
        assert(n@ == out@[k as int]@);
        let ghost p = views(out@.take(k as int));
        let ghost fol = views(followed@);
        proof {
            assert(views(out@.take(k + 1)) =~= p.push(n@));
            lemma_push_contains(p, n@);
            assert forall|m: Seq<char>| fol.contains(m) <==> (before.contains(m) || p.contains(m)) by {
                assert(views(followed@).contains(m) <==> (before.contains(m) || views(
                    out@.take(k as int),
                ).contains(m)));
            }
        }
        let known = vec_contains(followed.as_slice(), &n);
        assert(known == fol.contains(n@));
        if !known {
            proof {
                assert(views(followed@.push(n)) =~= fol.push(n@));
                assert forall|a: int| 0 <= a < fol.len() implies fol[a] != n@ by {
                    assert(fol.contains(fol[a]));
                }
                lemma_push_contains(fol, n@);
            }
            followed.push(n);
        }
        proof {
            let q = views(out@.take(k + 1));
            assert(q =~= p.push(n@));
            assert forall|m: Seq<char>| q.contains(m) implies views(followed@).contains(m) by {
                assert(p.push(n@).contains(m));
                assert(p.contains(m) || m == n@);
                if p.contains(m) {
                    assert(fol.contains(m));
                } else {
                    assert(m == n@);
                }
            }
            assert forall|m: Seq<char>| views(followed@).contains(m) implies (before.contains(m)
                || q.contains(m)) by {
                if !known {
                    assert(fol.contains(m) || m == n@);
                }
                if fol.contains(m) {
                    assert(before.contains(m) || p.contains(m));
                }
            }
        }
        k = k + 1;
    }
    proof {
        assert(out@.take(k as int) =~= out@);
        lemma_filter_contains(views(names@), |n: Seq<char>| !before.contains(n));
    }
    out
}

/// Follows the option `name`; returns whether it was not followed before
/// (and so is to be subscribed to).
pub fn track_instrument(followed: &mut Vec<String>, name: String) -> (r: bool)
    requires
        distinct(views(old(followed)@)),
    ensures
        distinct(views(final(followed)@)),
        r == !views(old(followed)@).contains(name@),
        views(final(followed)@) == if r {
            views(old(followed)@).push(name@)
        } else {
            views(old(followed)@)
        },
{
    if vec_contains(followed.as_slice(), &name) {
        false
    } else {
        proof {
            assert(views(followed@.push(name)) =~= views(followed@).push(name@));
            assert forall|a: int| 0 <= a < views(followed@).len() implies views(followed@)[a]
                != name@ by {
                assert(views(followed@).contains(views(followed@)[a]));
            }
        }
        followed.push(name);
        true
    }
}

// ------------------------------------------------------------ dry run

// ------------------------------------------------------------ memory

/// The first of `lines` that begins with `p`.
pub open spec fn first_starting_with(lines: Seq<Seq<char>>, p: Seq<char>) -> Option<Seq<char>>
    decreases lines.len(),
{
    if lines.len() == 0 {
        None
    } else if starts_with(lines[0], p) {
        Some(lines[0])
    } else {
        first_starting_with(lines.skip(1), p)
    }
}

/// The resident memory, in kB, that a process status text (the contents of
/// `/proc/self/status`) reports: the number that follows `VmRSS:` on the
/// first line that begins with it. A carriage return before a line feed is
/// white space, so the lines need not be stripped of it.
pub open spec fn resident_kb_of(status: Seq<char>) -> Option<nat> {
    match first_starting_with(split(status, '\n'), "VmRSS:"@) {
        Some(line) => bounded_unsigned_of(second_word(line), u64::MAX as nat),
        None => None,
    }
}

/// The resident memory in kB that `status` reports, where it reports one.
pub fn resident_kb(status: &str) -> (r: Option<u64>)
    ensures
        match resident_kb_of(status@) {
            Some(n) => r == Some(n as u64),
            None => r is None,
        },
{
    let lines = split_exec(status, '\n');
    let ghost ls = views(lines@);
    let mut i: usize = 0;
    assert(ls.skip(0) =~= ls);
    while i < lines.len()
        invariant
            i <= lines@.len(),
            ls == views(lines@),
            ls == split(status@, '\n'),
            first_starting_with(ls, "VmRSS:"@) == first_starting_with(ls.skip(i as int), "VmRSS:"@),
        decreases lines@.len() - i,
    {
        proof {
            assert(ls.skip(i as int)[0] == lines@[i as int]@);
            assert(ls.skip(i as int).skip(1) =~= ls.skip(i + 1));
        }
        if starts_with_exec(lines[i].as_str(), "VmRSS:") {
            let w = second_word_exec(lines[i].as_str());
            return parse_unsigned(w.as_str(), u64::MAX);
        }
        i = i + 1;
    }
    None
}

/// The preview of a message in a dry run: its first 200 characters, with an
/// ellipsis where the message is longer than 200 bytes.
pub fn dry_run_preview(data: &str) -> (r: String)
    ensures
        r@ == if data.len() > 200 {
            data@.take(if data@.len() < 200 { data@.len() as int } else { 200 }) + seq!['…']
        } else {
            data@.take(if data@.len() < 200 { data@.len() as int } else { 200 })
        },
{
    let cs = chars_of(data);
    let n: usize = if cs.len() < 200 { cs.len() } else { 200 };
    let mut r = string_from_range(cs.as_slice(), 0, n);
    assert(cs@.subrange(0, n as int) =~= data@.take(n as int));
    if data.len() > 200 {
        push_char(&mut r, '…');
    }
    r
}

} // verus!
