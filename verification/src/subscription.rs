//! Subscription channels: their names, how a name is read back, and the data
//! some of them carry.
use vstd::prelude::*;
use crate::model::{
    currency_name, currency_of, index_parts, index_text, instrument_kind_name, instrument_kind_of,
    interval_name, interval_of, Currency, IndexName, InstrumentKind, InstrumentState, Interval,
};
use crate::text::{
    decimal, decimal_string, push_all, push_char, remove_all, remove_all_exec, split, split_exec,
    starts_with, starts_with_exec, unsigned_of, parse_usize, views,
};
use crate::model::is_name;

verus! {

/// A subscription channel: a value with a channel name.
pub trait Channel {
    /// The channel name.
    spec fn channel_text(&self) -> Seq<char>;

    /// The channel name, as sent in a subscription.
    fn to_channel_str(&self) -> (r: String)
        ensures
            r@ == self.channel_text(),
    ;
}

/// A list of channels of one type.
pub struct Channels<T: Channel>(Vec<T>);

/// The channel names of a list of channels.
pub open spec fn channel_texts<T: Channel>(v: Seq<T>) -> Seq<Seq<char>> {
    v.map_values(|c: T| c.channel_text())
}

impl<T: Channel> Channels<T> {
    /// The channels held.
    pub closed spec fn spec_channels(&self) -> Seq<T> {
        self.0@
    }

    /// The list of `v`.
    pub fn from(v: Vec<T>) -> (r: Channels<T>)
        ensures
            r.spec_channels() == v@,
    {
        Channels(v)
    }

    /// The channel names, in order.
    pub fn to_subscription_strs(&self) -> (r: Vec<String>)
        ensures
            views(r@) == channel_texts(self.spec_channels()),
    {
        let mut out: Vec<String> = Vec::new();
        let mut i: usize = 0;
        while i < self.0.len()
            invariant
                i <= self.0@.len(),
                views(out@) == channel_texts(self.0@.take(i as int)),
            decreases self.0@.len() - i,
        {
            let s = self.0[i].to_channel_str();
            proof {
                assert(self.0@.take(i + 1) =~= self.0@.take(i as int).push(self.0@[i as int]));
                assert(views(out@.push(s)) =~= views(out@).push(s@));
                assert(channel_texts(self.0@.take(i + 1)) =~= channel_texts(
                    self.0@.take(i as int),
                ).push(self.0@[i as int].channel_text()));
            }
            out.push(s);
            i = i + 1;
        }
        assert(self.0@.take(i as int) =~= self.0@);
        out
    }
}

/// The fields of the channel name `s` under `prefix`: nothing where `s` does
/// not begin with the prefix; else the pieces between the dots of `s` once
/// every `prefix.` is taken out of it.
pub open spec fn channel_fields(s: Seq<char>, prefix: Seq<char>) -> Option<Seq<Seq<char>>> {
    if starts_with(s, prefix) {
        Some(split(remove_all(s, prefix + seq!['.']), '.'))
    } else {
        None
    }
}

/// The fields of the channel name `s` under `prefix`.
pub fn channel_fields_exec(s: &str, prefix: &str) -> (r: Option<Vec<String>>)
    ensures
        match channel_fields(s@, prefix@) {
            Some(f) => r matches Some(v) && views(v@) == f,
            None => r is None,
        },
{
    if !starts_with_exec(s, prefix) {
        return None;
    }
    let mut pat = prefix.to_owned();
    push_char(&mut pat, '.');
    assert(pat@ =~= prefix@ + seq!['.']);
    let rest = remove_all_exec(s, pat.as_str());
    Some(split_exec(rest.as_str(), '.'))
}

// ------------------------------------------------------------ book data

/// What a change of an order book level does.
#[derive(Debug, Clone, Copy, PartialEq, Eq, Structural)]
pub enum Action {
    New,
    Change,
    Delete,
}

/// The wire name of a book action.
pub open spec fn action_name(a: Action) -> Seq<char> {
    match a {
        Action::New => "new"@,
        Action::Change => "change"@,
        Action::Delete => "delete"@,
    }
}

impl Action {
    /// The wire name ("new", "change", "delete").
    pub fn to_string(&self) -> (r: String)
        ensures
            r@ == action_name(*self),
    {
        let s = match self {
            Action::New => "new",
            Action::Change => "change",
            Action::Delete => "delete",
        };
        s.to_owned()
    }

    /// The action named `s`, if any.
    pub fn parse(s: &str) -> (r: Option<Action>)
        ensures
            r is Some <==> (s@ == "new"@ || s@ == "change"@ || s@ == "delete"@),
            r matches Some(a) ==> action_name(a) == s@,
    {
        if is_name(s, "new") {
            Some(Action::New)
        } else if is_name(s, "change") {
            Some(Action::Change)
        } else if is_name(s, "delete") {
            Some(Action::Delete)
        } else {
            None
        }
    }
}

/// Whether a book message is a full snapshot or a change.
#[derive(Debug, Clone, Copy, PartialEq, Eq, Structural)]
pub enum Type {
    Snapshot,
    Change,
}

/// The wire name of a book message type.
pub open spec fn book_type_name(t: Type) -> Seq<char> {
    match t {
        Type::Snapshot => "snapshot"@,
        Type::Change => "change"@,
    }
}

impl Type {
    /// The wire name ("snapshot", "change").
    pub fn to_string(&self) -> (r: String)
        ensures
            r@ == book_type_name(*self),
    {
        let s = match self {
            Type::Snapshot => "snapshot",
            Type::Change => "change",
        };
        s.to_owned()
    }

    /// The type named `s`, if any.
    pub fn parse(s: &str) -> (r: Option<Type>)
        ensures
            r is Some <==> (s@ == "snapshot"@ || s@ == "change"@),
            r matches Some(t) ==> book_type_name(t) == s@,
    {
        if is_name(s, "snapshot") {
            Some(Type::Snapshot)
        } else if is_name(s, "change") {
            Some(Type::Change)
        } else {
            None
        }
    }
}

/// How the levels of a grouped order book are grouped.
#[derive(Debug, Clone, Copy, PartialEq, Eq, Structural)]
pub enum BookGroup {
    /// No grouping; written "none".
    Ungrouped,
    /// Grouped by this many ticks.
    Group(usize),
}

/// The text of a book grouping: "none" or the number of ticks.
pub open spec fn book_group_text(g: BookGroup) -> Seq<char> {
    match g {
        BookGroup::Ungrouped => "none"@,
        BookGroup::Group(n) => decimal(n as int),
    }
}

/// The book grouping that `s` reads as: "none", or a number as std's
/// `usize::from_str` reads it.
pub open spec fn book_group_of(s: Seq<char>) -> Option<BookGroup> {
    if s == "none"@ {
        Some(BookGroup::Ungrouped)
    } else {
        match unsigned_of(s) {
            Some(n) => Some(BookGroup::Group(n as usize)),
            None => None,
        }
    }
}

impl BookGroup {
    /// The text: "none" or the number of ticks.
    pub fn to_string(&self) -> (r: String)
        ensures
            r@ == book_group_text(*self),
    {
        match self {
            BookGroup::Ungrouped => "none".to_owned(),
            BookGroup::Group(n) => {
                let mut r = String::new();
                crate::text::push_digits(&mut r, *n as u64);
                assert(r@ =~= decimal(*n as int));
                r
            },
        }
    }

    /// The grouping named `s`, if any.
    pub fn parse(s: &str) -> (r: Option<BookGroup>)
        ensures
            r == book_group_of(s@),
    {
        if is_name(s, "none") {
            Some(BookGroup::Ungrouped)
        } else {
            match parse_usize(s) {
                Some(n) => Some(BookGroup::Group(n)),
                None => None,
            }
        }
    }
}

// ------------------------------------------------------------ data of channels

/// A message of the announcements channel.
#[derive(Debug, Clone)]
pub struct AnnouncementsData {
    pub action: String,
    pub title: String,
    pub body: String,
    pub date: u64,
    pub id: u64,
    pub important: bool,
    pub number: u64,
}

/// A message of the instrument state channel.
#[derive(Debug, Clone)]
pub struct InstrumentStateData {
    pub timestamp: u64,
    pub state: InstrumentState,
    pub instrument_name: String,
}

} // verus!

verus! {

// ------------------------------------------------------------ AnnouncementsChannel

/// The channel of platform announcements.
#[derive(Debug, Clone)]
pub struct AnnouncementsChannel();

impl Channel for AnnouncementsChannel {
    open spec fn channel_text(&self) -> Seq<char> {
        "announcements"@
    }

    fn to_channel_str(&self) -> (r: String) {
        "announcements".to_owned()
    }
}

impl AnnouncementsChannel {
    /// The name of the channel.
    pub fn to_string(&self) -> (r: String)
        ensures
            r@ == self.channel_text(),
    {
        self.to_channel_str()
    }

    /// The channel named `s`: any name that begins with `announcements`.
    pub fn parse(s: &str) -> (r: Option<AnnouncementsChannel>)
        ensures
            r is Some <==> starts_with(s@, "announcements"@),
    {
        if starts_with_exec(s, "announcements") {
            Some(AnnouncementsChannel())
        } else {
            None
        }
    }
}

// ------------------------------------------------------------ BookChannel

/// The order book of an instrument.
#[derive(Debug, Clone)]
pub struct BookChannel(pub String, pub Interval);

impl Channel for BookChannel {
    open spec fn channel_text(&self) -> Seq<char> {
        "book"@ + seq!['.'] + self.0@ + seq!['.'] + interval_name(self.1)
    }

    fn to_channel_str(&self) -> (r: String) {
        let mut r = "book".to_owned();
        push_char(&mut r, '.');
        push_all(&mut r, self.0.as_str());
        push_char(&mut r, '.');
        push_all(&mut r, self.1.to_string().as_str());
        r
    }
}

impl BookChannel {
    /// The name of the channel.
    pub fn to_string(&self) -> (r: String)
        ensures
            r@ == self.channel_text(),
    {
        self.to_channel_str()
    }

    /// The fields `f` of a channel name can be read as this channel.
    pub open spec fn readable(f: Seq<Seq<char>>) -> bool {
        f.len() >= 2
    }

    /// This channel is what the fields `f` of a channel name read as.
    pub open spec fn reads(&self, f: Seq<Seq<char>>) -> bool {
        self.0@ == f[0]
        && self.1 == interval_of(f[1])
    }

    /// The channel named `s`: it must begin with `book`; every `book.` is taken
    /// out, and the rest is read as 2 field(s) between dots (more are ignored).
    pub fn parse(s: &str) -> (r: Option<BookChannel>)
        ensures
            match channel_fields(s@, "book"@) {
                None => r is None,
                Some(f) => (r is Some <==> Self::readable(f)) && (r matches Some(c) ==> c.reads(f)),
            },
    {
        let fields = match channel_fields_exec(s, "book") {
            Some(f) => f,
            None => return None,
        };
        if fields.len() < 2 {
            return None;
        }
        proof {
            assert(views(fields@)[0] == fields@[0]@);
            assert(views(fields@)[1] == fields@[1]@);
        }
        let a0 = fields[0].clone();
        let a1 = Interval::parse(fields[1].as_str());
        Some(BookChannel(a0, a1))
    }
}

// ------------------------------------------------------------ GroupedBookChannel

/// The grouped order book of an instrument: group, depth and interval.
#[derive(Debug, Clone)]
pub struct GroupedBookChannel(pub String, pub BookGroup, pub String, pub Interval);

impl Channel for GroupedBookChannel {
    open spec fn channel_text(&self) -> Seq<char> {
        "book"@ + seq!['.'] + self.0@ + seq!['.'] + book_group_text(self.1) + seq!['.'] + self.2@ + seq!['.'] + interval_name(self.3)
    }

    fn to_channel_str(&self) -> (r: String) {
        let mut r = "book".to_owned();
        push_char(&mut r, '.');
        push_all(&mut r, self.0.as_str());
        push_char(&mut r, '.');
        push_all(&mut r, self.1.to_string().as_str());
        push_char(&mut r, '.');
        push_all(&mut r, self.2.as_str());
        push_char(&mut r, '.');
        push_all(&mut r, self.3.to_string().as_str());
        r
    }
}

impl GroupedBookChannel {
    /// The name of the channel.
    pub fn to_string(&self) -> (r: String)
        ensures
            r@ == self.channel_text(),
    {
        self.to_channel_str()
    }

    /// The fields `f` of a channel name can be read as this channel.
    pub open spec fn readable(f: Seq<Seq<char>>) -> bool {
        f.len() >= 4
        && book_group_of(f[1]) is Some
    }

    /// This channel is what the fields `f` of a channel name read as.
    pub open spec fn reads(&self, f: Seq<Seq<char>>) -> bool {
        self.0@ == f[0]
        && Some(self.1) == book_group_of(f[1])
        && self.2@ == f[2]
        && self.3 == interval_of(f[3])
    }

    /// The channel named `s`: it must begin with `book`; every `book.` is taken
    /// out, and the rest is read as 4 field(s) between dots (more are ignored).
    pub fn parse(s: &str) -> (r: Option<GroupedBookChannel>)
        ensures
            match channel_fields(s@, "book"@) {
                None => r is None,
                Some(f) => (r is Some <==> Self::readable(f)) && (r matches Some(c) ==> c.reads(f)),
            },
    {
        let fields = match channel_fields_exec(s, "book") {
            Some(f) => f,
            None => return None,
        };
        if fields.len() < 4 {
            return None;
        }
        proof {
            assert(views(fields@)[0] == fields@[0]@);
            assert(views(fields@)[1] == fields@[1]@);
            assert(views(fields@)[2] == fields@[2]@);
            assert(views(fields@)[3] == fields@[3]@);
        }
        let a0 = fields[0].clone();
        let a1 = match BookGroup::parse(fields[1].as_str()) {
            Some(v) => v,
            None => return None,
        };
        let a2 = fields[2].clone();
        let a3 = Interval::parse(fields[3].as_str());
        Some(GroupedBookChannel(a0, a1, a2, a3))
    }
}

// ------------------------------------------------------------ DeribitPriceIndexChannel

/// The price of an index.
#[derive(Debug, Clone)]
pub struct DeribitPriceIndexChannel(pub IndexName);

impl Channel for DeribitPriceIndexChannel {
    open spec fn channel_text(&self) -> Seq<char> {
        "deribit_price_index"@ + seq!['.'] + index_text(self.0.spec_base(), self.0.spec_quote())
    }

    fn to_channel_str(&self) -> (r: String) {
        let mut r = "deribit_price_index".to_owned();
        push_char(&mut r, '.');
        push_all(&mut r, self.0.to_string().as_str());
        r
    }
}

impl DeribitPriceIndexChannel {
    /// The name of the channel.
    pub fn to_string(&self) -> (r: String)
        ensures
            r@ == self.channel_text(),
    {
        self.to_channel_str()
    }

    /// The fields `f` of a channel name can be read as this channel.
    pub open spec fn readable(f: Seq<Seq<char>>) -> bool {
        f.len() >= 1
    }

    /// This channel is what the fields `f` of a channel name read as.
    pub open spec fn reads(&self, f: Seq<Seq<char>>) -> bool {
        (self.0.spec_base(), self.0.spec_quote()) == index_parts(f[0])
    }

    /// The channel named `s`: it must begin with `deribit_price_index`; every `deribit_price_index.` is taken
    /// out, and the rest is read as 1 field(s) between dots (more are ignored).
    pub fn parse(s: &str) -> (r: Option<DeribitPriceIndexChannel>)
        ensures
            match channel_fields(s@, "deribit_price_index"@) {
                None => r is None,
                Some(f) => (r is Some <==> Self::readable(f)) && (r matches Some(c) ==> c.reads(f)),
            },
    {
        let fields = match channel_fields_exec(s, "deribit_price_index") {
            Some(f) => f,
            None => return None,
        };
        if fields.len() < 1 {
            return None;
        }
        proof {
            assert(views(fields@)[0] == fields@[0]@);
        }
        let a0 = IndexName::parse(fields[0].as_str());
        Some(DeribitPriceIndexChannel(a0))
    }
}

// ------------------------------------------------------------ DeribitPriceRankingChannel

/// The ranking of the exchange prices of an index.
#[derive(Debug, Clone)]
pub struct DeribitPriceRankingChannel(pub IndexName);

impl Channel for DeribitPriceRankingChannel {
    open spec fn channel_text(&self) -> Seq<char> {
        "deribit_price_ranking"@ + seq!['.'] + index_text(self.0.spec_base(), self.0.spec_quote())
    }

    fn to_channel_str(&self) -> (r: String) {
        let mut r = "deribit_price_ranking".to_owned();
        push_char(&mut r, '.');
        push_all(&mut r, self.0.to_string().as_str());
        r
    }
}

impl DeribitPriceRankingChannel {
    /// The name of the channel.
    pub fn to_string(&self) -> (r: String)
        ensures
            r@ == self.channel_text(),
    {
        self.to_channel_str()
    }

    /// The fields `f` of a channel name can be read as this channel.
    pub open spec fn readable(f: Seq<Seq<char>>) -> bool {
        f.len() >= 1
    }

    /// This channel is what the fields `f` of a channel name read as.
    pub open spec fn reads(&self, f: Seq<Seq<char>>) -> bool {
        (self.0.spec_base(), self.0.spec_quote()) == index_parts(f[0])
    }

    /// The channel named `s`: it must begin with `deribit_price_ranking`; every `deribit_price_ranking.` is taken
    /// out, and the rest is read as 1 field(s) between dots (more are ignored).
    pub fn parse(s: &str) -> (r: Option<DeribitPriceRankingChannel>)
        ensures
            match channel_fields(s@, "deribit_price_ranking"@) {
                None => r is None,
                Some(f) => (r is Some <==> Self::readable(f)) && (r matches Some(c) ==> c.reads(f)),
            },
    {
        let fields = match channel_fields_exec(s, "deribit_price_ranking") {
            Some(f) => f,
            None => return None,
        };
        if fields.len() < 1 {
            return None;
        }
        proof {
            assert(views(fields@)[0] == fields@[0]@);
        }
        let a0 = IndexName::parse(fields[0].as_str());
        Some(DeribitPriceRankingChannel(a0))
    }
}

// ------------------------------------------------------------ DeribitPriceStatisticsChannel

/// The price statistics of an index.
#[derive(Debug, Clone)]
pub struct DeribitPriceStatisticsChannel(pub IndexName);

impl Channel for DeribitPriceStatisticsChannel {
    open spec fn channel_text(&self) -> Seq<char> {
        "deribit_price_statistics"@ + seq!['.'] + index_text(self.0.spec_base(), self.0.spec_quote())
    }

    fn to_channel_str(&self) -> (r: String) {
        let mut r = "deribit_price_statistics".to_owned();
        push_char(&mut r, '.');
        push_all(&mut r, self.0.to_string().as_str());
        r
    }
}

impl DeribitPriceStatisticsChannel {
    /// The name of the channel.
    pub fn to_string(&self) -> (r: String)
        ensures
            r@ == self.channel_text(),
    {
        self.to_channel_str()
    }

    /// The fields `f` of a channel name can be read as this channel.
    pub open spec fn readable(f: Seq<Seq<char>>) -> bool {
        f.len() >= 1
    }

    /// This channel is what the fields `f` of a channel name read as.
    pub open spec fn reads(&self, f: Seq<Seq<char>>) -> bool {
        (self.0.spec_base(), self.0.spec_quote()) == index_parts(f[0])
    }

    /// The channel named `s`: it must begin with `deribit_price_statistics`; every `deribit_price_statistics.` is taken
    /// out, and the rest is read as 1 field(s) between dots (more are ignored).
    pub fn parse(s: &str) -> (r: Option<DeribitPriceStatisticsChannel>)
        ensures
            match channel_fields(s@, "deribit_price_statistics"@) {
                None => r is None,
                Some(f) => (r is Some <==> Self::readable(f)) && (r matches Some(c) ==> c.reads(f)),
            },
    {
        let fields = match channel_fields_exec(s, "deribit_price_statistics") {
            Some(f) => f,
            None => return None,
        };
        if fields.len() < 1 {
            return None;
        }
        proof {
            assert(views(fields@)[0] == fields@[0]@);
        }
        let a0 = IndexName::parse(fields[0].as_str());
        Some(DeribitPriceStatisticsChannel(a0))
    }
}

// ------------------------------------------------------------ DeribitVolatilityIndexChannel

/// The volatility index of an index.
#[derive(Debug, Clone)]
pub struct DeribitVolatilityIndexChannel(pub IndexName);

impl Channel for DeribitVolatilityIndexChannel {
    open spec fn channel_text(&self) -> Seq<char> {
        "deribit_volatility_index"@ + seq!['.'] + index_text(self.0.spec_base(), self.0.spec_quote())
    }

    fn to_channel_str(&self) -> (r: String) {
        let mut r = "deribit_volatility_index".to_owned();
        push_char(&mut r, '.');
        push_all(&mut r, self.0.to_string().as_str());
        r
    }
}

impl DeribitVolatilityIndexChannel {
    /// The name of the channel.
    pub fn to_string(&self) -> (r: String)
        ensures
            r@ == self.channel_text(),
    {
        self.to_channel_str()
    }

    /// The fields `f` of a channel name can be read as this channel.
    pub open spec fn readable(f: Seq<Seq<char>>) -> bool {
        f.len() >= 1
    }

    /// This channel is what the fields `f` of a channel name read as.
    pub open spec fn reads(&self, f: Seq<Seq<char>>) -> bool {
        (self.0.spec_base(), self.0.spec_quote()) == index_parts(f[0])
    }

    /// The channel named `s`: it must begin with `deribit_volatility_index`; every `deribit_volatility_index.` is taken
    /// out, and the rest is read as 1 field(s) between dots (more are ignored).
    pub fn parse(s: &str) -> (r: Option<DeribitVolatilityIndexChannel>)
        ensures
            match channel_fields(s@, "deribit_volatility_index"@) {
                None => r is None,
                Some(f) => (r is Some <==> Self::readable(f)) && (r matches Some(c) ==> c.reads(f)),
            },
    {
        let fields = match channel_fields_exec(s, "deribit_volatility_index") {
            Some(f) => f,
            None => return None,
        };
        if fields.len() < 1 {
            return None;
        }
        proof {
            assert(views(fields@)[0] == fields@[0]@);
        }
        let a0 = IndexName::parse(fields[0].as_str());
        Some(DeribitVolatilityIndexChannel(a0))
    }
}

// ------------------------------------------------------------ EstimatedExpirationPriceChannel

/// The estimated expiration price of an index.
#[derive(Debug, Clone)]
pub struct EstimatedExpirationPriceChannel(pub IndexName);

impl Channel for EstimatedExpirationPriceChannel {
    open spec fn channel_text(&self) -> Seq<char> {
        "estimated_expiration_price"@ + seq!['.'] + index_text(self.0.spec_base(), self.0.spec_quote())
    }

    fn to_channel_str(&self) -> (r: String) {
        let mut r = "estimated_expiration_price".to_owned();
        push_char(&mut r, '.');
        push_all(&mut r, self.0.to_string().as_str());
        r
    }
}

impl EstimatedExpirationPriceChannel {
    /// The name of the channel.
    pub fn to_string(&self) -> (r: String)
        ensures
            r@ == self.channel_text(),
    {
        self.to_channel_str()
    }

    /// The fields `f` of a channel name can be read as this channel.
    pub open spec fn readable(f: Seq<Seq<char>>) -> bool {
        f.len() >= 1
    }

    /// This channel is what the fields `f` of a channel name read as.
    pub open spec fn reads(&self, f: Seq<Seq<char>>) -> bool {
        (self.0.spec_base(), self.0.spec_quote()) == index_parts(f[0])
    }

    /// The channel named `s`: it must begin with `estimated_expiration_price`; every `estimated_expiration_price.` is taken
    /// out, and the rest is read as 1 field(s) between dots (more are ignored).
    pub fn parse(s: &str) -> (r: Option<EstimatedExpirationPriceChannel>)
        ensures
            match channel_fields(s@, "estimated_expiration_price"@) {
                None => r is None,
                Some(f) => (r is Some <==> Self::readable(f)) && (r matches Some(c) ==> c.reads(f)),
            },
    {
        let fields = match channel_fields_exec(s, "estimated_expiration_price") {
            Some(f) => f,
            None => return None,
        };
        if fields.len() < 1 {
            return None;
        }
        proof {
            assert(views(fields@)[0] == fields@[0]@);
        }
        let a0 = IndexName::parse(fields[0].as_str());
        Some(EstimatedExpirationPriceChannel(a0))
    }
}

// ------------------------------------------------------------ InstrumentStateChannel

/// The state changes of the instruments of a kind and a currency.
#[derive(Debug, Clone)]
pub struct InstrumentStateChannel(pub InstrumentKind, pub Currency);

impl Channel for InstrumentStateChannel {
    open spec fn channel_text(&self) -> Seq<char> {
        "instrument_state"@ + seq!['.'] + instrument_kind_name(self.0) + seq!['.'] + currency_name(self.1)
    }

    fn to_channel_str(&self) -> (r: String) {
        let mut r = "instrument_state".to_owned();
        push_char(&mut r, '.');
        push_all(&mut r, self.0.to_string().as_str());
        push_char(&mut r, '.');
        push_all(&mut r, self.1.to_string().as_str());
        r
    }
}

impl InstrumentStateChannel {
    /// The name of the channel.
    pub fn to_string(&self) -> (r: String)
        ensures
            r@ == self.channel_text(),
    {
        self.to_channel_str()
    }

    /// The fields `f` of a channel name can be read as this channel.
    pub open spec fn readable(f: Seq<Seq<char>>) -> bool {
        f.len() >= 2
        && instrument_kind_of(f[0]) is Some
        && currency_of(f[1]) is Some
    }

    /// This channel is what the fields `f` of a channel name read as.
    pub open spec fn reads(&self, f: Seq<Seq<char>>) -> bool {
        Some(self.0) == instrument_kind_of(f[0])
        && Some(self.1) == currency_of(f[1])
    }

    /// The channel named `s`: it must begin with `instrument_state`; every `instrument_state.` is taken
    /// out, and the rest is read as 2 field(s) between dots (more are ignored).
    pub fn parse(s: &str) -> (r: Option<InstrumentStateChannel>)
        ensures
            match channel_fields(s@, "instrument_state"@) {
                None => r is None,
                Some(f) => (r is Some <==> Self::readable(f)) && (r matches Some(c) ==> c.reads(f)),
            },
    {
        let fields = match channel_fields_exec(s, "instrument_state") {
            Some(f) => f,
            None => return None,
        };
        if fields.len() < 2 {
            return None;
        }
        proof {
            assert(views(fields@)[0] == fields@[0]@);
            assert(views(fields@)[1] == fields@[1]@);
        }
        let a0 = match InstrumentKind::parse(fields[0].as_str()) {
            Ok(v) => v,
            Err(_) => return None,
        };
        let a1 = match Currency::parse(fields[1].as_str()) {
            Ok(v) => v,
            Err(_) => return None,
        };
        Some(InstrumentStateChannel(a0, a1))
    }
}

// ------------------------------------------------------------ MarkPriceOptionsChannel

/// The mark prices of the options of an index.
#[derive(Debug, Clone)]
pub struct MarkPriceOptionsChannel(pub IndexName);

impl Channel for MarkPriceOptionsChannel {
    open spec fn channel_text(&self) -> Seq<char> {
        "markprice.options"@ + seq!['.'] + index_text(self.0.spec_base(), self.0.spec_quote())
    }

    fn to_channel_str(&self) -> (r: String) {
        let mut r = "markprice.options".to_owned();
        push_char(&mut r, '.');
        push_all(&mut r, self.0.to_string().as_str());
        r
    }
}

impl MarkPriceOptionsChannel {
    /// The name of the channel.
    pub fn to_string(&self) -> (r: String)
        ensures
            r@ == self.channel_text(),
    {
        self.to_channel_str()
    }

    /// The fields `f` of a channel name can be read as this channel.
    pub open spec fn readable(f: Seq<Seq<char>>) -> bool {
        f.len() >= 1
    }

    /// This channel is what the fields `f` of a channel name read as.
    pub open spec fn reads(&self, f: Seq<Seq<char>>) -> bool {
        (self.0.spec_base(), self.0.spec_quote()) == index_parts(f[0])
    }

    /// The channel named `s`: it must begin with `markprice.options`; every `markprice.options.` is taken
    /// out, and the rest is read as 1 field(s) between dots (more are ignored).
    pub fn parse(s: &str) -> (r: Option<MarkPriceOptionsChannel>)
        ensures
            match channel_fields(s@, "markprice.options"@) {
                None => r is None,
                Some(f) => (r is Some <==> Self::readable(f)) && (r matches Some(c) ==> c.reads(f)),
            },
    {
        let fields = match channel_fields_exec(s, "markprice.options") {
            Some(f) => f,
            None => return None,
        };
        if fields.len() < 1 {
            return None;
        }
        proof {
            assert(views(fields@)[0] == fields@[0]@);
        }
        let a0 = IndexName::parse(fields[0].as_str());
        Some(MarkPriceOptionsChannel(a0))
    }
}

// ------------------------------------------------------------ PerpetualChannel

/// The interest of a perpetual instrument.
#[derive(Debug, Clone)]
pub struct PerpetualChannel(pub String, pub Interval);

impl Channel for PerpetualChannel {
    open spec fn channel_text(&self) -> Seq<char> {
        "perpetual"@ + seq!['.'] + self.0@ + seq!['.'] + interval_name(self.1)
    }

    fn to_channel_str(&self) -> (r: String) {
        let mut r = "perpetual".to_owned();
        push_char(&mut r, '.');
        push_all(&mut r, self.0.as_str());
        push_char(&mut r, '.');
        push_all(&mut r, self.1.to_string().as_str());
        r
    }
}

impl PerpetualChannel {
    /// The name of the channel.
    pub fn to_string(&self) -> (r: String)
        ensures
            r@ == self.channel_text(),
    {
        self.to_channel_str()
    }

    /// The fields `f` of a channel name can be read as this channel.
    pub open spec fn readable(f: Seq<Seq<char>>) -> bool {
        f.len() >= 2
    }

    /// This channel is what the fields `f` of a channel name read as.
    pub open spec fn reads(&self, f: Seq<Seq<char>>) -> bool {
        self.0@ == f[0]
        && self.1 == interval_of(f[1])
    }

    /// The channel named `s`: it must begin with `perpetual`; every `perpetual.` is taken
    /// out, and the rest is read as 2 field(s) between dots (more are ignored).
    pub fn parse(s: &str) -> (r: Option<PerpetualChannel>)
        ensures
            match channel_fields(s@, "perpetual"@) {
                None => r is None,
                Some(f) => (r is Some <==> Self::readable(f)) && (r matches Some(c) ==> c.reads(f)),
            },
    {
        let fields = match channel_fields_exec(s, "perpetual") {
            Some(f) => f,
            None => return None,
        };
        if fields.len() < 2 {
            return None;
        }
        proof {
            assert(views(fields@)[0] == fields@[0]@);
            assert(views(fields@)[1] == fields@[1]@);
        }
        let a0 = fields[0].clone();
        let a1 = Interval::parse(fields[1].as_str());
        Some(PerpetualChannel(a0, a1))
    }
}

// ------------------------------------------------------------ QuoteChannel

/// The best bid and ask of an instrument.
#[derive(Debug, Clone)]
pub struct QuoteChannel(pub String);

impl Channel for QuoteChannel {
    open spec fn channel_text(&self) -> Seq<char> {
        "quote"@ + seq!['.'] + self.0@
    }

    fn to_channel_str(&self) -> (r: String) {
        let mut r = "quote".to_owned();
        push_char(&mut r, '.');
        push_all(&mut r, self.0.as_str());
        r
    }
}

impl QuoteChannel {
    /// The name of the channel.
    pub fn to_string(&self) -> (r: String)
        ensures
            r@ == self.channel_text(),
    {
        self.to_channel_str()
    }

    /// The fields `f` of a channel name can be read as this channel.
    pub open spec fn readable(f: Seq<Seq<char>>) -> bool {
        f.len() >= 1
    }

    /// This channel is what the fields `f` of a channel name read as.
    pub open spec fn reads(&self, f: Seq<Seq<char>>) -> bool {
        self.0@ == f[0]
    }

    /// The channel named `s`: it must begin with `quote`; every `quote.` is taken
    /// out, and the rest is read as 1 field(s) between dots (more are ignored).
    pub fn parse(s: &str) -> (r: Option<QuoteChannel>)
        ensures
            match channel_fields(s@, "quote"@) {
                None => r is None,
                Some(f) => (r is Some <==> Self::readable(f)) && (r matches Some(c) ==> c.reads(f)),
            },
    {
        let fields = match channel_fields_exec(s, "quote") {
            Some(f) => f,
            None => return None,
        };
        if fields.len() < 1 {
            return None;
        }
        proof {
            assert(views(fields@)[0] == fields@[0]@);
        }
        let a0 = fields[0].clone();
        Some(QuoteChannel(a0))
    }
}

// ------------------------------------------------------------ TradesByInstrumentChannel

/// The trades of an instrument.
#[derive(Debug, Clone)]
pub struct TradesByInstrumentChannel(pub String, pub Interval);

impl Channel for TradesByInstrumentChannel {
    open spec fn channel_text(&self) -> Seq<char> {
        "trades"@ + seq!['.'] + self.0@ + seq!['.'] + interval_name(self.1)
    }

    fn to_channel_str(&self) -> (r: String) {
        let mut r = "trades".to_owned();
        push_char(&mut r, '.');
        push_all(&mut r, self.0.as_str());
        push_char(&mut r, '.');
        push_all(&mut r, self.1.to_string().as_str());
        r
    }
}

impl TradesByInstrumentChannel {
    /// The name of the channel.
    pub fn to_string(&self) -> (r: String)
        ensures
            r@ == self.channel_text(),
    {
        self.to_channel_str()
    }

    /// The fields `f` of a channel name can be read as this channel.
    pub open spec fn readable(f: Seq<Seq<char>>) -> bool {
        f.len() >= 2
    }

    /// This channel is what the fields `f` of a channel name read as.
    pub open spec fn reads(&self, f: Seq<Seq<char>>) -> bool {
        self.0@ == f[0]
        && self.1 == interval_of(f[1])
    }

    /// The channel named `s`: it must begin with `trades`; every `trades.` is taken
    /// out, and the rest is read as 2 field(s) between dots (more are ignored).
    pub fn parse(s: &str) -> (r: Option<TradesByInstrumentChannel>)
        ensures
            match channel_fields(s@, "trades"@) {
                None => r is None,
                Some(f) => (r is Some <==> Self::readable(f)) && (r matches Some(c) ==> c.reads(f)),
            },
    {
        let fields = match channel_fields_exec(s, "trades") {
            Some(f) => f,
            None => return None,
        };
        if fields.len() < 2 {
            return None;
        }
        proof {
            assert(views(fields@)[0] == fields@[0]@);
            assert(views(fields@)[1] == fields@[1]@);
        }
        let a0 = fields[0].clone();
        let a1 = Interval::parse(fields[1].as_str());
        Some(TradesByInstrumentChannel(a0, a1))
    }
}

// ------------------------------------------------------------ TradesByKindChannel

/// The trades of the instruments of a kind and a currency.
#[derive(Debug, Clone)]
pub struct TradesByKindChannel(pub InstrumentKind, pub Currency, pub Interval);

impl Channel for TradesByKindChannel {
    open spec fn channel_text(&self) -> Seq<char> {
        "trades"@ + seq!['.'] + instrument_kind_name(self.0) + seq!['.'] + currency_name(self.1) + seq!['.'] + interval_name(self.2)
    }

    fn to_channel_str(&self) -> (r: String) {
        let mut r = "trades".to_owned();
        push_char(&mut r, '.');
        push_all(&mut r, self.0.to_string().as_str());
        push_char(&mut r, '.');
        push_all(&mut r, self.1.to_string().as_str());
        push_char(&mut r, '.');
        push_all(&mut r, self.2.to_string().as_str());
        r
    }
}

impl TradesByKindChannel {
    /// The name of the channel.
    pub fn to_string(&self) -> (r: String)
        ensures
            r@ == self.channel_text(),
    {
        self.to_channel_str()
    }

    /// The fields `f` of a channel name can be read as this channel.
    pub open spec fn readable(f: Seq<Seq<char>>) -> bool {
        f.len() >= 3
        && instrument_kind_of(f[0]) is Some
        && currency_of(f[1]) is Some
    }

    /// This channel is what the fields `f` of a channel name read as.
    pub open spec fn reads(&self, f: Seq<Seq<char>>) -> bool {
        Some(self.0) == instrument_kind_of(f[0])
        && Some(self.1) == currency_of(f[1])
        && self.2 == interval_of(f[2])
    }

    /// The channel named `s`: it must begin with `trades`; every `trades.` is taken
    /// out, and the rest is read as 3 field(s) between dots (more are ignored).
    pub fn parse(s: &str) -> (r: Option<TradesByKindChannel>)
        ensures
            match channel_fields(s@, "trades"@) {
                None => r is None,
                Some(f) => (r is Some <==> Self::readable(f)) && (r matches Some(c) ==> c.reads(f)),
            },
    {
        let fields = match channel_fields_exec(s, "trades") {
            Some(f) => f,
            None => return None,
        };
        if fields.len() < 3 {
            return None;
        }
        proof {
            assert(views(fields@)[0] == fields@[0]@);
            assert(views(fields@)[1] == fields@[1]@);
            assert(views(fields@)[2] == fields@[2]@);
        }
        let a0 = match InstrumentKind::parse(fields[0].as_str()) {
            Ok(v) => v,
            Err(_) => return None,
        };
        let a1 = match Currency::parse(fields[1].as_str()) {
            Ok(v) => v,
            Err(_) => return None,
        };
        let a2 = Interval::parse(fields[2].as_str());
        Some(TradesByKindChannel(a0, a1, a2))
    }
}

// ------------------------------------------------------------ UserChangesByInstrument

/// The changes of the user's orders, trades and positions in an instrument.
#[derive(Debug, Clone)]
pub struct UserChangesByInstrument(pub String, pub Interval);

impl Channel for UserChangesByInstrument {
    open spec fn channel_text(&self) -> Seq<char> {
        "user.changes"@ + seq!['.'] + self.0@ + seq!['.'] + interval_name(self.1)
    }

    fn to_channel_str(&self) -> (r: String) {
        let mut r = "user.changes".to_owned();
        push_char(&mut r, '.');
        push_all(&mut r, self.0.as_str());
        push_char(&mut r, '.');
        push_all(&mut r, self.1.to_string().as_str());
        r
    }
}

impl UserChangesByInstrument {
    /// The name of the channel.
    pub fn to_string(&self) -> (r: String)
        ensures
            r@ == self.channel_text(),
    {
        self.to_channel_str()
    }

    /// The fields `f` of a channel name can be read as this channel.
    pub open spec fn readable(f: Seq<Seq<char>>) -> bool {
        f.len() >= 2
    }

    /// This channel is what the fields `f` of a channel name read as.
    pub open spec fn reads(&self, f: Seq<Seq<char>>) -> bool {
        self.0@ == f[0]
        && self.1 == interval_of(f[1])
    }

    /// The channel named `s`: it must begin with `user.changes`; every `user.changes.` is taken
    /// out, and the rest is read as 2 field(s) between dots (more are ignored).
    pub fn parse(s: &str) -> (r: Option<UserChangesByInstrument>)
        ensures
            match channel_fields(s@, "user.changes"@) {
                None => r is None,
                Some(f) => (r is Some <==> Self::readable(f)) && (r matches Some(c) ==> c.reads(f)),
            },
    {
        let fields = match channel_fields_exec(s, "user.changes") {
            Some(f) => f,
            None => return None,
        };
        if fields.len() < 2 {
            return None;
        }
        proof {
            assert(views(fields@)[0] == fields@[0]@);
            assert(views(fields@)[1] == fields@[1]@);
        }
        let a0 = fields[0].clone();
        let a1 = Interval::parse(fields[1].as_str());
        Some(UserChangesByInstrument(a0, a1))
    }
}

// ------------------------------------------------------------ UserChangesByKind

/// The changes of the user's orders, trades and positions in a kind and a currency.
#[derive(Debug, Clone)]
pub struct UserChangesByKind(pub InstrumentKind, pub Currency, pub Interval);

impl Channel for UserChangesByKind {
    open spec fn channel_text(&self) -> Seq<char> {
        "user.changes"@ + seq!['.'] + instrument_kind_name(self.0) + seq!['.'] + currency_name(self.1) + seq!['.'] + interval_name(self.2)
    }

    fn to_channel_str(&self) -> (r: String) {
        let mut r = "user.changes".to_owned();
        push_char(&mut r, '.');
        push_all(&mut r, self.0.to_string().as_str());
        push_char(&mut r, '.');
        push_all(&mut r, self.1.to_string().as_str());
        push_char(&mut r, '.');
        push_all(&mut r, self.2.to_string().as_str());
        r
    }
}

impl UserChangesByKind {
    /// The name of the channel.
    pub fn to_string(&self) -> (r: String)
        ensures
            r@ == self.channel_text(),
    {
        self.to_channel_str()
    }

    /// The fields `f` of a channel name can be read as this channel.
    pub open spec fn readable(f: Seq<Seq<char>>) -> bool {
        f.len() >= 3
        && instrument_kind_of(f[0]) is Some
        && currency_of(f[1]) is Some
    }

    /// This channel is what the fields `f` of a channel name read as.
    pub open spec fn reads(&self, f: Seq<Seq<char>>) -> bool {
        Some(self.0) == instrument_kind_of(f[0])
        && Some(self.1) == currency_of(f[1])
        && self.2 == interval_of(f[2])
    }

    /// The channel named `s`: it must begin with `user.changes`; every `user.changes.` is taken
    /// out, and the rest is read as 3 field(s) between dots (more are ignored).
    pub fn parse(s: &str) -> (r: Option<UserChangesByKind>)
        ensures
            match channel_fields(s@, "user.changes"@) {
                None => r is None,
                Some(f) => (r is Some <==> Self::readable(f)) && (r matches Some(c) ==> c.reads(f)),
            },
    {
        let fields = match channel_fields_exec(s, "user.changes") {
            Some(f) => f,
            None => return None,
        };
        if fields.len() < 3 {
            return None;
        }
        proof {
            assert(views(fields@)[0] == fields@[0]@);
            assert(views(fields@)[1] == fields@[1]@);
            assert(views(fields@)[2] == fields@[2]@);
        }
        let a0 = match InstrumentKind::parse(fields[0].as_str()) {
            Ok(v) => v,
            Err(_) => return None,
        };
        let a1 = match Currency::parse(fields[1].as_str()) {
            Ok(v) => v,
            Err(_) => return None,
        };
        let a2 = Interval::parse(fields[2].as_str());
        Some(UserChangesByKind(a0, a1, a2))
    }
}

// ------------------------------------------------------------ UserOrdersByInstrumentChannel

/// The user's orders in an instrument.
#[derive(Debug, Clone)]
pub struct UserOrdersByInstrumentChannel(pub String, pub Interval);

impl Channel for UserOrdersByInstrumentChannel {
    open spec fn channel_text(&self) -> Seq<char> {
        "user.orders"@ + seq!['.'] + self.0@ + seq!['.'] + interval_name(self.1)
    }

    fn to_channel_str(&self) -> (r: String) {
        let mut r = "user.orders".to_owned();
        push_char(&mut r, '.');
        push_all(&mut r, self.0.as_str());
        push_char(&mut r, '.');
        push_all(&mut r, self.1.to_string().as_str());
        r
    }
}

impl UserOrdersByInstrumentChannel {
    /// The name of the channel.
    pub fn to_string(&self) -> (r: String)
        ensures
            r@ == self.channel_text(),
    {
        self.to_channel_str()
    }

    /// The fields `f` of a channel name can be read as this channel.
    pub open spec fn readable(f: Seq<Seq<char>>) -> bool {
        f.len() >= 2
    }

    /// This channel is what the fields `f` of a channel name read as.
    pub open spec fn reads(&self, f: Seq<Seq<char>>) -> bool {
        self.0@ == f[0]
        && self.1 == interval_of(f[1])
    }

    /// The channel named `s`: it must begin with `user.orders`; every `user.orders.` is taken
    /// out, and the rest is read as 2 field(s) between dots (more are ignored).
    pub fn parse(s: &str) -> (r: Option<UserOrdersByInstrumentChannel>)
        ensures
            match channel_fields(s@, "user.orders"@) {
                None => r is None,
                Some(f) => (r is Some <==> Self::readable(f)) && (r matches Some(c) ==> c.reads(f)),
            },
    {
        let fields = match channel_fields_exec(s, "user.orders") {
            Some(f) => f,
            None => return None,
        };
        if fields.len() < 2 {
            return None;
        }
        proof {
            assert(views(fields@)[0] == fields@[0]@);
            assert(views(fields@)[1] == fields@[1]@);
        }
        let a0 = fields[0].clone();
        let a1 = Interval::parse(fields[1].as_str());
        Some(UserOrdersByInstrumentChannel(a0, a1))
    }
}

// ------------------------------------------------------------ UserOrdersByKindChannel

/// The user's orders in a kind and a currency.
#[derive(Debug, Clone)]
pub struct UserOrdersByKindChannel(pub InstrumentKind, pub Currency, pub Interval);

impl Channel for UserOrdersByKindChannel {
    open spec fn channel_text(&self) -> Seq<char> {
        "user.orders"@ + seq!['.'] + instrument_kind_name(self.0) + seq!['.'] + currency_name(self.1) + seq!['.'] + interval_name(self.2)
    }

    fn to_channel_str(&self) -> (r: String) {
        let mut r = "user.orders".to_owned();
        push_char(&mut r, '.');
        push_all(&mut r, self.0.to_string().as_str());
        push_char(&mut r, '.');
        push_all(&mut r, self.1.to_string().as_str());
        push_char(&mut r, '.');
        push_all(&mut r, self.2.to_string().as_str());
        r
    }
}

impl UserOrdersByKindChannel {
    /// The name of the channel.
    pub fn to_string(&self) -> (r: String)
        ensures
            r@ == self.channel_text(),
    {
        self.to_channel_str()
    }

    /// The fields `f` of a channel name can be read as this channel.
    pub open spec fn readable(f: Seq<Seq<char>>) -> bool {
        f.len() >= 3
        && instrument_kind_of(f[0]) is Some
        && currency_of(f[1]) is Some
    }

    /// This channel is what the fields `f` of a channel name read as.
    pub open spec fn reads(&self, f: Seq<Seq<char>>) -> bool {
        Some(self.0) == instrument_kind_of(f[0])
        && Some(self.1) == currency_of(f[1])
        && self.2 == interval_of(f[2])
    }

    /// The channel named `s`: it must begin with `user.orders`; every `user.orders.` is taken
    /// out, and the rest is read as 3 field(s) between dots (more are ignored).
    pub fn parse(s: &str) -> (r: Option<UserOrdersByKindChannel>)
        ensures
            match channel_fields(s@, "user.orders"@) {
                None => r is None,
                Some(f) => (r is Some <==> Self::readable(f)) && (r matches Some(c) ==> c.reads(f)),
            },
    {
        let fields = match channel_fields_exec(s, "user.orders") {
            Some(f) => f,
            None => return None,
        };
        if fields.len() < 3 {
            return None;
        }
        proof {
            assert(views(fields@)[0] == fields@[0]@);
            assert(views(fields@)[1] == fields@[1]@);
            assert(views(fields@)[2] == fields@[2]@);
        }
        let a0 = match InstrumentKind::parse(fields[0].as_str()) {
            Ok(v) => v,
            Err(_) => return None,
        };
        let a1 = match Currency::parse(fields[1].as_str()) {
            Ok(v) => v,
            Err(_) => return None,
        };
        let a2 = Interval::parse(fields[2].as_str());
        Some(UserOrdersByKindChannel(a0, a1, a2))
    }
}

// ------------------------------------------------------------ UserPortfolioChannel

/// The user's portfolio in a currency.
#[derive(Debug, Clone)]
pub struct UserPortfolioChannel(pub Currency);

impl Channel for UserPortfolioChannel {
    open spec fn channel_text(&self) -> Seq<char> {
        "user.portfolio"@ + seq!['.'] + currency_name(self.0)
    }

    fn to_channel_str(&self) -> (r: String) {
        let mut r = "user.portfolio".to_owned();
        push_char(&mut r, '.');
        push_all(&mut r, self.0.to_string().as_str());
        r
    }
}

impl UserPortfolioChannel {
    /// The name of the channel.
    pub fn to_string(&self) -> (r: String)
        ensures
            r@ == self.channel_text(),
    {
        self.to_channel_str()
    }

    /// The fields `f` of a channel name can be read as this channel.
    pub open spec fn readable(f: Seq<Seq<char>>) -> bool {
        f.len() >= 1
        && currency_of(f[0]) is Some
    }

    /// This channel is what the fields `f` of a channel name read as.
    pub open spec fn reads(&self, f: Seq<Seq<char>>) -> bool {
        Some(self.0) == currency_of(f[0])
    }

    /// The channel named `s`: it must begin with `user.portfolio`; every `user.portfolio.` is taken
    /// out, and the rest is read as 1 field(s) between dots (more are ignored).
    pub fn parse(s: &str) -> (r: Option<UserPortfolioChannel>)
        ensures
            match channel_fields(s@, "user.portfolio"@) {
                None => r is None,
                Some(f) => (r is Some <==> Self::readable(f)) && (r matches Some(c) ==> c.reads(f)),
            },
    {
        let fields = match channel_fields_exec(s, "user.portfolio") {
            Some(f) => f,
            None => return None,
        };
        if fields.len() < 1 {
            return None;
        }
        proof {
            assert(views(fields@)[0] == fields@[0]@);
        }
        let a0 = match Currency::parse(fields[0].as_str()) {
            Ok(v) => v,
            Err(_) => return None,
        };
        Some(UserPortfolioChannel(a0))
    }
}

} // verus!

verus! {

// ------------------------------------------------------------ UserTradesChannel

/// The user's trades, in an instrument or in a kind and a currency.
#[derive(Debug, Clone)]
pub enum UserTradesChannel {
    ByInstrument { instrument_name: String, interval: String },
    ByKind { kind: String, currency: String, interval: String },
}

/// The pieces of `f` after `user` and `trades`, as a user trades channel.
pub open spec fn user_trades_reads(c: UserTradesChannel, f: Seq<Seq<char>>) -> bool {
    match c {
        UserTradesChannel::ByInstrument { instrument_name, interval } => f.len() == 4
            && instrument_name@ == f[2] && interval@ == f[3],
        UserTradesChannel::ByKind { kind, currency, interval } => f.len() == 5 && kind@ == f[2]
            && currency@ == f[3] && interval@ == f[4],
    }
}

impl Channel for UserTradesChannel {
    open spec fn channel_text(&self) -> Seq<char> {
        match self {
            UserTradesChannel::ByInstrument { instrument_name, interval } => "user.trades"@
                + seq!['.'] + instrument_name@ + seq!['.'] + interval@,
            UserTradesChannel::ByKind { kind, currency, interval } => "user.trades"@ + seq!['.']
                + kind@ + seq!['.'] + currency@ + seq!['.'] + interval@,
        }
    }

    fn to_channel_str(&self) -> (r: String) {
        let mut r = "user.trades".to_owned();
        match self {
            UserTradesChannel::ByInstrument { instrument_name, interval } => {
                push_char(&mut r, '.');
                push_all(&mut r, instrument_name.as_str());
                push_char(&mut r, '.');
                push_all(&mut r, interval.as_str());
            },
            UserTradesChannel::ByKind { kind, currency, interval } => {
                push_char(&mut r, '.');
                push_all(&mut r, kind.as_str());
                push_char(&mut r, '.');
                push_all(&mut r, currency.as_str());
                push_char(&mut r, '.');
                push_all(&mut r, interval.as_str());
            },
        }
        r
    }
}

impl UserTradesChannel {
    /// The name of the channel.
    pub fn to_string(&self) -> (r: String)
        ensures
            r@ == self.channel_text(),
    {
        self.to_channel_str()
    }

    /// The channel named `s`: `user.trades.` and then either an instrument and
    /// an interval, or a kind, a currency and an interval.
    pub fn parse(s: &str) -> (r: Option<UserTradesChannel>)
        ensures
            ({
                let f = split(s@, '.');
                &&& r is Some <==> ((f.len() == 4 || f.len() == 5) && f[0] == "user"@ && f[1]
                    == "trades"@)
                &&& r matches Some(c) ==> user_trades_reads(c, f)
            }),
    {
        let f = split_exec(s, '.');
        proof {
            if f@.len() >= 2 {
                assert(views(f@)[0] == f@[0]@);
                assert(views(f@)[1] == f@[1]@);
            }
        }
        if (f.len() == 4 || f.len() == 5) && is_name(f[0].as_str(), "user") && is_name(
            f[1].as_str(),
            "trades",
        ) {
            proof {
                assert(views(f@)[2] == f@[2]@);
                assert(views(f@)[3] == f@[3]@);
                if f@.len() == 5 {
                    assert(views(f@)[4] == f@[4]@);
                }
            }
            if f.len() == 4 {
                Some(
                    UserTradesChannel::ByInstrument {
                        instrument_name: f[2].clone(),
                        interval: f[3].clone(),
                    },
                )
            } else {
                Some(
                    UserTradesChannel::ByKind {
                        kind: f[2].clone(),
                        currency: f[3].clone(),
                        interval: f[4].clone(),
                    },
                )
            }
        } else {
            None
        }
    }
}

} // verus!

verus! {

// ------------------------------------------------------------ reading names back

/// `c` does not occur in `s`.
pub open spec fn lacks(s: Seq<char>, c: char) -> bool {
    forall|i: int| 0 <= i < s.len() ==> s[i] != c
}

proof fn lemma_split_scan_prefix(x: Seq<char>, rest: Seq<char>, cur: Seq<char>, c: char)
    requires
        lacks(x, c),
    ensures
        crate::text::split_scan(x + rest, cur, c) == crate::text::split_scan(rest, cur + x, c),
    decreases x.len(),
{
    if x.len() == 0 {
        assert(x + rest =~= rest);
        assert(cur + x =~= cur);
    } else {
        assert((x + rest)[0] == x[0]);
        assert((x + rest).skip(1) =~= x.skip(1) + rest);
        lemma_split_scan_prefix(x.skip(1), rest, cur.push(x[0]), c);
        assert(cur.push(x[0]) + x.skip(1) =~= cur + x);
    }
}

/// Two pieces without `c`, joined by `c`, split back into the two pieces.
proof fn lemma_split_two(a: Seq<char>, b: Seq<char>, c: char)
    requires
        lacks(a, c),
        lacks(b, c),
    ensures
        split(a + seq![c] + b, c) == seq![a, b],
{
    let s = a + seq![c] + b;
    assert(s =~= a + (seq![c] + b));
    lemma_split_scan_prefix(a, seq![c] + b, Seq::empty(), c);
    assert(Seq::<char>::empty() + a =~= a);
    let r = seq![c] + b;
    assert(r[0] == c);
    assert(r.skip(1) =~= b);
    assert(b =~= b + Seq::<char>::empty());
    lemma_split_scan_prefix(b, Seq::empty(), Seq::empty(), c);
    assert(Seq::<char>::empty() + b =~= b);
    assert(crate::text::split_scan(Seq::<char>::empty(), b, c) == seq![b]);
}

/// Where `pat` occurs nowhere in `s`, taking it out leaves `s`.
proof fn lemma_remove_absent(s: Seq<char>, pat: Seq<char>)
    requires
        pat.len() > 0,
        forall|i: int| !#[trigger] crate::text::matches_at(s, pat, i),
    ensures
        remove_all(s, pat) == s,
    decreases s.len(),
{
    if s.len() >= pat.len() {
        assert(s.take(pat.len() as int) =~= s.subrange(0, pat.len() as int));
        assert(!crate::text::matches_at(s, pat, 0));
        assert forall|i: int| !#[trigger] crate::text::matches_at(s.skip(1), pat, i) by {
            if 0 <= i && i + pat.len() <= s.skip(1).len() {
                assert(s.skip(1).subrange(i, i + pat.len()) =~= s.subrange(i + 1, i + 1 + pat.len()));
                assert(!crate::text::matches_at(s, pat, i + 1));
            }
        }
        lemma_remove_absent(s.skip(1), pat);
        assert(seq![s[0]] + s.skip(1) =~= s);
    }
}

proof fn lemma_kind_names(k: InstrumentKind)
    ensures
        lacks(instrument_kind_name(k), '.'),
        instrument_kind_name(k).len() <= 12,
        instrument_kind_name(k).len() > 0 && instrument_kind_name(k)[0] != 'i',
{
    reveal_strlit("future");
    reveal_strlit("option");
    reveal_strlit("spot");
    reveal_strlit("future_combo");
    reveal_strlit("option_combo");
    reveal_strlit("any");
}

proof fn lemma_currency_names(c: Currency)
    ensures
        lacks(currency_name(c), '.'),
        currency_name(c).len() <= 4,
{
    reveal_strlit("BTC");
    reveal_strlit("ETH");
    reveal_strlit("USDC");
    reveal_strlit("USDT");
    reveal_strlit("EURR");
    reveal_strlit("any");
}

/// Reading back the name of an instrument state channel gives the same
/// channel: its kind and its currency.
pub proof fn law_instrument_state_channel_roundtrip(ch: InstrumentStateChannel)
    ensures
        channel_fields(ch.channel_text(), "instrument_state"@) matches Some(f)
            && InstrumentStateChannel::readable(f) && ch.reads(f),
{
    let p = "instrument_state"@;
    reveal_strlit("instrument_state");
    let kind = instrument_kind_name(ch.0);
    let cur = currency_name(ch.1);
    lemma_kind_names(ch.0);
    lemma_currency_names(ch.1);
    let pat = p + seq!['.'];
    let rest = kind + seq!['.'] + cur;
    let text = ch.channel_text();
    assert(text =~= pat + rest);
    assert(text.take(p.len() as int) =~= p);
    assert(starts_with(text, p));
    // The pattern is 17 characters long; the rest is at most 17, and where
    // it is that long it begins with a kind's first letter, not 'i'.
    assert(pat.len() == 17);
    assert forall|i: int| !#[trigger] crate::text::matches_at(rest, pat, i) by {
        if 0 <= i && i + pat.len() <= rest.len() {
            assert(i == 0);
            assert(rest.subrange(0, 17)[0] == kind[0]);
            assert(pat[0] == 'i');
        }
    }
    lemma_remove_absent(rest, pat);
    assert(text.take(pat.len() as int) =~= pat);
    assert(text.skip(pat.len() as int) =~= rest);
    assert(remove_all(text, pat) == remove_all(rest, pat));
    lemma_split_two(kind, cur, '.');
    let f = split(rest, '.');
    assert(f == seq![kind, cur]);
    crate::model::law_instrument_kind_roundtrip(ch.0);
    crate::model::law_currency_roundtrip(ch.1);
}

} // verus!

verus! {

/// Pieces without `c`, joined by `c`, split back into the same pieces.
pub proof fn law_split_join(parts: Seq<Seq<char>>, c: char)
    requires
        parts.len() > 0,
        forall|k: int| 0 <= k < parts.len() ==> lacks(#[trigger] parts[k], c),
    ensures
        split(crate::text::join(parts, c), c) == parts,
    decreases parts.len(),
{
    if parts.len() == 1 {
        assert(crate::text::join(parts, c) == parts[0]);
        lemma_split_scan_prefix(parts[0], Seq::empty(), Seq::empty(), c);
        assert(parts[0] + Seq::<char>::empty() =~= parts[0]);
        assert(Seq::<char>::empty() + parts[0] =~= parts[0]);
        assert(seq![parts[0]] =~= parts);
    } else {
        let tail = parts.skip(1);
        assert forall|k: int| 0 <= k < tail.len() implies lacks(#[trigger] tail[k], c) by {
            assert(tail[k] == parts[k + 1]);
        }
        law_split_join(tail, c);
        let j = crate::text::join(tail, c);
        assert(crate::text::join(parts, c) == parts[0] + seq![c] + j);
        assert(parts[0] + seq![c] + j =~= parts[0] + (seq![c] + j));
        lemma_split_scan_prefix(parts[0], seq![c] + j, Seq::empty(), c);
        assert(Seq::<char>::empty() + parts[0] =~= parts[0]);
        let r = seq![c] + j;
        assert(r[0] == c);
        assert(r.skip(1) =~= j);
        assert(seq![parts[0]] + tail =~= parts);
    }
}

/// A user trades channel whose parts hold no dot reads back as itself.
pub proof fn law_user_trades_channel_roundtrip(ch: UserTradesChannel)
    requires
        match ch {
            UserTradesChannel::ByInstrument { instrument_name, interval } => lacks(
                instrument_name@,
                '.',
            ) && lacks(interval@, '.'),
            UserTradesChannel::ByKind { kind, currency, interval } => lacks(kind@, '.') && lacks(
                currency@,
                '.',
            ) && lacks(interval@, '.'),
        },
    ensures
        ({
            let f = split(ch.channel_text(), '.');
            &&& (f.len() == 4 || f.len() == 5) && f[0] == "user"@ && f[1] == "trades"@
            &&& user_trades_reads(ch, f)
        }),
{
    reveal_strlit("user.trades");
    reveal_strlit("user");
    reveal_strlit("trades");
    assert("user.trades"@ =~= "user"@ + seq!['.'] + "trades"@);
    let parts = match ch {
        UserTradesChannel::ByInstrument { instrument_name, interval } => seq![
            "user"@,
            "trades"@,
            instrument_name@,
            interval@,
        ],
        UserTradesChannel::ByKind { kind, currency, interval } => seq![
            "user"@,
            "trades"@,
            kind@,
            currency@,
            interval@,
        ],
    };
    assert forall|k: int| 0 <= k < parts.len() implies lacks(#[trigger] parts[k], '.') by {}
    reveal_with_fuel(crate::text::join, 6);
    assert(parts.skip(1).skip(1).skip(1).skip(1).len() <= 1);
    assert(crate::text::join(parts, '.') =~= ch.channel_text()) by {
        let p1 = parts.skip(1);
        let p2 = p1.skip(1);
        let p3 = p2.skip(1);
        assert(p1[0] == parts[1] && p2[0] == parts[2] && p3[0] == parts[3]);
        if parts.len() == 5 {
            let p4 = p3.skip(1);
            assert(p4[0] == parts[4] && p4.len() == 1);
        } else {
            assert(p3.len() == 1);
        }
    }
    law_split_join(parts, '.');
}

/// A channel name made of a prefix and fields that hold no dot, where the
/// prefix followed by a dot does not occur again after the first one, reads
/// back into the same fields.
pub proof fn law_channel_fields_roundtrip(prefix: Seq<char>, parts: Seq<Seq<char>>)
    requires
        parts.len() > 0,
        forall|k: int| 0 <= k < parts.len() ==> lacks(#[trigger] parts[k], '.'),
        forall|i: int| !#[trigger] crate::text::matches_at(crate::text::join(parts, '.'), prefix + seq!['.'], i),
    ensures
        channel_fields(prefix + seq!['.'] + crate::text::join(parts, '.'), prefix) == Some(parts),
{
    let pat = prefix + seq!['.'];
    let rest = crate::text::join(parts, '.');
    let text = pat + rest;
    assert(text.take(prefix.len() as int) =~= prefix);
    assert(starts_with(text, prefix));
    lemma_remove_absent(rest, pat);
    assert(text.take(pat.len() as int) =~= pat);
    assert(text.skip(pat.len() as int) =~= rest);
    assert(remove_all(text, pat) == remove_all(rest, pat));
    law_split_join(parts, '.');
}

/// The name of the book channel `ch` after its leading `book.`.
pub open spec fn book_channel_rest(ch: BookChannel) -> Seq<char> {
    ch.0@ + seq!['.'] + interval_name(ch.1)
}

/// A book channel whose instrument name holds no dot, and whose name holds
/// `book.` only at its start, reads back as itself.
pub proof fn law_book_channel_roundtrip(ch: BookChannel)
    requires
        lacks(ch.0@, '.'),
        forall|i: int| !#[trigger] crate::text::matches_at(book_channel_rest(ch), "book."@, i),
    ensures
        channel_fields(ch.channel_text(), "book"@) matches Some(f)
            && BookChannel::readable(f) && ch.reads(f),
{
    let parts = seq![ch.0@, interval_name(ch.1)];
    reveal_strlit("raw");
    reveal_strlit("100ms");
    reveal_strlit("agg2");
    reveal_strlit("book");
    reveal_strlit("book.");
    assert("book."@ =~= "book"@ + seq!['.']);
    assert(lacks(interval_name(ch.1), '.'));
    assert forall|k: int| 0 <= k < parts.len() implies lacks(#[trigger] parts[k], '.') by {}
    reveal_with_fuel(crate::text::join, 3);
    assert(parts.skip(1) =~= seq![interval_name(ch.1)]);
    assert(crate::text::join(parts, '.') == book_channel_rest(ch));
    law_channel_fields_roundtrip("book"@, parts);
    assert("book"@ + seq!['.'] + crate::text::join(parts, '.') =~= ch.channel_text());
    crate::model::law_interval_roundtrip(ch.1);
}

/// The name of the trades channel `ch` after its leading `trades.`.
pub open spec fn trades_by_instrument_rest(ch: TradesByInstrumentChannel) -> Seq<char> {
    ch.0@ + seq!['.'] + interval_name(ch.1)
}

/// The name of a trades-by-instrument channel reads back as the channel:
/// where its instrument name holds no dot and `trades.` occurs in the name
/// only at its start, reading the name gives two fields, the instrument and
/// an interval that reads as the channel's interval.
pub proof fn law_trades_by_instrument_roundtrip(ch: TradesByInstrumentChannel)
    requires
        lacks(ch.0@, '.'),
        forall|i: int| !#[trigger] crate::text::matches_at(trades_by_instrument_rest(ch), "trades."@, i),
    ensures
        channel_fields(ch.channel_text(), "trades"@) == Some(seq![ch.0@, interval_name(ch.1)]),
        TradesByInstrumentChannel::readable(seq![ch.0@, interval_name(ch.1)]),
        ch.reads(seq![ch.0@, interval_name(ch.1)]),
        interval_of(interval_name(ch.1)) == ch.1,
{
    let parts = seq![ch.0@, interval_name(ch.1)];
    reveal_strlit("raw");
    reveal_strlit("100ms");
    reveal_strlit("agg2");
    reveal_strlit("trades");
    reveal_strlit("trades.");
    assert("trades."@ =~= "trades"@ + seq!['.']);
    assert(lacks(interval_name(ch.1), '.'));
    assert forall|k: int| 0 <= k < parts.len() implies lacks(#[trigger] parts[k], '.') by {}
    reveal_with_fuel(crate::text::join, 3);
    assert(parts.skip(1) =~= seq![interval_name(ch.1)]);
    assert(crate::text::join(parts, '.') == trades_by_instrument_rest(ch));
    law_channel_fields_roundtrip("trades"@, parts);
    assert("trades"@ + seq!['.'] + crate::text::join(parts, '.') =~= ch.channel_text());
    crate::model::law_interval_roundtrip(ch.1);
}

} // verus!
