//! Enumerations of the Deribit data model, with their wire names.
use vstd::prelude::*;
use crate::template::str_eq;

verus! {

/// Why a wire name could not be read.
#[derive(Debug, Clone, PartialEq, Eq)]
pub enum ModelError {
    /// Not a currency name.
    InvalidCurrency(String),
    /// Not a direction name.
    InvalidDirection(String),
    /// Not an instrument kind name.
    UnsupportedInstrumentKind(String),
    /// Not an instrument state name.
    UnsupportedInstrumentState(String),
    /// Not a tick direction number.
    UnsupportedTickDirection(u8),
}

/// Whether `s` holds exactly the characters of `lit`.
pub fn is_name(s: &str, lit: &str) -> (r: bool)
    ensures
        r == (s@ == lit@),
{
    str_eq(s, lit)
}

// ---------------------------------------------------------------- Currency

/// A currency.
#[derive(Debug, Clone, Copy, PartialEq, Eq, Structural)]
pub enum Currency {
    BTC,
    ETH,
    USDC,
    USDT,
    EURR,
    Any,
}

/// The wire name of a currency.
pub open spec fn currency_name(c: Currency) -> Seq<char> {
    match c {
        Currency::BTC => "BTC"@,
        Currency::ETH => "ETH"@,
        Currency::USDC => "USDC"@,
        Currency::USDT => "USDT"@,
        Currency::EURR => "EURR"@,
        Currency::Any => "any"@,
    }
}

/// The currency whose wire name is `s`.
pub open spec fn currency_of(s: Seq<char>) -> Option<Currency> {
    if s == "BTC"@ {
        Some(Currency::BTC)
    } else if s == "ETH"@ {
        Some(Currency::ETH)
    } else if s == "EURR"@ {
        Some(Currency::EURR)
    } else if s == "USDT"@ {
        Some(Currency::USDT)
    } else if s == "USDC"@ {
        Some(Currency::USDC)
    } else if s == "any"@ {
        Some(Currency::Any)
    } else {
        None
    }
}

impl Currency {
    /// The wire name ("BTC", "ETH", "USDC", "USDT", "EURR", "any").
    pub fn to_string(&self) -> (r: String)
        ensures
            r@ == currency_name(*self),
    {
        let s = match self {
            Currency::BTC => "BTC",
            Currency::ETH => "ETH",
            Currency::USDC => "USDC",
            Currency::USDT => "USDT",
            Currency::EURR => "EURR",
            Currency::Any => "any",
        };
        s.to_owned()
    }

    /// The currency named `s`.
    pub fn parse(s: &str) -> (r: Result<Currency, ModelError>)
        ensures
            match currency_of(s@) {
                Some(c) => r == Ok::<Currency, ModelError>(c),
                None => r matches Err(ModelError::InvalidCurrency(v)) && v@ == s@,
            },
    {
        if is_name(s, "BTC") {
            Ok(Currency::BTC)
        } else if is_name(s, "ETH") {
            Ok(Currency::ETH)
        } else if is_name(s, "EURR") {
            Ok(Currency::EURR)
        } else if is_name(s, "USDT") {
            Ok(Currency::USDT)
        } else if is_name(s, "USDC") {
            Ok(Currency::USDC)
        } else if is_name(s, "any") {
            Ok(Currency::Any)
        } else {
            Err(ModelError::InvalidCurrency(s.to_owned()))
        }
    }
}

/// Reading back the wire name of a currency gives the currency.
pub proof fn law_currency_roundtrip(c: Currency)
    ensures
        currency_of(currency_name(c)) == Some(c),
{
    reveal_strlit("BTC");
    reveal_strlit("ETH");
    reveal_strlit("USDC");
    reveal_strlit("USDT");
    reveal_strlit("EURR");
    reveal_strlit("any");
    assert("BTC"@ != "ETH"@) by { assert("BTC"@[0] != "ETH"@[0]); }
    assert("ETH"@ != "any"@) by { assert("ETH"@[0] != "any"@[0]); }
    assert("BTC"@ != "any"@) by { assert("BTC"@[0] != "any"@[0]); }
    assert("USDC"@ != "USDT"@) by { assert("USDC"@[3] != "USDT"@[3]); }
    assert("USDC"@ != "EURR"@) by { assert("USDC"@[0] != "EURR"@[0]); }
    assert("USDT"@ != "EURR"@) by { assert("USDT"@[0] != "EURR"@[0]); }
    assert("BTC"@.len() == 3 && "ETH"@.len() == 3 && "any"@.len() == 3);
    assert("USDC"@.len() == 4 && "USDT"@.len() == 4 && "EURR"@.len() == 4);
    match c {
        Currency::BTC => {}
        Currency::ETH => {}
        Currency::USDC => {}
        Currency::USDT => {}
        Currency::EURR => {}
        Currency::Any => {}
    }
}

/// A name that reads as a currency is that currency's wire name.
pub proof fn law_currency_name_unique(s: Seq<char>)
    ensures
        currency_of(s) matches Some(c) ==> currency_name(c) == s,
{
}

} // verus!

verus! {

// ------------------------------------------------------------ Direction

/// The side of a trade or an order.
#[derive(Debug, Clone, Copy, PartialEq, Eq, Structural)]
pub enum Direction {
    Buy,
    Sell,
}

/// The wire name of `Direction`.
pub open spec fn direction_name(v: Direction) -> Seq<char> {
    match v {
        Direction::Buy => "buy"@,
        Direction::Sell => "sell"@,
    }
}

/// The `Direction` whose wire name is `s`.
pub open spec fn direction_of(s: Seq<char>) -> Option<Direction> {
    if s == "buy"@ {
        Some(Direction::Buy)
    } else if s == "sell"@ {
        Some(Direction::Sell)
    } else {
        None
    }
}

impl Direction {
    /// The wire name ("buy", "sell").
    pub fn to_string(&self) -> (r: String)
        ensures
            r@ == direction_name(*self),
    {
        let s = match self {
            Direction::Buy => "buy",
            Direction::Sell => "sell",
        };
        s.to_owned()
    }

    /// The `Direction` named `s`.
    pub fn parse(s: &str) -> (r: Result<Direction, ModelError>)
        ensures
            match direction_of(s@) {
                Some(v) => r == Ok::<Direction, ModelError>(v),
                None => r matches Err(ModelError::InvalidDirection(e)) && e@ == s@,
            },
    {
        if is_name(s, "buy") {
            Ok(Direction::Buy)
        } else if is_name(s, "sell") {
            Ok(Direction::Sell)
        } else {
            Err(ModelError::InvalidDirection(s.to_owned()))
        }
    }
}

/// Reading back the wire name of Direction gives the same value.
pub proof fn law_direction_roundtrip(v: Direction)
    ensures
        direction_of(direction_name(v)) == Some(v),
{
    reveal_strlit("buy");
    reveal_strlit("sell");
    assert("buy"@.len() == 3 && "sell"@.len() == 4);
    match v {
        Direction::Buy => {}
        Direction::Sell => {}
    }
}

/// A name that reads as `Direction` is that value's wire name.
pub proof fn law_direction_name_unique(s: Seq<char>)
    ensures
        direction_of(s) matches Some(v) ==> direction_name(v) == s,
{
}

// ------------------------------------------------------------ InstrumentKind

/// The kind of an instrument.
#[derive(Debug, Clone, Copy, PartialEq, Eq, Structural)]
pub enum InstrumentKind {
    Future,
    Option,
    Spot,
    FutureCombo,
    OptionCombo,
    Any,
}

/// The wire name of `InstrumentKind`.
pub open spec fn instrument_kind_name(v: InstrumentKind) -> Seq<char> {
    match v {
        InstrumentKind::Future => "future"@,
        InstrumentKind::Option => "option"@,
        InstrumentKind::Spot => "spot"@,
        InstrumentKind::FutureCombo => "future_combo"@,
        InstrumentKind::OptionCombo => "option_combo"@,
        InstrumentKind::Any => "any"@,
    }
}

/// The `InstrumentKind` whose wire name is `s`.
pub open spec fn instrument_kind_of(s: Seq<char>) -> Option<InstrumentKind> {
    if s == "future"@ {
        Some(InstrumentKind::Future)
    } else if s == "option"@ {
        Some(InstrumentKind::Option)
    } else if s == "spot"@ {
        Some(InstrumentKind::Spot)
    } else if s == "future_combo"@ {
        Some(InstrumentKind::FutureCombo)
    } else if s == "option_combo"@ {
        Some(InstrumentKind::OptionCombo)
    } else if s == "any"@ {
        Some(InstrumentKind::Any)
    } else {
        None
    }
}

impl InstrumentKind {
    /// The wire name ("future", "option", "spot", "future_combo", "option_combo", "any").
    pub fn to_string(&self) -> (r: String)
        ensures
            r@ == instrument_kind_name(*self),
    {
        let s = match self {
            InstrumentKind::Future => "future",
            InstrumentKind::Option => "option",
            InstrumentKind::Spot => "spot",
            InstrumentKind::FutureCombo => "future_combo",
            InstrumentKind::OptionCombo => "option_combo",
            InstrumentKind::Any => "any",
        };
        s.to_owned()
    }

    /// The `InstrumentKind` named `s`.
    pub fn parse(s: &str) -> (r: Result<InstrumentKind, ModelError>)
        ensures
            match instrument_kind_of(s@) {
                Some(v) => r == Ok::<InstrumentKind, ModelError>(v),
                None => r matches Err(ModelError::UnsupportedInstrumentKind(e)) && e@ == s@,
            },
    {
        if is_name(s, "future") {
            Ok(InstrumentKind::Future)
        } else if is_name(s, "option") {
            Ok(InstrumentKind::Option)
        } else if is_name(s, "spot") {
            Ok(InstrumentKind::Spot)
        } else if is_name(s, "future_combo") {
            Ok(InstrumentKind::FutureCombo)
        } else if is_name(s, "option_combo") {
            Ok(InstrumentKind::OptionCombo)
        } else if is_name(s, "any") {
            Ok(InstrumentKind::Any)
        } else {
            Err(ModelError::UnsupportedInstrumentKind(s.to_owned()))
        }
    }
}

/// Reading back the wire name of InstrumentKind gives the same value.
pub proof fn law_instrument_kind_roundtrip(v: InstrumentKind)
    ensures
        instrument_kind_of(instrument_kind_name(v)) == Some(v),
{
    reveal_strlit("future");
    reveal_strlit("option");
    reveal_strlit("spot");
    reveal_strlit("future_combo");
    reveal_strlit("option_combo");
    reveal_strlit("any");
    assert("future"@.len() == 6 && "option"@.len() == 6 && "spot"@.len() == 4 && "future_combo"@.len() == 12 && "option_combo"@.len() == 12 && "any"@.len() == 3);
    assert("future"@ != "option"@) by { assert("future"@[0] != "option"@[0]); }
    assert("future_combo"@ != "option_combo"@) by { assert("future_combo"@[0] != "option_combo"@[0]); }
    match v {
        InstrumentKind::Future => {}
        InstrumentKind::Option => {}
        InstrumentKind::Spot => {}
        InstrumentKind::FutureCombo => {}
        InstrumentKind::OptionCombo => {}
        InstrumentKind::Any => {}
    }
}

/// A name that reads as `InstrumentKind` is that value's wire name.
pub proof fn law_instrument_kind_name_unique(s: Seq<char>)
    ensures
        instrument_kind_of(s) matches Some(v) ==> instrument_kind_name(v) == s,
{
}

// ------------------------------------------------------------ InstrumentState

/// The life-cycle state of an instrument.
#[derive(Debug, Clone, Copy, PartialEq, Eq, Structural)]
pub enum InstrumentState {
    Created,
    Started,
    Settled,
    Closed,
    Deactivated,
    Terminated,
}

/// The wire name of `InstrumentState`.
pub open spec fn instrument_state_name(v: InstrumentState) -> Seq<char> {
    match v {
        InstrumentState::Created => "created"@,
        InstrumentState::Started => "started"@,
        InstrumentState::Settled => "settled"@,
        InstrumentState::Closed => "closed"@,
        InstrumentState::Deactivated => "deactivated"@,
        InstrumentState::Terminated => "terminated"@,
    }
}

/// The `InstrumentState` whose wire name is `s`.
pub open spec fn instrument_state_of(s: Seq<char>) -> Option<InstrumentState> {
    if s == "created"@ {
        Some(InstrumentState::Created)
    } else if s == "started"@ {
        Some(InstrumentState::Started)
    } else if s == "settled"@ {
        Some(InstrumentState::Settled)
    } else if s == "closed"@ {
        Some(InstrumentState::Closed)
    } else if s == "deactivated"@ {
        Some(InstrumentState::Deactivated)
    } else if s == "terminated"@ {
        Some(InstrumentState::Terminated)
    } else {
        None
    }
}

impl InstrumentState {
    /// The wire name ("created", "started", "settled", "closed", "deactivated", "terminated").
    pub fn to_string(&self) -> (r: String)
        ensures
            r@ == instrument_state_name(*self),
    {
        let s = match self {
            InstrumentState::Created => "created",
            InstrumentState::Started => "started",
            InstrumentState::Settled => "settled",
            InstrumentState::Closed => "closed",
            InstrumentState::Deactivated => "deactivated",
            InstrumentState::Terminated => "terminated",
        };
        s.to_owned()
    }

    /// The `InstrumentState` named `s`.
    pub fn parse(s: &str) -> (r: Result<InstrumentState, ModelError>)
        ensures
            match instrument_state_of(s@) {
                Some(v) => r == Ok::<InstrumentState, ModelError>(v),
                None => r matches Err(ModelError::UnsupportedInstrumentState(e)) && e@ == s@,
            },
    {
        if is_name(s, "created") {
            Ok(InstrumentState::Created)
        } else if is_name(s, "started") {
            Ok(InstrumentState::Started)
        } else if is_name(s, "settled") {
            Ok(InstrumentState::Settled)
        } else if is_name(s, "closed") {
            Ok(InstrumentState::Closed)
        } else if is_name(s, "deactivated") {
            Ok(InstrumentState::Deactivated)
        } else if is_name(s, "terminated") {
            Ok(InstrumentState::Terminated)
        } else {
            Err(ModelError::UnsupportedInstrumentState(s.to_owned()))
        }
    }
}

/// Reading back the wire name of InstrumentState gives the same value.
pub proof fn law_instrument_state_roundtrip(v: InstrumentState)
    ensures
        instrument_state_of(instrument_state_name(v)) == Some(v),
{
    reveal_strlit("created");
    reveal_strlit("started");
    reveal_strlit("settled");
    reveal_strlit("closed");
    reveal_strlit("deactivated");
    reveal_strlit("terminated");
    assert("created"@.len() == 7 && "started"@.len() == 7 && "settled"@.len() == 7 && "closed"@.len() == 6 && "deactivated"@.len() == 11 && "terminated"@.len() == 10);
    assert("created"@ != "started"@) by { assert("created"@[0] != "started"@[0]); }
    assert("created"@ != "settled"@) by { assert("created"@[0] != "settled"@[0]); }
    assert("started"@ != "settled"@) by { assert("started"@[1] != "settled"@[1]); }
    match v {
        InstrumentState::Created => {}
        InstrumentState::Started => {}
        InstrumentState::Settled => {}
        InstrumentState::Closed => {}
        InstrumentState::Deactivated => {}
        InstrumentState::Terminated => {}
    }
}

/// A name that reads as `InstrumentState` is that value's wire name.
pub proof fn law_instrument_state_name_unique(s: Seq<char>)
    ensures
        instrument_state_of(s) matches Some(v) ==> instrument_state_name(v) == s,
{
}

// ------------------------------------------------------------ LiquidationType

/// Which side of a trade was liquidated.
#[derive(Debug, Clone, Copy, PartialEq, Eq, Structural)]
pub enum LiquidationType {
    Maker,
    Taker,
    MakerTaker,
}

/// The wire name of `LiquidationType`.
pub open spec fn liquidation_type_name(v: LiquidationType) -> Seq<char> {
    match v {
        LiquidationType::Maker => "M"@,
        LiquidationType::Taker => "T"@,
        LiquidationType::MakerTaker => "MT"@,
    }
}

/// The `LiquidationType` whose wire name is `s`.
pub open spec fn liquidation_type_of(s: Seq<char>) -> Option<LiquidationType> {
    if s == "M"@ {
        Some(LiquidationType::Maker)
    } else if s == "T"@ {
        Some(LiquidationType::Taker)
    } else if s == "MT"@ {
        Some(LiquidationType::MakerTaker)
    } else {
        None
    }
}

impl LiquidationType {
    /// The wire name ("M", "T", "MT").
    pub fn to_string(&self) -> (r: String)
        ensures
            r@ == liquidation_type_name(*self),
    {
        let s = match self {
            LiquidationType::Maker => "M",
            LiquidationType::Taker => "T",
            LiquidationType::MakerTaker => "MT",
        };
        s.to_owned()
    }

    /// The `LiquidationType` named `s`, if any.
    pub fn parse(s: &str) -> (r: Option<LiquidationType>)
        ensures
            r == liquidation_type_of(s@),
    {
        if is_name(s, "M") {
            Some(LiquidationType::Maker)
        } else if is_name(s, "T") {
            Some(LiquidationType::Taker)
        } else if is_name(s, "MT") {
            Some(LiquidationType::MakerTaker)
        } else {
            None
        }
    }
}

/// Reading back the wire name of LiquidationType gives the same value.
pub proof fn law_liquidation_type_roundtrip(v: LiquidationType)
    ensures
        liquidation_type_of(liquidation_type_name(v)) == Some(v),
{
    reveal_strlit("M");
    reveal_strlit("T");
    reveal_strlit("MT");
    assert("M"@.len() == 1 && "T"@.len() == 1 && "MT"@.len() == 2);
    assert("M"@ != "T"@) by { assert("M"@[0] != "T"@[0]); }
    match v {
        LiquidationType::Maker => {}
        LiquidationType::Taker => {}
        LiquidationType::MakerTaker => {}
    }
}

/// A name that reads as `LiquidationType` is that value's wire name.
pub proof fn law_liquidation_type_name_unique(s: Seq<char>)
    ensures
        liquidation_type_of(s) matches Some(v) ==> liquidation_type_name(v) == s,
{
}

// ------------------------------------------------------------ LiquidityType

/// Whether a trade added or took liquidity.
#[derive(Debug, Clone, Copy, PartialEq, Eq, Structural)]
pub enum LiquidityType {
    Maker,
    Taker,
}

/// The wire name of `LiquidityType`.
pub open spec fn liquidity_type_name(v: LiquidityType) -> Seq<char> {
    match v {
        LiquidityType::Maker => "M"@,
        LiquidityType::Taker => "T"@,
    }
}

/// The `LiquidityType` whose wire name is `s`.
pub open spec fn liquidity_type_of(s: Seq<char>) -> Option<LiquidityType> {
    if s == "M"@ {
        Some(LiquidityType::Maker)
    } else if s == "T"@ {
        Some(LiquidityType::Taker)
    } else {
        None
    }
}

impl LiquidityType {
    /// The wire name ("M", "T").
    pub fn to_string(&self) -> (r: String)
        ensures
            r@ == liquidity_type_name(*self),
    {
        let s = match self {
            LiquidityType::Maker => "M",
            LiquidityType::Taker => "T",
        };
        s.to_owned()
    }

    /// The `LiquidityType` named `s`, if any.
    pub fn parse(s: &str) -> (r: Option<LiquidityType>)
        ensures
            r == liquidity_type_of(s@),
    {
        if is_name(s, "M") {
            Some(LiquidityType::Maker)
        } else if is_name(s, "T") {
            Some(LiquidityType::Taker)
        } else {
            None
        }
    }
}

/// Reading back the wire name of LiquidityType gives the same value.
pub proof fn law_liquidity_type_roundtrip(v: LiquidityType)
    ensures
        liquidity_type_of(liquidity_type_name(v)) == Some(v),
{
    reveal_strlit("M");
    reveal_strlit("T");
    assert("M"@.len() == 1 && "T"@.len() == 1);
    assert("M"@ != "T"@) by { assert("M"@[0] != "T"@[0]); }
    match v {
        LiquidityType::Maker => {}
        LiquidityType::Taker => {}
    }
}

/// A name that reads as `LiquidityType` is that value's wire name.
pub proof fn law_liquidity_type_name_unique(s: Seq<char>)
    ensures
        liquidity_type_of(s) matches Some(v) ==> liquidity_type_name(v) == s,
{
}

// ------------------------------------------------------------ OrderType

/// The type of an order.
#[derive(Debug, Clone, Copy, PartialEq, Eq, Structural)]
pub enum OrderType {
    Limit,
    Market,
    Liquidation,
    StopLimit,
    StopMarket,
}

/// The wire name of `OrderType`.
pub open spec fn order_type_name(v: OrderType) -> Seq<char> {
    match v {
        OrderType::Limit => "limit"@,
        OrderType::Market => "market"@,
        OrderType::Liquidation => "liquidation"@,
        OrderType::StopLimit => "stop_limit"@,
        OrderType::StopMarket => "stop_market"@,
    }
}

/// The `OrderType` whose wire name is `s`.
pub open spec fn order_type_of(s: Seq<char>) -> Option<OrderType> {
    if s == "limit"@ {
        Some(OrderType::Limit)
    } else if s == "market"@ {
        Some(OrderType::Market)
    } else if s == "liquidation"@ {
        Some(OrderType::Liquidation)
    } else if s == "stop_limit"@ {
        Some(OrderType::StopLimit)
    } else if s == "stop_market"@ {
        Some(OrderType::StopMarket)
    } else {
        None
    }
}

impl OrderType {
    /// The wire name ("limit", "market", "liquidation", "stop_limit", "stop_market").
    pub fn to_string(&self) -> (r: String)
        ensures
            r@ == order_type_name(*self),
    {
        let s = match self {
            OrderType::Limit => "limit",
            OrderType::Market => "market",
            OrderType::Liquidation => "liquidation",
            OrderType::StopLimit => "stop_limit",
            OrderType::StopMarket => "stop_market",
        };
        s.to_owned()
    }

    /// The `OrderType` named `s`, if any.
    pub fn parse(s: &str) -> (r: Option<OrderType>)
        ensures
            r == order_type_of(s@),
    {
        if is_name(s, "limit") {
            Some(OrderType::Limit)
        } else if is_name(s, "market") {
            Some(OrderType::Market)
        } else if is_name(s, "liquidation") {
            Some(OrderType::Liquidation)
        } else if is_name(s, "stop_limit") {
            Some(OrderType::StopLimit)
        } else if is_name(s, "stop_market") {
            Some(OrderType::StopMarket)
        } else {
            None
        }
    }
}

/// Reading back the wire name of OrderType gives the same value.
pub proof fn law_order_type_roundtrip(v: OrderType)
    ensures
        order_type_of(order_type_name(v)) == Some(v),
{
    reveal_strlit("limit");
    reveal_strlit("market");
    reveal_strlit("liquidation");
    reveal_strlit("stop_limit");
    reveal_strlit("stop_market");
    assert("limit"@.len() == 5 && "market"@.len() == 6 && "liquidation"@.len() == 11 && "stop_limit"@.len() == 10 && "stop_market"@.len() == 11);
    assert("liquidation"@ != "stop_market"@) by { assert("liquidation"@[0] != "stop_market"@[0]); }
    match v {
        OrderType::Limit => {}
        OrderType::Market => {}
        OrderType::Liquidation => {}
        OrderType::StopLimit => {}
        OrderType::StopMarket => {}
    }
}

/// A name that reads as `OrderType` is that value's wire name.
pub proof fn law_order_type_name_unique(s: Seq<char>)
    ensures
        order_type_of(s) matches Some(v) ==> order_type_name(v) == s,
{
}

// ------------------------------------------------------------ OrderState

/// The state of an order.
#[derive(Debug, Clone, Copy, PartialEq, Eq, Structural)]
pub enum OrderState {
    Open,
    Filled,
    Rejected,
    Cancelled,
    Untriggered,
    Archive,
}

/// The wire name of `OrderState`.
pub open spec fn order_state_name(v: OrderState) -> Seq<char> {
    match v {
        OrderState::Open => "open"@,
        OrderState::Filled => "filled"@,
        OrderState::Rejected => "rejected"@,
        OrderState::Cancelled => "cancelled"@,
        OrderState::Untriggered => "untriggered"@,
        OrderState::Archive => "archive"@,
    }
}

/// The `OrderState` whose wire name is `s`.
pub open spec fn order_state_of(s: Seq<char>) -> Option<OrderState> {
    if s == "open"@ {
        Some(OrderState::Open)
    } else if s == "filled"@ {
        Some(OrderState::Filled)
    } else if s == "rejected"@ {
        Some(OrderState::Rejected)
    } else if s == "cancelled"@ {
        Some(OrderState::Cancelled)
    } else if s == "untriggered"@ {
        Some(OrderState::Untriggered)
    } else if s == "archive"@ {
        Some(OrderState::Archive)
    } else {
        None
    }
}

impl OrderState {
    /// The wire name ("open", "filled", "rejected", "cancelled", "untriggered", "archive").
    pub fn to_string(&self) -> (r: String)
        ensures
            r@ == order_state_name(*self),
    {
        let s = match self {
            OrderState::Open => "open",
            OrderState::Filled => "filled",
            OrderState::Rejected => "rejected",
            OrderState::Cancelled => "cancelled",
            OrderState::Untriggered => "untriggered",
            OrderState::Archive => "archive",
        };
        s.to_owned()
    }

    /// The `OrderState` named `s`, if any.
    pub fn parse(s: &str) -> (r: Option<OrderState>)
        ensures
            r == order_state_of(s@),
    {
        if is_name(s, "open") {
            Some(OrderState::Open)
        } else if is_name(s, "filled") {
            Some(OrderState::Filled)
        } else if is_name(s, "rejected") {
            Some(OrderState::Rejected)
        } else if is_name(s, "cancelled") {
            Some(OrderState::Cancelled)
        } else if is_name(s, "untriggered") {
            Some(OrderState::Untriggered)
        } else if is_name(s, "archive") {
            Some(OrderState::Archive)
        } else {
            None
        }
    }
}

/// Reading back the wire name of OrderState gives the same value.
pub proof fn law_order_state_roundtrip(v: OrderState)
    ensures
        order_state_of(order_state_name(v)) == Some(v),
{
    reveal_strlit("open");
    reveal_strlit("filled");
    reveal_strlit("rejected");
    reveal_strlit("cancelled");
    reveal_strlit("untriggered");
    reveal_strlit("archive");
    assert("open"@.len() == 4 && "filled"@.len() == 6 && "rejected"@.len() == 8 && "cancelled"@.len() == 9 && "untriggered"@.len() == 11 && "archive"@.len() == 7);
    match v {
        OrderState::Open => {}
        OrderState::Filled => {}
        OrderState::Rejected => {}
        OrderState::Cancelled => {}
        OrderState::Untriggered => {}
        OrderState::Archive => {}
    }
}

/// A name that reads as `OrderState` is that value's wire name.
pub proof fn law_order_state_name_unique(s: Seq<char>)
    ensures
        order_state_of(s) matches Some(v) ==> order_state_name(v) == s,
{
}

// ------------------------------------------------------------ OrderTrigger

/// The price that triggers a stop order.
#[derive(Debug, Clone, Copy, PartialEq, Eq, Structural)]
pub enum OrderTrigger {
    IndexPrice,
    MarkPrice,
    LastPrice,
}

/// The wire name of `OrderTrigger`.
pub open spec fn order_trigger_name(v: OrderTrigger) -> Seq<char> {
    match v {
        OrderTrigger::IndexPrice => "index_price"@,
        OrderTrigger::MarkPrice => "mark_price"@,
        OrderTrigger::LastPrice => "last_price"@,
    }
}

/// The `OrderTrigger` whose wire name is `s`.
pub open spec fn order_trigger_of(s: Seq<char>) -> Option<OrderTrigger> {
    if s == "index_price"@ {
        Some(OrderTrigger::IndexPrice)
    } else if s == "mark_price"@ {
        Some(OrderTrigger::MarkPrice)
    } else if s == "last_price"@ {
        Some(OrderTrigger::LastPrice)
    } else {
        None
    }
}

impl OrderTrigger {
    /// The wire name ("index_price", "mark_price", "last_price").
    pub fn to_string(&self) -> (r: String)
        ensures
            r@ == order_trigger_name(*self),
    {
        let s = match self {
            OrderTrigger::IndexPrice => "index_price",
            OrderTrigger::MarkPrice => "mark_price",
            OrderTrigger::LastPrice => "last_price",
        };
        s.to_owned()
    }

    /// The `OrderTrigger` named `s`, if any.
    pub fn parse(s: &str) -> (r: Option<OrderTrigger>)
        ensures
            r == order_trigger_of(s@),
    {
        if is_name(s, "index_price") {
            Some(OrderTrigger::IndexPrice)
        } else if is_name(s, "mark_price") {
            Some(OrderTrigger::MarkPrice)
        } else if is_name(s, "last_price") {
            Some(OrderTrigger::LastPrice)
        } else {
            None
        }
    }
}

/// Reading back the wire name of OrderTrigger gives the same value.
pub proof fn law_order_trigger_roundtrip(v: OrderTrigger)
    ensures
        order_trigger_of(order_trigger_name(v)) == Some(v),
{
    reveal_strlit("index_price");
    reveal_strlit("mark_price");
    reveal_strlit("last_price");
    assert("index_price"@.len() == 11 && "mark_price"@.len() == 10 && "last_price"@.len() == 10);
    assert("mark_price"@ != "last_price"@) by { assert("mark_price"@[0] != "last_price"@[0]); }
    match v {
        OrderTrigger::IndexPrice => {}
        OrderTrigger::MarkPrice => {}
        OrderTrigger::LastPrice => {}
    }
}

/// A name that reads as `OrderTrigger` is that value's wire name.
pub proof fn law_order_trigger_name_unique(s: Seq<char>)
    ensures
        order_trigger_of(s) matches Some(v) ==> order_trigger_name(v) == s,
{
}

// ------------------------------------------------------------ TimeInForce

/// How long an order stays in force.
#[derive(Debug, Clone, Copy, PartialEq, Eq, Structural)]
pub enum TimeInForce {
    GoodTilCancelled,
    GoodTilDay,
    FillOrKill,
    ImmediateOrCancel,
}

/// The wire name of `TimeInForce`.
pub open spec fn time_in_force_name(v: TimeInForce) -> Seq<char> {
    match v {
        TimeInForce::GoodTilCancelled => "good_til_cancelled"@,
        TimeInForce::GoodTilDay => "good_til_day"@,
        TimeInForce::FillOrKill => "fill_or_kill"@,
        TimeInForce::ImmediateOrCancel => "immediate_or_cancel"@,
    }
}

/// The `TimeInForce` whose wire name is `s`.
pub open spec fn time_in_force_of(s: Seq<char>) -> Option<TimeInForce> {
    if s == "good_til_cancelled"@ {
        Some(TimeInForce::GoodTilCancelled)
    } else if s == "good_til_day"@ {
        Some(TimeInForce::GoodTilDay)
    } else if s == "fill_or_kill"@ {
        Some(TimeInForce::FillOrKill)
    } else if s == "immediate_or_cancel"@ {
        Some(TimeInForce::ImmediateOrCancel)
    } else {
        None
    }
}

impl TimeInForce {
    /// The wire name ("good_til_cancelled", "good_til_day", "fill_or_kill", "immediate_or_cancel").
    pub fn to_string(&self) -> (r: String)
        ensures
            r@ == time_in_force_name(*self),
    {
        let s = match self {
            TimeInForce::GoodTilCancelled => "good_til_cancelled",
            TimeInForce::GoodTilDay => "good_til_day",
            TimeInForce::FillOrKill => "fill_or_kill",
            TimeInForce::ImmediateOrCancel => "immediate_or_cancel",
        };
        s.to_owned()
    }

    /// The `TimeInForce` named `s`, if any.
    pub fn parse(s: &str) -> (r: Option<TimeInForce>)
        ensures
            r == time_in_force_of(s@),
    {
        if is_name(s, "good_til_cancelled") {
            Some(TimeInForce::GoodTilCancelled)
        } else if is_name(s, "good_til_day") {
            Some(TimeInForce::GoodTilDay)
        } else if is_name(s, "fill_or_kill") {
            Some(TimeInForce::FillOrKill)
        } else if is_name(s, "immediate_or_cancel") {
            Some(TimeInForce::ImmediateOrCancel)
        } else {
            None
        }
    }
}

/// Reading back the wire name of TimeInForce gives the same value.
pub proof fn law_time_in_force_roundtrip(v: TimeInForce)
    ensures
        time_in_force_of(time_in_force_name(v)) == Some(v),
{
    reveal_strlit("good_til_cancelled");
    reveal_strlit("good_til_day");
    reveal_strlit("fill_or_kill");
    reveal_strlit("immediate_or_cancel");
    assert("good_til_cancelled"@.len() == 18 && "good_til_day"@.len() == 12 && "fill_or_kill"@.len() == 12 && "immediate_or_cancel"@.len() == 19);
    assert("good_til_day"@ != "fill_or_kill"@) by { assert("good_til_day"@[0] != "fill_or_kill"@[0]); }
    match v {
        TimeInForce::GoodTilCancelled => {}
        TimeInForce::GoodTilDay => {}
        TimeInForce::FillOrKill => {}
        TimeInForce::ImmediateOrCancel => {}
    }
}

/// A name that reads as `TimeInForce` is that value's wire name.
pub proof fn law_time_in_force_name_unique(s: Seq<char>)
    ensures
        time_in_force_of(s) matches Some(v) ==> time_in_force_name(v) == s,
{
}

} // verus!

verus! {

// ------------------------------------------------------------ TickDirection

/// The direction of the last price move of an instrument.
#[derive(Debug, Clone, Copy, PartialEq, Eq, Structural)]
pub enum TickDirection {
    /// Code 0: the price went up.
    Plus,
    /// Code 1: the price stayed, after a rise.
    ZeroPlus,
    /// Code 2: the price went down.
    Minus,
    /// Code 3: the price stayed, after a fall.
    ZeroMinus,
}

/// The wire code of a tick direction.
pub open spec fn tick_code(t: TickDirection) -> u8 {
    match t {
        TickDirection::Plus => 0,
        TickDirection::ZeroPlus => 1,
        TickDirection::Minus => 2,
        TickDirection::ZeroMinus => 3,
    }
}

/// The tick direction with wire code `v`.
pub open spec fn tick_of(v: u8) -> Option<TickDirection> {
    if v == 0 {
        Some(TickDirection::Plus)
    } else if v == 1 {
        Some(TickDirection::ZeroPlus)
    } else if v == 2 {
        Some(TickDirection::Minus)
    } else if v == 3 {
        Some(TickDirection::ZeroMinus)
    } else {
        None
    }
}

impl TickDirection {
    /// The wire code (0 to 3).
    pub fn code(&self) -> (r: u8)
        ensures
            r == tick_code(*self),
    {
        match self {
            TickDirection::Plus => 0,
            TickDirection::ZeroPlus => 1,
            TickDirection::Minus => 2,
            TickDirection::ZeroMinus => 3,
        }
    }

    /// The tick direction with wire code `v`; codes above 3 are refused.
    pub fn from_code(v: u8) -> (r: Result<TickDirection, ModelError>)
        ensures
            match tick_of(v) {
                Some(t) => r == Ok::<TickDirection, ModelError>(t),
                None => r == Err::<TickDirection, ModelError>(ModelError::UnsupportedTickDirection(v)),
            },
    {
        match v {
            0 => Ok(TickDirection::Plus),
            1 => Ok(TickDirection::ZeroPlus),
            2 => Ok(TickDirection::Minus),
            3 => Ok(TickDirection::ZeroMinus),
            _ => Err(ModelError::UnsupportedTickDirection(v)),
        }
    }
}

/// Reading back the code of a tick direction gives the same direction, and
/// exactly the codes 0 to 3 are read.
pub proof fn law_tick_roundtrip(t: TickDirection, v: u8)
    ensures
        tick_of(tick_code(t)) == Some(t),
        tick_of(v) is Some <==> v <= 3,
        tick_of(v) matches Some(u) ==> tick_code(u) == v,
{
}

// ------------------------------------------------------------ Interval

/// The interval at which a channel publishes.
#[derive(Debug, Clone, Copy, PartialEq, Eq, Structural)]
pub enum Interval {
    Raw,
    Ms100,
    Agg2,
}

impl Default for Interval {
    /// The default interval, 100 ms.
    fn default() -> (r: Interval)
        ensures
            r == Interval::Ms100,
    {
        Interval::Ms100
    }
}

/// The wire name of an interval.
pub open spec fn interval_name(i: Interval) -> Seq<char> {
    match i {
        Interval::Raw => "raw"@,
        Interval::Ms100 => "100ms"@,
        Interval::Agg2 => "agg2"@,
    }
}

/// The interval named `s`; an unknown name gives the default, 100 ms.
pub open spec fn interval_of(s: Seq<char>) -> Interval {
    if s == "raw"@ {
        Interval::Raw
    } else if s == "agg2"@ {
        Interval::Agg2
    } else {
        Interval::Ms100
    }
}

impl Interval {
    /// The wire name ("raw", "100ms", "agg2").
    pub fn to_string(&self) -> (r: String)
        ensures
            r@ == interval_name(*self),
    {
        let s = match self {
            Interval::Raw => "raw",
            Interval::Ms100 => "100ms",
            Interval::Agg2 => "agg2",
        };
        s.to_owned()
    }

    /// The interval named `s`; any other name gives 100 ms.
    pub fn parse(s: &str) -> (r: Interval)
        ensures
            r == interval_of(s@),
    {
        if is_name(s, "raw") {
            Interval::Raw
        } else if is_name(s, "agg2") {
            Interval::Agg2
        } else {
            Interval::Ms100
        }
    }
}

/// Reading back the wire name of an interval gives the same interval.
pub proof fn law_interval_roundtrip(i: Interval)
    ensures
        interval_of(interval_name(i)) == i,
{
    reveal_strlit("raw");
    reveal_strlit("100ms");
    reveal_strlit("agg2");
    assert("raw"@.len() == 3 && "100ms"@.len() == 5 && "agg2"@.len() == 4);
}

} // verus!

verus! {

// ------------------------------------------------------------ IndexName

/// What std's `str::to_uppercase` gives for a string (the Unicode upper-case
/// mapping, character by character, where one character may become several).
pub uninterp spec fn upper_case(s: Seq<char>) -> Seq<char>;

/// What std's `str::to_lowercase` gives for a string (the Unicode lower-case
/// mapping, with the final-sigma rule).
pub uninterp spec fn lower_case(s: Seq<char>) -> Seq<char>;

/// Calls std's `str::to_uppercase`; its result is named `upper_case`.
#[verifier::external_body]
pub(crate) fn to_upper(s: &str) -> (r: String)
    ensures
        r@ == upper_case(s@),
{
    s.to_uppercase()
}

/// Calls std's `str::to_lowercase`; its result is named `lower_case`.
#[verifier::external_body]
fn to_lower_str(s: &str) -> (r: String)
    ensures
        r@ == lower_case(s@),
{
    s.to_lowercase()
}

/// The name of a price index, such as `btc_usd`: a base and a quote currency.
#[derive(Debug, Clone)]
pub struct IndexName {
    base: String,
    quote: String,
}

/// `k` is the only position of an underscore in `s`.
pub open spec fn sole_underscore(s: Seq<char>, k: int) -> bool {
    &&& 0 <= k < s.len()
    &&& s[k] == '_'
    &&& forall|j: int| 0 <= j < s.len() && j != k ==> s[j] != '_'
}

/// The base and quote that a name reads as: the parts around its only
/// underscore, or two empty parts where it has no underscore or several.
pub open spec fn index_parts(s: Seq<char>) -> (Seq<char>, Seq<char>) {
    if exists|k: int| sole_underscore(s, k) {
        let k = choose|k: int| sole_underscore(s, k);
        (s.take(k), s.skip(k + 1))
    } else {
        (Seq::empty(), Seq::empty())
    }
}

/// The printed form of a base and a quote: `base_quote`, or nothing where
/// either is empty.
pub open spec fn index_text(base: Seq<char>, quote: Seq<char>) -> Seq<char> {
    if base.len() == 0 || quote.len() == 0 {
        Seq::empty()
    } else {
        base + seq!['_'] + quote
    }
}

impl IndexName {
    /// The base currency part.
    pub closed spec fn spec_base(&self) -> Seq<char> {
        self.base@
    }

    /// The quote currency part.
    pub closed spec fn spec_quote(&self) -> Seq<char> {
        self.quote@
    }

    /// The index name of `base` and `quote`, as given.
    pub fn new(base: String, quote: String) -> (r: IndexName)
        ensures
            r.spec_base() == base@,
            r.spec_quote() == quote@,
    {
        IndexName { quote, base }
    }

    /// The index name of `base` and `quote` in upper case.
    pub fn new_upper(base: String, quote: String) -> (r: IndexName)
        ensures
            r.spec_base() == upper_case(base@),
            r.spec_quote() == upper_case(quote@),
    {
        IndexName { quote: to_upper(quote.as_str()), base: to_upper(base.as_str()) }
    }

    /// The index name of `base` and `quote` in lower case.
    pub fn new_lower(base: String, quote: String) -> (r: IndexName)
        ensures
            r.spec_base() == lower_case(base@),
            r.spec_quote() == lower_case(quote@),
    {
        IndexName { quote: to_lower_str(quote.as_str()), base: to_lower_str(base.as_str()) }
    }

    /// This name in upper case.
    pub fn to_uppper(&self) -> (r: IndexName)
        ensures
            r.spec_base() == upper_case(self.spec_base()),
            r.spec_quote() == upper_case(self.spec_quote()),
    {
        IndexName::new_upper(self.base.clone(), self.quote.clone())
    }

    /// This name in lower case.
    pub fn to_lower(&self) -> (r: IndexName)
        ensures
            r.spec_base() == lower_case(self.spec_base()),
            r.spec_quote() == lower_case(self.spec_quote()),
    {
        IndexName::new_lower(self.base.clone(), self.quote.clone())
    }

    /// The printed form, `base_quote`; empty where either part is empty.
    pub fn to_string(&self) -> (r: String)
        ensures
            r@ == index_text(self.spec_base(), self.spec_quote()),
    {
        if self.quote.as_str().is_empty() || self.base.as_str().is_empty() {
            proof {
                assert(self.quote@.len() == 0 || self.base@.len() == 0);
            }
            String::new()
        } else {
            let mut r = self.base.clone();
            crate::text::push_char(&mut r, '_');
            crate::text::push_all(&mut r, self.quote.as_str());
            r
        }
    }

    /// The index name that `s` reads as: the parts around its only
    /// underscore; two empty parts where it has no underscore or several.
    pub fn parse(s: &str) -> (r: IndexName)
        ensures
            (r.spec_base(), r.spec_quote()) == index_parts(s@),
    {
        let cs = crate::text::chars_of(s);
        let mut first: usize = 0;
        let mut count: usize = 0;
        let mut i: usize = 0;
        while i < cs.len()
            invariant
                i <= cs@.len(),
                cs@ == s@,
                count <= 2,
                count == 0 ==> forall|j: int| 0 <= j < i ==> cs@[j] != '_',
                count >= 1 ==> first < i && cs@[first as int] == '_',
                count == 1 ==> forall|j: int| 0 <= j < i && j != first ==> cs@[j] != '_',
                count == 2 ==> exists|j: int| 0 <= j < i && j != first && cs@[j] == '_',
            decreases cs@.len() - i,
        {
            if cs[i] == '_' {
                if count == 0 {
                    first = i;
                    count = 1;
                } else if count == 1 {
                    count = 2;
                }
            }
            i = i + 1;
        }
        if count == 1 {
            proof {
                assert(sole_underscore(s@, first as int));
                let k = choose|k: int| sole_underscore(s@, k);
                assert(k == first);
            }
            let base = crate::text::string_from_range(cs.as_slice(), 0, first);
            let quote = crate::text::string_from_range(cs.as_slice(), first + 1, cs.len());
            proof {
                assert(cs@.subrange(0, first as int) =~= s@.take(first as int));
                assert(cs@.subrange(first + 1, cs@.len() as int) =~= s@.skip(first + 1));
            }
            IndexName::new(base, quote)
        } else {
            proof {
                assert forall|k: int| !sole_underscore(s@, k) by {
                    if count == 2 && sole_underscore(s@, k) {
                        let j = choose|j: int| 0 <= j < i && j != first && cs@[j] == '_';
                        assert(j == k);
                        assert(first as int == k);
                    }
                }
            }
            IndexName::new(String::new(), String::new())
        }
    }
}

/// A base and a quote that are both non-empty and free of underscores are
/// read back unchanged from their printed form.
pub proof fn law_index_name_roundtrip(base: Seq<char>, quote: Seq<char>)
    requires
        base.len() > 0,
        quote.len() > 0,
        !base.contains('_'),
        !quote.contains('_'),
    ensures
        index_parts(index_text(base, quote)) == (base, quote),
{
    let s = index_text(base, quote);
    let k = base.len() as int;
    assert(s[k] == '_');
    assert forall|j: int| 0 <= j < s.len() && j != k implies s[j] != '_' by {
        if j < k {
            assert(s[j] == base[j]);
        } else {
            assert(s[j] == quote[j - k - 1]);
        }
    }
    assert(sole_underscore(s, k));
    let c = choose|c: int| sole_underscore(s, c);
    assert(c == k);
    assert(s.take(k) =~= base);
    assert(s.skip(k + 1) =~= quote);
}

/// A name with one underscore and text on both sides of it prints back as
/// itself.
pub proof fn law_index_name_reprint(s: Seq<char>, k: int)
    requires
        sole_underscore(s, k),
        0 < k < s.len() - 1,
    ensures
        index_text(index_parts(s).0, index_parts(s).1) == s,
{
    let c = choose|c: int| sole_underscore(s, c);
    assert(c == k);
    assert(s.take(k) + seq!['_'] + s.skip(k + 1) =~= s);
}

} // verus!
