//! JSON-RPC framing: versions, notification kinds and request ids.
use vstd::prelude::*;

verus! {

/// The JSON-RPC version; Deribit speaks "2.0".
#[derive(Debug, Clone, Copy, PartialEq, Eq, Structural)]
pub enum JSONRPCVersion {
    V2,
}

impl JSONRPCVersion {
    /// The wire form, "2.0".
    pub fn to_string(&self) -> (r: String)
        ensures
            r@ == "2.0"@,
    {
        "2.0".to_owned()
    }
}

/// The method of a notification that the server pushes.
#[derive(Debug, Clone, Copy, PartialEq, Eq, Structural)]
pub enum JSONRPCSubscriptionMethod {
    Subscription,
    Heartbeat,
}

/// The wire name of a notification method.
pub open spec fn subscription_method_name(m: JSONRPCSubscriptionMethod) -> Seq<char> {
    match m {
        JSONRPCSubscriptionMethod::Subscription => "subscription"@,
        JSONRPCSubscriptionMethod::Heartbeat => "heartbeat"@,
    }
}

/// The notification method named `s`, if any.
pub open spec fn subscription_method_of(s: Seq<char>) -> Option<JSONRPCSubscriptionMethod> {
    if s == "subscription"@ {
        Some(JSONRPCSubscriptionMethod::Subscription)
    } else if s == "heartbeat"@ {
        Some(JSONRPCSubscriptionMethod::Heartbeat)
    } else {
        None
    }
}

impl JSONRPCSubscriptionMethod {
    /// The wire name ("subscription", "heartbeat").
    pub fn to_string(&self) -> (r: String)
        ensures
            r@ == subscription_method_name(*self),
    {
        let s = match self {
            JSONRPCSubscriptionMethod::Subscription => "subscription",
            JSONRPCSubscriptionMethod::Heartbeat => "heartbeat",
        };
        s.to_owned()
    }

    /// The notification method named `s`, if any.
    pub fn parse(s: &str) -> (r: Option<JSONRPCSubscriptionMethod>)
        ensures
            r == subscription_method_of(s@),
    {
        if crate::model::is_name(s, "subscription") {
            Some(JSONRPCSubscriptionMethod::Subscription)
        } else if crate::model::is_name(s, "heartbeat") {
            Some(JSONRPCSubscriptionMethod::Heartbeat)
        } else {
            None
        }
    }
}

/// The kind of a heartbeat notification.
#[derive(Debug, Clone, Copy, PartialEq, Eq, Structural)]
pub enum HeartbeatType {
    /// A plain heartbeat.
    Heartbeat,
    /// A heartbeat that asks for a `public/test` call in answer.
    TestRequest,
}

/// The wire name of a heartbeat kind.
pub open spec fn heartbeat_type_name(t: HeartbeatType) -> Seq<char> {
    match t {
        HeartbeatType::Heartbeat => "heartbeat"@,
        HeartbeatType::TestRequest => "test_request"@,
    }
}

impl HeartbeatType {
    /// The wire name ("heartbeat", "test_request").
    pub fn to_string(&self) -> (r: String)
        ensures
            r@ == heartbeat_type_name(*self),
    {
        let s = match self {
            HeartbeatType::Heartbeat => "heartbeat",
            HeartbeatType::TestRequest => "test_request",
        };
        s.to_owned()
    }

    /// The heartbeat kind named `s`, if any.
    pub fn parse(s: &str) -> (r: Option<HeartbeatType>)
        ensures
            r is Some <==> (s@ == "heartbeat"@ || s@ == "test_request"@),
            r matches Some(t) ==> heartbeat_type_name(t) == s@,
    {
        if crate::model::is_name(s, "heartbeat") {
            Some(HeartbeatType::Heartbeat)
        } else if crate::model::is_name(s, "test_request") {
            Some(HeartbeatType::TestRequest)
        } else {
            None
        }
    }
}

/// The parameters of a heartbeat notification (its `type` field).
#[derive(Debug, Clone, Copy, PartialEq, Eq, Structural)]
pub struct HeartbeatParam {
    pub kind: HeartbeatType,
}

/// The parameters of a subscription notification: its channel and data.
#[derive(Debug, Clone)]
pub struct JSONRPCSubscriptionParam<C, D> {
    pub channel: C,
    pub data: D,
}

/// A source of request ids.
pub trait IDGenerator {
    /// Whether another id can be handed out.
    spec fn can_advance(&self) -> bool;

    /// The next id.
    fn next_id(&mut self) -> (r: i64)
        requires
            old(self).can_advance(),
    ;
}

/// Hands out the ids that follow a counter: each id is one more than the last.
#[derive(Debug)]
pub struct DefaultIDGenerator {
    counter: i64,
}

impl DefaultIDGenerator {
    /// The last id handed out (or the starting value).
    pub closed spec fn spec_counter(&self) -> i64 {
        self.counter
    }

    /// The last id handed out (or the starting value).
    pub fn last_id(&self) -> (r: i64)
        ensures
            r == self.spec_counter(),
    {
        self.counter
    }

    /// A generator whose first id is `initial_value + 1`.
    pub fn new(initial_value: i64) -> (r: DefaultIDGenerator)
        ensures
            r.spec_counter() == initial_value,
    {
        DefaultIDGenerator { counter: initial_value }
    }
}

impl IDGenerator for DefaultIDGenerator {
    open spec fn can_advance(&self) -> bool {
        self.spec_counter() < i64::MAX
    }

    /// One more than the last id.
    fn next_id(&mut self) -> (r: i64)
        ensures
            r == old(self).spec_counter() + 1,
            final(self).spec_counter() == r,
    {
        self.counter = self.counter + 1;
        self.counter
    }
}

/// A generator in the state a process starts with: its first id is 1.
/// Each call gives a new generator at 0. A process that wants one sequence
/// of ids shares a single generator itself (the runtime keeps one behind a
/// lock and passes it by `&mut`); the library holds no global state.
pub fn initial_id_generator() -> (r: DefaultIDGenerator)
    ensures
        r.spec_counter() == 0,
{
    DefaultIDGenerator::new(0)
}

} // verus!
