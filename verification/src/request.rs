//! The requests of the Deribit JSON-RPC API and their answers.
use vstd::prelude::*;
use crate::model::{currency_name, instrument_kind_name, Currency, InstrumentKind};
use crate::protocol::{channels_params, channels_params_json, json_quoted, json_string};
use crate::text::{digits, push_all, push_digits, views};

verus! {

/// A request of the API: the method it calls and whether it sends parameters.
pub trait Request {
    /// The JSON-RPC method name.
    const METHOD: &'static str;
    /// Whether the request sends its parameters.
    const HAS_PAYLOAD: bool;

    /// The JSON text of the parameters.
    spec fn params_text(&self) -> Seq<char>;

    /// The parameters as JSON text, fields that are not set left out.
    fn params_json(&self) -> (r: String)
        ensures
            r@ == self.params_text(),
    ;

    /// Whether the parameters are left out of the request.
    fn no_payload(&self) -> (r: bool)
        ensures
            r == !Self::HAS_PAYLOAD,
    {
        !Self::HAS_PAYLOAD
    }
}

// ------------------------------------------------------------ authentication

/// How a client authenticates.
#[derive(Debug, Clone, Copy, PartialEq, Eq, Structural)]
pub enum GrantType {
    ClientCredentials,
    ClientSignature,
    RefreshToken,
}

impl Default for GrantType {
    /// Client credentials.
    fn default() -> (r: GrantType)
        ensures
            r == GrantType::ClientCredentials,
    {
        GrantType::ClientCredentials
    }
}

/// The wire name of a grant type.
pub open spec fn grant_type_name(g: GrantType) -> Seq<char> {
    match g {
        GrantType::ClientCredentials => "client_credentials"@,
        GrantType::ClientSignature => "client_signature"@,
        GrantType::RefreshToken => "refresh_token"@,
    }
}

impl GrantType {
    /// The wire name ("client_credentials", "client_signature", "refresh_token").
    pub fn to_string(&self) -> (r: String)
        ensures
            r@ == grant_type_name(*self),
    {
        let s = match self {
            GrantType::ClientCredentials => "client_credentials",
            GrantType::ClientSignature => "client_signature",
            GrantType::RefreshToken => "refresh_token",
        };
        s.to_owned()
    }

    /// A credential request with `id` and `secret`, for the client
    /// credentials grant only.
    pub fn credential_auth_req(self, id: &str, secret: &str) -> (r: Option<AuthRequest>)
        ensures
            self == GrantType::ClientCredentials ==> (r matches Some(a) && a.is_credential_auth(
                id@,
                secret@,
            )),
            self != GrantType::ClientCredentials ==> r is None,
    {
        match self {
            GrantType::ClientCredentials => Some(AuthRequest::credential_auth(id, secret)),
            _ => None,
        }
    }

    /// A refresh request with `token`, for the refresh token grant only.
    pub fn refresh_token_auth_req(self, token: &str) -> (r: Option<AuthRequest>)
        ensures
            self == GrantType::RefreshToken ==> (r matches Some(a) && a.is_refresh_token_auth(
                token@,
            )),
            self != GrantType::RefreshToken ==> r is None,
    {
        match self {
            GrantType::RefreshToken => Some(AuthRequest::refresh_token_auth(token)),
            _ => None,
        }
    }
}

/// The view of an optional string.
pub open spec fn opt_view(o: Option<String>) -> Option<Seq<char>> {
    match o {
        Some(s) => Some(s@),
        None => None,
    }
}

/// `,"key":` and the JSON string of `value` where `value` is set; nothing
/// where it is not.
pub open spec fn opt_field(key: Seq<char>, value: Option<Seq<char>>) -> Seq<char> {
    match value {
        Some(v) => ",\""@ + key + "\":"@ + json_quoted(v),
        None => Seq::empty(),
    }
}

/// Appends the field `key` with `value` where `value` is set.
fn push_opt_field(s: &mut String, key: &str, value: &Option<String>)
    ensures
        final(s)@ == old(s)@ + opt_field(key@, opt_view(*value)),
{
    match value {
        Some(v) => {
            push_all(s, ",\"");
            push_all(s, key);
            push_all(s, "\":");
            let q = json_string(v.as_str());
            push_all(s, q.as_str());
        },
        None => {},
    }
}

/// The JSON text of a boolean.
pub open spec fn bool_text(b: bool) -> Seq<char> {
    if b {
        "true"@
    } else {
        "false"@
    }
}

/// A `public/auth` request.
#[derive(Debug, Clone)]
pub struct AuthRequest {
    pub grant_type: GrantType,
    pub client_id: Option<String>,
    pub client_secret: Option<String>,
    pub refresh_token: Option<String>,
    pub timestamp: Option<String>,
    pub signature: Option<String>,
    pub nonce: Option<String>,
    pub data: Option<String>,
    pub state: Option<String>,
    pub scope: Option<String>,
}

impl Request for AuthRequest {
    const METHOD: &'static str = "public/auth";
    const HAS_PAYLOAD: bool = true;

    open spec fn params_text(&self) -> Seq<char> {
        "{\"grant_type\":\""@ + grant_type_name(self.grant_type) + "\""@
            + opt_field("client_id"@, opt_view(self.client_id))
            + opt_field("client_secret"@, opt_view(self.client_secret))
            + opt_field("refresh_token"@, opt_view(self.refresh_token))
            + opt_field("timestamp"@, opt_view(self.timestamp))
            + opt_field("signature"@, opt_view(self.signature))
            + opt_field("nonce"@, opt_view(self.nonce))
            + opt_field("data"@, opt_view(self.data))
            + opt_field("state"@, opt_view(self.state))
            + opt_field("scope"@, opt_view(self.scope))
            + "}"@
    }

    fn params_json(&self) -> (r: String) {
        let mut r = "{\"grant_type\":\"".to_owned();
        let g = self.grant_type.to_string();
        push_all(&mut r, g.as_str());
        push_all(&mut r, "\"");
        push_opt_field(&mut r, "client_id", &self.client_id);
        push_opt_field(&mut r, "client_secret", &self.client_secret);
        push_opt_field(&mut r, "refresh_token", &self.refresh_token);
        push_opt_field(&mut r, "timestamp", &self.timestamp);
        push_opt_field(&mut r, "signature", &self.signature);
        push_opt_field(&mut r, "nonce", &self.nonce);
        push_opt_field(&mut r, "data", &self.data);
        push_opt_field(&mut r, "state", &self.state);
        push_opt_field(&mut r, "scope", &self.scope);
        push_all(&mut r, "}");
        r
    }
}

impl AuthRequest {
    /// Only the fields `fields` names are set, each to the text given there.
    pub open spec fn only_fields(
        &self,
        client_id: Option<Seq<char>>,
        client_secret: Option<Seq<char>>,
        refresh_token: Option<Seq<char>>,
    ) -> bool {
        &&& opt_view(self.client_id) == client_id
        &&& opt_view(self.client_secret) == client_secret
        &&& opt_view(self.refresh_token) == refresh_token
        &&& self.timestamp is None
        &&& self.signature is None
        &&& self.nonce is None
        &&& self.data is None
        &&& self.state is None
        &&& self.scope is None
    }

    /// A client credentials request with `id` and `secret`, nothing else set.
    pub open spec fn is_credential_auth(&self, id: Seq<char>, secret: Seq<char>) -> bool {
        &&& self.grant_type == GrantType::ClientCredentials
        &&& self.only_fields(Some(id), Some(secret), None)
    }

    /// A refresh token request with `token`, nothing else set.
    pub open spec fn is_refresh_token_auth(&self, token: Seq<char>) -> bool {
        &&& self.grant_type == GrantType::RefreshToken
        &&& self.only_fields(None, None, Some(token))
    }

    /// A client credentials request with `id` and `secret`.
    pub fn credential_auth(id: &str, secret: &str) -> (r: AuthRequest)
        ensures
            r.is_credential_auth(id@, secret@),
    {
        AuthRequest {
            grant_type: GrantType::ClientCredentials,
            client_id: Some(id.to_owned()),
            client_secret: Some(secret.to_owned()),
            refresh_token: None,
            timestamp: None,
            signature: None,
            nonce: None,
            data: None,
            state: None,
            scope: None,
        }
    }

    /// A refresh token request with `refresh_token`.
    pub fn refresh_token_auth(refresh_token: &str) -> (r: AuthRequest)
        ensures
            r.is_refresh_token_auth(refresh_token@),
    {
        AuthRequest {
            grant_type: GrantType::RefreshToken,
            client_id: None,
            client_secret: None,
            refresh_token: Some(refresh_token.to_owned()),
            timestamp: None,
            signature: None,
            nonce: None,
            data: None,
            state: None,
            scope: None,
        }
    }
}

/// The answer to a `public/auth` request.
#[derive(Debug, Clone)]
pub struct AuthResponse {
    pub access_token: Option<String>,
    expires_in: i64,
    refresh_token: String,
    scope: String,
    state: Option<String>,
    token_type: String,
}

impl AuthResponse {
    /// The answer with these fields.
    pub fn new(
        access_token: Option<String>,
        expires_in: i64,
        refresh_token: String,
        scope: String,
        state: Option<String>,
        token_type: String,
    ) -> (r: AuthResponse)
        ensures
            opt_view(r.spec_access_token()) == opt_view(access_token),
            r.spec_expires_in() == expires_in,
            r.spec_refresh_token() == refresh_token@,
            r.spec_scope() == scope@,
            opt_view(r.spec_state()) == opt_view(state),
            r.spec_token_type() == token_type@,
    {
        AuthResponse { access_token, expires_in, refresh_token, scope, state, token_type }
    }

    pub closed spec fn spec_access_token(&self) -> Option<String> {
        self.access_token
    }

    pub closed spec fn spec_expires_in(&self) -> i64 {
        self.expires_in
    }

    pub closed spec fn spec_refresh_token(&self) -> Seq<char> {
        self.refresh_token@
    }

    pub closed spec fn spec_scope(&self) -> Seq<char> {
        self.scope@
    }

    pub closed spec fn spec_state(&self) -> Option<String> {
        self.state
    }

    pub closed spec fn spec_token_type(&self) -> Seq<char> {
        self.token_type@
    }
}

// ------------------------------------------------------------ market data

/// A `public/get_order_book` request.
#[derive(Debug, Clone)]
pub struct GetOrderBookRequest {
    instrument_name: String,
    depth: Option<u64>,
}

impl Request for GetOrderBookRequest {
    const METHOD: &'static str = "public/get_order_book";
    const HAS_PAYLOAD: bool = false;

    open spec fn params_text(&self) -> Seq<char> {
        "{\"instrument_name\":"@ + json_quoted(self.spec_instrument_name()) + match self.spec_depth() {
            Some(d) => ",\"depth\":"@ + digits(d as nat),
            None => Seq::empty(),
        } + "}"@
    }

    fn params_json(&self) -> (r: String) {
        let mut r = "{\"instrument_name\":".to_owned();
        let q = json_string(self.instrument_name.as_str());
        push_all(&mut r, q.as_str());
        match self.depth {
            Some(d) => {
                push_all(&mut r, ",\"depth\":");
                push_digits(&mut r, d);
            },
            None => {},
        }
        push_all(&mut r, "}");
        r
    }
}

impl GetOrderBookRequest {
    pub closed spec fn spec_instrument_name(&self) -> Seq<char> {
        self.instrument_name@
    }

    pub closed spec fn spec_depth(&self) -> Option<u64> {
        self.depth
    }

    /// The order book of `instrument_name`, at the default depth.
    pub fn new(instrument_name: &str) -> (r: GetOrderBookRequest)
        ensures
            r.spec_instrument_name() == instrument_name@,
            r.spec_depth() is None,
    {
        GetOrderBookRequest { instrument_name: instrument_name.to_owned(), depth: None }
    }

    /// The order book of `instrument_name`, `depth` levels deep.
    pub fn with_depth(instrument_name: &str, depth: u64) -> (r: GetOrderBookRequest)
        ensures
            r.spec_instrument_name() == instrument_name@,
            r.spec_depth() == Some(depth),
    {
        GetOrderBookRequest { instrument_name: instrument_name.to_owned(), depth: Some(depth) }
    }
}

/// The answer to a `public/get_order_book` request.
#[derive(Debug)]
pub struct GetOrderBookResponse(Vec<()>);

/// A `public/get_instruments` request.
#[derive(Debug, Clone)]
pub struct GetInstrumentsRequest {
    pub currency: Currency,
    pub kind: Option<InstrumentKind>,
    pub expired: Option<bool>,
}

impl Request for GetInstrumentsRequest {
    const METHOD: &'static str = "public/get_instruments";
    const HAS_PAYLOAD: bool = true;

    open spec fn params_text(&self) -> Seq<char> {
        "{\"currency\":\""@ + currency_name(self.currency) + "\""@ + match self.kind {
            Some(k) => ",\"kind\":\""@ + instrument_kind_name(k) + "\""@,
            None => Seq::empty(),
        } + match self.expired {
            Some(b) => ",\"expired\":"@ + bool_text(b),
            None => Seq::empty(),
        } + "}"@
    }

    fn params_json(&self) -> (r: String) {
        let mut r = "{\"currency\":\"".to_owned();
        let c = self.currency.to_string();
        push_all(&mut r, c.as_str());
        push_all(&mut r, "\"");
        match self.kind {
            Some(k) => {
                push_all(&mut r, ",\"kind\":\"");
                let n = k.to_string();
                push_all(&mut r, n.as_str());
                push_all(&mut r, "\"");
            },
            None => {},
        }
        match self.expired {
            Some(b) => {
                push_all(&mut r, ",\"expired\":");
                if b {
                    push_all(&mut r, "true");
                } else {
                    push_all(&mut r, "false");
                }
            },
            None => {},
        }
        push_all(&mut r, "}");
        r
    }
}

impl GetInstrumentsRequest {
    /// The options of `currency` that have not expired.
    pub fn options(currency: Currency) -> (r: GetInstrumentsRequest)
        ensures
            r.currency == currency,
            r.kind == Some(InstrumentKind::Option),
            r.expired == Some(false),
    {
        GetInstrumentsRequest {
            currency,
            kind: Some(InstrumentKind::Option),
            expired: Some(false),
        }
    }
}

// ------------------------------------------------------------ session management

/// A `public/set_heartbeat` request.
#[derive(Debug, Clone)]
pub struct SetHeartbeatRequest {
    pub interval: u64,
}

impl Request for SetHeartbeatRequest {
    const METHOD: &'static str = "public/set_heartbeat";
    const HAS_PAYLOAD: bool = true;

    open spec fn params_text(&self) -> Seq<char> {
        "{\"interval\":"@ + digits(self.interval as nat) + "}"@
    }

    fn params_json(&self) -> (r: String) {
        let mut r = "{\"interval\":".to_owned();
        push_digits(&mut r, self.interval);
        push_all(&mut r, "}");
        r
    }
}

impl SetHeartbeatRequest {
    /// Heartbeats every `interval` seconds.
    pub fn with_interval(interval: u64) -> (r: SetHeartbeatRequest)
        ensures
            r.interval == interval,
    {
        SetHeartbeatRequest { interval }
    }
}

/// The answer to a `public/set_heartbeat` request.
#[derive(Debug, Clone, Copy, PartialEq, Eq, Structural)]
pub enum SetHeartbeatResponse {
    /// The wire value "ok".
    OK,
}

// ------------------------------------------------------------ subscriptions

/// A `public/subscribe` request.
#[derive(Debug, Clone)]
pub struct PublicSubscribeRequest {
    pub channels: Vec<String>,
}

impl Request for PublicSubscribeRequest {
    const METHOD: &'static str = "public/subscribe";
    const HAS_PAYLOAD: bool = true;

    open spec fn params_text(&self) -> Seq<char> {
        channels_params(views(self.channels@))
    }

    fn params_json(&self) -> (r: String) {
        channels_params_json(self.channels.as_slice())
    }
}

impl PublicSubscribeRequest {
    /// A subscription to `channels`.
    pub fn new(channels: Vec<String>) -> (r: PublicSubscribeRequest)
        ensures
            r.channels@ == channels@,
    {
        PublicSubscribeRequest { channels }
    }
}

/// A `private/subscribe` request.
#[derive(Debug, Clone)]
pub struct PrivateSubscribeRequest {
    pub channels: Vec<String>,
}

impl Request for PrivateSubscribeRequest {
    const METHOD: &'static str = "private/subscribe";
    const HAS_PAYLOAD: bool = true;

    open spec fn params_text(&self) -> Seq<char> {
        channels_params(views(self.channels@))
    }

    fn params_json(&self) -> (r: String) {
        channels_params_json(self.channels.as_slice())
    }
}

impl PrivateSubscribeRequest {
    /// A subscription to `channels`.
    pub fn new(channels: Vec<String>) -> (r: PrivateSubscribeRequest)
        ensures
            r.channels@ == channels@,
    {
        PrivateSubscribeRequest { channels }
    }
}

/// The channels a subscription was made to.
#[derive(Debug, Clone)]
pub struct SubscribeResponse(pub Vec<String>);

/// A `public/unsubscribe` request.
#[derive(Debug, Clone)]
pub struct PublicUnsubscribeRequest {
    pub channels: Vec<String>,
}

impl Request for PublicUnsubscribeRequest {
    const METHOD: &'static str = "public/unsubscribe";
    const HAS_PAYLOAD: bool = true;

    open spec fn params_text(&self) -> Seq<char> {
        channels_params(views(self.channels@))
    }

    fn params_json(&self) -> (r: String) {
        channels_params_json(self.channels.as_slice())
    }
}

impl PublicUnsubscribeRequest {
    /// An unsubscription from `channels`.
    pub fn new(channels: Vec<String>) -> (r: PublicUnsubscribeRequest)
        ensures
            r.channels@ == channels@,
    {
        PublicUnsubscribeRequest { channels }
    }
}

/// A `private/unsubscribe` request.
#[derive(Debug, Clone)]
pub struct PrivateUnsubscribeRequest {
    pub channels: Vec<String>,
}

impl Request for PrivateUnsubscribeRequest {
    const METHOD: &'static str = "private/unsubscribe";
    const HAS_PAYLOAD: bool = true;

    open spec fn params_text(&self) -> Seq<char> {
        channels_params(views(self.channels@))
    }

    fn params_json(&self) -> (r: String) {
        channels_params_json(self.channels.as_slice())
    }
}

impl PrivateUnsubscribeRequest {
    /// An unsubscription from `channels`.
    pub fn new(channels: Vec<String>) -> (r: PrivateUnsubscribeRequest)
        ensures
            r.channels@ == channels@,
    {
        PrivateUnsubscribeRequest { channels }
    }
}

/// The channels an unsubscription was made from.
#[derive(Debug, Clone)]
pub struct UnsubscribeResponse(pub Vec<String>);

// ------------------------------------------------------------ support

/// A `public/hello` request.
#[derive(Debug, Clone)]
pub struct HelloRequest {
    pub client_name: String,
    pub client_version: String,
}

impl Request for HelloRequest {
    const METHOD: &'static str = "public/hello";
    const HAS_PAYLOAD: bool = true;

    open spec fn params_text(&self) -> Seq<char> {
        "{\"client_name\":"@ + json_quoted(self.client_name@) + ",\"client_version\":"@ + json_quoted(
            self.client_version@,
        ) + "}"@
    }

    fn params_json(&self) -> (r: String) {
        let mut r = "{\"client_name\":".to_owned();
        let n = json_string(self.client_name.as_str());
        push_all(&mut r, n.as_str());
        push_all(&mut r, ",\"client_version\":");
        let v = json_string(self.client_version.as_str());
        push_all(&mut r, v.as_str());
        push_all(&mut r, "}");
        r
    }
}

/// The answer to a `public/hello` request.
#[derive(Debug, Clone)]
pub struct HelloResponse {
    pub version: String,
}

/// A `public/test` request.
#[derive(Debug, Clone)]
pub struct TestRequest {
    pub expected_result: Option<String>,
}

impl Request for TestRequest {
    const METHOD: &'static str = "public/test";
    const HAS_PAYLOAD: bool = true;

    open spec fn params_text(&self) -> Seq<char> {
        "{"@ + match self.expected_result {
            Some(e) => "\"expected_result\":"@ + json_quoted(e@),
            None => Seq::empty(),
        } + "}"@
    }

    fn params_json(&self) -> (r: String) {
        let mut r = "{".to_owned();
        match &self.expected_result {
            Some(e) => {
                push_all(&mut r, "\"expected_result\":");
                let q = json_string(e.as_str());
                push_all(&mut r, q.as_str());
            },
            None => {},
        }
        push_all(&mut r, "}");
        r
    }
}

impl TestRequest {
    /// A test request that asks for no particular result.
    pub fn new() -> (r: TestRequest)
        ensures
            r.expected_result is None,
    {
        TestRequest { expected_result: None }
    }

    /// A test request that asks the server to answer with `result`.
    pub fn expect(result: &str) -> (r: TestRequest)
        ensures
            opt_view(r.expected_result) == Some(result@),
    {
        TestRequest { expected_result: Some(result.to_owned()) }
    }
}

/// The answer to a `public/test` request.
#[derive(Debug, Clone)]
pub struct TestResponse {
    pub version: String,
}

} // verus!
