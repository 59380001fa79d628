//! The Deribit protocol layer: what to send in answer to notifications, the
//! JSON-RPC texts of the requests, how an incoming text is classified, and
//! the order of the calls that set a fresh connection up.
use vstd::prelude::*;
use crate::errors::DeribitError;
use crate::jsonrpc::{DefaultIDGenerator, IDGenerator};
use crate::request::Request;
use crate::text::{decimal, digits, push_all, push_char, push_decimal, push_digits, views};

verus! {

// ------------------------------------------------------------ JSON strings

/// A hexadecimal digit, in lower case (0 to 15).
pub open spec fn hex_digit(d: int) -> char {
    if d < 10 {
        (d + 48) as char
    } else {
        (d + 87) as char
    }
}

/// How one character is written inside a JSON string: `"` and `\` and the
/// control characters below U+0020 are escaped (the short forms `\b`, `\t`,
/// `\n`, `\f`, `\r` where they exist, else `\u00xx`); all else is kept.
pub open spec fn json_escape(c: char) -> Seq<char> {
    if c == '"' {
        seq!['\\', '"']
    } else if c == '\\' {
        seq!['\\', '\\']
    } else if c == '\u{8}' {
        seq!['\\', 'b']
    } else if c == '\t' {
        seq!['\\', 't']
    } else if c == '\n' {
        seq!['\\', 'n']
    } else if c == '\u{c}' {
        seq!['\\', 'f']
    } else if c == '\r' {
        seq!['\\', 'r']
    } else if (c as int) < 32 {
        seq!['\\', 'u', '0', '0', hex_digit((c as int) / 16), hex_digit((c as int) % 16)]
    } else {
        seq![c]
    }
}

/// The characters of `s`, each written as inside a JSON string.
pub open spec fn json_escaped(s: Seq<char>) -> Seq<char>
    decreases s.len(),
{
    if s.len() == 0 {
        Seq::empty()
    } else {
        json_escaped(s.drop_last()) + json_escape(s.last())
    }
}

/// The JSON string literal of `s`: its escaped characters in double quotes.
pub open spec fn json_quoted(s: Seq<char>) -> Seq<char> {
    seq!['"'] + json_escaped(s) + seq!['"']
}

/// Calls `serde_json::to_string` on a string slice. serde_json writes the
/// string in double quotes and escapes `"`, `\` and the control characters
/// below U+0020, as `json_quoted` states; writing into memory cannot fail.
#[verifier::external_body]
pub(crate) fn json_string(s: &str) -> (r: String)
    ensures
        r@ == json_quoted(s@),
{
    match serde_json::to_string(s) {
        Ok(t) => t,
        Err(_) => String::new(),
    }
}

// ------------------------------------------------------------ request texts

/// The JSON text of a list of strings: `["a","b"]`.
pub open spec fn json_string_list(v: Seq<Seq<char>>) -> Seq<char>
    decreases v.len(),
{
    seq!['['] + json_list_items(v) + seq![']']
}

/// The items of a JSON list of strings, with commas between.
pub open spec fn json_list_items(v: Seq<Seq<char>>) -> Seq<char>
    decreases v.len(),
{
    if v.len() == 0 {
        Seq::empty()
    } else if v.len() == 1 {
        json_quoted(v[0])
    } else {
        json_list_items(v.drop_last()) + seq![','] + json_quoted(v.last())
    }
}

proof fn lemma_join_push(parts: Seq<Seq<char>>, x: Seq<char>, c: char)
    requires
        parts.len() > 0,
    ensures
        crate::text::join(parts.push(x), c) == crate::text::join(parts, c) + seq![c] + x,
    decreases parts.len(),
{
    let p = parts.push(x);
    if parts.len() == 1 {
        assert(p.skip(1) =~= seq![x]);
        assert(crate::text::join(p.skip(1), c) == x);
    } else {
        lemma_join_push(parts.skip(1), x, c);
        assert(p.skip(1) =~= parts.skip(1).push(x));
        assert(crate::text::join(p, c) =~= crate::text::join(parts, c) + seq![c] + x);
    }
}

/// The JSON list of strings `v` is `[`, then each string of `v` in order
/// as a JSON string, with a comma between each two, then `]`: one quoted
/// item per string.
pub proof fn law_string_list_items(v: Seq<Seq<char>>)
    ensures
        json_string_list(v) == seq!['['] + crate::text::join(v.map_values(|s: Seq<char>| json_quoted(s)), ',')
            + seq![']'],
    decreases v.len(),
{
    lemma_list_items_join(v);
}

proof fn lemma_list_items_join(v: Seq<Seq<char>>)
    ensures
        json_list_items(v) == crate::text::join(v.map_values(|s: Seq<char>| json_quoted(s)), ','),
    decreases v.len(),
{
    let q = v.map_values(|s: Seq<char>| json_quoted(s));
    if v.len() == 1 {
        assert(q[0] == json_quoted(v[0]));
    } else if v.len() > 1 {
        let d = v.drop_last();
        lemma_list_items_join(d);
        let qd = d.map_values(|s: Seq<char>| json_quoted(s));
        assert(q =~= qd.push(json_quoted(v.last())));
        lemma_join_push(qd, json_quoted(v.last()), ',');
    }
}

/// The JSON list items of two runs of strings one after the other are the
/// items of the first, a comma, and the items of the second.
pub proof fn law_list_items_concat(a: Seq<Seq<char>>, b: Seq<Seq<char>>)
    requires
        a.len() > 0,
        b.len() > 0,
    ensures
        json_list_items(a + b) == json_list_items(a) + seq![','] + json_list_items(b),
    decreases b.len(),
{
    if b.len() == 1 {
        assert((a + b).drop_last() =~= a);
        assert((a + b).last() == b[0]);
    } else {
        let d = b.drop_last();
        law_list_items_concat(a, d);
        assert((a + b).drop_last() =~= a + d);
        assert((a + b).last() == b.last());
        assert(json_list_items(a + b) =~= json_list_items(a) + seq![','] + json_list_items(b));
    }
}

/// The JSON text of the strings `v`, as a list.
pub fn string_list_json(v: &[String]) -> (r: String)
    ensures
        r@ == json_string_list(views(v@)),
{
    let mut r = String::new();
    push_char(&mut r, '[');
    let mut i: usize = 0;
    while i < v.len()
        invariant
            i <= v@.len(),
            r@ == seq!['['] + json_list_items(views(v@.take(i as int))),
        decreases v@.len() - i,
    {
        if i > 0 {
            push_char(&mut r, ',');
        }
        let q = json_string(v[i].as_str());
        push_all(&mut r, q.as_str());
        proof {
            let before = views(v@.take(i as int));
            let after = views(v@.take(i + 1));
            assert(after.drop_last() =~= before);
            assert(after.last() == v@[i as int]@);
            if i == 0 {
                assert(before.len() == 0);
                assert(seq!['['] + json_list_items(before) =~= seq!['[']);
            }
            assert(r@ =~= seq!['['] + json_list_items(after));
        }
        i = i + 1;
    }
    push_char(&mut r, ']');
    assert(v@.take(i as int) =~= v@);
    assert(r@ =~= json_string_list(views(v@)));
    r
}

/// The parameters of a (un)subscription request: `{"channels":[...]}`.
pub open spec fn channels_params(channels: Seq<Seq<char>>) -> Seq<char> {
    "{\"channels\":"@ + json_string_list(channels) + seq!['}']
}

/// The parameters of a (un)subscription request to `channels`.
pub fn channels_params_json(channels: &[String]) -> (r: String)
    ensures
        r@ == channels_params(views(channels@)),
{
    let mut r = "{\"channels\":".to_owned();
    let list = string_list_json(channels);
    push_all(&mut r, list.as_str());
    push_char(&mut r, '}');
    r
}

/// The JSON-RPC text of a request: `{"jsonrpc":"2.0","id":..,"method":..}`
/// and, where the request sends them, its parameters; where an access token
/// is known it comes first, `{"access_token":..,"id":..,"jsonrpc":"2.0",
/// "method":..,"params":..}`.
pub open spec fn request_text(
    id: i64,
    method: Seq<char>,
    params: Option<Seq<char>>,
    token: Option<Seq<char>>,
) -> Seq<char> {
    match token {
        None => "{\"jsonrpc\":\"2.0\",\"id\":"@ + decimal(id as int) + ",\"method\":"@ + json_quoted(
            method,
        ) + match params {
            Some(p) => ",\"params\":"@ + p,
            None => Seq::empty(),
        } + seq!['}'],
        Some(t) => "{\"access_token\":"@ + json_quoted(t) + ",\"id\":"@ + decimal(id as int)
            + ",\"jsonrpc\":\"2.0\",\"method\":"@ + json_quoted(method) + match params {
            Some(p) => ",\"params\":"@ + p,
            None => Seq::empty(),
        } + seq!['}'],
    }
}

/// The JSON-RPC text of the request `method` with id `id`, the parameters
/// `params` (a JSON text) where the request sends them, and the access token
/// where one is known.
pub fn request_json(id: i64, method: &str, params: Option<&str>, token: Option<&str>) -> (r: String)
    ensures
        r@ == request_text(
            id,
            method@,
            match params {
                Some(p) => Some(p@),
                None => None,
            },
            match token {
                Some(t) => Some(t@),
                None => None,
            },
        ),
{
    let mut r: String;
    match token {
        None => {
            r = "{\"jsonrpc\":\"2.0\",\"id\":".to_owned();
            push_decimal(&mut r, id);
            push_all(&mut r, ",\"method\":");
            push_all(&mut r, json_string(method).as_str());
        },
        Some(t) => {
            r = "{\"access_token\":".to_owned();
            push_all(&mut r, json_string(t).as_str());
            push_all(&mut r, ",\"id\":");
            push_decimal(&mut r, id);
            push_all(&mut r, ",\"jsonrpc\":\"2.0\",\"method\":");
            push_all(&mut r, json_string(method).as_str());
        },
    }
    match params {
        Some(p) => {
            push_all(&mut r, ",\"params\":");
            push_all(&mut r, p);
        },
        None => {},
    }
    push_char(&mut r, '}');
    proof {
        match params {
            None => {
                assert(r@.drop_last() + Seq::<char>::empty() =~= r@.drop_last());
            },
            Some(_) => {},
        }
    }
    assert(r@ =~= request_text(
        id,
        method@,
        match params {
            Some(p) => Some(p@),
            None => None,
        },
        match token {
            Some(t) => Some(t@),
            None => None,
        },
    ));
    r
}

/// The JSON-RPC text of `req` with id `id`: its method, its parameters where
/// the request sends them, and the access token where one is known.
pub fn request_payload<R: Request>(id: i64, req: &R, token: Option<&str>) -> (r: String)
    ensures
        r@ == request_text(
            id,
            R::METHOD@,
            if R::HAS_PAYLOAD {
                Some(req.params_text())
            } else {
                None
            },
            match token {
                Some(t) => Some(t@),
                None => None,
            },
        ),
{
    if R::HAS_PAYLOAD {
        let p = req.params_json();
        request_json(id, R::METHOD, Some(p.as_str()), token)
    } else {
        request_json(id, R::METHOD, None, token)
    }
}

/// The `public/test` call sent in answer to a heartbeat:
/// `{"id":..,"jsonrpc":"2.0","method":"public/test","params":{}}`.
pub open spec fn test_request_text(id: i64) -> Seq<char> {
    "{\"id\":"@ + decimal(id as int) + ",\"jsonrpc\":\"2.0\",\"method\":\"public/test\",\"params\":{}}"@
}

/// The `public/test` call with id `id`.
pub fn test_request_json(id: i64) -> (r: String)
    ensures
        r@ == test_request_text(id),
{
    let mut r = "{\"id\":".to_owned();
    push_decimal(&mut r, id);
    push_all(&mut r, ",\"jsonrpc\":\"2.0\",\"method\":\"public/test\",\"params\":{}}");
    r
}

/// The `public/set_heartbeat` call of a fresh connection:
/// `{"id":..,"jsonrpc":"2.0","method":"public/set_heartbeat","params":{"interval":..}}`.
pub open spec fn set_heartbeat_text(id: i64, interval: u64) -> Seq<char> {
    "{\"id\":"@ + decimal(id as int)
        + ",\"jsonrpc\":\"2.0\",\"method\":\"public/set_heartbeat\",\"params\":{\"interval\":"@
        + digits(interval as nat) + "}}"@
}

/// The `public/set_heartbeat` call with id `id` and the heartbeat interval.
pub fn set_heartbeat_json(id: i64, interval: u64) -> (r: String)
    ensures
        r@ == set_heartbeat_text(id, interval),
{
    let mut r = "{\"id\":".to_owned();
    push_decimal(&mut r, id);
    push_all(&mut r, ",\"jsonrpc\":\"2.0\",\"method\":\"public/set_heartbeat\",\"params\":{\"interval\":");
    push_digits(&mut r, interval);
    push_all(&mut r, "}}");
    r
}

/// The credentials call of a fresh connection: the fields of a client
/// credentials request with the JSON-RPC version and id added, in key order:
/// `{"client_id":..,"client_secret":..,"grant_type":"client_credentials","id":..,"jsonrpc":"2.0"}`.
pub open spec fn setup_auth_text(id: i64, client_id: Seq<char>, client_secret: Seq<char>) -> Seq<char> {
    "{\"client_id\":"@ + json_quoted(client_id) + ",\"client_secret\":"@ + json_quoted(client_secret)
        + ",\"grant_type\":\"client_credentials\",\"id\":"@ + decimal(id as int)
        + ",\"jsonrpc\":\"2.0\"}"@
}

/// The credentials call with id `id`.
pub fn setup_auth_json(id: i64, client_id: &str, client_secret: &str) -> (r: String)
    ensures
        r@ == setup_auth_text(id, client_id@, client_secret@),
{
    let mut r = "{\"client_id\":".to_owned();
    push_all(&mut r, json_string(client_id).as_str());
    push_all(&mut r, ",\"client_secret\":");
    push_all(&mut r, json_string(client_secret).as_str());
    push_all(&mut r, ",\"grant_type\":\"client_credentials\",\"id\":");
    push_decimal(&mut r, id);
    push_all(&mut r, ",\"jsonrpc\":\"2.0\"}");
    r
}

} // verus!

verus! {

// ------------------------------------------------------------ incoming texts

/// What serde_json reads from a text as a JSON value, taken to two fields:
/// whether it has an `id` field and, where it has, that field as an `i64`
/// where it is an integer that fits in one; and the `method` field where it
/// is a string; nothing where the text is not JSON.
pub uninterp spec fn json_envelope(text: Seq<char>) -> Option<(Option<Option<i64>>, Option<Seq<char>>)>;

/// Calls `serde_json::from_str` to read `text` as a `serde_json::Value`, and
/// `Value::get` with `as_i64` and `as_str` to take its `id` and `method`
/// fields; the result is named `json_envelope`.
#[verifier::external_body]
fn read_envelope(text: &str) -> (r: Option<(Option<Option<i64>>, Option<String>)>)
    ensures
        r matches Some((id, m)) ==> json_envelope(text@) == Some((id, crate::request::opt_view(m))),
        r is None ==> json_envelope(text@) is None,
{
    match serde_json::from_str::<serde_json::Value>(text) {
        Ok(v) => Some((
            v.get("id").map(serde_json::Value::as_i64),
            v.get("method").and_then(serde_json::Value::as_str).map(str::to_owned),
        )),
        Err(_) => None,
    }
}

/// The integer id of a read envelope, where it has one.
pub open spec fn envelope_id(id: Option<Option<i64>>) -> Option<i64> {
    match id {
        Some(Some(i)) => Some(i),
        _ => None,
    }
}

/// What an incoming text is.
#[derive(Debug, Clone, PartialEq, Eq)]
pub enum Incoming {
    /// An answer to the request with this id.
    Response(i64),
    /// A notification with this method.
    Notification(String),
    /// JSON that is neither an answer nor a notification.
    Unrecognized,
    /// Not JSON.
    Unreadable,
}

/// The classification of a read envelope: a text with an integer id is a
/// response; else one with a string method is a notification.
pub open spec fn incoming_of(env: Option<(Option<Option<i64>>, Option<Seq<char>>)>, r: Incoming) -> bool {
    match env {
        None => r == Incoming::Unreadable,
        Some((id, m)) => match envelope_id(id) {
            Some(i) => r == Incoming::Response(i),
            None => match m {
                Some(m) => r matches Incoming::Notification(n) && n@ == m,
                None => r == Incoming::Unrecognized,
            },
        },
    }
}

/// The classification of the envelope `env` read from a text.
pub fn classify_envelope(env: Option<(Option<Option<i64>>, Option<String>)>) -> (r: Incoming)
    ensures
        incoming_of(
            match env {
                Some((id, m)) => Some((id, crate::request::opt_view(m))),
                None => None,
            },
            r,
        ),
{
    match env {
        None => Incoming::Unreadable,
        Some((Some(Some(id)), _)) => Incoming::Response(id),
        Some((_, Some(m))) => Incoming::Notification(m),
        Some((_, None)) => Incoming::Unrecognized,
    }
}

/// The classification of an incoming text: a response (it has an integer
/// `id`), a notification (it has a string `method`), other JSON, or not JSON.
pub fn classify_incoming(text: &str) -> (r: Incoming)
    ensures
        incoming_of(json_envelope(text@), r),
{
    let env = read_envelope(text);
    classify_envelope(env)
}

/// The classification of a read envelope by the single-connection client:
/// as `incoming_of`, except that a text with an `id` that is not an integer
/// is passed over (unrecognized) whatever its method.
pub open spec fn client_incoming_of(env: Option<(Option<Option<i64>>, Option<Seq<char>>)>, r: Incoming) -> bool {
    match env {
        Some((Some(None), _)) => r == Incoming::Unrecognized,
        _ => incoming_of(env, r),
    }
}

/// The classification of an incoming text by the single-connection client.
pub fn classify_client_incoming(text: &str) -> (r: Incoming)
    ensures
        client_incoming_of(json_envelope(text@), r),
{
    match read_envelope(text) {
        Some((Some(None), _)) => Incoming::Unrecognized,
        env => classify_envelope(env),
    }
}

/// What a text received while a call with a given id waits for its answer
/// is to that call.
#[derive(Debug, Clone, Copy, PartialEq, Eq, Structural)]
pub enum Awaited {
    /// The answer: the text's id is the call's.
    Answer,
    /// Something else (another id, or no integer id): it is passed over.
    Other,
    /// Not JSON: the call fails.
    Unreadable,
}

/// What `text` is to a call with id `id` that waits for its answer.
pub fn awaited(id: i64, text: &str) -> (r: Awaited)
    ensures
        r == match json_envelope(text@) {
            None => Awaited::Unreadable,
            Some((i, _)) => if envelope_id(i) == Some(id) {
                Awaited::Answer
            } else {
                Awaited::Other
            },
        },
{
    match read_envelope(text) {
        None => Awaited::Unreadable,
        Some((Some(Some(i)), _)) => if i == id {
            Awaited::Answer
        } else {
            Awaited::Other
        },
        Some((_, _)) => Awaited::Other,
    }
}

/// The integer `id` of a JSON-RPC text, where it has one.
pub fn payload_id(text: &str) -> (r: Option<i64>)
    ensures
        r == match json_envelope(text@) {
            Some((id, _)) => envelope_id(id),
            None => None,
        },
{
    match read_envelope(text) {
        Some((Some(Some(i)), _)) => Some(i),
        _ => None,
    }
}

// ------------------------------------------------------------ answers

/// What a call gives for an answer with the result `result` and the error
/// `error` (code and message), as read from its JSON: the server's error
/// where there is one; else the result; nothing where the answer has
/// neither.
pub fn reply_outcome<V>(result: Option<V>, error: Option<(i64, String)>) -> (r: Option<Result<V, DeribitError>>)
    ensures
        match error {
            Some((code, message)) => r matches Some(Err(DeribitError::RemoteError { code: c, message: m }))
                && c == code && m@ == message@,
            None => match result {
                Some(v) => r == Some(Ok::<V, DeribitError>(v)),
                None => r is None,
            },
        },
{
    match error {
        Some((code, message)) => Some(Err(DeribitError::RemoteError { code, message })),
        None => match result {
            Some(v) => Some(Ok(v)),
            None => None,
        },
    }
}

/// The token after the credentials call: the answer's where the call was
/// answered with a result, else the token as it was.
pub open spec fn token_after(current: Option<String>, answered: Option<Option<String>>) -> Option<String> {
    match answered {
        Some(t) => t,
        None => current,
    }
}

/// The access token after the credentials call of a setup: the token of the
/// answer where the call succeeded and its answer holds a result (`answered`
/// is `Some` of the result's token); else the token stays as it was.
pub fn token_after_auth(current: Option<String>, answered: Option<Option<String>>) -> (r: Option<String>)
    ensures
        r == token_after(current, answered),
{
    match answered {
        Some(t) => t,
        None => current,
    }
}

// ------------------------------------------------------------ notifications

/// What the connection loop is to send after a notification.
#[derive(Debug, Clone, PartialEq, Eq)]
pub enum OutgoingAction {
    /// Send this text.
    Send(String),
    /// Send this text and wait for the answer with this id, which is then
    /// taken in silently.
    ExpectResponse(String, i64),
}

/// The protocol side of a connection: its heartbeat interval and its
/// credentials.
#[derive(Debug, Clone)]
pub struct ProtocolHandler {
    pub heartbeat_interval: u64,
    pub conn_id: usize,
    pub client_id: Option<String>,
    pub client_secret: Option<String>,
}

/// A step of the setup of a fresh connection.
#[derive(Debug, Clone, Copy, PartialEq, Eq, Structural)]
pub enum SetupCall {
    /// Set the heartbeat; also proves that the connection answers.
    SetHeartbeat,
    /// Authenticate with the client credentials.
    Auth,
    /// Subscribe again to the batch with this index.
    Subscribe(usize),
}

/// Why the setup of a connection failed.
#[derive(Debug, Clone, Copy, PartialEq, Eq, Structural)]
pub enum SetupFailure {
    /// The heartbeat call failed.
    Heartbeat,
    /// A subscription batch failed.
    Resubscribe,
}

impl SetupFailure {
    /// The text of the failure.
    pub fn message(&self) -> (r: String)
        ensures
            r@ == match self {
                SetupFailure::Heartbeat => "heartbeat probe failed"@,
                SetupFailure::Resubscribe => "setup resubscribe failed"@,
            },
    {
        match self {
            SetupFailure::Heartbeat => "heartbeat probe failed".to_owned(),
            SetupFailure::Resubscribe => "setup resubscribe failed".to_owned(),
        }
    }
}

/// What comes after a setup step.
#[derive(Debug, Clone, Copy, PartialEq, Eq, Structural)]
pub enum SetupNext {
    /// Make this call next.
    Call(SetupCall),
    /// The setup is complete.
    Done,
    /// The setup failed.
    Failed(SetupFailure),
}

/// The step that starts on batch `i` of `n`: that batch, or done where no
/// batch is left.
pub open spec fn after_batches(i: int, n: int) -> SetupNext {
    if i < n {
        SetupNext::Call(SetupCall::Subscribe(i as usize))
    } else {
        SetupNext::Done
    }
}

/// The step that follows `call`, given whether it succeeded, whether the
/// connection has credentials, and how many subscription batches there are.
pub open spec fn setup_next(call: SetupCall, ok: bool, has_credentials: bool, n: int) -> SetupNext {
    match call {
        SetupCall::SetHeartbeat => if !ok {
            SetupNext::Failed(SetupFailure::Heartbeat)
        } else if has_credentials {
            SetupNext::Call(SetupCall::Auth)
        } else {
            after_batches(0, n)
        },
        SetupCall::Auth => after_batches(0, n),
        SetupCall::Subscribe(i) => if !ok {
            SetupNext::Failed(SetupFailure::Resubscribe)
        } else {
            after_batches(i + 1, n)
        },
    }
}

/// The calls of a setup in which every call succeeds: the heartbeat, the
/// credentials where there are some, and then each batch in order.
pub open spec fn planned_calls(has_credentials: bool, n: nat) -> Seq<SetupCall> {
    seq![SetupCall::SetHeartbeat] + (if has_credentials {
        seq![SetupCall::Auth]
    } else {
        Seq::empty()
    }) + Seq::new(n, |i: int| SetupCall::Subscribe(i as usize))
}

/// How long a setup call may wait for its answer, in seconds: a minute for
/// a subscription batch, ten seconds for the others.
pub open spec fn setup_timeout_of(call: SetupCall) -> u64 {
    if call is Subscribe {
        60u64
    } else {
        10u64
    }
}

impl ProtocolHandler {
    /// The protocol side of connection `conn_id`.
    pub fn new(
        heartbeat_interval: u64,
        conn_id: usize,
        client_id: Option<String>,
        client_secret: Option<String>,
    ) -> (r: ProtocolHandler)
        ensures
            r.heartbeat_interval == heartbeat_interval,
            r.conn_id == conn_id,
            r.client_id == client_id,
            r.client_secret == client_secret,
    {
        ProtocolHandler { heartbeat_interval, conn_id, client_id, client_secret }
    }

    /// Both a client id and a client secret are known.
    pub open spec fn spec_has_credentials(&self) -> bool {
        self.client_id is Some && self.client_secret is Some
    }

    /// Whether both a client id and a client secret are known.
    pub fn has_credentials(&self) -> (r: bool)
        ensures
            r == self.spec_has_credentials(),
    {
        self.client_id.is_some() && self.client_secret.is_some()
    }

    /// The actions in answer to a notification with `method`: a heartbeat is
    /// answered by a `public/test` call with the next id, whose answer is
    /// awaited; every other notification needs no answer.
    pub fn handle_notification(&self, method: &str, ids: &mut DefaultIDGenerator) -> (r: Vec<
        OutgoingAction,
    >)
        requires
            old(ids).can_advance(),
        ensures
            method@ == "heartbeat"@ ==> {
                &&& final(ids).spec_counter() == old(ids).spec_counter() + 1
                &&& r@.len() == 1
                &&& r@[0] matches OutgoingAction::ExpectResponse(p, id)
                    && id == final(ids).spec_counter() && p@ == test_request_text(id)
            },
            method@ != "heartbeat"@ ==> r@.len() == 0 && *final(ids) == *old(ids),
    {
        if crate::model::is_name(method, "heartbeat") {
            let id = ids.next_id();
            let payload = test_request_json(id);
            let mut v: Vec<OutgoingAction> = Vec::new();
            v.push(OutgoingAction::ExpectResponse(payload, id));
            v
        } else {
            Vec::new()
        }
    }

    /// The text to hand on to the subscribers after a notification with
    /// `method`: a subscription notification is handed on once, unchanged;
    /// any other is not handed on.
    pub fn forwarded(&self, method: &str, text: &str) -> (r: Option<String>)
        ensures
            r is Some <==> method@ == "subscription"@,
            r matches Some(t) ==> t@ == text@,
    {
        if crate::model::is_name(method, "subscription") {
            Some(text.to_owned())
        } else {
            None
        }
    }

    /// The first call of the setup: the heartbeat.
    pub fn setup_first(&self) -> (r: SetupCall)
        ensures
            r == SetupCall::SetHeartbeat,
    {
        SetupCall::SetHeartbeat
    }

    /// The step after `call`, which succeeded where `ok`, with `n` batches to
    /// subscribe to again. The heartbeat and each batch must succeed; the
    /// credentials call need not.
    pub fn setup_after(&self, call: SetupCall, ok: bool, n: usize) -> (r: SetupNext)
        requires
            call matches SetupCall::Subscribe(i) ==> i < n,
        ensures
            r == setup_next(call, ok, self.spec_has_credentials(), n as int),
    {
        match call {
            SetupCall::SetHeartbeat => {
                if !ok {
                    SetupNext::Failed(SetupFailure::Heartbeat)
                } else if self.has_credentials() {
                    SetupNext::Call(SetupCall::Auth)
                } else if 0 < n {
                    SetupNext::Call(SetupCall::Subscribe(0))
                } else {
                    SetupNext::Done
                }
            },
            SetupCall::Auth => {
                if 0 < n {
                    SetupNext::Call(SetupCall::Subscribe(0))
                } else {
                    SetupNext::Done
                }
            },
            SetupCall::Subscribe(i) => {
                if !ok {
                    SetupNext::Failed(SetupFailure::Resubscribe)
                } else if i + 1 < n {
                    SetupNext::Call(SetupCall::Subscribe(i + 1))
                } else {
                    SetupNext::Done
                }
            },
        }
    }

    /// How long a setup call may take, in seconds: 60 for a batch, else 10.
    pub fn setup_timeout_secs(&self, call: SetupCall) -> (r: u64)
        ensures
            r == setup_timeout_of(call),
    {
        match call {
            SetupCall::Subscribe(_) => 60,
            _ => 10,
        }
    }

    /// The text of a setup call, with the next id: the heartbeat with this
    /// connection's interval, the credentials, or a `public/subscribe` of a
    /// batch.
    pub fn setup_call_json(
        &self,
        call: SetupCall,
        batches: &[Vec<String>],
        ids: &mut DefaultIDGenerator,
    ) -> (r: String)
        requires
            old(ids).can_advance(),
            call is Auth ==> self.spec_has_credentials(),
            call matches SetupCall::Subscribe(i) ==> i < batches@.len(),
        ensures
            final(ids).spec_counter() == old(ids).spec_counter() + 1,
            r@ == match call {
                SetupCall::SetHeartbeat => set_heartbeat_text(
                    final(ids).spec_counter(),
                    self.heartbeat_interval,
                ),
                SetupCall::Auth => setup_auth_text(
                    final(ids).spec_counter(),
                    self.client_id->Some_0@,
                    self.client_secret->Some_0@,
                ),
                SetupCall::Subscribe(i) => request_text(
                    final(ids).spec_counter(),
                    "public/subscribe"@,
                    Some(channels_params(views(batches@[i as int]@))),
                    None,
                ),
            },
    {
        let id = ids.next_id();
        match call {
            SetupCall::SetHeartbeat => set_heartbeat_json(id, self.heartbeat_interval),
            SetupCall::Auth => {
                let cid = match &self.client_id {
                    Some(c) => c.as_str(),
                    None => "",
                };
                let secret = match &self.client_secret {
                    Some(c) => c.as_str(),
                    None => "",
                };
                setup_auth_json(id, cid, secret)
            },
            SetupCall::Subscribe(i) => {
                let params = channels_params_json(batches[i].as_slice());
                request_json(id, "public/subscribe", Some(params.as_str()), None)
            },
        }
    }
}

/// When every call succeeds, the setup makes exactly the planned calls, in
/// order, and then is done.
pub proof fn law_setup_follows_plan(has_credentials: bool, n: nat, k: int)
    requires
        0 <= k < planned_calls(has_credentials, n).len(),
        n <= usize::MAX,
    ensures
        setup_next(planned_calls(has_credentials, n)[k], true, has_credentials, n as int) == if k + 1
            < planned_calls(has_credentials, n).len() {
            SetupNext::Call(planned_calls(has_credentials, n)[k + 1])
        } else {
            SetupNext::Done
        },
{
    let p = planned_calls(has_credentials, n);
    let off: int = if has_credentials { 2 } else { 1 };
    assert(p.len() == off + n);
    if k >= off {
        assert(p[k] == SetupCall::Subscribe((k - off) as usize));
        if k + 1 < p.len() {
            assert(p[k + 1] == SetupCall::Subscribe((k + 1 - off) as usize));
        }
    } else if k == 0 {
        assert(p[0] == SetupCall::SetHeartbeat);
        if has_credentials {
            assert(p[1] == SetupCall::Auth);
        } else if n > 0 {
            assert(p[1] == SetupCall::Subscribe(0));
        }
    } else {
        assert(p[1] == SetupCall::Auth);
        if n > 0 {
            assert(p[2] == SetupCall::Subscribe(0));
        }
    }
}

/// A failed heartbeat or a failed batch ends the setup in failure; a failed
/// credentials call changes nothing of what follows.
pub proof fn law_setup_failures(has_credentials: bool, n: nat, i: usize)
    requires
        i < n,
    ensures
        setup_next(SetupCall::SetHeartbeat, false, has_credentials, n as int) == SetupNext::Failed(
            SetupFailure::Heartbeat,
        ),
        setup_next(SetupCall::Subscribe(i), false, has_credentials, n as int) == SetupNext::Failed(
            SetupFailure::Resubscribe,
        ),
        setup_next(SetupCall::Auth, false, has_credentials, n as int) == setup_next(
            SetupCall::Auth,
            true,
            has_credentials,
            n as int,
        ),
{
}

/// A setup in which the heartbeat and every subscription batch succeed, the
/// batches being the followed channels cut into pieces of at most 250: it
/// makes the heartbeat call (10 s), then the credentials call (10 s) where
/// there are credentials, whatever its outcome, then one call per batch
/// (60 s each) in order, and is done; the batches hold every followed
/// channel once, in order. The token changes only with an answered
/// credentials call, to that answer's token.
pub proof fn law_setup_run(
    has_credentials: bool,
    channels: Seq<Seq<char>>,
    batches: Seq<Seq<Seq<char>>>,
    auth_ok: bool,
    token: Option<String>,
)
    requires
        crate::connection::flatten(batches) == channels,
        crate::connection::chunked(batches, crate::connection::SUBSCRIBE_BATCH_SIZE as int),
        batches.len() <= usize::MAX,
    ensures
        ({
            let n = batches.len();
            let p = planned_calls(has_credentials, n);
            let off: int = if has_credentials { 2 } else { 1 };
            &&& p.len() == off + n
            &&& p[0] == SetupCall::SetHeartbeat && setup_timeout_of(p[0]) == 10
            &&& has_credentials ==> p[1] == SetupCall::Auth && setup_timeout_of(p[1]) == 10
                && setup_next(SetupCall::Auth, auth_ok, has_credentials, n as int) == setup_next(
                SetupCall::Auth,
                true,
                has_credentials,
                n as int,
            )
            &&& forall|i: int| 0 <= i < n ==> #[trigger] p[off + i] == SetupCall::Subscribe(i as usize)
                && setup_timeout_of(p[off + i]) == 60 && 0 < batches[i].len() <= 250
            &&& forall|k: int| 0 <= k < p.len() ==> setup_next(#[trigger] p[k], true, has_credentials, n as int)
                == if k + 1 < p.len() {
                SetupNext::Call(p[k + 1])
            } else {
                SetupNext::Done
            }
            &&& crate::connection::flatten(batches) == channels
            &&& token_after(token, None) == token
            &&& forall|t: Option<String>| #[trigger] token_after(token, Some(t)) == t
        }),
{
    let n = batches.len();
    let p = planned_calls(has_credentials, n);
    let off: int = if has_credentials { 2 } else { 1 };
    assert(p.len() == off + n);
    assert(p[0] == SetupCall::SetHeartbeat);
    if has_credentials {
        assert(p[1] == SetupCall::Auth);
    }
    assert forall|i: int| 0 <= i < n implies #[trigger] p[off + i] == SetupCall::Subscribe(i as usize)
        && setup_timeout_of(p[off + i]) == 60 && 0 < batches[i].len() <= 250 by {
        assert(p[off + i] == SetupCall::Subscribe(i as usize));
    }
    assert forall|k: int| 0 <= k < p.len() implies setup_next(#[trigger] p[k], true, has_credentials, n as int)
        == if k + 1 < p.len() {
        SetupNext::Call(p[k + 1])
    } else {
        SetupNext::Done
    } by {
        law_setup_follows_plan(has_credentials, n, k);
    }
}

} // verus!
