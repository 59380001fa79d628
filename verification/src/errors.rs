//! The error values of the client library, with the text each one prints as.
use vstd::prelude::*;
use crate::text::{decimal, decimal_string, push_all, push_decimal};

verus! {

/// An error of a Deribit call.
#[derive(Debug, Clone, PartialEq, Eq)]
pub enum DeribitError {
    /// The server answered with a JSON-RPC error.
    RemoteError { code: i64, message: String },
    /// The background task that pulls messages has stopped.
    ServoExited,
    /// A currency name that is not known.
    UnknownCurrency(String),
    /// An asset kind that is not known.
    UnknownAssetKind(String),
    /// The websocket was disconnected.
    WebsocketDisconnected,
    /// No answer came in time.
    RequestTimeout,
}

impl DeribitError {
    /// The text of the error.
    pub open spec fn message_spec(&self) -> Seq<char> {
        match self {
            DeribitError::RemoteError { code, message } => "Deribit remote error {code: "@
                + decimal(*code as int) + ", message: "@ + message@ + "}"@,
            DeribitError::ServoExited => "The background servo pulling message exited"@,
            DeribitError::UnknownCurrency(c) => "Unknown currency "@ + c@,
            DeribitError::UnknownAssetKind(k) => "Unknown asset kind "@ + k@,
            DeribitError::WebsocketDisconnected => "Websocket disconnected"@,
            DeribitError::RequestTimeout => "Request timed out"@,
        }
    }

    /// The text of the error, as it is printed.
    pub fn message(&self) -> (r: String)
        ensures
            r@ == self.message_spec(),
    {
        match self {
            DeribitError::RemoteError { code, message } => {
                let mut r = "Deribit remote error {code: ".to_owned();
                push_decimal(&mut r, *code);
                push_all(&mut r, ", message: ");
                push_all(&mut r, message.as_str());
                push_all(&mut r, "}");
                r
            },
            DeribitError::ServoExited => "The background servo pulling message exited".to_owned(),
            DeribitError::UnknownCurrency(c) => {
                let mut r = "Unknown currency ".to_owned();
                push_all(&mut r, c.as_str());
                r
            },
            DeribitError::UnknownAssetKind(k) => {
                let mut r = "Unknown asset kind ".to_owned();
                push_all(&mut r, k.as_str());
                r
            },
            DeribitError::WebsocketDisconnected => "Websocket disconnected".to_owned(),
            DeribitError::RequestTimeout => "Request timed out".to_owned(),
        }
    }
}

/// An error of the websocket transport.
#[derive(Debug, Clone, PartialEq, Eq)]
pub enum TransportError {
    /// The connection could not be made; the cause as text.
    ConnectFailed(String),
    /// A message could not be sent; the cause as text.
    SendFailed(String),
    /// A message could not be received; the cause as text.
    RecvFailed(String),
    /// The peer closed the websocket.
    Closed { code: Option<u16>, reason: String },
    /// No websocket is open.
    NotConnected,
}

/// The debug form of an optional close code: `Some(1000)` or `None`.
pub open spec fn code_text(code: Option<u16>) -> Seq<char> {
    match code {
        Some(c) => "Some("@ + decimal(c as int) + ")"@,
        None => "None"@,
    }
}

impl TransportError {
    /// The text of the error.
    pub open spec fn message_spec(&self) -> Seq<char> {
        match self {
            TransportError::ConnectFailed(e) => "connection failed: "@ + e@,
            TransportError::SendFailed(e) => "send failed: "@ + e@,
            TransportError::RecvFailed(e) => "receive failed: "@ + e@,
            TransportError::Closed { code, reason } => "websocket closed: code="@ + code_text(*code)
                + " reason="@ + reason@,
            TransportError::NotConnected => "transport not connected"@,
        }
    }

    /// The text of the error, as it is printed.
    pub fn message(&self) -> (r: String)
        ensures
            r@ == self.message_spec(),
    {
        match self {
            TransportError::ConnectFailed(e) => {
                let mut r = "connection failed: ".to_owned();
                push_all(&mut r, e.as_str());
                r
            },
            TransportError::SendFailed(e) => {
                let mut r = "send failed: ".to_owned();
                push_all(&mut r, e.as_str());
                r
            },
            TransportError::RecvFailed(e) => {
                let mut r = "receive failed: ".to_owned();
                push_all(&mut r, e.as_str());
                r
            },
            TransportError::Closed { code, reason } => {
                let mut r = "websocket closed: code=".to_owned();
                match code {
                    Some(c) => {
                        push_all(&mut r, "Some(");
                        push_all(&mut r, decimal_string(*c as i64).as_str());
                        push_all(&mut r, ")");
                    },
                    None => {
                        push_all(&mut r, "None");
                    },
                }
                push_all(&mut r, " reason=");
                push_all(&mut r, reason.as_str());
                r
            },
            TransportError::NotConnected => "transport not connected".to_owned(),
        }
    }

}

} // verus!
