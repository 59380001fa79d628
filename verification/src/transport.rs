//! The websocket side of a connection: what to do with each incoming frame.
use vstd::prelude::*;
use vstd::utf8::{decode_utf8, valid_utf8};
use crate::errors::TransportError;

verus! {

/// A websocket frame as it arrives.
#[derive(Debug)]
pub enum Frame {
    Text(String),
    Binary(Vec<u8>),
    Ping(Vec<u8>),
    Pong(Vec<u8>),
    Close,
}

/// What the transport does with a frame.
#[derive(Debug)]
pub enum FrameStep {
    /// Hand this text to the caller.
    Deliver(String),
    /// Answer with a pong carrying these bytes, and wait for the next frame.
    ReplyPong(Vec<u8>),
    /// The peer answered a ping: note that the connection is alive, and
    /// wait for the next frame.
    Alive,
    /// The peer closed the websocket; the caller gets no more text.
    Closed,
    /// Receiving failed.
    Failed(TransportError),
}

/// Calls std's `String::from_utf8`: the bytes as text where they are UTF-8
/// (as vstd's `valid_utf8` and `decode_utf8` state it), else the text of
/// the error, which describes why they are not. What that text says is not
/// stated.
#[verifier::external_body]
fn utf8_text(bytes: Vec<u8>) -> (r: Result<String, String>)
    ensures
        r is Ok <==> valid_utf8(bytes@),
        r matches Ok(s) ==> s@ == decode_utf8(bytes@),
{
    match String::from_utf8(bytes) {
        Ok(s) => Ok(s),
        Err(e) => Err(e.to_string()),
    }
}

/// What to do with `frame`: text is handed on; binary data is handed on as
/// text where it is UTF-8 and fails the receive where it is not; a ping is
/// answered with a pong of the same bytes; a pong shows the connection is
/// alive; a close frame ends the stream.
pub fn on_frame(frame: Frame) -> (r: FrameStep)
    ensures
        match frame {
            Frame::Text(t) => (r matches FrameStep::Deliver(d) && d@ == t@),
            Frame::Binary(b) => if valid_utf8(b@) {
                r matches FrameStep::Deliver(d) && d@ == decode_utf8(b@)
            } else {
                r matches FrameStep::Failed(TransportError::RecvFailed(m)) && starts_with_invalid(m@)
            },
            Frame::Ping(p) => (r matches FrameStep::ReplyPong(q) && q@ == p@),
            Frame::Pong(_) => r is Alive,
            Frame::Close => r is Closed,
        },
{
    match frame {
        Frame::Text(t) => FrameStep::Deliver(t),
        Frame::Binary(b) => match utf8_text(b) {
            Ok(s) => FrameStep::Deliver(s),
            Err(e) => {
                let mut m = "invalid utf8: ".to_owned();
                crate::text::push_all(&mut m, e.as_str());
                assert(m@.take("invalid utf8: "@.len() as int) =~= "invalid utf8: "@);
                FrameStep::Failed(TransportError::RecvFailed(m))
            },
        },
        Frame::Ping(p) => FrameStep::ReplyPong(p),
        Frame::Pong(_) => FrameStep::Alive,
        Frame::Close => FrameStep::Closed,
    }
}

/// The message of a failed binary frame begins with "invalid utf8: ".
pub open spec fn starts_with_invalid(m: Seq<char>) -> bool {
    crate::text::starts_with(m, "invalid utf8: "@)
}

/// What a send or a receive gets when no websocket is open.
pub fn require_open(is_open: bool) -> (r: Result<(), TransportError>)
    ensures
        is_open ==> r is Ok,
        !is_open ==> r == Err::<(), TransportError>(TransportError::NotConnected),
{
    if is_open {
        Ok(())
    } else {
        Err(TransportError::NotConnected)
    }
}

/// What keeping a websocket alive asks for at a moment.
#[derive(Debug, Clone, Copy, PartialEq, Eq, Structural)]
pub enum Keepalive {
    /// Send a ping now.
    Ping,
    /// No pong came within the pong timeout: the connection is dead.
    Dead,
    /// Nothing to do yet.
    Wait,
}

/// How long ago `then` was at `now` (no time where `then` is later).
pub open spec fn since(now: u64, then: u64) -> int {
    if now >= then {
        now - then
    } else {
        0
    }
}

/// What keepalive asks for at `now`, with the last ping sent at `last_ping`
/// and the last pong (or the connect) at `last_pong`, all on one clock: the
/// connection is dead once the last pong is more than `pong_timeout` old;
/// else a ping is due once `ping_interval` has passed since the last one.
pub open spec fn keepalive_of(now: u64, last_ping: u64, last_pong: u64, ping_interval: u64, pong_timeout: u64) -> Keepalive {
    if since(now, last_pong) > pong_timeout {
        Keepalive::Dead
    } else if since(now, last_ping) >= ping_interval {
        Keepalive::Ping
    } else {
        Keepalive::Wait
    }
}

/// What keepalive asks for at `now`, as `keepalive_of` states.
pub fn keepalive(now: u64, last_ping: u64, last_pong: u64, ping_interval: u64, pong_timeout: u64) -> (r: Keepalive)
    ensures
        r == keepalive_of(now, last_ping, last_pong, ping_interval, pong_timeout),
{
    let pong_age: u64 = if now >= last_pong { now - last_pong } else { 0 };
    let ping_age: u64 = if now >= last_ping { now - last_ping } else { 0 };
    if pong_age > pong_timeout {
        Keepalive::Dead
    } else if ping_age >= ping_interval {
        Keepalive::Ping
    } else {
        Keepalive::Wait
    }
}

} // verus!
