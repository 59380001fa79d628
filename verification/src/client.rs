//! The decisions of the single-connection client: its settings, the setup
//! requests it makes after connecting, and how each answer meets the
//! request that waits for it, whichever of the two arrives first.
use vstd::prelude::*;
use std::collections::HashMap;
use crate::connection::{registered, lemma_registered, MAX_WAITERS};
use crate::request::{AuthRequest, PrivateSubscribeRequest, PublicSubscribeRequest};
use crate::text::copy_all;

verus! {

broadcast use vstd::std_specs::hash::group_hash_axioms;

// ------------------------------------------------------------ settings

/// The heartbeat interval asked for, in seconds, where none is set.
pub const DEFAULT_HEARTBEAT_INTERVAL: u64 = 30;

/// How long a request waits for its answer, in seconds, where nothing else is set.
pub const DEFAULT_REQUEST_TIMEOUT: u64 = 60;

/// How many notifications wait for their reader before new ones are dropped.
pub const DEFAULT_SUBSCRIPTION_CHANNEL_CAPACITY: usize = 50000;

/// How many outgoing texts wait for the socket.
pub const DEFAULT_MESSAGE_CHANNEL_CAPACITY: usize = 1000;

/// How many requests wait to be registered for their answers.
pub const DEFAULT_RESPONSER_CHANNEL_CAPACITY: usize = 1000;

/// The settings of a client. The proxy, where there is one, is its URL.
#[derive(Debug, Clone)]
pub struct Config {
    pub url: String,
    pub proxy: Option<String>,
    pub heartbeat_interval: u64,
    pub request_timeout: u64,
    pub public_subscribe_channels: Vec<String>,
    pub private_subscribe_channels: Vec<String>,
    pub client_id: Option<String>,
    pub client_secret: Option<String>,
    pub subscription_channel_capacity: usize,
    pub message_channel_capacity: usize,
    pub responser_channel_capacity: usize,
}

impl Config {
    /// The settings for the endpoint `url`: no proxy, a 30 s heartbeat, a
    /// 60 s request timeout, no channels, no credentials, and channel
    /// capacities of 50000 notifications, 1000 outgoing texts and 1000
    /// waiting requests.
    pub fn with_url(url: String) -> (c: Config)
        ensures
            c.url@ == url@,
            c.proxy is None,
            c.heartbeat_interval == DEFAULT_HEARTBEAT_INTERVAL,
            c.request_timeout == DEFAULT_REQUEST_TIMEOUT,
            c.public_subscribe_channels@.len() == 0,
            c.private_subscribe_channels@.len() == 0,
            c.client_id is None,
            c.client_secret is None,
            c.subscription_channel_capacity == DEFAULT_SUBSCRIPTION_CHANNEL_CAPACITY,
            c.message_channel_capacity == DEFAULT_MESSAGE_CHANNEL_CAPACITY,
            c.responser_channel_capacity == DEFAULT_RESPONSER_CHANNEL_CAPACITY,
    {
        Config {
            url,
            proxy: None,
            heartbeat_interval: DEFAULT_HEARTBEAT_INTERVAL,
            request_timeout: DEFAULT_REQUEST_TIMEOUT,
            public_subscribe_channels: Vec::new(),
            private_subscribe_channels: Vec::new(),
            client_id: None,
            client_secret: None,
            subscription_channel_capacity: DEFAULT_SUBSCRIPTION_CHANNEL_CAPACITY,
            message_channel_capacity: DEFAULT_MESSAGE_CHANNEL_CAPACITY,
            responser_channel_capacity: DEFAULT_RESPONSER_CHANNEL_CAPACITY,
        }
    }

    /// The credentials request, where both the client id and the secret
    /// are set.
    pub fn auth_req(&self) -> (r: Option<AuthRequest>)
        ensures
            r is Some <==> (self.client_id is Some && self.client_secret is Some),
            r matches Some(a) ==> a.is_credential_auth(
                self.client_id->Some_0@,
                self.client_secret->Some_0@,
            ),
    {
        match (&self.client_id, &self.client_secret) {
            (Some(id), Some(secret)) => Some(AuthRequest::credential_auth(id.as_str(), secret.as_str())),
            _ => None,
        }
    }

    /// The subscription to the public channels, where there are any.
    pub fn public_sub_req(&self) -> (r: Option<PublicSubscribeRequest>)
        ensures
            r is None <==> self.public_subscribe_channels@.len() == 0,
            r matches Some(q) ==> q.channels@ == self.public_subscribe_channels@,
    {
        if self.public_subscribe_channels.len() == 0 {
            None
        } else {
            Some(PublicSubscribeRequest::new(copy_all(self.public_subscribe_channels.as_slice())))
        }
    }

    /// The subscription to the private channels, where there are any.
    pub fn private_sub_req(&self) -> (r: Option<PrivateSubscribeRequest>)
        ensures
            r is None <==> self.private_subscribe_channels@.len() == 0,
            r matches Some(q) ==> q.channels@ == self.private_subscribe_channels@,
    {
        if self.private_subscribe_channels.len() == 0 {
            None
        } else {
            Some(PrivateSubscribeRequest::new(copy_all(self.private_subscribe_channels.as_slice())))
        }
    }
}

// ------------------------------------------------------------ answers

/// What a request that starts waiting for the answer with `id` meets: the
/// answer, where it came first and still waits; nothing otherwise.
pub open spec fn waiter_meets<W>(answers: Map<i64, String>, id: i64, waiter: W) -> Option<(W, String)> {
    if answers.contains_key(id) {
        Some((waiter, answers[id]))
    } else {
        None
    }
}

/// What an answer with `id` meets: the request that waits for it, where one
/// does; nothing otherwise.
pub open spec fn answer_meets<W>(waiters: Map<i64, W>, id: i64, text: String) -> Option<(W, String)> {
    if waiters.contains_key(id) {
        Some((waiters[id], text))
    } else {
        None
    }
}

/// Requests that wait for their answers and answers that came before their
/// request was registered, both by id. Each table forgets all it holds
/// before taking a new entry where it already holds 1000.
pub struct Rendezvous<W> {
    waiters: HashMap<i64, W>,
    answers: HashMap<i64, String>,
}

impl<W> Rendezvous<W> {
    /// The requests that wait.
    pub closed spec fn spec_waiters(&self) -> Map<i64, W> {
        self.waiters@
    }

    /// The answers that wait for their request.
    pub closed spec fn spec_answers(&self) -> Map<i64, String> {
        self.answers@
    }

    /// Neither table holds more than 1000 entries.
    pub open spec fn wf(&self) -> bool {
        &&& self.spec_waiters().len() <= MAX_WAITERS
        &&& self.spec_waiters().dom().finite()
        &&& self.spec_answers().len() <= MAX_WAITERS
        &&& self.spec_answers().dom().finite()
    }

    /// Nothing waits.
    pub fn new() -> (r: Rendezvous<W>)
        ensures
            r.wf(),
            r.spec_waiters() == Map::<i64, W>::empty(),
            r.spec_answers() == Map::<i64, String>::empty(),
    {
        Rendezvous { waiters: HashMap::new(), answers: HashMap::new() }
    }

    /// A request starts waiting for the answer with `id`: where that answer
    /// came already, the two are handed back and the answer no longer waits;
    /// else the request is registered.
    pub fn on_waiter(&mut self, id: i64, waiter: W) -> (r: Option<(W, String)>)
        requires
            old(self).wf(),
        ensures
            final(self).wf(),
            r == waiter_meets(old(self).spec_answers(), id, waiter),
            old(self).spec_answers().contains_key(id) ==> {
                &&& final(self).spec_answers() == old(self).spec_answers().remove(id)
                &&& final(self).spec_waiters() == old(self).spec_waiters()
            },
            !old(self).spec_answers().contains_key(id) ==> {
                &&& final(self).spec_answers() == old(self).spec_answers()
                &&& final(self).spec_waiters() == registered(old(self).spec_waiters(), id, waiter)
            },
    {
        match self.answers.remove(&id) {
            Some(text) => Some((waiter, text)),
            None => {
                proof {
                    assert(old(self).spec_answers().remove(id) =~= old(self).spec_answers());
                    lemma_registered(old(self).spec_waiters(), id, waiter);
                }
                if self.waiters.len() >= MAX_WAITERS {
                    self.waiters.clear();
                }
                self.waiters.insert(id, waiter);
                None
            },
        }
    }

    /// The answer with `id` comes: where a request waits for it, the two are
    /// handed back and the request no longer waits; else the answer waits.
    pub fn on_answer(&mut self, id: i64, text: String) -> (r: Option<(W, String)>)
        requires
            old(self).wf(),
        ensures
            final(self).wf(),
            r == answer_meets(old(self).spec_waiters(), id, text),
            old(self).spec_waiters().contains_key(id) ==> {
                &&& final(self).spec_waiters() == old(self).spec_waiters().remove(id)
                &&& final(self).spec_answers() == old(self).spec_answers()
            },
            !old(self).spec_waiters().contains_key(id) ==> {
                &&& final(self).spec_waiters() == old(self).spec_waiters()
                &&& final(self).spec_answers() == registered(old(self).spec_answers(), id, text)
            },
    {
        match self.waiters.remove(&id) {
            Some(waiter) => Some((waiter, text)),
            None => {
                proof {
                    assert(old(self).spec_waiters().remove(id) =~= old(self).spec_waiters());
                    lemma_registered(old(self).spec_answers(), id, text);
                }
                if self.answers.len() >= MAX_WAITERS {
                    self.answers.clear();
                }
                self.answers.insert(id, text);
                None
            },
        }
    }
}

/// A request and its answer meet whichever comes first: where a request
/// registers for `id` while no answer with `id` waits, the answer that comes
/// next is handed back with that request; where an answer with `id` comes
/// while no request waits for it, the request that registers next for `id`
/// is handed back with that answer.
pub proof fn law_request_meets_answer<W>(r: Rendezvous<W>, id: i64, waiter: W, text: String)
    requires
        r.wf(),
    ensures
        !r.spec_answers().contains_key(id) ==> answer_meets(
            registered(r.spec_waiters(), id, waiter),
            id,
            text,
        ) == Some((waiter, text)),
        !r.spec_waiters().contains_key(id) ==> waiter_meets(
            registered(r.spec_answers(), id, text),
            id,
            waiter,
        ) == Some((waiter, text)),
{
    lemma_registered(r.spec_waiters(), id, waiter);
    lemma_registered(r.spec_answers(), id, text);
}

} // verus!
