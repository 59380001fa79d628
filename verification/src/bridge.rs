//! The MQTT to HTTP bridge: its configuration, and the buffer of one bridge
//! that turns incoming messages into HTTP request bodies, one at a time or
//! in batches.
use vstd::prelude::*;
use std::collections::HashMap;
use crate::template::{Template, TemplateView, TemplateError, Vars, template_spec, render_spec, batch_spec, str_eq};
use crate::text::views;

verus! {

/// Where and how a bridge sends its requests.
pub struct HttpConfig {
    pub url: String,
    pub method: String,
    pub headers: HashMap<String, String>,
}

/// How a bridge groups messages.
pub struct BatchConfig {
    /// Messages per request; 1 sends each message on its own.
    pub size: u32,
    /// How long the first buffered message may wait before the buffer is sent.
    pub interval_ms: u64,
    pub max_inflight: u32,
    pub request_timeout_ms: u64,
}

/// One bridge from MQTT topics to an HTTP endpoint.
pub struct BridgeConfig {
    pub id: String,
    pub mqtt_topics: Vec<String>,
    pub http: HttpConfig,
    pub template: String,
    pub batch: BatchConfig,
    pub payload_parse: bool,
}

/// The bridges of a configuration file.
pub struct BridgesFile {
    pub bridges: Vec<BridgeConfig>,
}

/// The HTTP method used when a configuration names none.
pub fn default_http_method() -> (r: String)
    ensures
        r@ == "POST"@,
{
    "POST".to_owned()
}

/// The number of requests in flight allowed when a configuration names none.
pub fn default_max_inflight() -> (r: u32)
    ensures
        r == 4,
{
    4
}

/// The request timeout used when a configuration names none.
pub fn default_request_timeout_ms() -> (r: u64)
    ensures
        r == 10_000,
{
    10_000
}

/// The messages of [`BridgeConfig::validate`], in the order it checks.
pub open spec fn validation_errors(
    id_empty: bool,
    topics_empty: bool,
    url_empty: bool,
    template_empty: bool,
    size_zero: bool,
) -> Seq<Seq<char>> {
    (if id_empty { seq!["id must not be empty"@] } else { Seq::empty() })
    + (if topics_empty { seq!["mqtt_topics must not be empty"@] } else { Seq::empty() })
    + (if url_empty { seq!["http.url must not be empty"@] } else { Seq::empty() })
    + (if template_empty { seq!["template must not be empty"@] } else { Seq::empty() })
    + (if size_zero { seq!["batch.size must be >= 1"@] } else { Seq::empty() })
}

impl BridgeConfig {
    /// The error messages this configuration gets, in order.
    pub open spec fn errors_spec(&self) -> Seq<Seq<char>> {
        validation_errors(
            self.id@.len() == 0,
            self.mqtt_topics@.len() == 0,
            self.http.url@.len() == 0,
            self.template@.len() == 0,
            self.batch.size == 0,
        )
    }

    /// Batch mode: more than one message per request.
    pub fn is_batch_mode(&self) -> (r: bool)
        ensures
            r == (self.batch.size > 1),
    {
        self.batch.size > 1
    }

    /// Checks the fields that must be set. `Ok` when all are; otherwise every
    /// message that applies, in the order: id, topics, url, template, size.
    pub fn validate(&self) -> (r: Result<(), Vec<String>>)
        ensures
            r is Ok <==> self.errors_spec().len() == 0,
            r matches Err(es) ==> es@.map_values(|e: String| e@) == self.errors_spec(),
    {
        let mut errors: Vec<String> = Vec::new();
        let ghost mut expect: Seq<Seq<char>> = Seq::empty();
        if self.id.as_str().is_empty() {
            errors.push("id must not be empty".to_owned());
        }
        proof {
            expect = if self.id@.len() == 0 { seq!["id must not be empty"@] } else { Seq::empty() };
            assert(errors@.map_values(|e: String| e@) =~= expect);
        }
        if self.mqtt_topics.len() == 0 {
            errors.push("mqtt_topics must not be empty".to_owned());
        }
        proof {
            expect = expect + if self.mqtt_topics@.len() == 0 { seq!["mqtt_topics must not be empty"@] } else { Seq::empty() };
            assert(errors@.map_values(|e: String| e@) =~= expect);
        }
        if self.http.url.as_str().is_empty() {
            errors.push("http.url must not be empty".to_owned());
        }
        proof {
            expect = expect + if self.http.url@.len() == 0 { seq!["http.url must not be empty"@] } else { Seq::empty() };
            assert(errors@.map_values(|e: String| e@) =~= expect);
        }
        if self.template.as_str().is_empty() {
            errors.push("template must not be empty".to_owned());
        }
        proof {
            expect = expect + if self.template@.len() == 0 { seq!["template must not be empty"@] } else { Seq::empty() };
            assert(errors@.map_values(|e: String| e@) =~= expect);
        }
        if self.batch.size == 0 {
            errors.push("batch.size must be >= 1".to_owned());
        }
        proof {
            expect = expect + if self.batch.size == 0 { seq!["batch.size must be >= 1"@] } else { Seq::empty() };
            assert(errors@.map_values(|e: String| e@) =~= expect);
            assert(expect =~= self.errors_spec());
        }
        if errors.len() == 0 {
            Ok(())
        } else {
            Err(errors)
        }
    }
}

/// A request body ready to send, with where to send it.
pub struct BatchToSend {
    pub url: String,
    pub method: String,
    pub headers: HashMap<String, String>,
    pub body: String,
    pub message_count: usize,
}

/// One bridge at run time: its configuration, its parsed template and the
/// messages waiting for a batch. Times are nanoseconds on a clock the caller
/// keeps (they are only compared with one another).
pub struct BridgeHandle {
    config: BridgeConfig,
    template: Template,
    buffer: Vec<Vars>,
    first_item_at: Option<u64>,
}

impl BridgeHandle {
    pub closed spec fn spec_config(&self) -> BridgeConfig {
        self.config
    }

    pub closed spec fn template_view(&self) -> TemplateView {
        self.template.view()
    }

    /// The messages waiting, oldest first.
    pub closed spec fn buffered(&self) -> Seq<Vars> {
        self.buffer@
    }

    /// When the oldest waiting message arrived.
    pub closed spec fn first_at(&self) -> Option<u64> {
        self.first_item_at
    }

    /// Whether the oldest buffered message has waited longer than the batch
    /// interval at `now`; never where nothing is buffered.
    pub open spec fn timer_due(&self, now: u64) -> bool {
        self.buffered().len() > 0 && match self.first_at() {
            Some(first) => (if now >= first { now - first } else { 0 }) > self.spec_config().batch.interval_ms * 1_000_000,
            None => false,
        }
    }

    /// `b` is the batch of every buffered message, through the batch
    /// template, to the bridge's endpoint.
    pub open spec fn drains_to(&self, b: BatchToSend) -> bool {
        &&& b.body@ == batch_spec(self.template_view(), self.buffered())
        &&& b.message_count == self.buffered().len()
        &&& b.url == self.spec_config().http.url
        &&& b.method == self.spec_config().http.method
        &&& b.headers@ == self.spec_config().http.headers@
    }

    /// `after` is `before` with its buffer emptied.
    pub open spec fn emptied(before: BridgeHandle, after: BridgeHandle) -> bool {
        &&& after.wf()
        &&& after.buffered().len() == 0
        &&& after.spec_config() == before.spec_config()
        &&& after.template_view() == before.template_view()
    }

    pub closed spec fn wf(&self) -> bool {
        &&& template_spec(self.config.template@, self.config.batch.size > 1) == Ok::<TemplateView, TemplateError>(self.template.view())
        &&& (self.buffer@.len() == 0) == (self.first_item_at is None)
    }

    /// A handle for `config`, its template parsed for the mode that the batch
    /// size gives; the template's error when it does not parse.
    pub fn new(config: BridgeConfig) -> (r: Result<BridgeHandle, TemplateError>)
        ensures
            match (r, template_spec(config.template@, config.batch.size > 1)) {
                (Ok(h), Ok(v)) => h.wf() && h.template_view() == v && h.spec_config() == config
                    && h.buffered().len() == 0,
                (Err(e), Err(f)) => e == f,
                _ => false,
            },
    {
        let is_batch = config.is_batch_mode();
        match Template::parse(config.template.as_str(), is_batch) {
            Ok(template) => Ok(BridgeHandle { config, template, buffer: Vec::new(), first_item_at: None }),
            Err(e) => Err(e),
        }
    }

    pub fn config(&self) -> (r: &BridgeConfig)
        ensures
            *r == self.spec_config(),
    {
        &self.config
    }

    /// The topics the bridge listens to.
    pub fn topics(&self) -> (r: &[String])
        ensures
            r@ == self.spec_config().mqtt_topics@,
    {
        self.config.mqtt_topics.as_slice()
    }

    /// The messages waiting.
    pub fn buffer_len(&self) -> (r: usize)
        ensures
            r == self.buffered().len(),
    {
        self.buffer.len()
    }

    fn batch_for(&self, body: String, count: usize) -> (b: BatchToSend)
        ensures
            b.url == self.config.http.url,
            b.method == self.config.http.method,
            b.headers@ == self.config.http.headers@,
            b.body == body,
            b.message_count == count,
    {
        BatchToSend {
            url: self.config.http.url.clone(),
            method: self.config.http.method.clone(),
            headers: self.config.http.headers.clone(),
            body,
            message_count: count,
        }
    }

    /// Buffers `vars` (arrived at `now`). When the buffer then holds the batch
    /// size, returns all buffered messages as one batch and empties the
    /// buffer; otherwise returns `None`.
    pub fn push(&mut self, vars: Vars, now: u64) -> (r: Option<BatchToSend>)
        requires
            old(self).wf(),
        ensures
            final(self).wf(),
            final(self).spec_config() == old(self).spec_config(),
            final(self).template_view() == old(self).template_view(),
            ({
                let all = old(self).buffered().push(vars);
                if all.len() >= old(self).spec_config().batch.size {
                    &&& r matches Some(b)
                    &&& b.body@ == batch_spec(old(self).template_view(), all)
                    &&& b.message_count == all.len()
                    &&& b.url == old(self).spec_config().http.url
                    &&& b.method == old(self).spec_config().http.method
                    &&& b.headers@ == old(self).spec_config().http.headers@
                    &&& final(self).buffered().len() == 0
                } else {
                    &&& r is None
                    &&& final(self).buffered() == all
                    &&& final(self).first_at() == if old(self).buffered().len() == 0 {
                        Some(now)
                    } else {
                        old(self).first_at()
                    }
                }
            }),
    {
        if self.buffer.len() == 0 {
            self.first_item_at = Some(now);
        }
        self.buffer.push(vars);
        if self.buffer.len() >= self.config.batch.size as usize {
            self.drain()
        } else {
            None
        }
    }

    /// Whether the oldest buffered message has waited longer than the batch
    /// interval at `now` (never when the buffer is empty). A `now` before the
    /// arrival counts as no wait.
    pub fn should_flush_by_timer(&self, now: u64) -> (r: bool)
        requires
            self.wf(),
        ensures
            r == self.timer_due(now),
    {
        if self.buffer.len() == 0 {
            return false;
        }
        match self.first_item_at {
            Some(first) => {
                let waited: u64 = if now >= first { now - first } else { 0 };
                (waited as u128) > (self.config.batch.interval_ms as u128) * 1_000_000
            },
            None => false,
        }
    }

    /// All buffered messages as one batch through the batch template, the
    /// buffer emptied; `None` when nothing is buffered.
    pub fn drain(&mut self) -> (r: Option<BatchToSend>)
        requires
            old(self).wf(),
        ensures
            final(self).wf(),
            final(self).spec_config() == old(self).spec_config(),
            final(self).template_view() == old(self).template_view(),
            final(self).buffered().len() == 0,
            old(self).buffered().len() == 0 ==> r is None,
            old(self).buffered().len() > 0 ==> (r matches Some(b) && old(self).drains_to(b)),
    {
        if self.buffer.len() == 0 {
            return None;
        }
        let mut messages: Vec<Vars> = Vec::new();
        std::mem::swap(&mut messages, &mut self.buffer);
        self.first_item_at = None;
        let body = self.template.render_batch(messages.as_slice());
        let count = messages.len();
        Some(self.batch_for(body, count))
    }

    /// The request for one message in single mode, rendered at once.
    pub fn render_single(&self, vars: &Vars) -> (b: BatchToSend)
        ensures
            b.body@ == render_spec(self.template_view().before, *vars),
            b.message_count == 1,
            b.url == self.spec_config().http.url,
            b.method == self.spec_config().http.method,
            b.headers@ == self.spec_config().http.headers@,
    {
        let body = self.template.render_single(vars);
        self.batch_for(body, 1)
    }
}

/// The positions below `n` of the bridges that `f` picks, in order.
pub open spec fn positions_where(bridges: Seq<BridgeHandle>, f: spec_fn(BridgeHandle) -> bool, n: int) -> Seq<int>
    decreases n,
{
    if n <= 0 {
        Seq::empty()
    } else {
        let prev = positions_where(bridges, f, n - 1);
        if f(bridges[n - 1]) {
            prev.push(n - 1)
        } else {
            prev
        }
    }
}

/// `after` is `before` with the buffers of the bridges that `f` picks
/// emptied, and the others unchanged.
pub open spec fn flushed(before: Seq<BridgeHandle>, after: Seq<BridgeHandle>, f: spec_fn(BridgeHandle) -> bool) -> bool {
    &&& after.len() == before.len()
    &&& forall|j: int| 0 <= j < before.len() ==> if f(before[j]) {
        BridgeHandle::emptied(before[j], #[trigger] after[j])
    } else {
        after[j] == before[j]
    }
}

/// `r` holds, for each bridge below `n` that `f` picks in order, its id and
/// the batch of all it buffered.
pub open spec fn batches_upto(
    ids: Seq<Seq<char>>,
    bridges: Seq<BridgeHandle>,
    f: spec_fn(BridgeHandle) -> bool,
    r: Seq<(String, BatchToSend)>,
    n: int,
) -> bool {
    let d = positions_where(bridges, f, n);
    &&& r.len() == d.len()
    &&& forall|k: int| 0 <= k < d.len() ==> 0 <= #[trigger] d[k] < n && d[k] < bridges.len()
        && r[k].0@ == ids[d[k]] && bridges[d[k]].drains_to(r[k].1)
}

/// `r` holds, for each bridge that `f` picks in order, its id and the batch
/// of all it buffered.
pub open spec fn batches_of(
    ids: Seq<Seq<char>>,
    bridges: Seq<BridgeHandle>,
    f: spec_fn(BridgeHandle) -> bool,
    r: Seq<(String, BatchToSend)>,
) -> bool {
    batches_upto(ids, bridges, f, r, bridges.len() as int)
}

/// The topic index after bridge `id` subscribes to topic `t`: `id` is added
/// at the end of the first entry for `t`, or a new entry for `t` is added.
pub open spec fn index_add_one(
    index: Seq<(Seq<char>, Seq<Seq<char>>)>,
    t: Seq<char>,
    id: Seq<char>,
) -> Seq<(Seq<char>, Seq<Seq<char>>)> {
    if exists|i: int| 0 <= i < index.len() && index[i].0 == t {
        let i = choose|i: int| 0 <= i < index.len() && index[i].0 == t
            && forall|j: int| 0 <= j < i ==> index[j].0 != t;
        index.update(i, (t, index[i].1.push(id)))
    } else {
        index.push((t, seq![id]))
    }
}

/// The topic index after bridge `id` subscribes to `topics`, in order.
pub open spec fn index_add(
    index: Seq<(Seq<char>, Seq<Seq<char>>)>,
    topics: Seq<Seq<char>>,
    id: Seq<char>,
) -> Seq<(Seq<char>, Seq<Seq<char>>)>
    decreases topics.len(),
{
    if topics.len() == 0 {
        index
    } else {
        index_add_one(index_add(index, topics.drop_last(), id), topics.last(), id)
    }
}

/// `ids` without `id`, in order.
pub open spec fn ids_without(ids: Seq<Seq<char>>, id: Seq<char>) -> Seq<Seq<char>>
    decreases ids.len(),
{
    if ids.len() == 0 {
        ids
    } else {
        let prev = ids_without(ids.drop_last(), id);
        if ids.last() == id { prev } else { prev.push(ids.last()) }
    }
}

/// The topic index with `id` taken out of every entry and the entries left
/// empty dropped.
pub open spec fn index_remove(
    index: Seq<(Seq<char>, Seq<Seq<char>>)>,
    id: Seq<char>,
) -> Seq<(Seq<char>, Seq<Seq<char>>)>
    decreases index.len(),
{
    if index.len() == 0 {
        index
    } else {
        let prev = index_remove(index.drop_last(), id);
        let kept = ids_without(index.last().1, id);
        if kept.len() > 0 { prev.push((index.last().0, kept)) } else { prev }
    }
}

proof fn lemma_ids_without(ids: Seq<Seq<char>>, id: Seq<char>)
    ensures
        forall|x: Seq<char>| #[trigger] ids_without(ids, id).contains(x) <==> (ids.contains(x) && x != id),
    decreases ids.len(),
{
    if ids.len() > 0 {
        lemma_ids_without(ids.drop_last(), id);
        let prev = ids_without(ids.drop_last(), id);
        let r = ids_without(ids, id);
        assert forall|x: Seq<char>| #[trigger] r.contains(x) <==> (ids.contains(x) && x != id) by {
            if ids.contains(x) {
                let k = choose|k: int| 0 <= k < ids.len() && ids[k] == x;
                if k < ids.len() - 1 {
                    assert(ids.drop_last()[k] == x);
                }
            }
            if ids.drop_last().contains(x) {
                let k = choose|k: int| 0 <= k < ids.drop_last().len() && ids.drop_last()[k] == x;
                assert(ids[k] == x);
            }
            if prev.contains(x) {
                let k = choose|k: int| 0 <= k < prev.len() && prev[k] == x;
                assert(r[k] == x);
            }
            if r.contains(x) && !prev.contains(x) {
                let k = choose|k: int| 0 <= k < r.len() && r[k] == x;
                if k < prev.len() {
                    assert(prev[k] == x);
                }
            }
            if ids.contains(x) && x != id && !ids.drop_last().contains(x) {
                assert(r[r.len() - 1] == x);
            }
        }
    }
}

/// Once a bridge is removed, no topic of the index lists it, and no topic
/// is left with an empty list.
pub proof fn law_removed_bridge_leaves_index(index: Seq<(Seq<char>, Seq<Seq<char>>)>, id: Seq<char>)
    ensures
        forall|i: int| 0 <= i < index_remove(index, id).len() ==>
            !(#[trigger] index_remove(index, id)[i]).1.contains(id) && index_remove(index, id)[i].1.len() > 0,
    decreases index.len(),
{
    if index.len() > 0 {
        law_removed_bridge_leaves_index(index.drop_last(), id);
        lemma_ids_without(index.last().1, id);
        let prev = index_remove(index.drop_last(), id);
        let r = index_remove(index, id);
        assert forall|i: int| 0 <= i < r.len() implies
            !(#[trigger] r[i]).1.contains(id) && r[i].1.len() > 0 by {
            if i < prev.len() {
                assert(r[i] == prev[i]);
            }
        }
    }
}

/// The first position of `x` in `s`.
pub open spec fn first_index(s: Seq<Seq<char>>, x: Seq<char>) -> Option<int>
    decreases s.len(),
{
    if s.len() == 0 {
        None
    } else if s[0] == x {
        Some(0)
    } else {
        match first_index(s.drop_first(), x) {
            Some(i) => Some(i + 1),
            None => None,
        }
    }
}

pub proof fn lemma_first_index(s: Seq<Seq<char>>, x: Seq<char>)
    ensures
        first_index(s, x) matches Some(i) ==> 0 <= i < s.len() && s[i] == x
            && forall|j: int| 0 <= j < i ==> s[j] != x,
        first_index(s, x) is None ==> !s.contains(x),
    decreases s.len(),
{
    if s.len() > 0 {
        lemma_first_index(s.drop_first(), x);
        if s[0] != x {
            if s.contains(x) {
                let k = choose|k: int| 0 <= k < s.len() && s[k] == x;
                assert(s.drop_first()[k - 1] == x);
            }
            match first_index(s.drop_first(), x) {
                Some(i) => {
                    assert forall|j: int| 0 <= j < i + 1 implies s[j] != x by {
                        if j > 0 {
                            assert(s[j] == s.drop_first()[j - 1]);
                        }
                    }
                },
                None => {},
            }
        }
    }
}

/// The ids listed for `topic`: those of its first entry, or none.
pub open spec fn listeners(index: Seq<(Seq<char>, Seq<Seq<char>>)>, topic: Seq<char>) -> Seq<Seq<char>>
    decreases index.len(),
{
    if index.len() == 0 {
        Seq::empty()
    } else if index[0].0 == topic {
        index[0].1
    } else {
        listeners(index.drop_first(), topic)
    }
}

/// Why a registry refused a command.
#[derive(Debug, Clone, Copy, PartialEq, Eq, Structural)]
pub enum RegistryError {
    /// No bridge has the id.
    NotFound,
    /// A bridge with the id exists already.
    AlreadyExists,
    /// The bridge's template does not parse.
    Template(TemplateError),
}

/// Why a configuration was left out of a registry.
pub enum Rejection {
    /// It failed [`BridgeConfig::validate`], with these messages.
    Invalid(Vec<String>),
    /// Its template does not parse.
    Template(TemplateError),
}

/// `after` is `before` once a bridge for `config` was added with the
/// outcome `r`: where the template parses, the bridge is listed under each
/// of its topics and takes the place of a bridge with the same id, or comes
/// last; where it does not, nothing changed and the template's error came
/// back.
pub open spec fn added(before: BridgeRegistry, after: BridgeRegistry, config: BridgeConfig, r: Result<(), TemplateError>) -> bool {
    match template_spec(config.template@, config.batch.size > 1) {
        Ok(v) => r is Ok
            && after.index() == index_add(before.index(), views(config.mqtt_topics@), config.id@)
            && match first_index(before.ids(), config.id@) {
                Some(i) => after.ids() == before.ids()
                    && after.bridges().len() == before.bridges().len()
                    && (forall|j: int| 0 <= j < before.bridges().len() && j != i
                        ==> #[trigger] after.bridges()[j] == before.bridges()[j])
                    && after.bridges()[i].spec_config() == config
                    && after.bridges()[i].template_view() == v
                    && after.bridges()[i].buffered().len() == 0,
                None => after.ids() == before.ids().push(config.id@)
                    && after.bridges().drop_last() == before.bridges()
                    && after.bridges().last().spec_config() == config
                    && after.bridges().last().template_view() == v
                    && after.bridges().last().buffered().len() == 0,
            },
        Err(e) => r == Err::<(), TemplateError>(e) && after.ids() == before.ids()
            && after.bridges() == before.bridges()
            && after.index() == before.index(),
    }
}

/// `after` is `before` once bridge `id` (which it holds) was taken out: the
/// first bridge with the id is gone from the bridges and from every topic's
/// list, `topics` are its topics, and `batch` holds its buffered messages
/// where it had some.
pub open spec fn removed(
    before: BridgeRegistry,
    after: BridgeRegistry,
    id: Seq<char>,
    topics: Seq<String>,
    batch: Option<BatchToSend>,
) -> bool {
    exists|i: int|
        0 <= i < before.ids().len() && before.ids()[i] == id
        && (forall|j: int| 0 <= j < i ==> before.ids()[j] != id)
        && after.ids() == before.ids().remove(i)
        && after.bridges() == before.bridges().remove(i)
        && topics == before.bridges()[i].spec_config().mqtt_topics@
        && (before.bridges()[i].buffered().len() == 0 ==> batch is None)
        && (before.bridges()[i].buffered().len() > 0 ==> (batch matches Some(b)
            && before.bridges()[i].drains_to(b)))
        && after.index() == index_remove(before.index(), id)
}

/// A configuration that a registry takes: it validates and its template
/// parses.
pub open spec fn accepted(c: BridgeConfig) -> bool {
    c.errors_spec().len() == 0 && template_spec(c.template@, c.batch.size > 1) is Ok
}

/// The ids of the bridges that adding the accepted configurations of `cs`
/// in order gives: each id once, where it first came.
pub open spec fn kept_ids(cs: Seq<BridgeConfig>) -> Seq<Seq<char>>
    decreases cs.len(),
{
    if cs.len() == 0 {
        Seq::empty()
    } else {
        let prev = kept_ids(cs.drop_last());
        let c = cs.last();
        if accepted(c) && !prev.contains(c.id@) {
            prev.push(c.id@)
        } else {
            prev
        }
    }
}

/// The last accepted configuration of `cs` with id `id`.
pub open spec fn last_accepted(cs: Seq<BridgeConfig>, id: Seq<char>) -> Option<BridgeConfig>
    decreases cs.len(),
{
    if cs.len() == 0 {
        None
    } else if accepted(cs.last()) && cs.last().id@ == id {
        Some(cs.last())
    } else {
        last_accepted(cs.drop_last(), id)
    }
}

/// The configurations of `cs` that a registry does not take.
pub open spec fn rejected_configs(cs: Seq<BridgeConfig>) -> Seq<BridgeConfig> {
    cs.filter(|c: BridgeConfig| !accepted(c))
}

/// `id` and `r` say why `c` was not taken: its validation messages where it
/// does not validate, else its template's error.
pub open spec fn rejection_for(c: BridgeConfig, id: Seq<char>, r: Rejection) -> bool {
    &&& id == c.id@
    &&& if c.errors_spec().len() > 0 {
        r matches Rejection::Invalid(es) && es@.map_values(|e: String| e@) == c.errors_spec()
    } else {
        r matches Rejection::Template(e) && template_spec(c.template@, c.batch.size > 1) == Err::<
            TemplateView,
            TemplateError,
        >(e)
    }
}

proof fn lemma_kept_ids_distinct(cs: Seq<BridgeConfig>)
    ensures
        forall|a: int, b: int| 0 <= a < b < kept_ids(cs).len() ==> kept_ids(cs)[a] != kept_ids(cs)[b],
        forall|x: Seq<char>| kept_ids(cs).contains(x) ==> last_accepted(cs, x) is Some,
    decreases cs.len(),
{
    if cs.len() > 0 {
        lemma_kept_ids_distinct(cs.drop_last());
        let prev = kept_ids(cs.drop_last());
        assert forall|x: Seq<char>| kept_ids(cs).contains(x) implies last_accepted(cs, x) is Some by {
            if prev.contains(x) {
            } else {
                let c = cs.last();
                assert(kept_ids(cs) == prev.push(c.id@));
                let q = choose|q: int| 0 <= q < kept_ids(cs).len() && kept_ids(cs)[q] == x;
                if q < prev.len() {
                    assert(prev[q] == x);
                }
            }
        }
    }
}

/// The bridges of a bridge runner, by id, and for each MQTT topic the ids
/// of the bridges that listen to it.
pub struct BridgeRegistry {
    handles: Vec<(String, BridgeHandle)>,
    topic_index: Vec<(String, Vec<String>)>,
}

impl BridgeRegistry {
    /// The ids of the bridges, in the order they were added.
    pub closed spec fn ids(&self) -> Seq<Seq<char>> {
        self.handles@.map_values(|e: (String, BridgeHandle)| e.0@)
    }

    /// The bridges, in the order they were added.
    pub closed spec fn bridges(&self) -> Seq<BridgeHandle> {
        self.handles@.map_values(|e: (String, BridgeHandle)| e.1)
    }

    /// For each topic, the ids of the bridges listening to it.
    pub closed spec fn index(&self) -> Seq<(Seq<char>, Seq<Seq<char>>)> {
        self.topic_index@.map_values(|e: (String, Vec<String>)| (e.0@, views(e.1@)))
    }

    pub closed spec fn wf(&self) -> bool {
        forall|i: int| 0 <= i < self.handles@.len() ==> (#[trigger] self.handles@[i]).1.wf()
            && self.handles@[i].0@ == self.handles@[i].1.spec_config().id@
    }

    pub fn new() -> (r: BridgeRegistry)
        ensures
            r.wf(),
            r.ids().len() == 0,
            r.index().len() == 0,
    {
        let r = BridgeRegistry { handles: Vec::new(), topic_index: Vec::new() };
        r
    }

    /// The number of bridges.
    pub fn len(&self) -> (r: usize)
        ensures
            r == self.ids().len(),
    {
        self.handles.len()
    }

    /// The position of bridge `id`, if there is one.
    fn position(&self, id: &str) -> (r: Option<usize>)
        ensures
            r matches Some(i) ==> i < self.ids().len() && self.ids()[i as int] == id@
                && forall|j: int| 0 <= j < i ==> self.ids()[j] != id@,
            r is None ==> !self.ids().contains(id@),
    {
        let mut i: usize = 0;
        while i < self.handles.len()
            invariant
                i <= self.handles@.len(),
                forall|j: int| 0 <= j < i ==> self.ids()[j] != id@,
            decreases self.handles@.len() - i,
        {
            if str_eq(self.handles[i].0.as_str(), id) {
                return Some(i);
            }
            i = i + 1;
        }
        proof {
            if self.ids().contains(id@) {
                let k = choose|k: int| 0 <= k < self.ids().len() && self.ids()[k] == id@;
                assert(self.ids()[k] != id@);
            }
        }
        None
    }

    /// Whether a bridge has id `id`.
    pub fn contains(&self, id: &str) -> (r: bool)
        ensures
            r == self.ids().contains(id@),
    {
        self.position(id).is_some()
    }

    /// The configuration of bridge `id`.
    pub fn get(&self, id: &str) -> (r: Option<&BridgeConfig>)
        ensures
            r is None <==> !self.ids().contains(id@),
            r matches Some(c) ==> exists|i: int| 0 <= i < self.ids().len() && self.ids()[i] == id@
                && *c == self.bridges()[i].spec_config(),
    {
        match self.position(id) {
            Some(i) => Some(self.handles[i].1.config()),
            None => None,
        }
    }

    /// The configurations of all bridges, in the order they were added.
    pub fn configs(&self) -> (r: Vec<&BridgeConfig>)
        ensures
            r@.len() == self.bridges().len(),
            forall|i: int| 0 <= i < r@.len() ==> *(#[trigger] r@[i]) == self.bridges()[i].spec_config(),
    {
        let mut r: Vec<&BridgeConfig> = Vec::new();
        let mut i: usize = 0;
        while i < self.handles.len()
            invariant
                i <= self.handles@.len(),
                r@.len() == i,
                forall|j: int| 0 <= j < i ==> *(#[trigger] r@[j]) == self.bridges()[j].spec_config(),
            decreases self.handles@.len() - i,
        {
            r.push(self.handles[i].1.config());
            i = i + 1;
        }
        r
    }

    fn index_subscribe(&mut self, topic: &String, id: &String)
        ensures
            final(self).index() == index_add_one(old(self).index(), topic@, id@),
            final(self).handles == old(self).handles,
    {
        let ghost idx = self.index();
        let mut i: usize = 0;
        while i < self.topic_index.len()
            invariant
                i <= self.topic_index@.len(),
                self.index() == idx,
                idx == old(self).index(),
                self.handles == old(self).handles,
                forall|j: int| 0 <= j < i ==> idx[j].0 != topic@,
            decreases self.topic_index@.len() - i,
        {
            if self.topic_index[i].0 == *topic {
                let ghost e0 = self.topic_index@[i as int];
                self.topic_index[i].1.push(id.clone());
                proof {
                    let e1 = self.topic_index@[i as int];
                    assert(e1.1@ == e0.1@.push(*id));
                    assert(views(e1.1@) =~= views(e0.1@).push(id@));
                    assert(idx[i as int] == (e0.0@, views(e0.1@)));
                    assert(idx[i as int].0 == topic@);
                    let c = choose|c: int| 0 <= c < idx.len() && idx[c].0 == topic@
                        && forall|j: int| 0 <= j < c ==> idx[j].0 != topic@;
                    if c < i {
                        assert(idx[c].0 != topic@);
                    }
                    if c > i {
                        assert(idx[i as int].0 != topic@);
                    }
                    assert(self.index() =~= idx.update(i as int, (topic@, idx[i as int].1.push(id@))));
                }
                return;
            }
            i = i + 1;
        }
        let mut one: Vec<String> = Vec::new();
        one.push(id.clone());
        self.topic_index.push((topic.clone(), one));
        proof {
            assert(views(one@) =~= seq![id@]);
            assert(self.index() =~= idx.push((topic@, seq![id@])));
        }
    }

    /// Adds a bridge for `config` and lists it under each of its topics; a
    /// bridge with the same id is replaced (its topics stay listed). When the
    /// template does not parse, nothing changes and the template's error
    /// comes back.
    pub fn add(&mut self, config: BridgeConfig) -> (r: Result<(), TemplateError>)
        requires
            old(self).wf(),
        ensures
            final(self).wf(),
            added(*old(self), *final(self), config, r),
    {
        let id = config.id.clone();
        let topics = crate::text::copy_all(config.mqtt_topics.as_slice());
        let ghost cfg = config;
        match BridgeHandle::new(config) {
            Ok(handle) => {
                let ghost idx0 = self.index();
                let mut k: usize = 0;
                while k < topics.len()
                    invariant
                        k <= topics@.len(),
                        topics@ == cfg.mqtt_topics@,
                        id@ == cfg.id@,
                        self.handles == old(self).handles,
                        idx0 == old(self).index(),
                        self.index() == index_add(idx0, views(topics@).take(k as int), id@),
                    decreases topics@.len() - k,
                {
                    self.index_subscribe(&topics[k], &id);
                    proof {
                        assert(views(topics@).take(k + 1).drop_last() =~= views(topics@).take(k as int));
                    }
                    k = k + 1;
                }
                assert(views(topics@).take(topics@.len() as int) =~= views(topics@));
                let ghost hs0 = self.handles@;
                let pos = self.position(id.as_str());
                proof {
                    lemma_first_index(old(self).ids(), id@);
                }
                match pos {
                    Some(i) => {
                        self.handles.set(i, (id, handle));
                        proof {
                            assert(self.ids() =~= old(self).ids());
                            assert forall|j: int| 0 <= j < old(self).bridges().len() && j != i implies
                                #[trigger] self.bridges()[j] == old(self).bridges()[j] by {
                                assert(self.handles@[j] == hs0[j]);
                            }
                            assert forall|q: int| 0 <= q < self.handles@.len() implies (#[trigger] self.handles@[q]).1.wf()
                                && self.handles@[q].0@ == self.handles@[q].1.spec_config().id@ by {
                                if q != i {
                                    assert(self.handles@[q] == hs0[q]);
                                }
                            }
                        }
                    },
                    None => {
                        self.handles.push((id, handle));
                        proof {
                            assert(self.ids() =~= old(self).ids().push(cfg.id@));
                            assert(self.bridges().drop_last() =~= old(self).bridges());
                            assert forall|q: int| 0 <= q < self.handles@.len() implies (#[trigger] self.handles@[q]).1.wf()
                                && self.handles@[q].0@ == self.handles@[q].1.spec_config().id@ by {
                                if q < hs0.len() {
                                    assert(self.handles@[q] == hs0[q]);
                                }
                            }
                        }
                    },
                }
                Ok(())
            },
            Err(e) => Err(e),
        }
    }

    /// Takes bridge `id` out: returns its topics and its buffered messages as
    /// a last batch (if any), and removes it from every topic's list,
    /// dropping topics no bridge listens to any more. `NotFound` when no
    /// bridge has the id.
    pub fn remove(&mut self, id: &str) -> (r: Result<(Vec<String>, Option<BatchToSend>), RegistryError>)
        requires
            old(self).wf(),
        ensures
            final(self).wf(),
            !old(self).ids().contains(id@) ==> r == Err::<(Vec<String>, Option<BatchToSend>), RegistryError>(RegistryError::NotFound)
                && final(self).ids() == old(self).ids() && final(self).index() == old(self).index()
                && final(self).bridges() == old(self).bridges(),
            old(self).ids().contains(id@) ==> (r matches Ok((topics, batch)) && removed(
                *old(self),
                *final(self),
                id@,
                topics@,
                batch,
            )),
    {
        let i = match self.position(id) {
            Some(i) => i,
            None => {
                return Err(RegistryError::NotFound);
            },
        };
        let ghost hs0 = self.handles@;
        let (hid, mut handle) = self.handles.remove(i);
        proof {
            assert(self.ids() =~= old(self).ids().remove(i as int));
            assert(self.bridges() =~= old(self).bridges().remove(i as int));
            assert(handle == old(self).bridges()[i as int]);
            assert forall|q: int| 0 <= q < self.handles@.len() implies (#[trigger] self.handles@[q]).1.wf()
                && self.handles@[q].0@ == self.handles@[q].1.spec_config().id@ by {
                if q < i {
                    assert(self.handles@[q] == hs0[q]);
                } else {
                    assert(self.handles@[q] == hs0[q + 1]);
                }
            }
        }
        let topics = crate::text::copy_all(handle.topics());
        let drained = handle.drain();
        let ghost idx0 = self.index();
        let mut kept: Vec<(String, Vec<String>)> = Vec::new();
        let mut k: usize = 0;
        while k < self.topic_index.len()
            invariant
                k <= self.topic_index@.len(),
                self.index() == idx0,
                hid@ == id@,
                kept@.map_values(|e: (String, Vec<String>)| (e.0@, views(e.1@)))
                    == index_remove(idx0.take(k as int), id@),
            decreases self.topic_index@.len() - k,
        {
            let ids = &self.topic_index[k].1;
            let mut rest: Vec<String> = Vec::new();
            let mut q: usize = 0;
            while q < ids.len()
                invariant
                    q <= ids@.len(),
                    views(rest@) == ids_without(views(ids@).take(q as int), id@),
                decreases ids@.len() - q,
            {
                proof {
                    assert(views(ids@).take(q + 1).drop_last() =~= views(ids@).take(q as int));
                }
                if !str_eq(ids[q].as_str(), id) {
                    rest.push(ids[q].clone());
                    assert(views(rest@) =~= ids_without(views(ids@).take(q + 1), id@));
                }
                q = q + 1;
            }
            proof {
                assert(views(ids@).take(ids@.len() as int) =~= views(ids@));
                assert(idx0.take(k + 1).drop_last() =~= idx0.take(k as int));
                assert(idx0[k as int] == (self.topic_index@[k as int].0@, views(ids@)));
            }
            if rest.len() > 0 {
                let ghost kept0 = kept@;
                kept.push((self.topic_index[k].0.clone(), rest));
                assert(kept@.map_values(|e: (String, Vec<String>)| (e.0@, views(e.1@)))
                    =~= kept0.map_values(|e: (String, Vec<String>)| (e.0@, views(e.1@))).push((idx0[k as int].0, views(rest@))));
            }
            k = k + 1;
        }
        assert(idx0.take(idx0.len() as int) =~= idx0);
        self.topic_index = kept;
        Ok((topics, drained))
    }

    /// The ids of the bridges listening to `topic`, in the order they
    /// subscribed.
    pub fn handles_for_topic(&self, topic: &str) -> (r: Vec<String>)
        ensures
            views(r@) == listeners(self.index(), topic@),
    {
        let ghost idx = self.index();
        let mut i: usize = 0;
        assert(idx.skip(0) =~= idx);
        while i < self.topic_index.len()
            invariant
                i <= self.topic_index@.len(),
                idx == self.index(),
                listeners(idx, topic@) == listeners(idx.skip(i as int), topic@),
            decreases self.topic_index@.len() - i,
        {
            proof {
                assert(idx.skip(i as int).drop_first() =~= idx.skip(i + 1));
                assert(idx.skip(i as int)[0] == idx[i as int]);
            }
            if str_eq(self.topic_index[i].0.as_str(), topic) {
                let r = crate::text::copy_all(self.topic_index[i].1.as_slice());
                return r;
            }
            i = i + 1;
        }
        Vec::new()
    }

    /// Hands the message `vars` (arrived at `now`) to bridge `id`: a batch
    /// bridge buffers it and yields a batch when full; a single bridge
    /// renders it at once. `None` also when no bridge has the id.
    pub fn deliver(&mut self, id: &str, vars: Vars, now: u64) -> (r: Option<BatchToSend>)
        requires
            old(self).wf(),
        ensures
            final(self).wf(),
            final(self).ids() == old(self).ids(),
            final(self).index() == old(self).index(),
            final(self).bridges().len() == old(self).bridges().len(),
            match first_index(old(self).ids(), id@) {
                None => r is None && final(self).bridges() == old(self).bridges(),
                Some(i) => (forall|j: int| 0 <= j < old(self).bridges().len() && j != i
                        ==> #[trigger] final(self).bridges()[j] == old(self).bridges()[j])
                    && final(self).bridges()[i].spec_config() == old(self).bridges()[i].spec_config()
                    && final(self).bridges()[i].template_view() == old(self).bridges()[i].template_view()
                    && if old(self).bridges()[i].spec_config().batch.size > 1 {
                        let all = old(self).bridges()[i].buffered().push(vars);
                        if all.len() >= old(self).bridges()[i].spec_config().batch.size {
                            r matches Some(b) && b.body@ == batch_spec(old(self).bridges()[i].template_view(), all)
                                && b.message_count == all.len()
                                && b.url == old(self).bridges()[i].spec_config().http.url
                                && b.method == old(self).bridges()[i].spec_config().http.method
                                && b.headers@ == old(self).bridges()[i].spec_config().http.headers@
                                && final(self).bridges()[i].buffered().len() == 0
                        } else {
                            r is None && final(self).bridges()[i].buffered() == all
                        }
                    } else {
                        r matches Some(b) && b.body@ == render_spec(old(self).bridges()[i].template_view().before, vars)
                            && b.message_count == 1
                            && b.url == old(self).bridges()[i].spec_config().http.url
                            && b.method == old(self).bridges()[i].spec_config().http.method
                            && b.headers@ == old(self).bridges()[i].spec_config().http.headers@
                            && final(self).bridges()[i] == old(self).bridges()[i]
                    },
            },
    {
        proof {
            lemma_first_index(self.ids(), id@);
        }
        let pos = self.position(id);
        proof {
            match first_index(self.ids(), id@) {
                Some(k) => {
                    match pos {
                        Some(p) => {
                            if (p as int) < k { assert(self.ids()[p as int] == id@); }
                            if (p as int) > k { assert(self.ids()[k] == id@); }
                        },
                        None => { assert(self.ids().contains(id@)); },
                    }
                },
                None => {},
            }
        }
        match pos {
            None => None,
            Some(i) => {
                let ghost hs0 = self.handles@;
                let r = if self.handles[i].1.config().is_batch_mode() {
                    self.handles[i].1.push(vars, now)
                } else {
                    Some(self.handles[i].1.render_single(&vars))
                };
                proof {
                    assert(self.ids() =~= old(self).ids());
                    assert forall|j: int| 0 <= j < old(self).bridges().len() && j != i implies
                        #[trigger] self.bridges()[j] == old(self).bridges()[j] by {
                        assert(self.handles@[j] == hs0[j]);
                    }
                    assert forall|q: int| 0 <= q < self.handles@.len() implies (#[trigger] self.handles@[q]).1.wf()
                        && self.handles@[q].0@ == self.handles@[q].1.spec_config().id@ by {
                        if q != i {
                            assert(self.handles@[q] == hs0[q]);
                        }
                    }
                }
                r
            },
        }
    }

    /// Every bridge whose oldest buffered message has waited its interval at
    /// `now` gives up its buffer as a batch; returns those batches with the
    /// bridges' ids, in bridge order.
    pub fn flush_due(&mut self, now: u64) -> (r: Vec<(String, BatchToSend)>)
        requires
            old(self).wf(),
        ensures
            final(self).wf(),
            final(self).ids() == old(self).ids(),
            final(self).index() == old(self).index(),
            flushed(old(self).bridges(), final(self).bridges(), |h: BridgeHandle| h.timer_due(now)),
            batches_of(old(self).ids(), old(self).bridges(), |h: BridgeHandle| h.timer_due(now), r@),
    {
        let ghost f = |h: BridgeHandle| h.timer_due(now);
        let ghost ids0 = self.ids();
        let ghost br0 = self.bridges();
        let mut out: Vec<(String, BatchToSend)> = Vec::new();
        let mut i: usize = 0;
        while i < self.handles.len()
            invariant
                i <= self.handles@.len(),
                self.wf(),
                self.ids() == ids0,
                self.index() == old(self).index(),
                ids0 == old(self).ids(),
                br0 == old(self).bridges(),
                f == (|h: BridgeHandle| h.timer_due(now)),
                self.handles@.len() == br0.len(),
                forall|j: int| 0 <= j < i ==> if f(br0[j]) {
                    BridgeHandle::emptied(br0[j], #[trigger] self.bridges()[j])
                } else {
                    self.bridges()[j] == br0[j]
                },
                forall|j: int| i <= j < br0.len() ==> #[trigger] self.bridges()[j] == br0[j],
                batches_upto(ids0, br0, f, out@, i as int),
            decreases self.handles@.len() - i,
        {
            assert(self.bridges()[i as int] == br0[i as int]);
            if self.handles[i].1.should_flush_by_timer(now) {
                let ghost hs0 = self.handles@;
                let ghost bb = self.bridges();
                let b = self.handles[i].1.drain();
                proof {
                    assert(self.ids() =~= hs0.map_values(|e: (String, BridgeHandle)| e.0@));
                    assert forall|q: int| 0 <= q < self.handles@.len() implies (#[trigger] self.handles@[q]).1.wf()
                        && self.handles@[q].0@ == self.handles@[q].1.spec_config().id@ by {
                        if q != i {
                            assert(self.handles@[q] == hs0[q]);
                        }
                    }
                    assert forall|j: int| 0 <= j < br0.len() && j != i implies #[trigger] self.bridges()[j] == bb[j] by {
                        assert(self.handles@[j] == hs0[j]);
                        assert(bb[j] == hs0[j].1);
                    }
                    assert(self.bridges()[i as int] == self.handles@[i as int].1);
                    assert(bb[i as int] == hs0[i as int].1);
                    assert(BridgeHandle::emptied(br0[i as int], self.bridges()[i as int]));
                }
                match b {
                    Some(batch) => {
                        let id = self.handles[i].0.clone();
                        proof {
                            assert(id@ == ids0[i as int]);
                        }
                        out.push((id, batch));
                    },
                    None => {},
                }
            }
            proof {
                assert(positions_where(br0, f, i + 1) == if f(br0[i as int]) {
                    positions_where(br0, f, i as int).push(i as int)
                } else {
                    positions_where(br0, f, i as int)
                });
            }
            i = i + 1;
        }
        out
    }

    /// The buffered messages of every bridge as batches, buffers emptied;
    /// bridges with nothing buffered give none.
    pub fn drain_all(&mut self) -> (r: Vec<(String, BatchToSend)>)
        requires
            old(self).wf(),
        ensures
            final(self).wf(),
            final(self).ids() == old(self).ids(),
            final(self).index() == old(self).index(),
            flushed(old(self).bridges(), final(self).bridges(), |h: BridgeHandle| true),
            batches_of(old(self).ids(), old(self).bridges(), |h: BridgeHandle| h.buffered().len() > 0, r@),
    {
        let ghost f = |h: BridgeHandle| h.buffered().len() > 0;
        let ghost all = |h: BridgeHandle| true;
        let ghost ids0 = self.ids();
        let ghost br0 = self.bridges();
        let mut out: Vec<(String, BatchToSend)> = Vec::new();
        let mut i: usize = 0;
        while i < self.handles.len()
            invariant
                i <= self.handles@.len(),
                self.wf(),
                self.ids() == ids0,
                self.index() == old(self).index(),
                ids0 == old(self).ids(),
                br0 == old(self).bridges(),
                f == (|h: BridgeHandle| h.buffered().len() > 0),
                self.handles@.len() == br0.len(),
                forall|j: int| 0 <= j < i ==> BridgeHandle::emptied(br0[j], #[trigger] self.bridges()[j]),
                forall|j: int| i <= j < br0.len() ==> #[trigger] self.bridges()[j] == br0[j],
                batches_upto(ids0, br0, f, out@, i as int),
            decreases self.handles@.len() - i,
        {
            assert(self.bridges()[i as int] == br0[i as int]);
            let ghost hs0 = self.handles@;
            let ghost bb = self.bridges();
            let b = self.handles[i].1.drain();
            proof {
                assert(self.ids() =~= hs0.map_values(|e: (String, BridgeHandle)| e.0@));
                assert forall|q: int| 0 <= q < self.handles@.len() implies (#[trigger] self.handles@[q]).1.wf()
                    && self.handles@[q].0@ == self.handles@[q].1.spec_config().id@ by {
                    if q != i {
                        assert(self.handles@[q] == hs0[q]);
                    }
                }
                assert forall|j: int| 0 <= j < br0.len() && j != i implies #[trigger] self.bridges()[j] == bb[j] by {
                    assert(self.handles@[j] == hs0[j]);
                    assert(bb[j] == hs0[j].1);
                }
                assert(self.bridges()[i as int] == self.handles@[i as int].1);
                assert(bb[i as int] == hs0[i as int].1);
                assert(BridgeHandle::emptied(br0[i as int], self.bridges()[i as int]));
            }
            match b {
                Some(batch) => {
                    let id = self.handles[i].0.clone();
                    proof {
                        assert(id@ == ids0[i as int]);
                    }
                    out.push((id, batch));
                },
                None => {},
            }
            proof {
                assert(positions_where(br0, f, i + 1) == if f(br0[i as int]) {
                    positions_where(br0, f, i as int).push(i as int)
                } else {
                    positions_where(br0, f, i as int)
                });
            }
            i = i + 1;
        }
        proof {
            assert forall|j: int| 0 <= j < br0.len() implies (if all(br0[j]) {
                BridgeHandle::emptied(br0[j], #[trigger] self.bridges()[j])
            } else {
                self.bridges()[j] == br0[j]
            }) by {}
        }
        out
    }

    /// The answer to a request to create bridge `config`: `AlreadyExists`
    /// when a bridge has its id, and nothing changes; else the bridge is
    /// added, and the template's error comes back inside `Ok` where the
    /// template does not parse (the request itself succeeds, and no bridge
    /// is added).
    pub fn create(&mut self, config: BridgeConfig) -> (r: Result<Option<TemplateError>, RegistryError>)
        requires
            old(self).wf(),
        ensures
            final(self).wf(),
            old(self).ids().contains(config.id@) ==> r == Err::<Option<TemplateError>, RegistryError>(RegistryError::AlreadyExists)
                && final(self).ids() == old(self).ids() && final(self).bridges() == old(self).bridges()
                && final(self).index() == old(self).index(),
            !old(self).ids().contains(config.id@) ==> (r matches Ok(t) && added(
                *old(self),
                *final(self),
                config,
                match t {
                    Some(e) => Err::<(), TemplateError>(e),
                    None => Ok::<(), TemplateError>(()),
                },
            )),
    {
        if self.contains(config.id.as_str()) {
            return Err(RegistryError::AlreadyExists);
        }
        match self.add(config) {
            Ok(()) => Ok(None),
            Err(e) => Ok(Some(e)),
        }
    }

    /// The answer to a request to replace bridge `id` by `config`:
    /// `NotFound` when no bridge has the id, and nothing changes; else bridge
    /// `id` is taken out (its topics and last batch come back) and a bridge
    /// for `config` is added (with the outcome of that, as in `add`).
    pub fn update(&mut self, id: &str, config: BridgeConfig) -> (r: Result<
        (Vec<String>, Option<BatchToSend>, Result<(), TemplateError>),
        RegistryError,
    >)
        requires
            old(self).wf(),
        ensures
            final(self).wf(),
            !old(self).ids().contains(id@) ==> r is Err && r->Err_0 == RegistryError::NotFound
                && final(self).ids() == old(self).ids() && final(self).bridges() == old(self).bridges()
                && final(self).index() == old(self).index(),
            old(self).ids().contains(id@) ==> (r matches Ok((topics, batch, outcome)) && exists|
                mid: BridgeRegistry,
            | removed(*old(self), mid, id@, topics@, batch) && added(mid, *final(self), config, outcome)),
    {
        let ghost before = *self;
        match self.remove(id) {
            Err(e) => Err(e),
            Ok((topics, batch)) => {
                let ghost mid = *self;
                let outcome = self.add(config);
                proof {
                    assert(removed(before, mid, id@, topics@, batch));
                }
                Ok((topics, batch, outcome))
            },
        }
    }

    /// The registry a bridge runner starts with: each configuration that
    /// validates and whose template parses is added, in order (a later one
    /// takes the place of an earlier one with the same id); the others come
    /// back, in order, with why they were left out.
    pub fn from_configs(configs: Vec<BridgeConfig>) -> (r: (BridgeRegistry, Vec<(String, Rejection)>))
        ensures
            r.0.wf(),
            r.0.ids() == kept_ids(configs@),
            forall|i: int| 0 <= i < r.0.bridges().len() ==> #[trigger] last_accepted(configs@, r.0.ids()[i])
                == Some(r.0.bridges()[i].spec_config()) && r.0.bridges()[i].buffered().len() == 0,
            r.1@.len() == rejected_configs(configs@).len(),
            forall|k: int| 0 <= k < r.1@.len() ==> rejection_for(
                rejected_configs(configs@)[k],
                (#[trigger] r.1@[k]).0@,
                r.1@[k].1,
            ),
    {
        let mut reg = BridgeRegistry::new();
        let mut rejected: Vec<(String, Rejection)> = Vec::new();
        let mut cfgs = configs;
        let ghost orig = cfgs@;
        let ghost mut k: int = 0;
        assert(orig.take(0) =~= Seq::<BridgeConfig>::empty());
        assert(orig.skip(0) =~= orig);
        while cfgs.len() > 0
            invariant
                reg.wf(),
                0 <= k <= orig.len(),
                cfgs@ == orig.skip(k),
                reg.ids() == kept_ids(orig.take(k)),
                reg.bridges().len() == reg.ids().len(),
                forall|i: int| 0 <= i < reg.bridges().len() ==> #[trigger] last_accepted(orig.take(k), reg.ids()[i])
                    == Some(reg.bridges()[i].spec_config()) && reg.bridges()[i].buffered().len() == 0,
                rejected@.len() == rejected_configs(orig.take(k)).len(),
                forall|q: int| 0 <= q < rejected@.len() ==> rejection_for(
                    rejected_configs(orig.take(k))[q],
                    (#[trigger] rejected@[q]).0@,
                    rejected@[q].1,
                ),
            decreases cfgs@.len(),
        {
            let config = cfgs.remove(0);
            let ghost c = config;
            proof {
                assert(orig.skip(k)[0] == c);
                assert(orig.take(k + 1).drop_last() =~= orig.take(k));
                assert(orig.take(k + 1).last() == c);
                assert(cfgs@ =~= orig.skip(k + 1));
                lemma_kept_ids_distinct(orig.take(k));
                orig.take(k).lemma_filter_push(c, |x: BridgeConfig| !accepted(x));
                assert(orig.take(k + 1) =~= orig.take(k).push(c));
            }
            match config.validate() {
                Err(errors) => {
                    let id = config.id.clone();
                    let ghost old_rej = rejected@;
                    rejected.push((id, Rejection::Invalid(errors)));
                    proof {
                        assert forall|q: int| 0 <= q < rejected@.len() implies rejection_for(
                            rejected_configs(orig.take(k + 1))[q],
                            (#[trigger] rejected@[q]).0@,
                            rejected@[q].1,
                        ) by {
                            if q < old_rej.len() {
                                assert(rejected@[q] == old_rej[q]);
                            }
                        }
                    }
                },
                Ok(()) => {
                    let id = config.id.clone();
                    let ghost before = reg;
                    let added_r = reg.add(config);
                    proof {
                        assert(added(before, reg, c, added_r));
                    }
                    match added_r {
                        Ok(()) => {
                            proof {
                                lemma_first_index(before.ids(), c.id@);
                                assert forall|i: int| 0 <= i < reg.bridges().len() implies #[trigger] last_accepted(
                                    orig.take(k + 1),
                                    reg.ids()[i],
                                ) == Some(reg.bridges()[i].spec_config()) && reg.bridges()[i].buffered().len() == 0 by {
                                    assert(accepted(c));
                                    assert(last_accepted(orig.take(k + 1), reg.ids()[i]) == if reg.ids()[i] == c.id@ {
                                        Some(c)
                                    } else {
                                        last_accepted(orig.take(k), reg.ids()[i])
                                    });
                                    match first_index(before.ids(), c.id@) {
                                        Some(fi) => {
                                            if i != fi {
                                                assert(before.ids()[i] != c.id@);
                                                assert(reg.bridges()[i] == before.bridges()[i]);
                                                assert(reg.ids()[i] == before.ids()[i]);
                                                assert(last_accepted(orig.take(k), before.ids()[i]) == Some(
                                                    before.bridges()[i].spec_config(),
                                                ));
                                            } else {
                                                assert(reg.ids()[i] == c.id@);
                                            }
                                        },
                                        None => {
                                            if i < before.bridges().len() {
                                                assert(reg.bridges().drop_last()[i] == before.bridges()[i]);
                                                assert(reg.ids()[i] == before.ids()[i]);
                                                assert(before.ids()[i] != c.id@) by {
                                                    assert(before.ids().contains(before.ids()[i]));
                                                }
                                                assert(last_accepted(orig.take(k), before.ids()[i]) == Some(
                                                    before.bridges()[i].spec_config(),
                                                ));
                                            } else {
                                                assert(reg.ids()[i] == c.id@);
                                            }
                                        },
                                    }
                                }
                            }
                        },
                        Err(e) => {
                            assert(reg.ids() == before.ids() && reg.bridges() == before.bridges());
                            let ghost old_rej = rejected@;
                            rejected.push((id, Rejection::Template(e)));
                            proof {
                                assert forall|q: int| 0 <= q < rejected@.len() implies rejection_for(
                                    rejected_configs(orig.take(k + 1))[q],
                                    (#[trigger] rejected@[q]).0@,
                                    rejected@[q].1,
                                ) by {
                                    if q < old_rej.len() {
                                        assert(rejected@[q] == old_rej[q]);
                                    }
                                }
                            }
                        },
                    }
                },
            }
            proof {
                if !accepted(c) {
                    assert forall|i: int| 0 <= i < reg.bridges().len() implies #[trigger] last_accepted(
                        orig.take(k + 1),
                        reg.ids()[i],
                    ) == Some(reg.bridges()[i].spec_config()) && reg.bridges()[i].buffered().len() == 0 by {
                        assert(last_accepted(orig.take(k + 1), reg.ids()[i]) == last_accepted(
                            orig.take(k),
                            reg.ids()[i],
                        ));
                    }
                }
                k = k + 1;
            }
        }
        proof {
            assert(orig.take(k) =~= orig);
        }
        (reg, rejected)
    }
}

} // verus!

verus! {

// ------------------------------------------------------------ message variables

/// A JSON value as the bridge reads a payload: objects are walked into,
/// strings are taken as they are, and every other value is kept as its JSON
/// text.
#[derive(Debug)]
pub enum JsonNode {
    /// An object's members, in the order the parser gives them.
    Object(Vec<(String, JsonNode)>),
    /// A string.
    Text(String),
    /// Any other value, as JSON text.
    Other(String),
}

/// The key of member `name` under `prefix`: `prefix.name`.
pub open spec fn member_key(prefix: Seq<char>, name: Seq<char>) -> Seq<char> {
    prefix + seq!['.'] + name
}

/// The variables that flattening `node` under `prefix` binds, in the order
/// they are bound: a string or other value is bound to the prefix itself;
/// an object binds its members' variables, each under `prefix.member`.
pub open spec fn flat_pairs(prefix: Seq<char>, node: JsonNode) -> Seq<(Seq<char>, Seq<char>)>
    decreases node,
{
    match node {
        JsonNode::Object(members) => flat_members(prefix, members@),
        JsonNode::Text(s) => seq![(prefix, s@)],
        JsonNode::Other(t) => seq![(prefix, t@)],
    }
}

/// The variables that the members `ms` of an object under `prefix` bind.
pub open spec fn flat_members(prefix: Seq<char>, ms: Seq<(String, JsonNode)>) -> Seq<
    (Seq<char>, Seq<char>),
>
    decreases ms,
{
    if ms.len() == 0 {
        Seq::empty()
    } else {
        flat_members(prefix, ms.drop_last()) + flat_pairs(
            member_key(prefix, ms.last().0@),
            ms.last().1,
        )
    }
}

/// The value that the last binding of `x` in `ps` gives it, if any.
pub open spec fn last_binding(ps: Seq<(Seq<char>, Seq<char>)>, x: Seq<char>) -> Option<Seq<char>>
    decreases ps.len(),
{
    if ps.len() == 0 {
        None
    } else if ps.last().0 == x {
        Some(ps.last().1)
    } else {
        last_binding(ps.drop_last(), x)
    }
}

/// `after` is `before` with the bindings `ps` made in order.
pub open spec fn bound_in_order(before: Vars, after: Vars, ps: Seq<(Seq<char>, Seq<char>)>) -> bool {
    forall|x: Seq<char>|
        #[trigger] after.spec_get(x) == match last_binding(ps, x) {
            Some(v) => Some(v),
            None => before.spec_get(x),
        }
}

proof fn lemma_last_binding_concat(a: Seq<(Seq<char>, Seq<char>)>, b: Seq<(Seq<char>, Seq<char>)>, x: Seq<char>)
    ensures
        last_binding(a + b, x) == match last_binding(b, x) {
            Some(v) => Some(v),
            None => last_binding(a, x),
        },
    decreases b.len(),
{
    if b.len() == 0 {
        assert(a + b =~= a);
    } else {
        assert((a + b).drop_last() =~= a + b.drop_last());
        assert((a + b).last() == b.last());
        lemma_last_binding_concat(a, b.drop_last(), x);
    }
}

/// Binds the variables of `value` under `prefix` in `vars`: a string or any
/// other value is bound to `prefix`; an object's members are bound under
/// `prefix.member`, recursively.
pub fn flatten_json(vars: &mut Vars, prefix: &str, value: &JsonNode)
    ensures
        bound_in_order(*old(vars), *final(vars), flat_pairs(prefix@, *value)),
    decreases value,
{
    match value {
        JsonNode::Object(members) => {
            let ghost start = *vars;
            let mut i: usize = 0;
            assert(members@.take(0) =~= Seq::<(String, JsonNode)>::empty());
            while i < members.len()
                invariant
                    i <= members@.len(),
                    bound_in_order(start, *vars, flat_members(prefix@, members@.take(i as int))),
                    start == *old(vars),
                    *value == JsonNode::Object(*members),
                decreases members@.len() - i,
            {
                let mut key = prefix.to_owned();
                crate::text::push_char(&mut key, '.');
                push_all_str(&mut key, members[i].0.as_str());
                let ghost mid = *vars;
                proof {
                    assert(decreases_to!(*value => (*value)->Object_0));
                    assert((*value)->Object_0 == *members);
                    assert(decreases_to!(*members => members@));
                    assert(decreases_to!(members@ => members@[i as int]));
                    assert(decreases_to!(members@[i as int] => members@[i as int].1));
                }
                flatten_json(&mut *vars, key.as_str(), &members[i].1);
                proof {
                    let a = flat_members(prefix@, members@.take(i as int));
                    let b = flat_pairs(key@, members@[i as int].1);
                    assert(members@.take(i + 1).drop_last() =~= members@.take(i as int));
                    assert(key@ == member_key(prefix@, members@[i as int].0@));
                    assert(flat_members(prefix@, members@.take(i + 1)) == a + b);
                    assert forall|x: Seq<char>| #[trigger] vars.spec_get(x) == match last_binding(a + b, x) {
                        Some(v) => Some(v),
                        None => start.spec_get(x),
                    } by {
                        lemma_last_binding_concat(a, b, x);
                        assert(vars.spec_get(x) == match last_binding(b, x) {
                            Some(v) => Some(v),
                            None => mid.spec_get(x),
                        });
                        assert(mid.spec_get(x) == match last_binding(a, x) {
                            Some(v) => Some(v),
                            None => start.spec_get(x),
                        });
                    }
                }
                i = i + 1;
            }
            assert(members@.take(i as int) =~= members@);
            assert(flat_pairs(prefix@, *value) == flat_members(prefix@, members@));
        },
        JsonNode::Text(s) => {
            vars.insert(prefix.to_owned(), s.clone());
            proof {
                reveal_with_fuel(last_binding, 2);
                assert(seq![(prefix@, s@)].drop_last() =~= Seq::<(Seq<char>, Seq<char>)>::empty());
            }
        },
        JsonNode::Other(t) => {
            vars.insert(prefix.to_owned(), t.clone());
            proof {
                reveal_with_fuel(last_binding, 2);
                assert(seq![(prefix@, t@)].drop_last() =~= Seq::<(Seq<char>, Seq<char>)>::empty());
            }
        },
    }
}

/// Appends `t` to `s`.
fn push_all_str(s: &mut String, t: &str)
    ensures
        final(s)@ == old(s)@ + t@,
{
    crate::text::push_all(s, t);
}

/// The variables of a message on `topic` with `payload`, received at
/// `timestamp_ms` (milliseconds since the epoch): `topic`, `payload`, an
/// empty `clientid` and `timestamp`; where the bridge parses payloads and
/// the payload is JSON (`parsed`), its values under `payload.`, as
/// [`flatten_json`] binds them.
pub fn extract_vars(
    topic: &str,
    payload: &str,
    payload_parse: bool,
    timestamp_ms: u64,
    parsed: Option<&JsonNode>,
) -> (r: Vars)
    ensures
        ({
            let base = seq![
                ("topic"@, topic@),
                ("payload"@, payload@),
                ("clientid"@, Seq::<char>::empty()),
                ("timestamp"@, crate::text::digits(timestamp_ms as nat)),
            ];
            let all = if payload_parse && parsed is Some {
                base + flat_pairs("payload"@, *parsed->Some_0)
            } else {
                base
            };
            forall|x: Seq<char>| #[trigger] r.spec_get(x) == last_binding(all, x)
        }),
{
    let mut vars = Vars::new();
    vars.insert("topic".to_owned(), topic.to_owned());
    vars.insert("payload".to_owned(), payload.to_owned());
    vars.insert("clientid".to_owned(), String::new());
    let mut ts = String::new();
    crate::text::push_digits(&mut ts, timestamp_ms);
    assert(ts@ =~= crate::text::digits(timestamp_ms as nat));
    vars.insert("timestamp".to_owned(), ts);
    let ghost base = seq![
        ("topic"@, topic@),
        ("payload"@, payload@),
        ("clientid"@, Seq::<char>::empty()),
        ("timestamp"@, crate::text::digits(timestamp_ms as nat)),
    ];
    proof {
        reveal_with_fuel(last_binding, 5);
        assert(base.drop_last().drop_last().drop_last().drop_last() =~= Seq::<(Seq<char>, Seq<char>)>::empty());
        assert forall|x: Seq<char>| #[trigger] vars.spec_get(x) == last_binding(base, x) by {
        }
    }
    if payload_parse {
        match parsed {
            Some(node) => {
                let ghost mid = vars;
                flatten_json(&mut vars, "payload", node);
                proof {
                    assert forall|x: Seq<char>| #[trigger] vars.spec_get(x) == last_binding(
                        base + flat_pairs("payload"@, *node),
                        x,
                    ) by {
                        lemma_last_binding_concat(base, flat_pairs("payload"@, *node), x);
                        assert(mid.spec_get(x) == last_binding(base, x));
                    }
                }
            },
            None => {},
        }
    }
    vars
}

} // verus!
