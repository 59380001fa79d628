//! Body templates of the MQTT to HTTP bridge: `${name}` substitutes a
//! variable, and in batch mode one `${foreach SEP}...${end}` block is rendered
//! once per message, joined by `SEP`.
use vstd::prelude::*;
use crate::text::{chars_of, string_from, push_all, find, find_from, find_exec, matches_at, lemma_find_from};

verus! {

/// The variables of one message, by name.
pub struct Vars {
    entries: Vec<(String, String)>,
}

/// The value bound to `k` among `es` (the first binding wins).
pub open spec fn lookup(es: Seq<(Seq<char>, Seq<char>)>, k: Seq<char>) -> Option<Seq<char>>
    decreases es.len(),
{
    if es.len() == 0 {
        None
    } else if es[0].0 == k {
        Some(es[0].1)
    } else {
        lookup(es.drop_first(), k)
    }
}

proof fn lemma_lookup_update(es: Seq<(Seq<char>, Seq<char>)>, i: int, k: Seq<char>, v: Seq<char>)
    requires
        0 <= i < es.len(),
        es[i].0 == k,
        forall|j: int| 0 <= j < i ==> es[j].0 != k,
    ensures
        forall|x: Seq<char>| #[trigger] lookup(es.update(i, (k, v)), x)
            == if x == k { Some(v) } else { lookup(es, x) },
    decreases es.len(),
{
    let u = es.update(i, (k, v));
    if i > 0 {
        lemma_lookup_update(es.drop_first(), i - 1, k, v);
        assert(u.drop_first() =~= es.drop_first().update(i - 1, (k, v)));
        assert(u[0] == es[0]);
        assert forall|x: Seq<char>| #[trigger] lookup(u, x) == if x == k { Some(v) } else { lookup(es, x) } by {
            assert(lookup(u, x) == if u[0].0 == x { Some(u[0].1) } else { lookup(u.drop_first(), x) });
            assert(lookup(es, x) == if es[0].0 == x { Some(es[0].1) } else { lookup(es.drop_first(), x) });
            assert(lookup(es.drop_first().update(i - 1, (k, v)), x) == if x == k { Some(v) } else { lookup(es.drop_first(), x) });
        }
    } else {
        assert(u.drop_first() =~= es.drop_first());
        assert forall|x: Seq<char>| #[trigger] lookup(u, x) == if x == k { Some(v) } else { lookup(es, x) } by {
            assert(lookup(u, x) == if u[0].0 == x { Some(u[0].1) } else { lookup(u.drop_first(), x) });
            assert(lookup(es, x) == if es[0].0 == x { Some(es[0].1) } else { lookup(es.drop_first(), x) });
        }
    }
}

proof fn lemma_lookup_push(es: Seq<(Seq<char>, Seq<char>)>, k: Seq<char>, v: Seq<char>)
    requires
        forall|j: int| 0 <= j < es.len() ==> es[j].0 != k,
    ensures
        forall|x: Seq<char>| #[trigger] lookup(es.push((k, v)), x)
            == if x == k { Some(v) } else { lookup(es, x) },
    decreases es.len(),
{
    let u = es.push((k, v));
    if es.len() > 0 {
        lemma_lookup_push(es.drop_first(), k, v);
        assert(u.drop_first() =~= es.drop_first().push((k, v)));
        assert(u[0] == es[0]);
        assert forall|x: Seq<char>| #[trigger] lookup(u, x) == if x == k { Some(v) } else { lookup(es, x) } by {
            assert(lookup(u, x) == if u[0].0 == x { Some(u[0].1) } else { lookup(u.drop_first(), x) });
            assert(lookup(es, x) == if es[0].0 == x { Some(es[0].1) } else { lookup(es.drop_first(), x) });
            assert(lookup(es.drop_first().push((k, v)), x) == if x == k { Some(v) } else { lookup(es.drop_first(), x) });
        }
    } else {
        assert(u.drop_first() =~= es);
        assert forall|x: Seq<char>| #[trigger] lookup(u, x) == if x == k { Some(v) } else { lookup(es, x) } by {
            assert(lookup(u, x) == if u[0].0 == x { Some(u[0].1) } else { lookup(u.drop_first(), x) });
        }
    }
}

impl Vars {
    pub closed spec fn pairs(&self) -> Seq<(Seq<char>, Seq<char>)> {
        self.entries@.map_values(|e: (String, String)| (e.0@, e.1@))
    }

    /// The value of variable `k`, if it has one.
    pub open spec fn spec_get(&self, k: Seq<char>) -> Option<Seq<char>> {
        lookup(self.pairs(), k)
    }

    pub fn new() -> (v: Vars)
        ensures
            forall|k: Seq<char>| #[trigger] v.spec_get(k) is None,
    {
        let v = Vars { entries: Vec::new() };
        assert(v.pairs() =~= Seq::<(Seq<char>, Seq<char>)>::empty());
        v
    }

    /// Binds `k` to `v`, replacing an earlier value of `k`.
    pub fn insert(&mut self, k: String, v: String)
        ensures
            forall|x: Seq<char>| #[trigger] final(self).spec_get(x)
                == if x == k@ { Some(v@) } else { old(self).spec_get(x) },
    {
        let ghost ps = self.pairs();
        let mut i: usize = 0;
        while i < self.entries.len()
            invariant
                i <= self.entries@.len(),
                self.pairs() == ps,
                ps == old(self).pairs(),
                forall|j: int| 0 <= j < i ==> ps[j].0 != k@,
            decreases self.entries@.len() - i,
        {
            if self.entries[i].0 == k {
                let ghost kv = k@;
                let ghost vv = v@;
                assert(ps[i as int] == (self.entries@[i as int].0@, self.entries@[i as int].1@));
                assert(ps[i as int].0 == kv);
                self.entries.set(i, (k, v));
                proof {
                    assert(self.pairs() =~= ps.update(i as int, (kv, vv)));
                    lemma_lookup_update(ps, i as int, kv, vv);
                    assert(ps == old(self).pairs());
                    assert forall|x: Seq<char>| #[trigger] self.spec_get(x)
                        == if x == kv { Some(vv) } else { old(self).spec_get(x) } by {
                        assert(lookup(ps.update(i as int, (kv, vv)), x) == if x == kv { Some(vv) } else { lookup(ps, x) });
                    }
                }
                return;
            }
            i = i + 1;
        }
        let ghost kv = k@;
        let ghost vv = v@;
        self.entries.push((k, v));
        proof {
            assert(self.pairs() =~= ps.push((kv, vv)));
            lemma_lookup_push(ps, kv, vv);
        }
    }

    /// The value of variable `k`, if it has one.
    pub fn get(&self, k: &str) -> (r: Option<&String>)
        ensures
            r matches Some(s) ==> self.spec_get(k@) == Some(s@),
            r is None ==> self.spec_get(k@) is None,
    {
        let ghost ps = self.pairs();
        let mut i: usize = 0;
        assert(ps.skip(0) =~= ps);
        while i < self.entries.len()
            invariant
                i <= self.entries@.len(),
                self.pairs() == ps,
                lookup(ps, k@) == lookup(ps.skip(i as int), k@),
            decreases self.entries@.len() - i,
        {
            proof {
                assert(ps.skip(i as int).drop_first() =~= ps.skip(i + 1));
                assert(ps.skip(i as int)[0] == ps[i as int]);
            }
            if str_eq(self.entries[i].0.as_str(), k) {
                return Some(&self.entries[i].1);
            }
            i = i + 1;
        }
        None
    }
}

/// Whether two strings hold the same characters.
pub fn str_eq(a: &str, b: &str) -> (r: bool)
    ensures
        r == (a@ == b@),
{
    let x = chars_of(a);
    let y = chars_of(b);
    if x.len() != y.len() {
        assert(a@.len() != b@.len());
        return false;
    }
    let mut i: usize = 0;
    while i < x.len()
        invariant
            i <= x@.len(),
            x@ == a@,
            y@ == b@,
            x@.len() == y@.len(),
            forall|j: int| 0 <= j < i ==> x@[j] == y@[j],
        decreases x@.len() - i,
    {
        if x[i] != y[i] {
            assert(a@[i as int] != b@[i as int]);
            return false;
        }
        i = i + 1;
    }
    assert(x@ =~= y@);
    true
}

/// A piece of a template: text copied as it is, or a variable by name.
pub enum Segment {
    Literal(String),
    Variable(String),
}

/// A segment as the characters it holds.
pub ghost enum SegView {
    Lit(Seq<char>),
    Var(Seq<char>),
}

impl Segment {
    pub open spec fn view(&self) -> SegView {
        match self {
            Segment::Literal(s) => SegView::Lit(s@),
            Segment::Variable(s) => SegView::Var(s@),
        }
    }
}

/// The segments of a list, as views.
pub open spec fn seg_views(segs: Seq<Segment>) -> Seq<SegView> {
    segs.map_values(|g: Segment| g.view())
}

/// The literal flushed before a new segment: the pending text, if any.
pub open spec fn flush(cur: Seq<char>) -> Seq<SegView> {
    if cur.len() > 0 {
        seq![SegView::Lit(cur)]
    } else {
        Seq::empty()
    }
}

/// Splits `rest` into segments, `cur` being literal text read before it and
/// not yet emitted. `${name}` with a non-empty name is a variable. A `${` with
/// no closing `}` is literal up to the end; `${}` leaves `${` as literal text
/// (its `}` is dropped). Any other `$` is literal.
pub open spec fn scan(rest: Seq<char>, cur: Seq<char>) -> Seq<SegView>
    decreases rest.len(),
{
    if rest.len() == 0 {
        flush(cur)
    } else if rest[0] == '$' && rest.len() >= 2 && rest[1] == '{' {
        let body = rest.skip(2);
        proof {
            lemma_find_from(body, seq!['}'], 0);
        }
        match find(body, seq!['}']) {
            Some(k) => {
                let name = body.take(k);
                if name.len() > 0 {
                    flush(cur) + seq![SegView::Var(name)] + scan(body.skip(k + 1), Seq::empty())
                } else {
                    flush(cur) + scan(body.skip(k + 1), seq!['$', '{'])
                }
            },
            None => flush(cur) + flush(seq!['$', '{'] + body),
        }
    } else {
        scan(rest.skip(1), cur.push(rest[0]))
    }
}

/// The segments of `source`.
pub open spec fn parse_spec(source: Seq<char>) -> Seq<SegView> {
    scan(source, Seq::empty())
}

/// Splits `source` into literal text and `${name}` variables.
pub fn parse_segments(source: &str) -> (segs: Vec<Segment>)
    ensures
        seg_views(segs@) == parse_spec(source@),
{
    let cs = chars_of(source);
    parse_segment_chars(cs.as_slice())
}

fn flush_into(segs: &mut Vec<Segment>, cur: &Vec<char>)
    ensures
        seg_views(final(segs)@) == seg_views(old(segs)@) + flush(cur@),
{
    if cur.len() > 0 {
        let ghost before = segs@;
        segs.push(Segment::Literal(string_from(cur.as_slice())));
        assert(seg_views(segs@) =~= seg_views(before) + flush(cur@));
    } else {
        assert(seg_views(segs@) =~= seg_views(segs@) + flush(cur@));
    }
}

pub fn parse_segment_chars(cs: &[char]) -> (segs: Vec<Segment>)
    ensures
        seg_views(segs@) == parse_spec(cs@),
{
    let ghost s = cs@;
    let n = cs.len();
    let mut segs: Vec<Segment> = Vec::new();
    let mut cur: Vec<char> = Vec::new();
    let mut i: usize = 0;
    assert(s.skip(0) =~= s);
    assert(seg_views(segs@) =~= Seq::<SegView>::empty());
    while i < n
        invariant
            i <= n,
            n == s.len(),
            s == cs@,
            parse_spec(s) == seg_views(segs@) + scan(s.skip(i as int), cur@),
        decreases n - i,
    {
        let ghost rest = s.skip(i as int);
        let ghost segs0 = seg_views(segs@);
        let ch = cs[i];
        if ch == '$' && i + 1 < n && cs[i + 1] == '{' {
            let ghost body = rest.skip(2);
            let ghost cur0 = cur@;
            flush_into(&mut segs, &cur);
            cur = Vec::new();
            let mut name: Vec<char> = Vec::new();
            let mut j: usize = i + 2;
            let mut found = false;
            while j < n
                invariant_except_break
                    name@ == body.take(j - (i + 2)),
                    !found,
                invariant
                    i + 2 <= j <= n,
                    n == s.len(),
                    s == cs@,
                    body == s.skip(i + 2),
                    forall|q: int| 0 <= q < name@.len() ==> name@[q] != '}',
                ensures
                    found ==> j >= i + 3 && s[j - 1] == '}' && name@ == body.take(j - (i + 3))
                        && forall|q: int| 0 <= q < name@.len() ==> name@[q] != '}',
                    !found ==> j == n && name@ == body,
                decreases n - j,
            {
                let c = cs[j];
                j = j + 1;
                if c == '}' {
                    found = true;
                    assert(name@ =~= body.take(j - (i + 3)));
                    break;
                }
                name.push(c);
                assert(name@ =~= body.take(j - (i + 2)));
            }
            proof {
                if !found {
                    assert(body.take(j - (i + 2)) =~= body);
                    assert forall|q: int| 0 <= q < body.len() implies !matches_at(body, seq!['}'], q) by {
                        if matches_at(body, seq!['}'], q) {
                            assert(body.subrange(q, q + 1)[0] == '}');
                        }
                    }
                    lemma_find_from(body, seq!['}'], 0);
                    if find(body, seq!['}']) is Some {
                        let k = find(body, seq!['}'])->0;
                        assert(matches_at(body, seq!['}'], k));
                    }
                } else {
                    let k = j - (i + 3);
                    assert(body[k] == '}');
                    assert(body.subrange(k, k + 1) =~= seq!['}']);
                    lemma_find_from(body, seq!['}'], 0);
                    let f = find(body, seq!['}']);
                    match f {
                        Some(k2) => {
                            if k2 < k {
                                assert(body.subrange(k2, k2 + 1)[0] == '}');
                                assert(name@[k2] == body[k2]);
                            }
                            if k2 > k {
                                assert(matches_at(body, seq!['}'], k));
                            }
                        },
                        None => {
                            assert(matches_at(body, seq!['}'], k));
                        },
                    }
                    assert(f == Some(k));
                    assert(body.skip(k + 1) =~= s.skip(j as int));
                }
            }
            if found && name.len() > 0 {
                let ghost before = segs@;
                segs.push(Segment::Variable(string_from(name.as_slice())));
                proof {
                    assert(seg_views(segs@) =~= seg_views(before).push(SegView::Var(name@)));
                    assert(scan(rest, cur0) == flush(cur0) + seq![SegView::Var(name@)] + scan(s.skip(j as int), Seq::empty()));
                    assert(cur@ =~= Seq::<char>::empty());
                    assert(seg_views(segs@) + scan(s.skip(j as int), cur@)
                        =~= segs0 + (flush(cur0) + seq![SegView::Var(name@)] + scan(s.skip(j as int), Seq::empty())));
                }
            } else {
                cur.push('$');
                cur.push('{');
                let mut q: usize = 0;
                while q < name.len()
                    invariant
                        q <= name@.len(),
                        cur@ == seq!['$', '{'] + name@.take(q as int),
                    decreases name@.len() - q,
                {
                    cur.push(name[q]);
                    assert(cur@ =~= seq!['$', '{'] + name@.take(q + 1));
                    q = q + 1;
                }
                proof {
                    assert(name@.take(name@.len() as int) =~= name@);
                    if found {
                        assert(name@ =~= Seq::<char>::empty());
                        assert(cur@ =~= seq!['$', '{']);
                        assert(seg_views(segs@) + scan(s.skip(j as int), cur@)
                            =~= segs0 + (flush(cur0) + scan(s.skip(j as int), seq!['$', '{'])));
                    } else {
                        assert(s.skip(j as int) =~= Seq::<char>::empty());
                        assert(seg_views(segs@) + scan(s.skip(j as int), cur@)
                            =~= segs0 + (flush(cur0) + flush(seq!['$', '{'] + body)));
                    }
                }
            }
            i = j;
        } else {
            cur.push(ch);
            proof {
                assert(rest[0] == ch);
                assert(rest.skip(1) =~= s.skip(i + 1));
                if ch == '$' && rest.len() >= 2 {
                    assert(rest[1] == s[i + 1]);
                }
            }
            i = i + 1;
        }
    }
    flush_into(&mut segs, &cur);
    proof {
        assert(s.skip(n as int) =~= Seq::<char>::empty());
    }
    segs
}

/// The text of `segs` with each variable replaced by its value in `vars`,
/// or by nothing when `vars` has none.
pub open spec fn render_spec(segs: Seq<SegView>, vars: Vars) -> Seq<char>
    decreases segs.len(),
{
    if segs.len() == 0 {
        Seq::empty()
    } else {
        render_spec(segs.drop_last(), vars) + match segs.last() {
            SegView::Lit(t) => t,
            SegView::Var(n) => match vars.spec_get(n) {
                Some(v) => v,
                None => Seq::empty(),
            },
        }
    }
}

/// Renders `segments` with the values of `vars`.
pub fn render_segments(segments: &[Segment], vars: &Vars) -> (r: String)
    ensures
        r@ == render_spec(seg_views(segments@), *vars),
{
    let mut result = String::new();
    let mut i: usize = 0;
    while i < segments.len()
        invariant
            i <= segments@.len(),
            result@ == render_spec(seg_views(segments@).take(i as int), *vars),
        decreases segments@.len() - i,
    {
        proof {
            assert(seg_views(segments@).take(i + 1).drop_last() =~= seg_views(segments@).take(i as int));
            assert(seg_views(segments@).take(i + 1).last() == segments@[i as int].view());
        }
        match &segments[i] {
            Segment::Literal(s) => {
                push_all(&mut result, s.as_str());
            },
            Segment::Variable(name) => {
                match vars.get(name.as_str()) {
                    Some(v) => {
                        push_all(&mut result, v.as_str());
                    },
                    None => {
                        assert(result@ =~= result@ + Seq::<char>::empty());
                    },
                }
            },
        }
        i = i + 1;
    }
    assert(seg_views(segments@).take(segments@.len() as int) =~= seg_views(segments@));
    result
}

/// Why a template was refused.
#[derive(Debug, Clone, Copy, PartialEq, Eq, Structural)]
pub enum TemplateError {
    /// `${foreach ...}` in a template for single mode (batch size 1).
    ForeachInSingleMode,
    /// No `${foreach ...}` in a template for batch mode (batch size over 1).
    ForeachMissingInBatchMode,
    /// `${foreach ...}` without its closing `}` or without `${end}`.
    MissingEnd,
    /// A `${foreach ...}` inside the foreach block.
    NestedForeach,
}

impl TemplateError {
    /// The message of the error.
    pub fn message(&self) -> (r: String)
        ensures
            r@ == self.message_spec(),
    {
        let s = match self {
            TemplateError::ForeachInSingleMode => "foreach is not allowed in single mode (batch.size = 1)",
            TemplateError::ForeachMissingInBatchMode => "foreach is required in batch mode (batch.size > 1)",
            TemplateError::MissingEnd => "missing ${end} for ${foreach}",
            TemplateError::NestedForeach => "nested ${foreach} is not supported",
        };
        s.to_owned()
    }

    pub closed spec fn message_spec(&self) -> Seq<char> {
        match self {
            TemplateError::ForeachInSingleMode => "foreach is not allowed in single mode (batch.size = 1)"@,
            TemplateError::ForeachMissingInBatchMode => "foreach is required in batch mode (batch.size > 1)"@,
            TemplateError::MissingEnd => "missing ${end} for ${foreach}"@,
            TemplateError::NestedForeach => "nested ${foreach} is not supported"@,
        }
    }
}

/// The repeated block of a batch template.
pub struct ForeachBlock {
    separator: String,
    inner: Vec<Segment>,
}

/// A parsed body template.
pub struct Template {
    before_foreach: Vec<Segment>,
    foreach_block: Option<ForeachBlock>,
    after_foreach: Vec<Segment>,
}

/// A template as segment views: the part before the foreach block, the
/// block (its separator and segments) if there is one, and the part after.
pub ghost struct TemplateView {
    pub before: Seq<SegView>,
    pub block: Option<(Seq<char>, Seq<SegView>)>,
    pub after: Seq<SegView>,
}

/// `"${foreach "`.
pub open spec fn foreach_marker() -> Seq<char> {
    seq!['$', '{', 'f', 'o', 'r', 'e', 'a', 'c', 'h', ' ']
}

/// `"${end}"`.
pub open spec fn end_marker() -> Seq<char> {
    seq!['$', '{', 'e', 'n', 'd', '}']
}

/// What [`Template::parse`] yields for `source`.
pub open spec fn template_spec(source: Seq<char>, is_batch: bool) -> Result<TemplateView, TemplateError> {
    match find(source, foreach_marker()) {
        None => if is_batch {
            Err(TemplateError::ForeachMissingInBatchMode)
        } else {
            Ok(TemplateView { before: parse_spec(source), block: None, after: Seq::empty() })
        },
        Some(start) => if !is_batch {
            Err(TemplateError::ForeachInSingleMode)
        } else {
            let rest = source.skip(start);
            match find(rest, seq!['}']) {
                None => Err(TemplateError::MissingEnd),
                Some(sep_end) => {
                    let separator = rest.subrange(10, sep_end);
                    let after_marker = rest.skip(sep_end + 1);
                    match find(after_marker, end_marker()) {
                        None => Err(TemplateError::MissingEnd),
                        Some(end_pos) => {
                            let inner = after_marker.take(end_pos);
                            if find(inner, foreach_marker()) is Some {
                                Err(TemplateError::NestedForeach)
                            } else {
                                Ok(TemplateView {
                                    before: parse_spec(source.take(start)),
                                    block: Some((separator, parse_spec(inner))),
                                    after: parse_spec(after_marker.skip(end_pos + 6)),
                                })
                            }
                        },
                    }
                },
            }
        },
    }
}

fn foreach_chars() -> (r: Vec<char>)
    ensures
        r@ == foreach_marker(),
{
    let r = vec!['$', '{', 'f', 'o', 'r', 'e', 'a', 'c', 'h', ' '];
    assert(r@ =~= foreach_marker());
    r
}

fn end_chars() -> (r: Vec<char>)
    ensures
        r@ == end_marker(),
{
    let r = vec!['$', '{', 'e', 'n', 'd', '}'];
    assert(r@ =~= end_marker());
    r
}

fn sub_chars(cs: &[char], from: usize, to: usize) -> (r: Vec<char>)
    requires
        from <= to <= cs@.len(),
    ensures
        r@ == cs@.subrange(from as int, to as int),
{
    let mut r: Vec<char> = Vec::new();
    let mut i = from;
    while i < to
        invariant
            from <= i <= to <= cs@.len(),
            r@ == cs@.subrange(from as int, i as int),
        decreases to - i,
    {
        r.push(cs[i]);
        assert(r@ =~= cs@.subrange(from as int, i + 1));
        i = i + 1;
    }
    r
}

impl Template {
    pub closed spec fn view(&self) -> TemplateView {
        TemplateView {
            before: seg_views(self.before_foreach@),
            block: match &self.foreach_block {
                Some(b) => Some((b.separator@, seg_views(b.inner@))),
                None => None,
            },
            after: seg_views(self.after_foreach@),
        }
    }

    /// Parses `source` as a single-mode template (`is_batch` false: no
    /// foreach block allowed) or a batch template (one foreach block needed).
    pub fn parse(source: &str, is_batch: bool) -> (r: Result<Template, TemplateError>)
        ensures
            match (r, template_spec(source@, is_batch)) {
                (Ok(t), Ok(v)) => t.view() == v,
                (Err(e), Err(f)) => e == f,
                _ => false,
            },
    {
        let src = chars_of(source);
        let fm = foreach_chars();
        let foreach_start = find_exec(src.as_slice(), fm.as_slice(), 0);
        match foreach_start {
            None => {
                if is_batch {
                    Err(TemplateError::ForeachMissingInBatchMode)
                } else {
                    let t = Template {
                        before_foreach: parse_segment_chars(src.as_slice()),
                        foreach_block: None,
                        after_foreach: Vec::new(),
                    };
                    assert(t.view().after =~= Seq::<SegView>::empty());
                    Ok(t)
                }
            },
            Some(start) => {
                if !is_batch {
                    return Err(TemplateError::ForeachInSingleMode);
                }
                proof {
                    lemma_find_from(src@, foreach_marker(), 0);
                }
                let rest = sub_chars(src.as_slice(), start, src.len());
                assert(rest@ =~= src@.skip(start as int));
                let close = vec!['}'];
                assert(close@ =~= seq!['}']);
                let sep_end = match find_exec(rest.as_slice(), close.as_slice(), 0) {
                    None => {
                        return Err(TemplateError::MissingEnd);
                    },
                    Some(k) => k,
                };
                proof {
                    lemma_find_from(rest@, seq!['}'], 0);
                    assert(close@ =~= seq!['}']);
                    assert(rest@.subrange(0, 10) == foreach_marker());
                    if sep_end < 10 {
                        assert(rest@.subrange(sep_end as int, sep_end + 1)[0] == '}');
                        assert(rest@[sep_end as int] == foreach_marker()[sep_end as int]);
                    }
                }
                let separator = string_from(sub_chars(rest.as_slice(), 10, sep_end).as_slice());
                let after_marker = sub_chars(rest.as_slice(), sep_end + 1, rest.len());
                assert(after_marker@ =~= rest@.skip(sep_end + 1));
                let em = end_chars();
                let end_pos = match find_exec(after_marker.as_slice(), em.as_slice(), 0) {
                    None => {
                        return Err(TemplateError::MissingEnd);
                    },
                    Some(k) => k,
                };
                proof {
                    lemma_find_from(after_marker@, end_marker(), 0);
                }
                let inner = sub_chars(after_marker.as_slice(), 0, end_pos);
                assert(inner@ =~= after_marker@.take(end_pos as int));
                let after_src = sub_chars(after_marker.as_slice(), end_pos + 6, after_marker.len());
                assert(after_src@ =~= after_marker@.skip(end_pos + 6));
                if find_exec(inner.as_slice(), fm.as_slice(), 0).is_some() {
                    return Err(TemplateError::NestedForeach);
                }
                let before = sub_chars(src.as_slice(), 0, start);
                assert(before@ =~= src@.take(start as int));
                Ok(Template {
                    before_foreach: parse_segment_chars(before.as_slice()),
                    foreach_block: Some(ForeachBlock {
                        separator,
                        inner: parse_segment_chars(inner.as_slice()),
                    }),
                    after_foreach: parse_segment_chars(after_src.as_slice()),
                })
            },
        }
    }

    /// The body for one message: the template (single mode) with the values
    /// of `vars`.
    pub fn render_single(&self, vars: &Vars) -> (r: String)
        ensures
            r@ == render_spec(self.view().before, *vars),
    {
        render_segments(self.before_foreach.as_slice(), vars)
    }

    /// The body for a batch: the part before the foreach block, then the
    /// block once per message with that message's variables, separated by
    /// the separator, then the part after. The parts outside the block see
    /// no variables.
    pub fn render_batch(&self, messages: &[Vars]) -> (r: String)
        ensures
            r@ == batch_spec(self.view(), messages@),
    {
        let empty = Vars::new();
        proof {
            lemma_render_no_vars(self.view().before, empty);
            lemma_render_no_vars(self.view().after, empty);
        }
        let mut result = render_segments(self.before_foreach.as_slice(), &empty);
        match &self.foreach_block {
            Some(fb) => {
                let ghost head = result@;
                let mut i: usize = 0;
                while i < messages.len()
                    invariant
                        i <= messages@.len(),
                        result@ == head + join_spec(fb.separator@, seg_views(fb.inner@), messages@.take(i as int)),
                    decreases messages@.len() - i,
                {
                    proof {
                        assert(messages@.take(i + 1).drop_last() =~= messages@.take(i as int));
                    }
                    if i > 0 {
                        push_all(&mut result, fb.separator.as_str());
                    }
                    let part = render_segments(fb.inner.as_slice(), &messages[i]);
                    push_all(&mut result, part.as_str());
                    proof {
                        if i == 0 {
                            assert(messages@.take(1).drop_last() =~= Seq::<Vars>::empty());
                        }
                    }
                    i = i + 1;
                }
                assert(messages@.take(messages@.len() as int) =~= messages@);
            },
            None => {},
        }
        let tail = render_segments(self.after_foreach.as_slice(), &empty);
        push_all(&mut result, tail.as_str());
        result
    }
}

/// The renderings of `inner`, one per message, separated by `sep`.
pub open spec fn join_spec(sep: Seq<char>, inner: Seq<SegView>, msgs: Seq<Vars>) -> Seq<char>
    decreases msgs.len(),
{
    if msgs.len() == 0 {
        Seq::empty()
    } else if msgs.len() == 1 {
        render_spec(inner, msgs[0])
    } else {
        join_spec(sep, inner, msgs.drop_last()) + sep + render_spec(inner, msgs.last())
    }
}

/// The text of `segs` with every variable rendered as nothing.
pub open spec fn literal_text(segs: Seq<SegView>) -> Seq<char>
    decreases segs.len(),
{
    if segs.len() == 0 {
        Seq::empty()
    } else {
        literal_text(segs.drop_last()) + match segs.last() {
            SegView::Lit(t) => t,
            SegView::Var(_) => Seq::empty(),
        }
    }
}

/// What [`Template::render_batch`] yields.
pub open spec fn batch_spec(t: TemplateView, msgs: Seq<Vars>) -> Seq<char> {
    literal_text(t.before) + match t.block {
        Some((sep, inner)) => join_spec(sep, inner, msgs),
        None => Seq::empty(),
    } + literal_text(t.after)
}

/// With no variable bound, a rendering is the literal text.
pub proof fn lemma_render_no_vars(segs: Seq<SegView>, vars: Vars)
    requires
        forall|k: Seq<char>| #[trigger] vars.spec_get(k) is None,
    ensures
        render_spec(segs, vars) == literal_text(segs),
    decreases segs.len(),
{
    if segs.len() > 0 {
        lemma_render_no_vars(segs.drop_last(), vars);
    }
}

/// The source text a segment list stands for: literals as they are and
/// variables as `${name}`.
pub open spec fn unparse(segs: Seq<SegView>) -> Seq<char>
    decreases segs.len(),
{
    if segs.len() == 0 {
        Seq::empty()
    } else {
        unparse(segs.drop_last()) + match segs.last() {
            SegView::Lit(t) => t,
            SegView::Var(n) => seq!['$', '{'] + n + seq!['}'],
        }
    }
}

proof fn lemma_unparse_add(a: Seq<SegView>, b: Seq<SegView>)
    ensures
        unparse(a + b) == unparse(a) + unparse(b),
    decreases b.len(),
{
    if b.len() == 0 {
        assert(a + b =~= a);
    } else {
        lemma_unparse_add(a, b.drop_last());
        assert((a + b).drop_last() =~= a + b.drop_last());
    }
}

proof fn lemma_unparse_flush(cur: Seq<char>)
    ensures
        unparse(flush(cur)) == cur,
{
    if cur.len() > 0 {
        let f = flush(cur);
        assert(f.drop_last() =~= Seq::<SegView>::empty());
        assert(unparse(f) == unparse(f.drop_last()) + cur);
        assert(Seq::<char>::empty() + cur =~= cur);
    } else {
        assert(cur =~= Seq::<char>::empty());
    }
}

proof fn lemma_unparse_var(name: Seq<char>)
    ensures
        unparse(seq![SegView::Var(name)]) == seq!['$', '{'] + name + seq!['}'],
{
    let f = seq![SegView::Var(name)];
    assert(f.drop_last() =~= Seq::<SegView>::empty());
    assert(unparse(f) == unparse(f.drop_last()) + (seq!['$', '{'] + name + seq!['}']));
    assert(Seq::<char>::empty() + (seq!['$', '{'] + name + seq!['}']) =~= seq!['$', '{'] + name + seq!['}']);
}

/// `pat` does not occur anywhere in `s`.
pub open spec fn never_occurs(s: Seq<char>, pat: Seq<char>) -> bool {
    forall|i: int| !matches_at(s, pat, i)
}

proof fn lemma_never_occurs_skip(s: Seq<char>, pat: Seq<char>, m: int)
    requires
        never_occurs(s, pat),
        0 <= m <= s.len(),
    ensures
        never_occurs(s.skip(m), pat),
{
    assert forall|i: int| !matches_at(s.skip(m), pat, i) by {
        if matches_at(s.skip(m), pat, i) {
            assert(s.subrange(i + m, i + m + pat.len()) =~= s.skip(m).subrange(i, i + pat.len()));
            assert(matches_at(s, pat, i + m));
        }
    }
}

proof fn lemma_scan_roundtrip(rest: Seq<char>, cur: Seq<char>)
    requires
        never_occurs(rest, seq!['$', '{', '}']),
    ensures
        unparse(scan(rest, cur)) == cur + rest,
    decreases rest.len(),
{
    if rest.len() == 0 {
        lemma_unparse_flush(cur);
        assert(cur + rest =~= cur);
    } else if rest[0] == '$' && rest.len() >= 2 && rest[1] == '{' {
        let body = rest.skip(2);
        lemma_find_from(body, seq!['}'], 0);
        lemma_unparse_flush(cur);
        match find(body, seq!['}']) {
            Some(k) => {
                let name = body.take(k);
                assert(body.subrange(k, k + 1)[0] == '}');
                if k == 0 {
                    assert(rest.subrange(0, 3) =~= seq!['$', '{', '}']);
                    assert(matches_at(rest, seq!['$', '{', '}'], 0));
                }
                lemma_never_occurs_skip(rest, seq!['$', '{', '}'], k + 3);
                assert(body.skip(k + 1) =~= rest.skip(k + 3));
                lemma_scan_roundtrip(body.skip(k + 1), Seq::empty());
                let tail = scan(body.skip(k + 1), Seq::empty());
                lemma_unparse_add(flush(cur) + seq![SegView::Var(name)], tail);
                lemma_unparse_add(flush(cur), seq![SegView::Var(name)]);
                lemma_unparse_var(name);
                assert(Seq::<char>::empty() + body.skip(k + 1) =~= body.skip(k + 1));
                assert(rest =~= seq!['$', '{'] + name + seq!['}'] + body.skip(k + 1));
                assert(unparse(scan(rest, cur)) =~= cur + rest);
            },
            None => {
                lemma_unparse_add(flush(cur), flush(seq!['$', '{'] + body));
                lemma_unparse_flush(seq!['$', '{'] + body);
                assert(rest =~= seq!['$', '{'] + body);
                assert(unparse(scan(rest, cur)) =~= cur + rest);
            },
        }
    } else {
        lemma_never_occurs_skip(rest, seq!['$', '{', '}'], 1);
        lemma_scan_roundtrip(rest.skip(1), cur.push(rest[0]));
        assert(cur.push(rest[0]) + rest.skip(1) =~= cur + rest);
    }
}

/// Parsing keeps all of the source: written back (literals as they are,
/// variables as `${name}`), the segments of `source` give `source` again,
/// for every source in which `${}` does not occur.
pub proof fn law_segments_roundtrip(source: Seq<char>)
    requires
        never_occurs(source, seq!['$', '{', '}']),
    ensures
        unparse(parse_spec(source)) == source,
{
    lemma_scan_roundtrip(source, Seq::empty());
    assert(Seq::<char>::empty() + source =~= source);
}

proof fn lemma_scan_plain(rest: Seq<char>, cur: Seq<char>)
    requires
        never_occurs(rest, seq!['$', '{']),
    ensures
        scan(rest, cur) == flush(cur + rest),
    decreases rest.len(),
{
    if rest.len() == 0 {
        assert(cur + rest =~= cur);
    } else {
        if rest[0] == '$' && rest.len() >= 2 && rest[1] == '{' {
            assert(rest.subrange(0, 2) =~= seq!['$', '{']);
            assert(matches_at(rest, seq!['$', '{'], 0));
        }
        lemma_never_occurs_skip(rest, seq!['$', '{'], 1);
        lemma_scan_plain(rest.skip(1), cur.push(rest[0]));
        assert(cur.push(rest[0]) + rest.skip(1) =~= cur + rest);
    }
}

/// Text in which `${` does not occur renders to itself, whatever the
/// variables.
pub proof fn law_plain_text_renders_to_itself(source: Seq<char>, vars: Vars)
    requires
        never_occurs(source, seq!['$', '{']),
    ensures
        render_spec(parse_spec(source), vars) == source,
{
    lemma_scan_plain(source, Seq::empty());
    assert(Seq::<char>::empty() + source =~= source);
    if source.len() > 0 {
        let f = flush(source);
        assert(f.drop_last() =~= Seq::<SegView>::empty());
        assert(render_spec(f, vars) == render_spec(f.drop_last(), vars) + source);
        assert(Seq::<char>::empty() + source =~= source);
    } else {
        assert(source =~= Seq::<char>::empty());
    }
}

/// Where `pat` does not occur in `x` and its first character does not come
/// again in it, the first occurrence of `pat` in `x + pat + y` is right after
/// `x`.
proof fn lemma_first_after(x: Seq<char>, pat: Seq<char>, y: Seq<char>)
    requires
        pat.len() > 0,
        never_occurs(x, pat),
        forall|p: int| 1 <= p < pat.len() ==> #[trigger] pat[p] != pat[0],
    ensures
        find(x + pat + y, pat) == Some(x.len() as int),
{
    let s = x + pat + y;
    let k = x.len() as int;
    assert(s.subrange(k, k + pat.len()) =~= pat);
    assert(matches_at(s, pat, k));
    assert forall|j: int| 0 <= j < k implies !matches_at(s, pat, j) by {
        if matches_at(s, pat, j) {
            if j + pat.len() <= k {
                assert(s.subrange(j, j + pat.len()) =~= x.subrange(j, j + pat.len()));
                assert(matches_at(x, pat, j));
            } else {
                let p = k - j;
                assert(s.subrange(j, j + pat.len())[p] == s[k]);
                assert(s[k] == pat[0]);
            }
        }
    }
    lemma_find_from(s, pat, 0);
    match find(s, pat) {
        Some(f) => {
            assert(f == k);
        },
        None => {},
    }
}

/// A batch template given by its parts: the text before the block (in which
/// `${foreach ` does not occur), the separator (without `}`), the block (in
/// which neither `${end}` nor `${foreach ` occurs) and the text after. It
/// parses into those parts, and a batch renders as the text before, the
/// block rendered for each message with the separator between, and the text
/// after; the text outside the block sees no variables.
pub proof fn law_batch_template_parts(
    before: Seq<char>,
    sep: Seq<char>,
    inner: Seq<char>,
    after: Seq<char>,
    msgs: Seq<Vars>,
)
    requires
        never_occurs(before, foreach_marker()),
        forall|k: int| 0 <= k < sep.len() ==> sep[k] != '}',
        never_occurs(inner, end_marker()),
        never_occurs(inner, foreach_marker()),
    ensures
        ({
            let source = before + foreach_marker() + sep + seq!['}'] + inner + end_marker() + after;
            let view = TemplateView {
                before: parse_spec(before),
                block: Some((sep, parse_spec(inner))),
                after: parse_spec(after),
            };
            &&& template_spec(source, true) == Ok::<TemplateView, TemplateError>(view)
            &&& batch_spec(view, msgs) == literal_text(parse_spec(before)) + join_spec(sep, parse_spec(inner), msgs)
                + literal_text(parse_spec(after))
        }),
{
    let fm = foreach_marker();
    let em = end_marker();
    let tail = sep + seq!['}'] + inner + em + after;
    let source = before + fm + sep + seq!['}'] + inner + em + after;
    assert(source =~= before + fm + tail);
    lemma_first_after(before, fm, tail);
    let start = before.len() as int;
    let rest = source.skip(start);
    let x = fm + sep;
    let rtail = inner + em + after;
    assert(rest =~= x + seq!['}'] + rtail);
    assert forall|i: int| !matches_at(x, seq!['}'], i) by {
        if matches_at(x, seq!['}'], i) {
            assert(x.subrange(i, i + 1)[0] == x[i]);
            if i >= 10 {
                assert(x[i] == sep[i - 10]);
            }
        }
    }
    lemma_first_after(x, seq!['}'], rtail);
    let sep_end = x.len() as int;
    assert(rest.subrange(10, sep_end) =~= sep);
    let after_marker = rest.skip(sep_end + 1);
    assert(after_marker =~= inner + em + after);
    lemma_first_after(inner, em, after);
    let end_pos = inner.len() as int;
    assert(after_marker.take(end_pos) =~= inner);
    lemma_find_from(inner, fm, 0);
    match find(inner, fm) {
        Some(f) => {
            assert(matches_at(inner, fm, f));
        },
        None => {},
    }
    assert(source.take(start) =~= before);
    assert(after_marker.skip(end_pos + 6) =~= after);
}

proof fn lemma_render_add(a: Seq<SegView>, b: Seq<SegView>, vars: Vars)
    ensures
        render_spec(a + b, vars) == render_spec(a, vars) + render_spec(b, vars),
    decreases b.len(),
{
    if b.len() == 0 {
        assert(a + b =~= a);
        assert(render_spec(a, vars) + Seq::<char>::empty() =~= render_spec(a, vars));
    } else {
        lemma_render_add(a, b.drop_last(), vars);
        assert((a + b).drop_last() =~= a + b.drop_last());
    }
}

proof fn lemma_render_flush(t: Seq<char>, vars: Vars)
    ensures
        render_spec(flush(t), vars) == t,
{
    if t.len() > 0 {
        let f = flush(t);
        assert(f.drop_last() =~= Seq::<SegView>::empty());
        assert(render_spec(f, vars) == render_spec(f.drop_last(), vars) + t);
        assert(Seq::<char>::empty() + t =~= t);
    } else {
        assert(t =~= Seq::<char>::empty());
    }
}

proof fn lemma_scan_prefix(x: Seq<char>, r: Seq<char>, cur: Seq<char>)
    requires
        never_occurs(x, seq!['$', '{']),
        r.len() > 0 ==> r[0] != '{',
    ensures
        scan(x + r, cur) == scan(r, cur + x),
    decreases x.len(),
{
    if x.len() == 0 {
        assert(x + r =~= r);
        assert(cur + x =~= cur);
    } else {
        let s = x + r;
        if s[0] == '$' && s.len() >= 2 && s[1] == '{' {
            if x.len() >= 2 {
                assert(x.subrange(0, 2) =~= seq!['$', '{']);
                assert(matches_at(x, seq!['$', '{'], 0));
            } else {
                assert(s[1] == r[0]);
            }
        }
        lemma_never_occurs_skip(x, seq!['$', '{'], 1);
        assert(s.skip(1) =~= x.skip(1) + r);
        lemma_scan_prefix(x.skip(1), r, cur.push(x[0]));
        assert(cur.push(x[0]) + x.skip(1) =~= cur + x);
    }
}

/// A `${` that is never closed is kept as text: text in which `${` does not
/// occur, then `${`, then text without `}`, renders to itself whatever the
/// variables.
pub proof fn law_unclosed_renders_to_itself(text: Seq<char>, rest: Seq<char>, vars: Vars)
    requires
        never_occurs(text, seq!['$', '{']),
        forall|k: int| 0 <= k < rest.len() ==> rest[k] != '}',
    ensures
        render_spec(parse_spec(text + seq!['$', '{'] + rest), vars) == text + seq!['$', '{'] + rest,
{
    let open = seq!['$', '{'] + rest;
    assert(text + seq!['$', '{'] + rest =~= text + open);
    lemma_scan_prefix(text, open, Seq::empty());
    assert(Seq::<char>::empty() + text =~= text);
    let body = open.skip(2);
    assert(body =~= rest);
    lemma_find_from(body, seq!['}'], 0);
    match find(body, seq!['}']) {
        Some(k) => {
            assert(matches_at(body, seq!['}'], k));
            assert(body.subrange(k, k + 1)[0] == body[k]);
        },
        None => {},
    }
    assert(scan(open, text) == flush(text) + flush(seq!['$', '{'] + body));
    lemma_render_add(flush(text), flush(seq!['$', '{'] + body), vars);
    lemma_render_flush(text, vars);
    lemma_render_flush(seq!['$', '{'] + body, vars);
}

/// Rendering is piecewise: the rendering of two segment lists one after the
/// other is the rendering of the first followed by that of the second.
pub proof fn law_render_concat(a: Seq<SegView>, b: Seq<SegView>, vars: Vars)
    ensures
        render_spec(a + b, vars) == render_spec(a, vars) + render_spec(b, vars),
{
    lemma_render_add(a, b, vars);
}

/// A variable renders as exactly the value bound to its name, or as nothing
/// where its name is unbound, whatever the name.
pub proof fn law_render_variable(name: Seq<char>, vars: Vars)
    ensures
        render_spec(seq![SegView::Var(name)], vars) == match vars.spec_get(name) {
            Some(v) => v,
            None => Seq::<char>::empty(),
        },
{
    let f = seq![SegView::Var(name)];
    assert(f.drop_last() =~= Seq::<SegView>::empty());
    let v = match vars.spec_get(name) {
        Some(v) => v,
        None => Seq::<char>::empty(),
    };
    assert(f.last() == SegView::Var(name));
    assert(render_spec(f.drop_last(), vars) =~= Seq::<char>::empty());
    assert(render_spec(f, vars) == render_spec(f.drop_last(), vars) + v);
    assert(Seq::<char>::empty() + v =~= v);
}

/// A template that is one `${name}` (a name that is not empty and holds no
/// `}`) is that variable, and renders as the value bound to the name, or as
/// nothing where the name is unbound.
pub proof fn law_variable_template(name: Seq<char>, vars: Vars)
    requires
        name.len() > 0,
        forall|k: int| 0 <= k < name.len() ==> name[k] != '}',
    ensures
        parse_spec(seq!['$', '{'] + name + seq!['}']) == seq![SegView::Var(name)],
        render_spec(parse_spec(seq!['$', '{'] + name + seq!['}']), vars) == match vars.spec_get(name) {
            Some(v) => v,
            None => Seq::<char>::empty(),
        },
{
    let src = seq!['$', '{'] + name + seq!['}'];
    let body = src.skip(2);
    assert(body =~= name + seq!['}']);
    lemma_find_from(body, seq!['}'], 0);
    assert(body.subrange(name.len() as int, name.len() as int + 1) =~= seq!['}']);
    assert(matches_at(body, seq!['}'], name.len() as int));
    assert forall|j: int| 0 <= j < name.len() implies !matches_at(body, seq!['}'], j) by {
        if matches_at(body, seq!['}'], j) {
            assert(body.subrange(j, j + 1)[0] == body[j]);
            assert(body[j] == name[j]);
        }
    }
    match find(body, seq!['}']) {
        Some(k) => {
            assert(k == name.len());
        },
        None => {},
    }
    assert(body.take(name.len() as int) =~= name);
    assert(body.skip(name.len() as int + 1) =~= Seq::<char>::empty());
    assert(flush(Seq::<char>::empty()) =~= Seq::<SegView>::empty());
    assert(scan(Seq::<char>::empty(), Seq::<char>::empty()) =~= Seq::<SegView>::empty());
    assert(parse_spec(src) =~= seq![SegView::Var(name)]);
    law_render_variable(name, vars);
}

/// One message more adds the separator and that message's rendering to a
/// batch block of at least one message.
pub proof fn law_join_append(sep: Seq<char>, inner: Seq<SegView>, msgs: Seq<Vars>, m: Vars)
    requires
        msgs.len() > 0,
    ensures
        join_spec(sep, inner, msgs.push(m)) == join_spec(sep, inner, msgs) + sep + render_spec(inner, m),
{
    assert(msgs.push(m).drop_last() =~= msgs);
}

/// A batch block of one message is that message's rendering; of none, nothing.
pub proof fn law_join_small(sep: Seq<char>, inner: Seq<SegView>, m: Vars)
    ensures
        join_spec(sep, inner, seq![m]) == render_spec(inner, m),
        join_spec(sep, inner, Seq::<Vars>::empty()) == Seq::<char>::empty(),
{
}

/// The batch block of two runs of messages one after the other is the block
/// of the first, the separator, and the block of the second: the separator
/// stands between every two consecutive messages.
pub proof fn law_join_concat(sep: Seq<char>, inner: Seq<SegView>, a: Seq<Vars>, b: Seq<Vars>)
    requires
        a.len() > 0,
        b.len() > 0,
    ensures
        join_spec(sep, inner, a + b) == join_spec(sep, inner, a) + sep + join_spec(sep, inner, b),
    decreases b.len(),
{
    if b.len() == 1 {
        assert(a + b =~= a.push(b[0]));
        law_join_append(sep, inner, a, b[0]);
        assert(b =~= seq![b[0]]);
    } else {
        let d = b.drop_last();
        law_join_concat(sep, inner, a, d);
        assert((a + b).drop_last() =~= a + d);
        assert((a + b).last() == b.last());
        assert(join_spec(sep, inner, a + b) == join_spec(sep, inner, a + d) + sep + render_spec(inner, b.last()));
        assert(join_spec(sep, inner, b) == join_spec(sep, inner, d) + sep + render_spec(inner, b.last()));
        assert(join_spec(sep, inner, a + b) =~= join_spec(sep, inner, a) + sep + join_spec(sep, inner, b));
    }
}

} // verus!
