//! Bookkeeping of a pool of subscription connections: which connection
//! follows which channels, and how new channels are spread over connections
//! without any connection exceeding its capacity.
use vstd::prelude::*;
use crate::text::{views, vec_contains, copy_range};

verus! {

/// `set` extended by each element of `batch` that it does not hold yet, in order.
pub open spec fn add_new<A>(set: Seq<A>, batch: Seq<A>) -> Seq<A>
    decreases batch.len(),
{
    if batch.len() == 0 {
        set
    } else {
        let prev = add_new(set, batch.drop_last());
        if prev.contains(batch.last()) {
            prev
        } else {
            prev.push(batch.last())
        }
    }
}

/// The elements of `s` that `gone` does not hold, in order.
pub open spec fn without<A>(s: Seq<A>, gone: Seq<A>) -> Seq<A>
    decreases s.len(),
{
    if s.len() == 0 {
        s
    } else {
        let prev = without(s.drop_last(), gone);
        if gone.contains(s.last()) {
            prev
        } else {
            prev.push(s.last())
        }
    }
}

pub proof fn lemma_without<A>(s: Seq<A>, gone: Seq<A>)
    ensures
        forall|x: A| #[trigger] without(s, gone).contains(x) <==> (s.contains(x) && !gone.contains(x)),
        s.no_duplicates() ==> without(s, gone).no_duplicates(),
        without(s, gone).len() <= s.len(),
    decreases s.len(),
{
    if s.len() > 0 {
        let prev = without(s.drop_last(), gone);
        lemma_without(s.drop_last(), gone);
        let r = without(s, gone);
        assert forall|x: A| #[trigger] r.contains(x) <==> (s.contains(x) && !gone.contains(x)) by {
            if s.contains(x) {
                let k = choose|k: int| 0 <= k < s.len() && s[k] == x;
                if k < s.len() - 1 {
                    assert(s.drop_last()[k] == x);
                }
            }
            if s.drop_last().contains(x) {
                let k = choose|k: int| 0 <= k < s.drop_last().len() && s.drop_last()[k] == x;
                assert(s[k] == x);
            }
            if prev.contains(x) {
                let k = choose|k: int| 0 <= k < prev.len() && prev[k] == x;
                assert(r[k] == x);
            }
            if r.contains(x) && !prev.contains(x) {
                let k = choose|k: int| 0 <= k < r.len() && r[k] == x;
                if k < prev.len() {
                    assert(prev[k] == x);
                }
            }
            if s.contains(x) && !gone.contains(x) && !s.drop_last().contains(x) {
                let k = choose|k: int| 0 <= k < s.len() && s[k] == x;
                assert(k == s.len() - 1);
                assert(r[r.len() - 1] == x);
            }
        }
        if s.no_duplicates() && !gone.contains(s.last()) {
            assert(s.drop_last().no_duplicates());
            if s.drop_last().contains(s.last()) {
                let k = choose|k: int| 0 <= k < s.drop_last().len() && s.drop_last()[k] == s.last();
                assert(s[k] == s[s.len() - 1]);
            }
            assert(!prev.contains(s.last()));
            assert forall|i: int, j: int| 0 <= i < r.len() && 0 <= j < r.len() && i != j implies r[i] != r[j] by {
                if i < prev.len() && j < prev.len() {
                } else if i < prev.len() {
                    assert(prev.contains(r[i]));
                } else if j < prev.len() {
                    assert(prev.contains(r[j]));
                }
            }
        }
    }
}

pub proof fn lemma_add_new<A>(set: Seq<A>, batch: Seq<A>)
    ensures
        add_new(set, batch).len() <= set.len() + batch.len(),
        set.len() <= add_new(set, batch).len(),
        add_new(set, batch).subrange(0, set.len() as int) == set,
        forall|x: A| #[trigger] add_new(set, batch).contains(x) <==> (set.contains(x) || batch.contains(x)),
        set.no_duplicates() ==> add_new(set, batch).no_duplicates(),
    decreases batch.len(),
{
    if batch.len() > 0 {
        let prev = add_new(set, batch.drop_last());
        lemma_add_new(set, batch.drop_last());
        let r = add_new(set, batch);
        assert forall|x: A| #[trigger] r.contains(x) <==> (set.contains(x) || batch.contains(x)) by {
            if batch.contains(x) && !batch.drop_last().contains(x) {
                let k = choose|k: int| 0 <= k < batch.len() && batch[k] == x;
                if k < batch.len() - 1 {
                    assert(batch.drop_last()[k] == x);
                }
                assert(x == batch.last());
                if !prev.contains(x) {
                    assert(r[r.len() - 1] == x);
                }
            }
            if batch.drop_last().contains(x) {
                let k = choose|k: int| 0 <= k < batch.drop_last().len() && batch.drop_last()[k] == x;
                assert(batch[k] == x);
            }
            if r.contains(x) && !prev.contains(x) {
                let k = choose|k: int| 0 <= k < r.len() && r[k] == x;
                if k < prev.len() {
                    assert(prev[k] == x);
                }
                assert(x == batch.last());
                assert(batch[batch.len() - 1] == x);
            }
            if prev.contains(x) {
                let k = choose|k: int| 0 <= k < prev.len() && prev[k] == x;
                assert(r[k] == x);
            }
        }
        assert(r.subrange(0, set.len() as int) =~= set) by {
            assert(prev.subrange(0, set.len() as int) == set);
        }
    } else {
        assert(set.subrange(0, set.len() as int) =~= set);
    }
}

/// The channel sequences of a list of batches, joined in order.
pub open spec fn flatten<A>(batches: Seq<Seq<A>>) -> Seq<A>
    decreases batches.len(),
{
    if batches.len() == 0 {
        Seq::empty()
    } else {
        flatten(batches.drop_last()) + batches.last()
    }
}

/// The count by which connection `i` is judged full: the larger of the
/// channels planned for it in the current call and the channels it follows.
pub open spec fn effective(conns: Seq<Seq<Seq<char>>>, planned: Seq<int>, i: int) -> int {
    if planned[i] >= conns[i].len() {
        planned[i]
    } else {
        conns[i].len() as int
    }
}

/// The first connection at or after `i` with room left, or `conns.len()` when
/// none has.
pub open spec fn first_open(conns: Seq<Seq<Seq<char>>>, planned: Seq<int>, cap: int, i: int) -> int
    decreases conns.len() - i,
{
    if i >= conns.len() {
        conns.len() as int
    } else if effective(conns, planned, i) < cap {
        i
    } else {
        first_open(conns, planned, cap, i + 1)
    }
}

/// The first-fit placement of `rem`: each step takes the first connection with
/// room (or a new empty one appended at the end when none has), gives it as
/// many of the next channels as fit, and goes on with the rest. Yields the
/// connections' channels afterwards and the batches, each with the position of
/// the connection that receives it.
pub open spec fn plan(
    conns: Seq<Seq<Seq<char>>>,
    planned: Seq<int>,
    rem: Seq<Seq<char>>,
    cap: int,
) -> (Seq<Seq<Seq<char>>>, Seq<(int, Seq<Seq<char>>)>)
    decreases rem.len(),
{
    if rem.len() == 0 {
        (conns, Seq::empty())
    } else {
        let i = first_open(conns, planned, cap, 0);
        let c1 = if i == conns.len() { conns.push(Seq::empty()) } else { conns };
        let p1 = if i == conns.len() { planned.push(0) } else { planned };
        let room = cap - effective(c1, p1, i);
        let n = if rem.len() < room { rem.len() as int } else { room };
        if n <= 0 {
            (conns, Seq::empty())
        } else {
            let rest = plan(
                c1.update(i, add_new(c1[i], rem.take(n))),
                p1.update(i, p1[i] + n),
                rem.skip(n),
                cap,
            );
            (rest.0, seq![(i, rem.take(n))] + rest.1)
        }
    }
}

/// One connection of the pool as far as channel tracking goes: its id and the
/// channels it is subscribed to (or about to be), each once.
pub struct Connection {
    id: usize,
    channels: Vec<String>,
}

impl Connection {
    pub closed spec fn spec_id(&self) -> usize {
        self.id
    }

    /// The channels it follows, in the order they were first followed.
    pub closed spec fn channel_set(&self) -> Seq<Seq<char>> {
        views(self.channels@)
    }

    pub open spec fn wf(&self) -> bool {
        self.channel_set().no_duplicates()
    }

    pub fn new(id: usize) -> (c: Connection)
        ensures
            c.spec_id() == id,
            c.channel_set() == Seq::<Seq<char>>::empty(),
            c.wf(),
    {
        let c = Connection { id, channels: Vec::new() };
        assert(c.channel_set() =~= Seq::<Seq<char>>::empty());
        c
    }

    pub fn id(&self) -> (r: usize)
        ensures
            r == self.spec_id(),
    {
        self.id
    }

    pub fn channel_count(&self) -> (r: usize)
        ensures
            r == self.channel_set().len(),
    {
        self.channels.len()
    }

    /// A copy of the channels it follows.
    pub fn subscribed_channels(&self) -> (r: Vec<String>)
        ensures
            views(r@) == self.channel_set(),
    {
        let r = copy_range(&self.channels, 0, self.channels.len());
        assert(r@ =~= self.channels@);
        r
    }

    /// Adds `channels` to the followed set (those already followed stay once).
    pub fn pre_track_channels(&mut self, channels: &[String])
        requires
            old(self).wf(),
        ensures
            final(self).wf(),
            final(self).spec_id() == old(self).spec_id(),
            final(self).channel_set() == add_new(old(self).channel_set(), views(channels@)),
    {
        let ghost orig = self.channel_set();
        let mut k: usize = 0;
        while k < channels.len()
            invariant
                0 <= k <= channels@.len(),
                self.id == old(self).id,
                self.channel_set() == add_new(orig, views(channels@).take(k as int)),
                self.channel_set().no_duplicates(),
            decreases channels@.len() - k,
        {
            let c = &channels[k];
            let present = vec_contains(&self.channels, c);
            proof {
                let b = views(channels@).take(k + 1);
                assert(b.drop_last() =~= views(channels@).take(k as int));
                assert(b.last() == c@);
            }
            if !present {
                self.channels.push(c.clone());
                assert(self.channel_set() =~= add_new(orig, views(channels@).take(k + 1)));
            }
            k = k + 1;
        }
        assert(views(channels@).take(channels@.len() as int) =~= views(channels@));
    }

    /// Stops following `channels`.
    pub fn remove_channels(&mut self, channels: &[String])
        requires
            old(self).wf(),
        ensures
            final(self).wf(),
            final(self).spec_id() == old(self).spec_id(),
            final(self).channel_set() == without(old(self).channel_set(), views(channels@)),
    {
        let ghost orig = self.channel_set();
        let ghost gone = views(channels@);
        let mut kept: Vec<String> = Vec::new();
        let mut k: usize = 0;
        while k < self.channels.len()
            invariant
                0 <= k <= self.channels@.len(),
                views(self.channels@) == orig,
                self.id == old(self).id,
                gone == views(channels@),
                views(kept@) == without(orig.take(k as int), gone),
            decreases self.channels@.len() - k,
        {
            let hit = vec_contains(channels, &self.channels[k]);
            proof {
                assert(orig.take(k + 1).drop_last() =~= orig.take(k as int));
                assert(orig.take(k + 1).last() == self.channels@[k as int]@);
            }
            if !hit {
                kept.push(self.channels[k].clone());
                assert(views(kept@) =~= without(orig.take(k + 1), gone));
            }
            k = k + 1;
        }
        assert(orig.take(orig.len() as int) =~= orig);
        self.channels = kept;
        proof {
            lemma_without(orig, gone);
        }
    }
}

/// One step of [`plan`] unfolded.
pub proof fn lemma_plan_step(conns: Seq<Seq<Seq<char>>>, planned: Seq<int>, rem: Seq<Seq<char>>, cap: int)
    requires
        rem.len() > 0,
    ensures
        ({
            let i = first_open(conns, planned, cap, 0);
            let c1 = if i == conns.len() { conns.push(Seq::empty()) } else { conns };
            let p1 = if i == conns.len() { planned.push(0) } else { planned };
            let room = cap - effective(c1, p1, i);
            let n = if rem.len() < room { rem.len() as int } else { room };
            n > 0 ==> plan(conns, planned, rem, cap) == (
                plan(c1.update(i, add_new(c1[i], rem.take(n))), p1.update(i, p1[i] + n), rem.skip(n), cap).0,
                seq![(i, rem.take(n))] + plan(c1.update(i, add_new(c1[i], rem.take(n))), p1.update(i, p1[i] + n), rem.skip(n), cap).1,
            )
        }),
{
}

/// No channel is followed by two different connections.
pub open spec fn no_shared_channel(conns: Seq<Seq<Seq<char>>>) -> bool {
    forall|i: int, j: int, x: Seq<char>|
        0 <= i < j < conns.len() && #[trigger] conns[i].contains(x) ==> !#[trigger] conns[j].contains(x)
}

proof fn lemma_first_open_range(conns: Seq<Seq<Seq<char>>>, planned: Seq<int>, cap: int, i: int)
    requires
        0 <= i,
    ensures
        i <= conns.len() ==> i <= first_open(conns, planned, cap, i) <= conns.len(),
        i > conns.len() ==> first_open(conns, planned, cap, i) == conns.len(),
        first_open(conns, planned, cap, i) < conns.len()
            ==> effective(conns, planned, first_open(conns, planned, cap, i)) < cap,
    decreases conns.len() - i,
{
    if i < conns.len() {
        lemma_first_open_range(conns, planned, cap, i + 1);
    }
}

/// Spreading channels that are distinct and followed by no connection yet
/// over connections that share no channel leaves them sharing none: no channel
/// ends up followed twice.
pub proof fn law_plan_no_shared_channel(
    conns: Seq<Seq<Seq<char>>>,
    planned: Seq<int>,
    rem: Seq<Seq<char>>,
    cap: int,
)
    requires
        no_shared_channel(conns),
        rem.no_duplicates(),
        forall|j: int, k: int| 0 <= j < conns.len() && 0 <= k < rem.len() ==> !(#[trigger] conns[j]).contains(#[trigger] rem[k]),
    ensures
        no_shared_channel(plan(conns, planned, rem, cap).0),
    decreases rem.len(),
{
    if rem.len() > 0 {
        let i = first_open(conns, planned, cap, 0);
        lemma_first_open_range(conns, planned, cap, 0);
        let c1 = if i == conns.len() { conns.push(Seq::empty()) } else { conns };
        let p1 = if i == conns.len() { planned.push(0) } else { planned };
        let room = cap - effective(c1, p1, i);
        let n = if rem.len() < room { rem.len() as int } else { room };
        if n > 0 {
            let batch = rem.take(n);
            let rest = rem.skip(n);
            let c2 = c1.update(i, add_new(c1[i], batch));
            lemma_add_new(c1[i], batch);
            assert forall|j: int, k: int| 0 <= j < c1.len() && 0 <= k < rem.len() implies !(#[trigger] c1[j]).contains(#[trigger] rem[k]) by {
                if j < conns.len() {
                    assert(c1[j] == conns[j]);
                } else {
                    assert(c1[j] =~= Seq::<Seq<char>>::empty());
                }
            }
            assert(no_shared_channel(c1)) by {
                assert forall|a: int, b: int, x: Seq<char>|
                    0 <= a < b < c1.len() && #[trigger] c1[a].contains(x) implies !#[trigger] c1[b].contains(x) by {
                    if b == conns.len() {
                        assert(c1[b] =~= Seq::<Seq<char>>::empty());
                    } else {
                        assert(c1[a] == conns[a] && c1[b] == conns[b]);
                    }
                }
            }
            assert(no_shared_channel(c2)) by {
                assert forall|a: int, b: int, x: Seq<char>|
                    0 <= a < b < c2.len() && #[trigger] c2[a].contains(x) implies !#[trigger] c2[b].contains(x) by {
                    if a == i || b == i {
                        let o = if a == i { b } else { a };
                        assert(c2[o] == c1[o]);
                        if batch.contains(x) {
                            let k = choose|k: int| 0 <= k < batch.len() && batch[k] == x;
                            assert(rem[k] == x);
                            assert(!c1[o].contains(rem[k]));
                        }
                    } else {
                        assert(c2[a] == c1[a] && c2[b] == c1[b]);
                    }
                }
            }
            assert(rest.no_duplicates()) by {
                assert forall|a: int, b: int| 0 <= a < rest.len() && 0 <= b < rest.len() && a != b implies rest[a] != rest[b] by {
                    assert(rest[a] == rem[a + n] && rest[b] == rem[b + n]);
                }
            }
            assert forall|j: int, k: int| 0 <= j < c2.len() && 0 <= k < rest.len() implies !(#[trigger] c2[j]).contains(#[trigger] rest[k]) by {
                assert(rest[k] == rem[k + n]);
                if j == i {
                    if batch.contains(rest[k]) {
                        let m = choose|m: int| 0 <= m < batch.len() && batch[m] == rest[k];
                        assert(rem[m] == rem[k + n]);
                    }
                    assert(!c1[i].contains(rem[k + n]));
                } else {
                    assert(c2[j] == c1[j]);
                }
            }
            law_plan_no_shared_channel(c2, p1.update(i, p1[i] + n), rest, cap);
            lemma_plan_step(conns, planned, rem, cap);
        }
    }
}

/// How many channels the connections follow, all counted.
pub open spec fn total_followed(conns: Seq<Seq<Seq<char>>>) -> int
    decreases conns.len(),
{
    if conns.len() == 0 {
        0
    } else {
        total_followed(conns.drop_last()) + conns.last().len()
    }
}

proof fn lemma_total_update(conns: Seq<Seq<Seq<char>>>, i: int, v: Seq<Seq<char>>)
    requires
        0 <= i < conns.len(),
    ensures
        total_followed(conns.update(i, v)) == total_followed(conns) - conns[i].len() + v.len(),
    decreases conns.len(),
{
    let u = conns.update(i, v);
    if i == conns.len() - 1 {
        assert(u.drop_last() =~= conns.drop_last());
    } else {
        assert(u.drop_last() =~= conns.drop_last().update(i, v));
        lemma_total_update(conns.drop_last(), i, v);
    }
}

proof fn lemma_add_new_len<A>(set: Seq<A>, batch: Seq<A>)
    requires
        batch.no_duplicates(),
        forall|k: int| 0 <= k < batch.len() ==> !set.contains(#[trigger] batch[k]),
    ensures
        add_new(set, batch).len() == set.len() + batch.len(),
    decreases batch.len(),
{
    if batch.len() > 0 {
        let d = batch.drop_last();
        assert forall|k: int| 0 <= k < d.len() implies !set.contains(#[trigger] d[k]) by {
            assert(d[k] == batch[k]);
        }
        lemma_add_new_len(set, d);
        lemma_add_new(set, d);
        if d.contains(batch.last()) {
            let k = choose|k: int| 0 <= k < d.len() && d[k] == batch.last();
            assert(batch[k] == batch[batch.len() - 1]);
        }
        assert(!set.contains(batch[batch.len() - 1]));
    }
}

/// Some connection follows `x`.
pub open spec fn followed_by_any(conns: Seq<Seq<Seq<char>>>, x: Seq<char>) -> bool {
    exists|j: int| 0 <= j < conns.len() && (#[trigger] conns[j]).contains(x)
}

/// With room to spare (a capacity above zero), spreading channels keeps
/// what the connections followed: the existing connections stay, in order,
/// each still following its channels first; and the channels followed
/// afterwards are exactly those followed before and those spread.
pub proof fn law_plan_union(
    conns: Seq<Seq<Seq<char>>>,
    planned: Seq<int>,
    rem: Seq<Seq<char>>,
    cap: int,
)
    requires
        cap > 0,
        planned.len() == conns.len(),
    ensures
        ({
            let after = plan(conns, planned, rem, cap).0;
            &&& after.len() >= conns.len()
            &&& forall|j: int| 0 <= j < conns.len() ==> conns[j].len() <= (#[trigger] after[j]).len()
                && after[j].subrange(0, conns[j].len() as int) == conns[j]
            &&& forall|x: Seq<char>| followed_by_any(after, x) <==> (followed_by_any(conns, x) || rem.contains(x))
        }),
    decreases rem.len(),
{
    if rem.len() == 0 {
        let after = plan(conns, planned, rem, cap).0;
        assert forall|j: int| 0 <= j < conns.len() implies conns[j].len() <= (#[trigger] after[j]).len()
            && after[j].subrange(0, conns[j].len() as int) == conns[j] by {
            assert(conns[j].subrange(0, conns[j].len() as int) =~= conns[j]);
        }
        return;
    }
    let i = first_open(conns, planned, cap, 0);
    lemma_first_open_range(conns, planned, cap, 0);
    let c1 = if i == conns.len() { conns.push(Seq::empty()) } else { conns };
    let p1 = if i == conns.len() { planned.push(0) } else { planned };
    let room = cap - effective(c1, p1, i);
    let n = if rem.len() < room { rem.len() as int } else { room };
    assert(n > 0);
    let batch = rem.take(n);
    let rest = rem.skip(n);
    let c2 = c1.update(i, add_new(c1[i], batch));
    let p2 = p1.update(i, p1[i] + n);
    lemma_add_new(c1[i], batch);
    law_plan_union(c2, p2, rest, cap);
    lemma_plan_step(conns, planned, rem, cap);
    let after = plan(conns, planned, rem, cap).0;
    assert(after == plan(c2, p2, rest, cap).0);
    assert forall|j: int| 0 <= j < conns.len() implies conns[j].len() <= (#[trigger] after[j]).len()
        && after[j].subrange(0, conns[j].len() as int) == conns[j] by {
        assert(c2[j].len() <= after[j].len() && after[j].subrange(0, c2[j].len() as int) == c2[j]);
        if j == i {
            assert(conns[j].len() <= c2[j].len());
            assert(c2[j].subrange(0, conns[j].len() as int) == conns[j]);
            assert forall|k: int| 0 <= k < conns[j].len() implies after[j][k] == conns[j][k] by {
                assert(after[j].subrange(0, c2[j].len() as int)[k] == after[j][k]);
                assert(c2[j].subrange(0, conns[j].len() as int)[k] == c2[j][k]);
            }
            assert(after[j].subrange(0, conns[j].len() as int) =~= conns[j]);
        } else {
            assert(c2[j] == conns[j]);
        }
    }
    assert forall|x: Seq<char>| followed_by_any(after, x) <==> (followed_by_any(conns, x) || rem.contains(x)) by {
        // What c2 follows: what conns follows and the batch.
        if followed_by_any(c2, x) {
            let j = choose|j: int| 0 <= j < c2.len() && (#[trigger] c2[j]).contains(x);
            if j == i {
                if batch.contains(x) {
                    let k = choose|k: int| 0 <= k < batch.len() && batch[k] == x;
                    assert(rem[k] == x);
                } else {
                    if i < conns.len() {
                        assert(conns[i].contains(x));
                    } else {
                        assert(c1[i] =~= Seq::<Seq<char>>::empty());
                    }
                }
            } else if j < conns.len() {
                assert(c2[j] == conns[j]);
            } else {
                assert(c2[j] =~= Seq::<Seq<char>>::empty());
            }
        }
        if followed_by_any(conns, x) {
            let j = choose|j: int| 0 <= j < conns.len() && (#[trigger] conns[j]).contains(x);
            if j == i {
                assert(c2[j].contains(x));
            } else {
                assert(c2[j] == conns[j]);
            }
        }
        if rem.contains(x) {
            let k = choose|k: int| 0 <= k < rem.len() && rem[k] == x;
            if k < n {
                assert(batch[k] == x);
                assert(c2[i].contains(x));
            } else {
                assert(rest[k - n] == x);
            }
        }
        if rest.contains(x) {
            let k = choose|k: int| 0 <= k < rest.len() && rest[k] == x;
            assert(rem[k + n] == x);
        }
    }
}

/// With room on every connection (a capacity above zero), spreading channels
/// that are distinct and followed by no connection yet adds exactly their
/// number to the channels followed, all connections counted.
pub proof fn law_plan_total(
    conns: Seq<Seq<Seq<char>>>,
    planned: Seq<int>,
    rem: Seq<Seq<char>>,
    cap: int,
)
    requires
        cap > 0,
        planned.len() == conns.len(),
        rem.no_duplicates(),
        forall|j: int, k: int| 0 <= j < conns.len() && 0 <= k < rem.len() ==> !(#[trigger] conns[j]).contains(#[trigger] rem[k]),
    ensures
        total_followed(plan(conns, planned, rem, cap).0) == total_followed(conns) + rem.len(),
    decreases rem.len(),
{
    if rem.len() > 0 {
        let i = first_open(conns, planned, cap, 0);
        lemma_first_open_range(conns, planned, cap, 0);
        let c1 = if i == conns.len() { conns.push(Seq::empty()) } else { conns };
        let p1 = if i == conns.len() { planned.push(0) } else { planned };
        if i == conns.len() {
            assert(c1.drop_last() =~= conns);
        }
        let room = cap - effective(c1, p1, i);
        let n = if rem.len() < room { rem.len() as int } else { room };
        assert(n > 0);
        let batch = rem.take(n);
        let rest = rem.skip(n);
        let c2 = c1.update(i, add_new(c1[i], batch));
        assert forall|k: int| 0 <= k < batch.len() implies !c1[i].contains(#[trigger] batch[k]) by {
            assert(batch[k] == rem[k]);
            if i < conns.len() {
                assert(!conns[i].contains(rem[k]));
            } else {
                assert(c1[i] =~= Seq::<Seq<char>>::empty());
            }
        }
        assert(batch.no_duplicates());
        lemma_add_new_len(c1[i], batch);
        lemma_add_new(c1[i], batch);
        lemma_total_update(c1, i, add_new(c1[i], batch));
        assert(rest.no_duplicates()) by {
            assert forall|a: int, b: int| 0 <= a < rest.len() && 0 <= b < rest.len() && a != b implies rest[a] != rest[b] by {
                assert(rest[a] == rem[a + n] && rest[b] == rem[b + n]);
            }
        }
        assert forall|j: int, k: int| 0 <= j < c2.len() && 0 <= k < rest.len() implies !(#[trigger] c2[j]).contains(#[trigger] rest[k]) by {
            assert(rest[k] == rem[k + n]);
            if j == i {
                if batch.contains(rest[k]) {
                    let m = choose|m: int| 0 <= m < batch.len() && batch[m] == rest[k];
                    assert(rem[m] == rem[k + n]);
                }
                if i < conns.len() {
                    assert(!conns[i].contains(rem[k + n]));
                } else {
                    assert(c1[i] =~= Seq::<Seq<char>>::empty());
                }
            } else if j < conns.len() {
                assert(c2[j] == conns[j]);
            } else {
                assert(c2[j] =~= Seq::<Seq<char>>::empty());
            }
        }
        law_plan_total(c2, p1.update(i, p1[i] + n), rest, cap);
        lemma_plan_step(conns, planned, rem, cap);
    }
}

/// The room left on the connections, each holding at most `cap` channels.
pub open spec fn spare(conns: Seq<Seq<Seq<char>>>, cap: int) -> int
    decreases conns.len(),
{
    if conns.len() == 0 {
        0
    } else {
        spare(conns.drop_last(), cap) + (cap - conns.last().len())
    }
}

/// How many connections `n` channels need beyond `spare` room, `cap` to a
/// connection: none where they fit, else the excess divided by `cap`,
/// rounded up.
pub open spec fn connections_needed(n: int, spare: int, cap: int) -> int {
    if n <= spare {
        0
    } else {
        (n - spare + cap - 1) / cap
    }
}

proof fn lemma_spare_update(conns: Seq<Seq<Seq<char>>>, i: int, v: Seq<Seq<char>>, cap: int)
    requires
        0 <= i < conns.len(),
    ensures
        spare(conns.update(i, v), cap) == spare(conns, cap) + conns[i].len() - v.len(),
    decreases conns.len(),
{
    let u = conns.update(i, v);
    if i == conns.len() - 1 {
        assert(u.drop_last() =~= conns.drop_last());
    } else {
        assert(u.drop_last() =~= conns.drop_last().update(i, v));
        lemma_spare_update(conns.drop_last(), i, v, cap);
    }
}

proof fn lemma_spare_covers(conns: Seq<Seq<Seq<char>>>, i: int, cap: int)
    requires
        0 <= i < conns.len(),
        forall|j: int| 0 <= j < conns.len() ==> (#[trigger] conns[j]).len() <= cap,
    ensures
        spare(conns, cap) >= cap - conns[i].len(),
        spare(conns, cap) >= 0,
    decreases conns.len(),
{
    let d = conns.drop_last();
    assert forall|j: int| 0 <= j < d.len() implies (#[trigger] d[j]).len() <= cap by {
        assert(d[j] == conns[j]);
    }
    if d.len() > 0 {
        lemma_spare_covers(d, if i < d.len() { i } else { 0 }, cap);
    }
    assert(spare(conns, cap) == spare(d, cap) + (cap - conns.last().len()));
    assert(conns.last().len() <= cap);
    if i < d.len() {
        assert(d[i] == conns[i]);
    }
}

proof fn lemma_full_no_spare(conns: Seq<Seq<Seq<char>>>, planned: Seq<int>, cap: int, k: int)
    requires
        0 <= k <= conns.len(),
        planned.len() == conns.len(),
        forall|j: int| 0 <= j < conns.len() ==> 0 <= #[trigger] planned[j] <= conns[j].len(),
        first_open(conns, planned, cap, k) == conns.len(),
    ensures
        forall|j: int| k <= j < conns.len() ==> (#[trigger] conns[j]).len() >= cap,
    decreases conns.len() - k,
{
    if k < conns.len() {
        assert(effective(conns, planned, k) >= cap);
        lemma_full_no_spare(conns, planned, cap, k + 1);
    }
}

proof fn lemma_spare_zero(conns: Seq<Seq<Seq<char>>>, cap: int)
    requires
        forall|j: int| 0 <= j < conns.len() ==> (#[trigger] conns[j]).len() == cap,
    ensures
        spare(conns, cap) == 0,
    decreases conns.len(),
{
    if conns.len() > 0 {
        let d = conns.drop_last();
        assert forall|j: int| 0 <= j < d.len() implies (#[trigger] d[j]).len() == cap by {
            assert(d[j] == conns[j]);
        }
        lemma_spare_zero(d, cap);
    }
}

/// On connections with at most `cap` channels each (`cap` above zero),
/// spreading channels that are distinct and followed by no connection yet
/// opens exactly as many new connections as the channels that do not fit
/// in the room left need: the excess over the room, divided by `cap` and
/// rounded up; none where they fit.
pub proof fn law_plan_new_connections(
    conns: Seq<Seq<Seq<char>>>,
    planned: Seq<int>,
    rem: Seq<Seq<char>>,
    cap: int,
)
    requires
        cap > 0,
        planned.len() == conns.len(),
        forall|j: int| 0 <= j < conns.len() ==> 0 <= #[trigger] planned[j] <= conns[j].len(),
        forall|j: int| 0 <= j < conns.len() ==> (#[trigger] conns[j]).len() <= cap,
        rem.no_duplicates(),
        forall|j: int, k: int| 0 <= j < conns.len() && 0 <= k < rem.len() ==> !(#[trigger] conns[j]).contains(#[trigger] rem[k]),
    ensures
        plan(conns, planned, rem, cap).0.len() == conns.len() + connections_needed(rem.len() as int, spare(conns, cap), cap),
    decreases rem.len(),
{
    if conns.len() > 0 {
        lemma_spare_covers(conns, 0, cap);
    }
    if rem.len() == 0 {
        return;
    }
    let i = first_open(conns, planned, cap, 0);
    lemma_first_open_range(conns, planned, cap, 0);
    let c1 = if i == conns.len() { conns.push(Seq::empty()) } else { conns };
    let p1 = if i == conns.len() { planned.push(0) } else { planned };
    let room = cap - effective(c1, p1, i);
    let n = if rem.len() < room { rem.len() as int } else { room };
    if i == conns.len() {
        lemma_full_no_spare(conns, planned, cap, 0);
        lemma_spare_zero(conns, cap);
        assert(c1.drop_last() =~= conns);
        assert(spare(c1, cap) == cap);
        assert(room == cap);
    } else {
        assert(effective(conns, planned, i) == conns[i].len());
        lemma_spare_covers(conns, i, cap);
    }
    assert(n > 0);
    let batch = rem.take(n);
    let rest = rem.skip(n);
    let c2 = c1.update(i, add_new(c1[i], batch));
    let p2 = p1.update(i, p1[i] + n);
    assert forall|k: int| 0 <= k < batch.len() implies !c1[i].contains(#[trigger] batch[k]) by {
        assert(batch[k] == rem[k]);
        if i < conns.len() {
            assert(!conns[i].contains(rem[k]));
        } else {
            assert(c1[i] =~= Seq::<Seq<char>>::empty());
        }
    }
    assert(batch.no_duplicates());
    lemma_add_new_len(c1[i], batch);
    lemma_spare_update(c1, i, add_new(c1[i], batch), cap);
    assert(spare(c2, cap) == spare(c1, cap) - n);
    assert(rest.no_duplicates()) by {
        assert forall|a: int, b: int| 0 <= a < rest.len() && 0 <= b < rest.len() && a != b implies rest[a] != rest[b] by {
            assert(rest[a] == rem[a + n] && rest[b] == rem[b + n]);
        }
    }
    assert forall|j: int, k: int| 0 <= j < c2.len() && 0 <= k < rest.len() implies !(#[trigger] c2[j]).contains(#[trigger] rest[k]) by {
        assert(rest[k] == rem[k + n]);
        if j == i {
            lemma_add_new(c1[i], batch);
            if batch.contains(rest[k]) {
                let m = choose|m: int| 0 <= m < batch.len() && batch[m] == rest[k];
                assert(rem[m] == rem[k + n]);
            }
            if i < conns.len() {
                assert(!conns[i].contains(rem[k + n]));
            } else {
                assert(c1[i] =~= Seq::<Seq<char>>::empty());
            }
        } else if j < conns.len() {
            assert(c2[j] == conns[j]);
        } else {
            assert(c2[j] =~= Seq::<Seq<char>>::empty());
        }
    }
    assert forall|j: int| 0 <= j < c2.len() implies 0 <= #[trigger] p2[j] <= c2[j].len() by {
        if j != i {
            if j < conns.len() {
                assert(c2[j] == conns[j] && p2[j] == planned[j]);
            }
        }
    }
    assert forall|j: int| 0 <= j < c2.len() implies (#[trigger] c2[j]).len() <= cap by {
        if j != i && j < conns.len() {
            assert(c2[j] == conns[j]);
        }
    }
    law_plan_new_connections(c2, p2, rest, cap);
    lemma_plan_step(conns, planned, rem, cap);
    let r = rem.len() as int;
    if i == conns.len() {
        vstd::arithmetic::div_mod::lemma_div_plus_one(r - 1, cap);
        if r <= cap {
            vstd::arithmetic::div_mod::lemma_basic_div(r - 1, cap);
            assert(connections_needed(r, 0, cap) == 1);
        } else {
            assert(connections_needed(r - n, spare(c2, cap), cap) == (r - 1) / cap);
        }
    }
}

/// The first position of `id` among `ids`, if it is there.
pub open spec fn first_position(ids: Seq<usize>, id: usize) -> Option<int>
    decreases ids.len(),
{
    if ids.len() == 0 {
        None
    } else {
        match first_position(ids.drop_last(), id) {
            Some(j) => Some(j),
            None => if ids.last() == id {
                Some(ids.len() - 1)
            } else {
                None
            },
        }
    }
}

pub proof fn lemma_first_position(ids: Seq<usize>, id: usize)
    ensures
        first_position(ids, id) matches Some(j) ==> 0 <= j < ids.len() && ids[j] == id
            && forall|q: int| 0 <= q < j ==> ids[q] != id,
        first_position(ids, id) is None ==> forall|q: int| 0 <= q < ids.len() ==> ids[q] != id,
    decreases ids.len(),
{
    if ids.len() > 0 {
        let d = ids.drop_last();
        lemma_first_position(d, id);
        assert forall|q: int| 0 <= q < d.len() implies d[q] == ids[q] by {}
    }
}

proof fn lemma_add_new_empty<A>(s: Seq<A>)
    requires
        s.no_duplicates(),
    ensures
        add_new(Seq::<A>::empty(), s) == s,
    decreases s.len(),
{
    if s.len() > 0 {
        let d = s.drop_last();
        assert(d.no_duplicates());
        lemma_add_new_empty(d);
        if d.contains(s.last()) {
            let k = choose|k: int| 0 <= k < d.len() && d[k] == s.last();
            assert(s[k] == s[s.len() - 1]);
        }
        assert(d.push(s.last()) =~= s);
    }
}

/// Each connection as its id and the channels it follows, from the ids and
/// the channel lists of a pool.
pub open spec fn pool_entries(ids: Seq<usize>, cvs: Seq<Seq<Seq<char>>>) -> Seq<(usize, Seq<Seq<char>>)> {
    Seq::new(ids.len(), |i: int| (ids[i], cvs[i]))
}

/// The entries whose channel list is not empty, in order.
pub open spec fn keep_nonempty(es: Seq<(usize, Seq<Seq<char>>)>) -> Seq<(usize, Seq<Seq<char>>)>
    decreases es.len(),
{
    if es.len() == 0 {
        es
    } else {
        let prev = keep_nonempty(es.drop_last());
        if es.last().1.len() > 0 {
            prev.push(es.last())
        } else {
            prev
        }
    }
}

/// The pool invariant over entries: each connection follows each channel
/// once and at most `cap` channels; ids rise along the pool and stay under
/// `next`.
pub open spec fn entries_ok(es: Seq<(usize, Seq<Seq<char>>)>, cap: int, next: int) -> bool {
    &&& forall|i: int| 0 <= i < es.len() ==> (#[trigger] es[i]).1.no_duplicates()
        && es[i].1.len() <= cap && es[i].0 < next
    &&& forall|i: int, j: int| 0 <= i < j < es.len() ==> (#[trigger] es[i]).0 < (#[trigger] es[j]).0
}

pub proof fn lemma_entries_ok_prefix(es: Seq<(usize, Seq<Seq<char>>)>, n: int, cap: int, next: int)
    requires
        entries_ok(es, cap, next),
        0 <= n <= es.len(),
    ensures
        entries_ok(es.take(n), cap, next),
{
    assert forall|i: int, j: int| 0 <= i < j < es.take(n).len() implies
        (#[trigger] es.take(n)[i]).0 < (#[trigger] es.take(n)[j]).0 by {
        assert(es.take(n)[i] == es[i] && es.take(n)[j] == es[j]);
    }
}

pub proof fn lemma_keep_nonempty(es: Seq<(usize, Seq<Seq<char>>)>, cap: int, next: int)
    ensures
        keep_nonempty(es).len() <= es.len(),
        forall|x: (usize, Seq<Seq<char>>)| #[trigger] keep_nonempty(es).contains(x) ==> es.contains(x),
        forall|i: int| 0 <= i < keep_nonempty(es).len() ==> (#[trigger] keep_nonempty(es)[i]).1.len() > 0,
        entries_ok(es, cap, next) ==> entries_ok(keep_nonempty(es), cap, next),
    decreases es.len(),
{
    if es.len() > 0 {
        let d = es.drop_last();
        lemma_keep_nonempty(d, cap, next);
        let prev = keep_nonempty(d);
        let r = keep_nonempty(es);
        assert forall|x: (usize, Seq<Seq<char>>)| #[trigger] r.contains(x) implies es.contains(x) by {
            let k = choose|k: int| 0 <= k < r.len() && r[k] == x;
            if k < prev.len() {
                assert(prev[k] == x);
                assert(prev.contains(x));
                let m = choose|m: int| 0 <= m < d.len() && d[m] == x;
                assert(es[m] == x);
            } else {
                assert(es[es.len() - 1] == x);
            }
        }
        if entries_ok(es, cap, next) {
            lemma_entries_ok_prefix(es, es.len() - 1, cap, next);
            assert(d =~= es.take(es.len() - 1));
            assert forall|i: int| 0 <= i < r.len() implies (#[trigger] r[i]).1.no_duplicates()
                && r[i].1.len() <= cap && r[i].0 < next by {
                assert(r.contains(r[i]));
            }
            assert forall|i: int, j: int| 0 <= i < j < r.len() implies (#[trigger] r[i]).0 < (#[trigger] r[j]).0 by {
                if j < prev.len() {
                    assert(prev[i] == r[i] && prev[j] == r[j]);
                } else {
                    assert(prev[i] == r[i]);
                    assert(prev.contains(r[i]));
                    let m = choose|m: int| 0 <= m < d.len() && d[m] == r[i];
                    assert(es[m] == r[i]);
                    assert(r[j] == es[es.len() - 1]);
                }
            }
        }
    }
}

/// The counts of a `Vec<usize>` as integers.
pub open spec fn ints(v: Seq<usize>) -> Seq<int> {
    v.map_values(|x: usize| x as int)
}

/// Capacity setting of a pool.
pub struct PoolConfig {
    pub capacity_per_connection: usize,
}

/// A placement decided by [`ConnectionPool::subscribe`]: the connection that
/// is to subscribe to `channels`.
pub struct Assignment {
    pub connection_id: usize,
    pub channels: Vec<String>,
}

/// The connections of a pool and the channels each follows.
pub struct ConnectionPool {
    connections: Vec<Connection>,
    capacity: usize,
    next_id: usize,
}

impl ConnectionPool {
    /// The channels followed by each connection, in pool order.
    pub closed spec fn conn_views(&self) -> Seq<Seq<Seq<char>>> {
        self.connections@.map_values(|c: Connection| c.channel_set())
    }

    /// The ids of the connections, in pool order.
    pub closed spec fn ids(&self) -> Seq<usize> {
        self.connections@.map_values(|c: Connection| c.spec_id())
    }

    pub closed spec fn spec_capacity(&self) -> nat {
        self.capacity as nat
    }

    /// The id the next new connection gets.
    pub closed spec fn spec_next_id(&self) -> nat {
        self.next_id as nat
    }

    pub closed spec fn wf(&self) -> bool {
        &&& self.connections@.len() >= 1
        &&& forall|i: int| 0 <= i < self.connections@.len() ==> (#[trigger] self.connections@[i]).wf()
        &&& forall|i: int| 0 <= i < self.connections@.len() ==>
            (#[trigger] self.connections@[i]).channel_set().len() <= self.capacity
        &&& forall|i: int, j: int| 0 <= i < j < self.connections@.len() ==>
            (#[trigger] self.connections@[i]).spec_id() < (#[trigger] self.connections@[j]).spec_id()
        &&& forall|i: int| 0 <= i < self.connections@.len() ==>
            (#[trigger] self.connections@[i]).spec_id() < self.next_id
    }

    /// A pool of one connection (id 0) that follows no channel.
    pub fn new(config: PoolConfig) -> (p: ConnectionPool)
        ensures
            p.wf(),
            p.conn_views() == seq![Seq::<Seq<char>>::empty()],
            p.ids() == seq![0usize],
            p.spec_capacity() == config.capacity_per_connection,
            p.spec_next_id() == 1,
    {
        let mut connections: Vec<Connection> = Vec::new();
        connections.push(Connection::new(0));
        let p = ConnectionPool { connections, capacity: config.capacity_per_connection, next_id: 1 };
        assert(p.conn_views() =~= seq![Seq::<Seq<char>>::empty()]);
        assert(p.ids() =~= seq![0usize]);
        p
    }

    pub fn capacity(&self) -> (r: usize)
        ensures
            r == self.spec_capacity(),
    {
        self.capacity
    }

    /// The id the next new connection gets.
    pub fn next_id(&self) -> (r: usize)
        ensures
            r == self.spec_next_id(),
    {
        self.next_id
    }

    pub fn connection_count(&self) -> (r: usize)
        ensures
            r == self.conn_views().len(),
    {
        self.connections.len()
    }

    /// The connections, in pool order.
    pub fn connection_runners(&self) -> (r: &Vec<Connection>)
        ensures
            r@.map_values(|c: Connection| c.channel_set()) == self.conn_views(),
            r@.map_values(|c: Connection| c.spec_id()) == self.ids(),
            forall|i: int| 0 <= i < r@.len() ==> (#[trigger] r@[i]).wf() || !self.wf(),
    {
        &self.connections
    }

    /// The first connection of the pool.
    pub fn first_connection(&self) -> (r: &Connection)
        requires
            self.wf(),
        ensures
            r.channel_set() == self.conn_views()[0],
            r.spec_id() == self.ids()[0],
    {
        &self.connections[0]
    }

    /// The position of the first connection with room left, or the number of
    /// connections when all are full.
    fn find_open(&self, planned: &Vec<usize>) -> (i: usize)
        requires
            planned@.len() == self.connections@.len(),
        ensures
            i as int == first_open(self.conn_views(), ints(planned@), self.capacity as int, 0),
            i <= self.connections@.len(),
            i < self.connections@.len() ==> effective(self.conn_views(), ints(planned@), i as int) < self.capacity,
    {
        let ghost cv = self.conn_views();
        let ghost pl = ints(planned@);
        let mut i: usize = 0;
        while i < self.connections.len()
            invariant
                i <= self.connections@.len(),
                planned@.len() == self.connections@.len(),
                cv == self.conn_views(),
                pl == ints(planned@),
                first_open(cv, pl, self.capacity as int, 0) == first_open(cv, pl, self.capacity as int, i as int),
            decreases self.connections@.len() - i,
        {
            let count = self.connections[i].channel_count();
            let eff = if planned[i] >= count { planned[i] } else { count };
            assert(eff as int == effective(cv, pl, i as int));
            if eff < self.capacity {
                return i;
            }
            i = i + 1;
        }
        i
    }

    /// Spreads `channels` over the connections, first fit: each step takes the
    /// first connection whose count (the larger of what it follows and what
    /// this call has planned for it) is under capacity, or a new connection
    /// when none is, and gives it as many of the next channels as fit. The
    /// connections follow their channels at once; the returned assignments
    /// say which connection is to subscribe to which channels.
    pub fn subscribe(&mut self, channels: &Vec<String>) -> (assignments: Vec<Assignment>)
        requires
            old(self).wf(),
            old(self).spec_capacity() > 0 || channels@.len() == 0,
            old(self).spec_next_id() + channels@.len() <= usize::MAX,
        ensures
            final(self).wf(),
            final(self).spec_capacity() == old(self).spec_capacity(),
            ({
                let p = plan(
                    old(self).conn_views(),
                    Seq::new(old(self).conn_views().len(), |j: int| 0int),
                    views(channels@),
                    old(self).spec_capacity() as int,
                );
                &&& final(self).conn_views() == p.0
                &&& assignments@.len() == p.1.len()
                &&& forall|k: int| 0 <= k < p.1.len() ==>
                    (#[trigger] assignments@[k]).connection_id == final(self).ids()[p.1[k].0]
                        && views(assignments@[k].channels@) == p.1[k].1
            }),
            // Connections are only added, after the existing ones, with consecutive ids.
            final(self).ids().len() >= old(self).ids().len(),
            final(self).ids().subrange(0, old(self).ids().len() as int) == old(self).ids(),
            forall|j: int| old(self).ids().len() <= j < final(self).ids().len() ==>
                final(self).ids()[j] == old(self).spec_next_id() + (j - old(self).ids().len()),
            final(self).spec_next_id() == old(self).spec_next_id() + (final(self).ids().len() - old(self).ids().len()),
            // No connection exceeds the capacity.
            forall|j: int| 0 <= j < final(self).conn_views().len() ==>
                (#[trigger] final(self).conn_views()[j]).len() <= final(self).spec_capacity(),
            // What a connection followed, it still follows, first.
            forall|j: int| 0 <= j < old(self).conn_views().len() ==>
                (#[trigger] final(self).conn_views()[j]).subrange(0, old(self).conn_views()[j].len() as int)
                    == old(self).conn_views()[j],
            // Every channel asked for is followed by some connection.
            forall|k: int| 0 <= k < channels@.len() ==> exists|j: int|
                0 <= j < final(self).conn_views().len() && (#[trigger] final(self).conn_views()[j]).contains(#[trigger] channels@[k]@),
            // A connection follows nothing but what it followed and what was asked for.
            forall|j: int, x: Seq<char>| 0 <= j < final(self).conn_views().len()
                && #[trigger] final(self).conn_views()[j].contains(x) ==>
                (j < old(self).conn_views().len() && old(self).conn_views()[j].contains(x))
                    || views(channels@).contains(x),
            // The assignments, joined, are the channels asked for, in order.
            flatten(assignments@.map_values(|a: Assignment| views(a.channels@))) == views(channels@),
            // Distinct channels that no connection follows yet end up followed once.
            no_shared_channel(old(self).conn_views()) && views(channels@).no_duplicates()
                && (forall|j: int, k: int| 0 <= j < old(self).conn_views().len() && 0 <= k < channels@.len()
                    ==> !(#[trigger] old(self).conn_views()[j]).contains(#[trigger] channels@[k]@))
                ==> no_shared_channel(final(self).conn_views()),
            // Distinct channels that no connection follows yet add their number to
            // the channels followed, all connections counted.
            views(channels@).no_duplicates()
                && (forall|j: int, k: int| 0 <= j < old(self).conn_views().len() && 0 <= k < channels@.len()
                    ==> !(#[trigger] old(self).conn_views()[j]).contains(#[trigger] channels@[k]@))
                ==> total_followed(final(self).conn_views()) == total_followed(old(self).conn_views()) + channels@.len(),
            // The channels followed afterwards are those followed before and those asked for.
            old(self).spec_capacity() > 0 ==> forall|x: Seq<char>| followed_by_any(final(self).conn_views(), x)
                <==> (followed_by_any(old(self).conn_views(), x) || views(channels@).contains(x)),
            // Distinct channels that no connection follows yet open exactly the
            // connections that the room left cannot hold.
            old(self).spec_capacity() > 0 && views(channels@).no_duplicates()
                && (forall|j: int, k: int| 0 <= j < old(self).conn_views().len() && 0 <= k < channels@.len()
                    ==> !(#[trigger] old(self).conn_views()[j]).contains(#[trigger] channels@[k]@))
                ==> final(self).conn_views().len() == old(self).conn_views().len() + connections_needed(
                    channels@.len() as int,
                    spare(old(self).conn_views(), old(self).spec_capacity() as int),
                    old(self).spec_capacity() as int,
                ),
    {
        let ghost old_cv = self.conn_views();
        let ghost old_ids = self.ids();
        let ghost old_len = self.connections@.len();
        let ghost old_next = self.next_id as nat;
        let ghost vs = views(channels@);
        let ghost cap = self.capacity as int;
        let ghost zeros = Seq::new(old_cv.len(), |j: int| 0int);
        let mut planned: Vec<usize> = Vec::new();
        let mut z: usize = 0;
        while z < self.connections.len()
            invariant
                z <= self.connections@.len(),
                planned@.len() == z,
                forall|j: int| 0 <= j < z ==> planned@[j] == 0,
            decreases self.connections@.len() - z,
        {
            planned.push(0);
            z = z + 1;
        }
        assert(ints(planned@) =~= zeros);
        let mut out: Vec<Assignment> = Vec::new();
        let ghost mut batches: Seq<(int, Seq<Seq<char>>)> = Seq::empty();
        let mut pos: usize = 0;
        assert(vs.skip(0) =~= vs);
        proof {
            assert forall|i: int| 0 <= i < old_len implies old_cv[i].len() <= (#[trigger] self.conn_views()[i]).len()
                && self.conn_views()[i].subrange(0, old_cv[i].len() as int) == old_cv[i] by {
                assert(old_cv[i].subrange(0, old_cv[i].len() as int) =~= old_cv[i]);
            }
            assert(self.wf_loop(old_len, old_ids, old_cv, old_next, planned@, cap));
        }
        while pos < channels.len()
            invariant
                self.wf_loop(old_len, old_ids, old_cv, old_next, planned@, cap),
                pos <= channels@.len(),
                vs == views(channels@),
                cap == self.capacity as int,
                cap > 0 || channels@.len() == 0,
                self.next_id + (channels@.len() - pos) <= usize::MAX,
                plan(old_cv, zeros, vs, cap) == (
                    plan(self.conn_views(), ints(planned@), vs.skip(pos as int), cap).0,
                    batches + plan(self.conn_views(), ints(planned@), vs.skip(pos as int), cap).1,
                ),
                out@.len() == batches.len(),
                forall|k: int| 0 <= k < batches.len() ==>
                    0 <= (#[trigger] batches[k]).0 < self.connections@.len()
                    && out@[k].connection_id == self.ids()[batches[k].0]
                    && views(out@[k].channels@) == batches[k].1,
                flatten(out@.map_values(|a: Assignment| views(a.channels@))) == vs.take(pos as int),
                forall|k: int| 0 <= k < pos ==> exists|j: int|
                    0 <= j < self.conn_views().len() && (#[trigger] self.conn_views()[j]).contains(#[trigger] vs[k]),
                forall|j: int, x: Seq<char>| 0 <= j < self.conn_views().len()
                    && #[trigger] self.conn_views()[j].contains(x) ==>
                    (j < old_len && old_cv[j].contains(x)) || vs.take(pos as int).contains(x),
            decreases channels@.len() - pos,
        {
            let ghost cv0 = self.conn_views();
            let ghost pl0 = ints(planned@);
            let ghost ids0 = self.ids();
            let ghost out0 = out@;
            let (i, a, n) = self.place_batch(&mut planned, channels, pos, Ghost(old_len), Ghost(old_ids), Ghost(old_cv), Ghost(old_next));
            out.push(a);
            proof {
                let rem = vs.skip(pos as int);
                let batch = vs.subrange(pos as int, pos + n);
                assert(rem.take(n as int) =~= batch);
                assert(rem.skip(n as int) =~= vs.skip(pos + n));
                lemma_plan_step(cv0, pl0, rem, cap);
                let c1 = if i == cv0.len() { cv0.push(Seq::empty()) } else { cv0 };
                assert(i < c1.len());
                assert(self.conn_views() == c1.update(i as int, add_new(c1[i as int], batch)));
                lemma_add_new(c1[i as int], batch);
                assert(batches + plan(cv0, pl0, rem, cap).1 =~= batches.push((i as int, batch))
                    + plan(self.conn_views(), ints(planned@), vs.skip(pos + n), cap).1);
                batches = batches.push((i as int, batch));
                let mo = out@.map_values(|a: Assignment| views(a.channels@));
                assert(mo.drop_last() =~= out0.map_values(|a: Assignment| views(a.channels@)));
                assert(vs.take(pos + n) =~= vs.take(pos as int) + batch);
                let cvn = self.conn_views();
                assert forall|k: int| 0 <= k < batches.len() implies
                    0 <= (#[trigger] batches[k]).0 < self.connections@.len()
                    && out@[k].connection_id == self.ids()[batches[k].0]
                    && views(out@[k].channels@) == batches[k].1 by {
                    if k < batches.len() - 1 {
                        assert(self.ids()[batches[k].0] == ids0[batches[k].0]);
                    }
                }
                assert forall|k: int| 0 <= k < pos + n implies exists|j: int|
                    0 <= j < cvn.len() && (#[trigger] cvn[j]).contains(#[trigger] vs[k]) by {
                    if k < pos {
                        let j = choose|j: int| 0 <= j < cv0.len() && (#[trigger] cv0[j]).contains(vs[k]);
                        assert(c1[j] == cv0[j]);
                        if j == i {
                            assert(cvn[j].contains(vs[k]));
                        } else {
                            assert(cvn[j] == cv0[j]);
                        }
                    } else {
                        assert(batch[k - pos] == vs[k]);
                        assert(batch.contains(vs[k]));
                        assert(cvn[i as int].contains(vs[k]));
                    }
                }
                assert forall|j: int, x: Seq<char>| 0 <= j < cvn.len() && #[trigger] cvn[j].contains(x) implies
                    (j < old_len && old_cv[j].contains(x)) || vs.take(pos + n).contains(x) by {
                    if vs.take(pos as int).contains(x) {
                        let k = choose|k: int| 0 <= k < pos && vs.take(pos as int)[k] == x;
                        assert(vs.take(pos + n)[k] == x);
                    }
                    if batch.contains(x) {
                        let k = choose|k: int| 0 <= k < n && batch[k] == x;
                        assert(vs.take(pos + n)[pos + k] == x);
                    }
                    if j != i {
                        assert(cvn[j] == c1[j]);
                        if j < cv0.len() {
                            assert(c1[j] == cv0[j]);
                        }
                    }
                }
            }
            pos = pos + n;
        }
        proof {
            assert(vs.skip(pos as int) =~= Seq::<Seq<char>>::empty());
            assert(vs.take(pos as int) =~= vs);
            assert forall|k: int| 0 <= k < channels@.len() implies exists|j: int|
                0 <= j < self.conn_views().len() && (#[trigger] self.conn_views()[j]).contains(#[trigger] channels@[k]@) by {
                assert(vs[k] == channels@[k]@);
            }
            if cap > 0 {
                law_plan_union(old_cv, zeros, vs, cap);
            }
            if vs.no_duplicates()
                && (forall|j: int, k: int| 0 <= j < old_cv.len() && 0 <= k < channels@.len()
                    ==> !(#[trigger] old_cv[j]).contains(#[trigger] channels@[k]@)) {
                assert forall|j: int, k: int| 0 <= j < old_cv.len() && 0 <= k < vs.len()
                    implies !(#[trigger] old_cv[j]).contains(#[trigger] vs[k]) by {
                    assert(vs[k] == channels@[k]@);
                }
                if no_shared_channel(old_cv) {
                    law_plan_no_shared_channel(old_cv, zeros, vs, cap);
                }
                if cap > 0 {
                    law_plan_total(old_cv, zeros, vs, cap);
                    assert forall|j: int| 0 <= j < old_cv.len() implies 0 <= #[trigger] zeros[j] <= old_cv[j].len() by {}
                    assert forall|j: int| 0 <= j < old_cv.len() implies (#[trigger] old_cv[j]).len() <= cap by {
                        assert(old(self).connections@[j].channel_set().len() <= old(self).capacity);
                    }
                    law_plan_new_connections(old_cv, zeros, vs, cap);
                }
            }
        }
        out
    }

    /// Each connection as its id and the channels it follows, in pool order.
    pub closed spec fn entries(&self) -> Seq<(usize, Seq<Seq<char>>)> {
        self.connections@.map_values(|c: Connection| (c.spec_id(), c.channel_set()))
    }

    /// Adds `channels` to what connection `id` follows (those it follows
    /// already stay once), where the connection exists and stays within the
    /// capacity; else nothing changes. Whether the channels were added.
    pub fn track_channels(&mut self, id: usize, channels: &[String]) -> (r: bool)
        requires
            old(self).wf(),
        ensures
            final(self).wf(),
            final(self).ids() == old(self).ids(),
            final(self).spec_capacity() == old(self).spec_capacity(),
            final(self).spec_next_id() == old(self).spec_next_id(),
            match first_position(old(self).ids(), id) {
                Some(j) => {
                    let grown = add_new(old(self).conn_views()[j], views(channels@));
                    if grown.len() <= old(self).spec_capacity() {
                        r && final(self).conn_views() == old(self).conn_views().update(j, grown)
                    } else {
                        !r && final(self).conn_views() == old(self).conn_views()
                    }
                },
                None => !r && final(self).conn_views() == old(self).conn_views(),
            },
    {
        proof {
            lemma_first_position(self.ids(), id);
        }
        let mut j: usize = 0;
        while j < self.connections.len()
            invariant
                j <= self.connections@.len(),
                self.connections@ == old(self).connections@,
                self.capacity == old(self).capacity,
                self.next_id == old(self).next_id,
                self.wf(),
                self.ids() == old(self).ids(),
                first_position(old(self).ids(), id) matches Some(p) ==> j <= p,
                forall|q: int| 0 <= q < j ==> self.ids()[q] != id,
            decreases self.connections@.len() - j,
        {
            proof {
                lemma_first_position(old(self).ids(), id);
                assert(self.ids()[j as int] == self.connections@[j as int].spec_id());
            }
            if self.connections[j].id == id {
                let current = self.connections[j].subscribed_channels();
                let mut trial = Connection::new(id);
                trial.pre_track_channels(current.as_slice());
                trial.pre_track_channels(channels);
                proof {
                    assert(self.ids()[j as int] == self.connections@[j as int].spec_id());
                    assert(self.connections@[j as int].wf());
                    lemma_add_new_empty(self.connections@[j as int].channel_set());
                    assert(self.conn_views()[j as int] == self.connections@[j as int].channel_set());
                    assert(first_position(old(self).ids(), id) == Some(j as int));
                    assert(trial.channel_set() == add_new(old(self).conn_views()[j as int], views(channels@)));
                    assert(trial.channel_set().len() == trial.channels@.len());
                }
                if trial.channels.len() <= self.capacity {
                    let ghost cs0 = self.connections@;
                    self.connections.set(j, trial);
                    proof {
                        assert(self.conn_views() =~= old(self).conn_views().update(
                            j as int,
                            add_new(old(self).conn_views()[j as int], views(channels@)),
                        ));
                        assert(self.ids() =~= old(self).ids());
                        assert forall|i: int| 0 <= i < self.connections@.len() implies (#[trigger] self.connections@[i]).wf() by {
                            if i != j {
                                assert(self.connections@[i] == cs0[i]);
                            }
                        }
                        assert forall|i: int| 0 <= i < self.connections@.len() implies
                            (#[trigger] self.connections@[i]).channel_set().len() <= self.capacity by {
                            if i != j {
                                assert(self.connections@[i] == cs0[i]);
                            }
                        }
                        assert forall|a: int, b: int| 0 <= a < b < self.connections@.len() implies
                            (#[trigger] self.connections@[a]).spec_id() < (#[trigger] self.connections@[b]).spec_id() by {
                            assert(self.connections@[a].spec_id() == cs0[a].spec_id());
                            assert(self.connections@[b].spec_id() == cs0[b].spec_id());
                        }
                        assert forall|i: int| 0 <= i < self.connections@.len() implies
                            (#[trigger] self.connections@[i]).spec_id() < self.next_id by {
                            assert(self.connections@[i].spec_id() == cs0[i].spec_id());
                        }
                    }
                    return true;
                }
                return false;
            }
            j = j + 1;
        }
        false
    }

    /// The id of the first connection that follows `channel`, if one does.
    pub fn find_connection_with(&self, channel: &String) -> (r: Option<usize>)
        ensures
            r is None <==> forall|j: int| 0 <= j < self.conn_views().len() ==> !(#[trigger] self.conn_views()[j]).contains(channel@),
            r matches Some(id) ==> exists|j: int| 0 <= j < self.conn_views().len()
                && self.ids()[j] == id
                && (#[trigger] self.conn_views()[j]).contains(channel@)
                && forall|q: int| 0 <= q < j ==> !(#[trigger] self.conn_views()[q]).contains(channel@),
    {
        let mut j: usize = 0;
        while j < self.connections.len()
            invariant
                j <= self.connections@.len(),
                forall|q: int| 0 <= q < j ==> !(#[trigger] self.conn_views()[q]).contains(channel@),
            decreases self.connections@.len() - j,
        {
            if vec_contains(self.connections[j].channels.as_slice(), channel) {
                assert(self.conn_views()[j as int] == views(self.connections@[j as int].channels@));
                return Some(self.connections[j].id);
            }
            assert(self.conn_views()[j as int] == views(self.connections@[j as int].channels@));
            j = j + 1;
        }
        None
    }

    /// `ch` is followed by some connection of the pool.
    pub open spec fn followed(&self, ch: Seq<char>) -> bool {
        exists|j: int| 0 <= j < self.conn_views().len() && (#[trigger] self.conn_views()[j]).contains(ch)
    }

    /// `id` is the id of the first connection that follows `ch`.
    pub open spec fn first_follower_is(&self, ch: Seq<char>, id: usize) -> bool {
        exists|j: int|
            0 <= j < self.conn_views().len() && self.ids()[j] == id && (
            #[trigger] self.conn_views()[j]).contains(ch) && forall|q: int|
                0 <= q < j ==> !(#[trigger] self.conn_views()[q]).contains(ch)
    }

    /// Where an unsubscription of `channels` goes: for each channel that a
    /// connection follows, in order, the first connection that follows it;
    /// channels that no connection follows are left out.
    pub fn unsubscribe_routes(&self, channels: &[String]) -> (r: Vec<(usize, String)>)
        ensures
            r@.map_values(|e: (usize, String)| e.1@) == views(channels@).filter(
                |c: Seq<char>| self.followed(c),
            ),
            forall|k: int| 0 <= k < r@.len() ==> self.first_follower_is((#[trigger] r@[k]).1@, r@[k].0),
    {
        let mut out: Vec<(usize, String)> = Vec::new();
        let mut i: usize = 0;
        while i < channels.len()
            invariant
                i <= channels@.len(),
                out@.map_values(|e: (usize, String)| e.1@) == views(channels@.take(i as int)).filter(
                    |c: Seq<char>| self.followed(c),
                ),
                forall|k: int| 0 <= k < out@.len() ==> self.first_follower_is((#[trigger] out@[k]).1@, out@[k].0),
            decreases channels@.len() - i,
        {
            let ch = channels[i].clone();
            let found = self.find_connection_with(&ch);
            proof {
                let before = views(channels@.take(i as int));
                assert(views(channels@.take(i + 1)) =~= before.push(ch@));
                before.lemma_filter_push(ch@, |c: Seq<char>| self.followed(c));
            }
            match found {
                Some(id) => {
                    let ghost old_out = out@;
                    out.push((id, ch));
                    proof {
                        assert(out@.map_values(|e: (usize, String)| e.1@) =~= old_out.map_values(
                            |e: (usize, String)| e.1@,
                        ).push(channels@[i as int]@));
                        assert forall|k: int| 0 <= k < out@.len() implies self.first_follower_is(
                            (#[trigger] out@[k]).1@,
                            out@[k].0,
                        ) by {
                            if k < old_out.len() {
                                assert(out@[k] == old_out[k]);
                            }
                        }
                    }
                },
                None => {
                    proof {
                        assert(!self.followed(channels@[i as int]@));
                    }
                },
            }
            i = i + 1;
        }
        assert(channels@.take(i as int) =~= channels@);
        out
    }

    /// Stops `channels` on the connection with id `id`; nothing changes when
    /// no connection has that id.
    pub fn remove_channels(&mut self, id: usize, channels: &[String])
        requires
            old(self).wf(),
        ensures
            final(self).wf(),
            final(self).ids() == old(self).ids(),
            final(self).spec_capacity() == old(self).spec_capacity(),
            final(self).spec_next_id() == old(self).spec_next_id(),
            final(self).conn_views().len() == old(self).conn_views().len(),
            forall|j: int| 0 <= j < old(self).conn_views().len() ==>
                #[trigger] final(self).conn_views()[j] == if old(self).ids()[j] == id {
                    without(old(self).conn_views()[j], views(channels@))
                } else {
                    old(self).conn_views()[j]
                },
    {
        let ghost cv0 = self.conn_views();
        let ghost ids0 = self.ids();
        let mut j: usize = 0;
        while j < self.connections.len()
            invariant
                j <= self.connections@.len(),
                self.connections@.len() == old(self).connections@.len(),
                self.capacity == old(self).capacity,
                self.next_id == old(self).next_id,
                self.ids() == ids0,
                self.wf(),
                forall|q: int| 0 <= q < j ==> #[trigger] self.conn_views()[q] == if ids0[q] == id {
                    without(cv0[q], views(channels@))
                } else {
                    cv0[q]
                },
                forall|q: int| j <= q < self.connections@.len() ==> #[trigger] self.conn_views()[q] == cv0[q],
            decreases self.connections@.len() - j,
        {
            if self.connections[j].id == id {
                let ghost before = self.conn_views();
                let ghost cs_b = self.connections@;
                let ghost ib = self.ids();
                assert(before[j as int] == cv0[j as int]);
                self.connections[j].remove_channels(channels);
                proof {
                    lemma_without(cv0[j as int], views(channels@));
                    assert(self.conn_views() =~= before.update(j as int, without(cv0[j as int], views(channels@))));
                    assert(self.ids() =~= ib);
                    assert forall|q: int| 0 <= q < self.connections@.len() implies
                        (#[trigger] self.connections@[q]).channel_set().len() <= self.capacity by {
                        assert(cs_b[q].channel_set().len() <= self.capacity);
                        assert(before[q] == cs_b[q].channel_set());
                        assert(self.connections@[q].channel_set() == self.conn_views()[q]);
                    }
                    assert forall|q: int, r: int| 0 <= q < r < self.connections@.len() implies
                        (#[trigger] self.connections@[q]).spec_id() < (#[trigger] self.connections@[r]).spec_id() by {
                        assert(self.connections@[q].spec_id() == self.ids()[q]);
                        assert(self.connections@[r].spec_id() == self.ids()[r]);
                        assert(cs_b[q].spec_id() == ib[q]);
                        assert(cs_b[r].spec_id() == ib[r]);
                        assert(cs_b[q].spec_id() < cs_b[r].spec_id());
                    }
                    assert forall|q: int| 0 <= q < self.connections@.len() implies
                        (#[trigger] self.connections@[q]).spec_id() < self.next_id by {
                        assert(self.connections@[q].spec_id() == self.ids()[q]);
                        assert(cs_b[q].spec_id() == ib[q]);
                        assert(cs_b[q].spec_id() < self.next_id);
                    }
                    assert forall|q: int| 0 <= q < self.connections@.len() implies
                        (#[trigger] self.connections@[q]).wf() by {
                        assert(self.connections@[q].channel_set() == self.conn_views()[q]);
                        assert(cs_b[q].wf());
                        assert(before[q] == cs_b[q].channel_set());
                    }
                }
            }
            j = j + 1;
        }
    }

    /// Drops the connections that follow no channel, keeping the others in
    /// order. A pool of one connection is left as it is, and when every
    /// connection is empty the first one stays, so the pool always keeps at
    /// least one connection.
    pub fn cleanup_empty_connections(&mut self)
        requires
            old(self).wf(),
        ensures
            final(self).wf(),
            final(self).spec_capacity() == old(self).spec_capacity(),
            final(self).spec_next_id() == old(self).spec_next_id(),
            final(self).conn_views().len() >= 1,
            final(self).ids().len() == final(self).conn_views().len(),
            ({
                let before = pool_entries(old(self).ids(), old(self).conn_views());
                pool_entries(final(self).ids(), final(self).conn_views()) == if before.len() <= 1 {
                    before
                } else if keep_nonempty(before).len() == 0 {
                    seq![before[0]]
                } else {
                    keep_nonempty(before)
                }
            }),
    {
        self.drop_empty();
        proof {
            old(self).lemma_entries();
            self.lemma_entries();
            self.lemma_wf();
        }
    }

    /// [`Self::cleanup_empty_connections`] over the entries.
    fn drop_empty(&mut self)
        requires
            old(self).wf(),
        ensures
            final(self).wf(),
            final(self).spec_capacity() == old(self).spec_capacity(),
            final(self).spec_next_id() == old(self).spec_next_id(),
            final(self).entries() == if old(self).entries().len() <= 1 {
                old(self).entries()
            } else if keep_nonempty(old(self).entries()).len() == 0 {
                seq![old(self).entries()[0]]
            } else {
                keep_nonempty(old(self).entries())
            },
    {
        proof {
            self.lemma_wf_entries();
        }
        if self.connections.len() <= 1 {
            return;
        }
        let ghost e0 = self.entries();
        let mut any = false;
        let mut q: usize = 0;
        while q < self.connections.len()
            invariant
                q <= self.connections@.len(),
                self.entries() == e0,
                any == (keep_nonempty(e0.take(q as int)).len() > 0),
            decreases self.connections@.len() - q,
        {
            proof {
                assert(e0.take(q + 1).drop_last() =~= e0.take(q as int));
                assert(e0[q as int].1 == self.conn_views()[q as int]);
                assert(self.conn_views()[q as int] == views(self.connections@[q as int].channels@));
            }
            if self.connections[q].channels.len() > 0 {
                any = true;
            }
            q = q + 1;
        }
        assert(e0.take(e0.len() as int) =~= e0);
        if !any {
            self.connections.truncate(1);
            proof {
                assert(self.entries() =~= seq![e0[0]]);
                lemma_entries_ok_prefix(e0, 1, self.capacity as int, self.next_id as int);
                self.lemma_wf_entries();
            }
            return;
        }
        let mut j: usize = 0;
        let mut k: usize = 0;
        let n = self.connections.len();
        while k < n
            invariant
                k <= n,
                j <= k,
                n == e0.len(),
                self.capacity == old(self).capacity,
                self.next_id == old(self).next_id,
                j == keep_nonempty(e0.take(k as int)).len(),
                self.entries() == keep_nonempty(e0.take(k as int)) + e0.skip(k as int),
                self.entries().len() == self.connections@.len(),
            decreases n - k,
        {
            let ghost before = self.entries();
            proof {
                assert(e0.take(k + 1).drop_last() =~= e0.take(k as int));
                assert(before[j as int] == e0[k as int]);
                assert(self.conn_views()[j as int] == views(self.connections@[j as int].channels@));
            }
            let ghost cs0 = self.connections@;
            if self.connections[j].channels.len() == 0 {
                let _gone = self.connections.remove(j);
                proof {
                    assert(self.connections@ == cs0.remove(j as int));
                    assert(self.entries() =~= before.remove(j as int));
                    assert(self.entries() =~= keep_nonempty(e0.take(k + 1)) + e0.skip(k + 1));
                }
            } else {
                proof {
                    assert(self.entries() =~= keep_nonempty(e0.take(k + 1)) + e0.skip(k + 1));
                }
                j = j + 1;
            }
            k = k + 1;
        }
        proof {
            assert(e0.take(n as int) =~= e0);
            assert(self.entries() =~= keep_nonempty(e0));
            lemma_keep_nonempty(e0, self.capacity as int, self.next_id as int);
            self.lemma_wf_entries();
        }
    }

    /// The pool's entries are its ids, each paired with the channels that
    /// connection follows.
    pub proof fn lemma_entries(&self)
        ensures
            self.ids().len() == self.conn_views().len(),
            self.entries() == pool_entries(self.ids(), self.conn_views()),
    {
        assert(self.entries() =~= pool_entries(self.ids(), self.conn_views()));
    }

    /// What the pool invariant gives: at least one connection; each follows
    /// each of its channels once and no more than the capacity; ids rise
    /// along the pool and stay under the next id.
    pub proof fn lemma_wf(&self)
        requires
            self.wf(),
        ensures
            self.conn_views().len() >= 1,
            self.ids().len() == self.conn_views().len(),
            forall|i: int| 0 <= i < self.conn_views().len() ==> (#[trigger] self.conn_views()[i]).no_duplicates()
                && self.conn_views()[i].len() <= self.spec_capacity()
                && self.ids()[i] < self.spec_next_id(),
            forall|i: int, j: int| 0 <= i < j < self.ids().len() ==> (#[trigger] self.ids()[i]) < (#[trigger] self.ids()[j]),
    {
        assert forall|i: int| 0 <= i < self.conn_views().len() implies (#[trigger] self.conn_views()[i]).no_duplicates()
            && self.conn_views()[i].len() <= self.spec_capacity()
            && self.ids()[i] < self.spec_next_id() by {
            assert(self.connections@[i].wf());
        }
        assert forall|i: int, j: int| 0 <= i < j < self.ids().len() implies (#[trigger] self.ids()[i]) < (#[trigger] self.ids()[j]) by {
            assert(self.connections@[i].spec_id() < self.connections@[j].spec_id());
        }
    }

    /// The pool invariant, read off the entries.
    proof fn lemma_wf_entries(&self)
        ensures
            self.wf() <==> (self.connections@.len() >= 1
                && entries_ok(self.entries(), self.capacity as int, self.next_id as int)),
            self.entries().len() == self.connections@.len(),
    {
        let es = self.entries();
        let cs = self.connections@;
        assert forall|i: int| 0 <= i < cs.len() implies
            #[trigger] es[i] == (cs[i].spec_id(), cs[i].channel_set()) by {}
        if self.wf() {
            assert forall|i: int| 0 <= i < es.len() implies (#[trigger] es[i]).1.no_duplicates()
                && es[i].1.len() <= self.capacity && es[i].0 < self.next_id by {
                assert(cs[i].wf());
            }
            assert forall|i: int, j: int| 0 <= i < j < es.len() implies (#[trigger] es[i]).0 < (#[trigger] es[j]).0 by {
                assert(cs[i].spec_id() < cs[j].spec_id());
            }
        }
        if cs.len() >= 1 && entries_ok(es, self.capacity as int, self.next_id as int) {
            assert forall|i: int| 0 <= i < cs.len() implies (#[trigger] cs[i]).wf() by {
                assert(es[i].1.no_duplicates());
            }
            assert forall|i: int| 0 <= i < cs.len() implies (#[trigger] cs[i]).channel_set().len() <= self.capacity by {
                assert(es[i].1.len() <= self.capacity);
            }
            assert forall|i: int, j: int| 0 <= i < j < cs.len() implies
                (#[trigger] cs[i]).spec_id() < (#[trigger] cs[j]).spec_id() by {
                assert(es[i].0 < es[j].0);
            }
            assert forall|i: int| 0 <= i < cs.len() implies (#[trigger] cs[i]).spec_id() < self.next_id by {
                assert(es[i].0 < self.next_id);
            }
        }
    }

    /// One first-fit step of [`Self::subscribe`]: places the channels from
    /// `pos` on, as many as fit, on the first connection with room (a new one
    /// when none has). Returns that connection's position, its assignment and
    /// the number of channels placed.
    #[verifier::rlimit(40)]
    fn place_batch(
        &mut self,
        planned: &mut Vec<usize>,
        channels: &Vec<String>,
        pos: usize,
        Ghost(old_len): Ghost<nat>,
        Ghost(old_ids): Ghost<Seq<usize>>,
        Ghost(old_cv): Ghost<Seq<Seq<Seq<char>>>>,
        Ghost(old_next): Ghost<nat>,
    ) -> (r: (usize, Assignment, usize))
        requires
            old(self).wf_loop(old_len, old_ids, old_cv, old_next, old(planned)@, old(self).capacity as int),
            old(self).capacity > 0,
            pos < channels@.len(),
            old(self).next_id + 1 <= usize::MAX,
        ensures
            final(self).wf_loop(old_len, old_ids, old_cv, old_next, final(planned)@, old(self).capacity as int),
            final(self).capacity == old(self).capacity,
            final(self).next_id <= old(self).next_id + 1,
            ({
                let cv0 = old(self).conn_views();
                let p0 = ints(old(planned)@);
                let cap = old(self).capacity as int;
                let i = first_open(cv0, p0, cap, 0);
                let c1 = if i == cv0.len() { cv0.push(Seq::empty()) } else { cv0 };
                let p1 = if i == cv0.len() { p0.push(0) } else { p0 };
                let room = cap - effective(c1, p1, i);
                let rest = channels@.len() - pos;
                let n = if rest < room { rest } else { room };
                &&& r.0 as int == i
                &&& r.0 < final(self).connections@.len()
                &&& final(self).conn_views().len() == c1.len()
                &&& i < c1.len()
                &&& r.2 as int == n
                &&& 0 < n
                &&& pos + n <= channels@.len()
                &&& final(self).conn_views() == c1.update(i, add_new(c1[i], views(channels@).subrange(pos as int, pos + n)))
                &&& ints(final(planned)@) == p1.update(i, p1[i] + n)
                &&& final(self).ids().len() == c1.len()
                &&& forall|q: int| 0 <= q < cv0.len() ==> #[trigger] final(self).ids()[q] == old(self).ids()[q]
                &&& r.1.connection_id == final(self).ids()[i]
                &&& views(r.1.channels@) == views(channels@).subrange(pos as int, pos + n)
            }),
    {
        let ghost cv0 = self.conn_views();
        let ghost pl0 = ints(planned@);
        let ghost ids0 = self.ids();
        let i = self.find_open(planned);
        if i == self.connections.len() {
            let c = Connection::new(self.next_id);
            self.connections.push(c);
            planned.push(0);
            self.next_id = self.next_id + 1;
            proof {
                assert(self.conn_views() =~= cv0.push(Seq::empty()));
                assert(ints(planned@) =~= pl0.push(0));
                assert forall|q: int| 0 <= q < cv0.len() implies #[trigger] self.ids()[q] == ids0[q] by {
                    assert(self.connections@[q] == old(self).connections@[q]);
                }
            }
        }
        let ghost cv1 = self.conn_views();
        let ghost pl1 = ints(planned@);
        let ghost ids1 = self.ids();
        let count = self.connections[i].channel_count();
        let eff = if planned[i] >= count { planned[i] } else { count };
        assert(eff as int == effective(cv1, pl1, i as int));
        let room = self.capacity - eff;
        let rest = channels.len() - pos;
        let n = if rest < room { rest } else { room };
        let batch = copy_range(channels.as_slice(), pos, pos + n);
        assert(views(batch@) =~= views(channels@).subrange(pos as int, pos + n));
        planned.set(i, planned[i] + n);
        self.connections[i].pre_track_channels(batch.as_slice());
        let id = self.connections[i].id();
        proof {
            let cvn = self.conn_views();
            assert(cvn =~= cv1.update(i as int, add_new(cv1[i as int], views(batch@))));
            assert(ints(planned@) =~= pl1.update(i as int, pl1[i as int] + n));
            lemma_add_new(cv1[i as int], views(batch@));
            assert(self.ids() =~= ids1);
            assert forall|q: int| 0 <= q < old_len implies old_cv[q].len() <= (#[trigger] cvn[q]).len()
                && cvn[q].subrange(0, old_cv[q].len() as int) == old_cv[q] by {
                if q == i {
                    assert(cvn[q].subrange(0, old_cv[q].len() as int) =~= cv1[q].subrange(0, old_cv[q].len() as int));
                }
            }
            assert forall|q: int| 0 <= q < self.connections@.len() implies
                (#[trigger] self.connections@[q]).channel_set().len() <= self.capacity by {
                assert(self.connections@[q].channel_set() == cvn[q]);
            }
            assert forall|q: int| 0 <= q < self.connections@.len() implies
                (#[trigger] self.connections@[q]).wf() by {
                assert(self.connections@[q].channel_set() == cvn[q]);
            }
            assert forall|q: int| 0 <= q < self.connections@.len() implies
                (#[trigger] self.connections@[q]).spec_id() < self.next_id by {
                assert(self.connections@[q].spec_id() == self.ids()[q]);
            }
            assert forall|q: int| 0 <= q < cv0.len() implies #[trigger] self.ids()[q] == ids0[q] by {
                assert(ids1[q] == ids0[q]);
            }
        }
        (i, Assignment { connection_id: id, channels: batch }, n)
    }

    /// The loop invariant of [`Self::subscribe`] over the pool itself.
    closed spec fn wf_loop(
        &self,
        old_len: nat,
        old_ids: Seq<usize>,
        old_cv: Seq<Seq<Seq<char>>>,
        old_next: nat,
        planned: Seq<usize>,
        cap: int,
    ) -> bool {
        &&& self.connections@.len() >= old_len
        &&& old_ids.len() == old_len && old_cv.len() == old_len
        &&& planned.len() == self.connections@.len()
        &&& self.capacity as int == cap
        &&& forall|i: int| 0 <= i < self.connections@.len() ==> (#[trigger] self.connections@[i]).wf()
        &&& forall|i: int| 0 <= i < self.connections@.len() ==>
            (#[trigger] self.connections@[i]).channel_set().len() <= self.capacity
        &&& forall|i: int| 0 <= i < planned.len() ==> #[trigger] planned[i] <= self.capacity
        &&& forall|i: int, j: int| 0 <= i < j < self.connections@.len() ==>
            (#[trigger] self.connections@[i]).spec_id() < (#[trigger] self.connections@[j]).spec_id()
        &&& forall|i: int| 0 <= i < self.connections@.len() ==>
            (#[trigger] self.connections@[i]).spec_id() < self.next_id
        &&& self.connections@.len() >= 1
        &&& forall|i: int| 0 <= i < old_len ==> #[trigger] self.ids()[i] == old_ids[i]
        &&& forall|i: int| old_len <= i < self.connections@.len() ==>
            #[trigger] self.ids()[i] == old_next + (i - old_len)
        &&& self.next_id == old_next + (self.connections@.len() - old_len)
        &&& forall|i: int| 0 <= i < old_len ==> old_cv[i].len() <= (#[trigger] self.conn_views()[i]).len()
            && self.conn_views()[i].subrange(0, old_cv[i].len() as int) == old_cv[i]
    }
}
} // verus!
