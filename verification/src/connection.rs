//! The decisions of a connection's loop: how long to wait before connecting
//! again, when to give up on a failing setup, how requests are batched, and
//! how answers find the request that waits for them.
use vstd::prelude::*;
use std::collections::HashMap;
use crate::text::views;

verus! {

broadcast use vstd::std_specs::hash::group_hash_axioms;

// ------------------------------------------------------------ batches

/// How many channels one subscription request carries.
pub const SUBSCRIBE_BATCH_SIZE: usize = 250;

/// The pieces of `v`, in order.
pub open spec fn flatten(batches: Seq<Seq<Seq<char>>>) -> Seq<Seq<char>>
    decreases batches.len(),
{
    if batches.len() == 0 {
        Seq::empty()
    } else {
        flatten(batches.drop_last()) + batches.last()
    }
}

/// The views of a list of batches.
pub open spec fn batch_views(b: Seq<Vec<String>>) -> Seq<Seq<Seq<char>>> {
    b.map_values(|v: Vec<String>| views(v@))
}

/// `batches` cut a list into consecutive pieces of `size`, the last one
/// possibly shorter, none empty.
pub open spec fn chunked(batches: Seq<Seq<Seq<char>>>, size: int) -> bool {
    forall|k: int|
        0 <= k < batches.len() ==> 0 < #[trigger] batches[k].len() <= size && (k + 1
            < batches.len() ==> batches[k].len() == size)
}

/// `v` cut into consecutive batches of `size` (std's `chunks`): every batch
/// has `size` items but the last, which has between one and `size`; nothing
/// for an empty list.
pub fn chunks(v: &[String], size: usize) -> (r: Vec<Vec<String>>)
    requires
        size > 0,
    ensures
        flatten(batch_views(r@)) == views(v@),
        chunked(batch_views(r@), size as int),
{
    let mut out: Vec<Vec<String>> = Vec::new();
    let mut i: usize = 0;
    while i < v.len()
        invariant
            size > 0,
            i <= v@.len(),
            flatten(batch_views(out@)) == views(v@.take(i as int)),
            chunked(batch_views(out@), size as int),
            out@.len() > 0 && i < v@.len() ==> out@.last()@.len() == size,
        decreases v@.len() - i,
    {
        let end: usize = if v.len() - i > size { i + size } else { v.len() };
        let batch = crate::text::copy_range(v, i, end);
        proof {
            let old_views = batch_views(out@);
            let new_views = batch_views(out@.push(batch));
            assert(new_views.drop_last() =~= old_views);
            assert(new_views.last() == views(batch@));
            assert(views(v@.take(end as int)) =~= views(v@.take(i as int)) + views(batch@));
            assert forall|k: int|
                0 <= k < new_views.len() implies 0 < #[trigger] new_views[k].len() <= size && (k + 1
                    < new_views.len() ==> new_views[k].len() == size) by {
                if k < old_views.len() {
                    assert(new_views[k] == old_views[k]);
                    if k + 1 == old_views.len() {
                        assert(old_views[k] == views(out@.last()@));
                    }
                } else {
                    assert(new_views[k] == views(batch@));
                }
            }
        }
        out.push(batch);
        i = end;
    }
    assert(v@.take(i as int) =~= v@);
    out
}

// ------------------------------------------------------------ reconnecting

/// The first wait before connecting again, in seconds.
pub const INITIAL_BACKOFF_SECS: u64 = 1;

/// The longest wait before connecting again, in seconds.
pub const MAX_BACKOFF_SECS: u64 = 60;

/// The first wait after a failed setup, in seconds.
pub const INITIAL_SETUP_BACKOFF_SECS: u64 = 5;

/// The wait after a failed setup beyond which the process gives up.
pub const MAX_SETUP_BACKOFF_SECS: u64 = 120;

/// The seed of a connection's jitter: its id times a million, wrapping.
pub open spec fn jitter_seed_of(conn_id: usize) -> u64 {
    (conn_id as u64).wrapping_mul(1_000_000u64)
}

/// The seed of the jitter of connection `conn_id`.
pub fn jitter_seed(conn_id: usize) -> (r: u64)
    ensures
        r == jitter_seed_of(conn_id),
{
    (conn_id as u64).wrapping_mul(1_000_000)
}

/// The wait before the next connection attempt: the backoff less a quarter,
/// plus a share of up to half the backoff that the seed picks, and at least
/// one second.
pub open spec fn retry_delay(seed: u64, backoff: u64) -> int {
    let jitter = backoff / 4;
    let d = (backoff - jitter) + (seed.wrapping_add(backoff) as int) % (jitter * 2 + 1);
    if d < 1 {
        1
    } else {
        d
    }
}

/// The wait, in seconds, before connecting again after a failed attempt with
/// the backoff `backoff`. The quarter of the backoff is taken exactly for
/// every backoff that a `f64` holds exactly (below 2^53).
pub fn connect_retry_delay(seed: u64, backoff: u64) -> (r: u64)
    requires
        backoff < 0x20_0000_0000_0000,
    ensures
        r == retry_delay(seed, backoff),
{
    let jitter: u64 = backoff / 4;
    let spread: u64 = seed.wrapping_add(backoff) % (jitter * 2 + 1);
    let jittered: u64 = backoff.saturating_sub(jitter) + spread;
    if jittered < 1 {
        1
    } else {
        jittered
    }
}

/// The backoff after another failed connection attempt: doubled, up to 60.
pub open spec fn next_backoff(backoff: u64) -> u64 {
    if backoff * 2 < MAX_BACKOFF_SECS {
        (backoff * 2) as u64
    } else {
        MAX_BACKOFF_SECS
    }
}

/// The backoff after another failed connection attempt.
pub fn next_connect_backoff(backoff: u64) -> (r: u64)
    requires
        backoff <= u64::MAX / 2,
    ensures
        r == next_backoff(backoff),
{
    let doubled: u64 = backoff * 2;
    if doubled < MAX_BACKOFF_SECS {
        doubled
    } else {
        MAX_BACKOFF_SECS
    }
}

/// What to do after a failed setup.
#[derive(Debug, Clone, Copy, PartialEq, Eq, Structural)]
pub enum SetupRetry {
    /// Wait this many seconds and reconnect; the next backoff is `next`.
    Retry { wait_secs: u64, next: u64 },
    /// Give up: end the process so that it is restarted.
    Exit,
}

/// The decision after a failed setup with the setup backoff `backoff`.
pub open spec fn setup_retry_of(backoff: u64) -> SetupRetry {
    if backoff >= MAX_SETUP_BACKOFF_SECS {
        SetupRetry::Exit
    } else {
        SetupRetry::Retry {
            wait_secs: backoff,
            next: if backoff * 2 < MAX_SETUP_BACKOFF_SECS {
                (backoff * 2) as u64
            } else {
                MAX_SETUP_BACKOFF_SECS
            },
        }
    }
}

/// What to do after a failed setup: give up once the backoff has reached
/// 120 seconds; else wait the backoff and double it, up to 120.
pub fn on_setup_failure(backoff: u64) -> (r: SetupRetry)
    ensures
        r == setup_retry_of(backoff),
{
    if backoff >= MAX_SETUP_BACKOFF_SECS {
        SetupRetry::Exit
    } else {
        let doubled: u64 = backoff * 2;
        SetupRetry::Retry {
            wait_secs: backoff,
            next: if doubled < MAX_SETUP_BACKOFF_SECS {
                doubled
            } else {
                MAX_SETUP_BACKOFF_SECS
            },
        }
    }
}

/// The setup backoff after `n` failed setups in a row, from 5 seconds.
pub open spec fn setup_backoff_after(n: nat) -> u64
    decreases n,
{
    if n == 0 {
        INITIAL_SETUP_BACKOFF_SECS
    } else {
        match setup_retry_of(setup_backoff_after((n - 1) as nat)) {
            SetupRetry::Retry { next, .. } => next,
            SetupRetry::Exit => MAX_SETUP_BACKOFF_SECS,
        }
    }
}

/// The connection backoff stays between 1 and 60 seconds, and the wait it
/// gives is within a quarter of it (and at least a second).
pub proof fn law_backoff_bounded(seed: u64, backoff: u64)
    requires
        1 <= backoff <= MAX_BACKOFF_SECS,
    ensures
        1 <= next_backoff(backoff) <= MAX_BACKOFF_SECS,
        next_backoff(backoff) >= backoff,
        backoff - backoff / 4 <= retry_delay(seed, backoff) <= backoff + backoff / 4,
        retry_delay(seed, backoff) >= 1,
{
}

/// Setups that keep failing wait 5, 10, 20, 40 and 80 seconds; the sixth
/// failure in a row ends the process, and so does every later one.
pub proof fn law_setup_gives_up(n: nat)
    ensures
        n < 5 ==> setup_retry_of(setup_backoff_after(n)) is Retry,
        n >= 5 ==> setup_retry_of(setup_backoff_after(n)) is Exit,
        setup_backoff_after(0) == 5 && setup_backoff_after(1) == 10 && setup_backoff_after(2) == 20
            && setup_backoff_after(3) == 40 && setup_backoff_after(4) == 80,
    decreases n,
{
    reveal_with_fuel(setup_backoff_after, 6);
    if n > 5 {
        law_setup_gives_up((n - 1) as nat);
    }
}

// ------------------------------------------------------------ answers

/// How many waiting requests a connection keeps before it forgets them all.
pub const MAX_WAITERS: usize = 1000;

/// The requests that wait for an answer, by id.
pub struct ResponseRouter<W> {
    waiters: HashMap<i64, W>,
}

impl<W> ResponseRouter<W> {
    /// The waiting requests.
    pub closed spec fn spec_waiters(&self) -> Map<i64, W> {
        self.waiters@
    }

    /// No more than 1000 requests wait.
    pub open spec fn wf(&self) -> bool {
        self.spec_waiters().len() <= MAX_WAITERS && self.spec_waiters().dom().finite()
    }

    /// No request waits.
    pub fn new() -> (r: ResponseRouter<W>)
        ensures
            r.spec_waiters() == Map::<i64, W>::empty(),
            r.wf(),
    {
        ResponseRouter { waiters: HashMap::new() }
    }

    /// How many requests wait.
    pub fn len(&self) -> (r: usize)
        ensures
            r == self.spec_waiters().len(),
    {
        self.waiters.len()
    }

    /// Registers `waiter` for the answer with `id`. Where 1000 requests
    /// already wait, they are all forgotten first.
    pub fn register(&mut self, id: i64, waiter: W)
        requires
            old(self).wf(),
        ensures
            final(self).wf(),
            final(self).spec_waiters() == registered(old(self).spec_waiters(), id, waiter),
    {
        if self.waiters.len() >= MAX_WAITERS {
            self.waiters.clear();
        }
        self.waiters.insert(id, waiter);
    }

    /// The request waiting for the answer with `id`, which no longer waits.
    pub fn take(&mut self, id: i64) -> (r: Option<W>)
        requires
            old(self).wf(),
        ensures
            final(self).wf(),
            final(self).spec_waiters() == old(self).spec_waiters().remove(id),
            r == if old(self).spec_waiters().contains_key(id) {
                Some(old(self).spec_waiters()[id])
            } else {
                None
            },
    {
        let r = self.waiters.remove(&id);
        proof {
            if !old(self).spec_waiters().contains_key(id) {
                assert(old(self).spec_waiters().remove(id) =~= old(self).spec_waiters());
            }
        }
        r
    }
}

/// The waiting requests after `waiter` is registered for `id`: where
/// 1000 already wait, `waiter` alone; else all of them and `waiter`.
pub open spec fn registered<W>(waiters: Map<i64, W>, id: i64, waiter: W) -> Map<i64, W> {
    if waiters.len() >= MAX_WAITERS {
        Map::<i64, W>::empty().insert(id, waiter)
    } else {
        waiters.insert(id, waiter)
    }
}

/// Right after `waiter` is registered for `id` in a table of at most 1000
/// entries, the table holds `waiter` for `id` and still at most 1000 entries.
pub proof fn lemma_registered<W>(waiters: Map<i64, W>, id: i64, waiter: W)
    requires
        waiters.len() <= MAX_WAITERS,
        waiters.dom().finite(),
    ensures
        registered(waiters, id, waiter).contains_key(id),
        registered(waiters, id, waiter)[id] == waiter,
        registered(waiters, id, waiter).len() <= MAX_WAITERS,
        registered(waiters, id, waiter).dom().finite(),
{
    if waiters.len() < MAX_WAITERS {
        if waiters.contains_key(id) {
            assert(waiters.insert(id, waiter).dom() =~= waiters.dom());
        }
    } else {
        assert(Map::<i64, W>::empty().insert(id, waiter).dom() =~= Set::<i64>::empty().insert(id));
    }
}

/// An answer finds the request registered for its id: right after
/// registering `waiter` for `id`, taking `id` gives back `waiter`, and the
/// table still holds at most 1000 requests.
pub proof fn law_registered_answer_found<W>(router: ResponseRouter<W>, id: i64, waiter: W)
    requires
        router.wf(),
    ensures
        registered(router.spec_waiters(), id, waiter).contains_key(id),
        registered(router.spec_waiters(), id, waiter)[id] == waiter,
        registered(router.spec_waiters(), id, waiter).len() <= MAX_WAITERS,
{
    lemma_registered(router.spec_waiters(), id, waiter);
}

} // verus!
