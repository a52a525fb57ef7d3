//! Scheduling of callbacks on the main thread, and timers that wake the event
//! loop.
//!
//! Times are instants counted in some fixed unit (the caller's choice) from a
//! fixed origin. The queue does not run anything: it tells which callbacks are
//! due, and hands each one out to be run.

use vstd::prelude::*;
use crate::keys::{key_norm, KeySpace, MAX_LIVE_KEYS};

verus! {

/// A token representing a scheduled callback.
#[derive(Copy, Clone, Debug, PartialEq, Eq, Hash, Structural)]
pub struct CallbackToken {
    id: u64,
}

impl CallbackToken {
    #[verifier::type_invariant]
    spec fn inv(self) -> bool {
        key_norm(self.id) == self.id
    }

    pub closed spec fn spec_id(self) -> u64 {
        self.id
    }

    /// Cancels the callback, and its timer if it has one.
    pub fn cancel<F>(self, queue: &mut CallbackQueue<F>, timers: &mut Timers)
        requires
            old(queue).wf(),
            old(timers).wf(),
        ensures
            final(queue).wf(),
            final(timers).wf(),
            final(queue).pending() == remove_token(old(queue).pending(), self.spec_id()),
            ({
                let removed = old(queue).pending()[token_index(old(queue).pending(), self.spec_id())];
                if has_token(old(queue).pending(), self.spec_id()) && removed.2 is Some {
                    final(timers).deadlines() == old(timers).deadlines().remove(removed.2->0)
                } else {
                    final(timers).deadlines() == old(timers).deadlines()
                }
            }),
    {
        queue.cancel_callback(timers, self);
    }
}

/// Uniquely identifies a timer.
#[derive(Copy, Clone, Debug, PartialEq, Eq, Hash, Structural)]
pub struct TimerToken {
    id: u64,
}

impl TimerToken {
    #[verifier::type_invariant]
    spec fn inv(self) -> bool {
        key_norm(self.id) == self.id
    }

    pub closed spec fn spec_id(self) -> u64 {
        self.id
    }

    /// Registers a timer that expires at `at`.
    pub fn new(at: u64, timers: &mut Timers) -> (t: TimerToken)
        requires
            old(timers).wf(),
            old(timers).deadlines().len() < MAX_LIVE_KEYS,
        ensures
            final(timers).wf(),
            !old(timers).deadlines().contains_key(t.spec_id()),
            final(timers).deadlines() == old(timers).deadlines().insert(t.spec_id(), at),
    {
        timers.insert(at)
    }

    /// Removes the timer.
    pub fn cancel(self, timers: &mut Timers)
        requires
            old(timers).wf(),
        ensures
            final(timers).wf(),
            final(timers).deadlines() == old(timers).deadlines().remove(self.spec_id()),
    {
        timers.remove(self)
    }
}

/// Pending timers.
pub struct Timers {
    keys: KeySpace,
    /// (timer, deadline) pairs.
    entries: Vec<(u64, u64)>,
}

/// The map from timers to deadlines that `entries` lists.
pub open spec fn entries_map(entries: Seq<(u64, u64)>) -> Map<u64, u64>
    decreases entries.len(),
{
    if entries.len() == 0 {
        Map::empty()
    } else {
        entries_map(entries.drop_last()).insert(entries.last().0, entries.last().1)
    }
}

/// Whether the first components of `entries` are pairwise distinct.
pub open spec fn distinct_firsts(entries: Seq<(u64, u64)>) -> bool {
    forall|i: int, j: int| 0 <= i < j < entries.len() ==> entries[i].0 != entries[j].0
}

/// The smallest of `values`, if any.
pub open spec fn min_of(values: Seq<u64>) -> Option<u64>
    decreases values.len(),
{
    if values.len() == 0 {
        None
    } else {
        match min_of(values.drop_last()) {
            Some(m) => Some(if values.last() < m { values.last() } else { m }),
            None => Some(values.last()),
        }
    }
}

proof fn lemma_entries_map_dom(entries: Seq<(u64, u64)>, k: u64)
    ensures
        entries_map(entries).contains_key(k) <==> exists|i: int| 0 <= i < entries.len() && entries[i].0 == k,
    decreases entries.len(),
{
    if entries.len() > 0 {
        lemma_entries_map_dom(entries.drop_last(), k);
        if exists|i: int| 0 <= i < entries.len() && entries[i].0 == k {
            let i = choose|i: int| 0 <= i < entries.len() && entries[i].0 == k;
            if i < entries.len() - 1 {
                assert(entries.drop_last()[i].0 == k);
            }
        }
        if exists|i: int| 0 <= i < entries.drop_last().len() && entries.drop_last()[i].0 == k {
            let i = choose|i: int| 0 <= i < entries.drop_last().len() && entries.drop_last()[i].0 == k;
            assert(entries[i].0 == k);
        }
    }
}

proof fn lemma_entries_map_value(entries: Seq<(u64, u64)>, i: int)
    requires
        distinct_firsts(entries),
        0 <= i < entries.len(),
    ensures
        entries_map(entries).contains_key(entries[i].0),
        entries_map(entries)[entries[i].0] == entries[i].1,
    decreases entries.len(),
{
    if i < entries.len() - 1 {
        lemma_entries_map_value(entries.drop_last(), i);
    }
}

impl Timers {
    /// Pending timers with their deadlines.
    pub closed spec fn deadlines(&self) -> Map<u64, u64> {
        entries_map(self.entries@)
    }

    pub closed spec fn wf(&self) -> bool {
        &&& self.keys.wf()
        &&& distinct_firsts(self.entries@)
        &&& self.keys.live() == entries_map(self.entries@).dom()
        &&& self.keys.live().len() == self.entries@.len()
    }

    /// A well-formed timer set has finitely many timers.
    pub proof fn lemma_finite(&self)
        requires
            self.wf(),
        ensures
            self.deadlines().dom().finite(),
    {
        self.keys.lemma_finite();
    }

    /// Number of pending timers.
    pub fn len(&self) -> (r: usize)
        requires
            self.wf(),
        ensures
            r == self.deadlines().len(),
    {
        self.keys.len()
    }

    /// No pending timer.
    pub fn new() -> (t: Timers)
        ensures
            t.wf(),
            t.deadlines() == Map::<u64, u64>::empty(),
    {
        let t = Timers { keys: KeySpace::new(), entries: Vec::new() };
        proof {
            assert(entries_map(t.entries@).dom() =~= Set::<u64>::empty());
        }
        t
    }

    fn insert(&mut self, at: u64) -> (t: TimerToken)
        requires
            old(self).wf(),
            old(self).deadlines().len() < MAX_LIVE_KEYS,
        ensures
            final(self).wf(),
            !old(self).deadlines().contains_key(t.spec_id()),
            final(self).deadlines() == old(self).deadlines().insert(t.spec_id(), at),
    {
        proof {
            assert(self.keys.live() == self.deadlines().dom());
        }
        let id = self.keys.insert();
        let ghost old_entries = self.entries@;
        self.entries.push((id, at));
        proof {
            assert(self.entries@.drop_last() == old_entries);
            assert forall|i: int, j: int| 0 <= i < j < self.entries@.len() implies
                self.entries@[i].0 != self.entries@[j].0 by {
                if j == self.entries@.len() - 1 {
                    lemma_entries_map_dom(old_entries, id);
                    if self.entries@[i].0 == id {
                        assert(old_entries[i].0 == id);
                    }
                }
            }
            assert(entries_map(self.entries@).dom() =~= self.keys.live());
            assert(old(self).keys.live().len() + 1 == self.keys.live().len());
        }
        TimerToken { id }
    }

    fn remove(&mut self, t: TimerToken)
        requires
            old(self).wf(),
        ensures
            final(self).wf(),
            final(self).deadlines() == old(self).deadlines().remove(t.spec_id()),
    {
        let id = t_id(t);
        let mut i: usize = 0;
        let ghost old_entries = self.entries@;
        while i < self.entries.len() && self.entries[i].0 != id
            invariant
                self.entries@ == old_entries,
                i <= old_entries.len(),
                forall|j: int| 0 <= j < i ==> old_entries[j].0 != id,
            decreases self.entries.len() - i,
        {
            i += 1;
        }
        if i < self.entries.len() {
            self.entries.remove(i);
            self.keys.remove(id);
            proof {
                let ne = self.entries@;
                assert(ne == old_entries.remove(i as int));
                assert forall|a: int, b: int| 0 <= a < b < ne.len() implies ne[a].0 != ne[b].0 by {
                    let a0 = if a < i { a } else { a + 1 };
                    let b0 = if b < i { b } else { b + 1 };
                    assert(ne[a] == old_entries[a0]);
                    assert(ne[b] == old_entries[b0]);
                }
                assert forall|k: u64| #[trigger] entries_map(ne).contains_key(k) ==
                    entries_map(old_entries).remove(id).contains_key(k) by {
                    lemma_entries_map_dom(ne, k);
                    lemma_entries_map_dom(old_entries, k);
                    if exists|a: int| 0 <= a < ne.len() && ne[a].0 == k {
                        let a = choose|a: int| 0 <= a < ne.len() && ne[a].0 == k;
                        let a0 = if a < i { a } else { a + 1 };
                        assert(old_entries[a0].0 == k);
                        assert(k != id);
                    }
                    if k != id && exists|a: int| 0 <= a < old_entries.len() && old_entries[a].0 == k {
                        let a = choose|a: int| 0 <= a < old_entries.len() && old_entries[a].0 == k;
                        assert(a != i);
                        let a1 = if a < i { a } else { a - 1 };
                        assert(ne[a1].0 == k);
                    }
                }
                assert forall|k: u64| #[trigger] entries_map(ne).contains_key(k) implies
                    entries_map(ne)[k] == entries_map(old_entries).remove(id)[k] by {
                    lemma_entries_map_dom(ne, k);
                    let a = choose|a: int| 0 <= a < ne.len() && ne[a].0 == k;
                    let a0 = if a < i { a } else { a + 1 };
                    lemma_entries_map_value(ne, a);
                    lemma_entries_map_value(old_entries, a0);
                }
                assert(entries_map(ne) =~= entries_map(old_entries).remove(id));
                lemma_entries_map_dom(old_entries, id);
                assert(self.keys.live() =~= entries_map(ne).dom());
            }
        } else {
            proof {
                lemma_entries_map_dom(old_entries, id);
                assert(entries_map(old_entries).remove(id) =~= entries_map(old_entries));
            }
        }
    }

    /// The earliest deadline among the pending timers, if any.
    pub fn next_deadline(&self) -> (r: Option<u64>)
        requires
            self.wf(),
        ensures
            r is None <==> self.deadlines().dom().is_empty(),
            r matches Some(m) ==> (exists|t: u64| #[trigger] self.deadlines().contains_key(t) && self.deadlines()[t] == m)
                && (forall|t: u64| #[trigger] self.deadlines().contains_key(t) ==> m <= self.deadlines()[t]),
    {
        let mut r: Option<u64> = None;
        let mut i: usize = 0;
        while i < self.entries.len()
            invariant
                i <= self.entries@.len(),
                r == min_of(self.entries@.take(i as int).map_values(|e: (u64, u64)| e.1)),
            decreases self.entries.len() - i,
        {
            let d = self.entries[i].1;
            r = match r {
                Some(m) => Some(if d < m { d } else { m }),
                None => Some(d),
            };
            proof {
                let s = self.entries@.take(i + 1).map_values(|e: (u64, u64)| e.1);
                assert(s.drop_last() =~= self.entries@.take(i as int).map_values(|e: (u64, u64)| e.1));
            }
            i += 1;
        }
        proof {
            let es = self.entries@;
            let vals = es.map_values(|e: (u64, u64)| e.1);
            assert(es.take(i as int) =~= es);
            lemma_min_of(vals);
            if r is None {
                assert(es.len() == 0);
                assert(self.deadlines().dom() =~= Set::<u64>::empty());
            } else {
                if self.deadlines().dom().is_empty() {
                    assert(es.len() > 0);
                    lemma_entries_map_value(es, 0);
                    assert(self.deadlines().dom().contains(es[0].0));
                }
            }
            if let Some(m) = r {
                let j = choose|j: int| 0 <= j < vals.len() && vals[j] == m;
                lemma_entries_map_value(es, j);
                assert(self.deadlines().contains_key(es[j].0) && self.deadlines()[es[j].0] == m);
                assert forall|t: u64| #[trigger] self.deadlines().contains_key(t) implies m <= self.deadlines()[t] by {
                    lemma_entries_map_dom(es, t);
                    let a = choose|a: int| 0 <= a < es.len() && es[a].0 == t;
                    lemma_entries_map_value(es, a);
                    assert(vals[a] == es[a].1);
                }
            }
        }
        r
    }
}

/// `min_of` picks one of the values, and no value is smaller.
pub proof fn lemma_min_of(values: Seq<u64>)
    ensures
        min_of(values) is None <==> values.len() == 0,
        min_of(values) matches Some(m) ==> (exists|j: int| 0 <= j < values.len() && values[j] == m)
            && (forall|j: int| 0 <= j < values.len() ==> m <= values[j]),
    decreases values.len(),
{
    if values.len() > 0 {
        let rest = values.drop_last();
        lemma_min_of(rest);
        let m = min_of(values)->0;
        assert forall|j: int| 0 <= j < values.len() implies m <= values[j] by {
            if j < values.len() - 1 {
                assert(rest[j] == values[j]);
            }
        }
        if min_of(rest) is Some && m == min_of(rest)->0 {
            let j = choose|j: int| 0 <= j < rest.len() && rest[j] == min_of(rest)->0;
            assert(values[j] == m);
        } else {
            assert(values[values.len() - 1] == m);
        }
    }
}

fn t_id(t: TimerToken) -> (r: u64)
    ensures
        r == t.spec_id(),
        key_norm(r) == r,
{
    proof { use_type_invariant(&t); }
    t.id
}


/// What the queue records of a pending callback: its token, its deadline
/// (`None` to run as soon as possible) and the token of its timer.
pub type PendingView = (u64, Option<u64>, Option<u64>);

/// Whether a callback with this record is due at instant `now`.
pub open spec fn is_due(p: PendingView, now: u64) -> bool {
    match p.1 {
        Some(d) => d <= now,
        None => true,
    }
}

/// Tokens of the callbacks of `s` that are due at `now`, in queue order.
pub open spec fn due_tokens(s: Seq<PendingView>, now: u64) -> Seq<u64>
    decreases s.len(),
{
    if s.len() == 0 {
        Seq::empty()
    } else if is_due(s.last(), now) {
        due_tokens(s.drop_last(), now).push(s.last().0)
    } else {
        due_tokens(s.drop_last(), now)
    }
}

/// Deadlines of the callbacks of `s` that are not yet due at `now`.
pub open spec fn later_deadlines(s: Seq<PendingView>, now: u64) -> Seq<u64>
    decreases s.len(),
{
    if s.len() == 0 {
        Seq::empty()
    } else if is_due(s.last(), now) {
        later_deadlines(s.drop_last(), now)
    } else {
        later_deadlines(s.drop_last(), now).push(s.last().1->0)
    }
}

/// Whether the tokens of `s` are pairwise distinct.
pub open spec fn distinct_tokens(s: Seq<PendingView>) -> bool {
    forall|i: int, j: int| 0 <= i < j < s.len() ==> s[i].0 != s[j].0
}

/// Whether `s` holds a callback with token `id`.
pub open spec fn has_token(s: Seq<PendingView>, id: u64) -> bool {
    exists|i: int| 0 <= i < s.len() && s[i].0 == id
}

/// Position in `s` of the callback whose token is `id`.
pub open spec fn token_index(s: Seq<PendingView>, id: u64) -> int {
    choose|i: int| 0 <= i < s.len() && s[i].0 == id
}

/// `s` without the callback whose token is `id`.
pub open spec fn remove_token(s: Seq<PendingView>, id: u64) -> Seq<PendingView> {
    if has_token(s, id) {
        s.remove(token_index(s, id))
    } else {
        s
    }
}

/// A callback scheduled to run on the main thread.
pub struct PendingCallback<F> {
    token: u64,
    deadline: Option<u64>,
    timer: Option<TimerToken>,
    func: F,
}

pub closed spec fn view_of<F>(p: PendingCallback<F>) -> PendingView {
    (p.token, p.deadline, match p.timer { Some(t) => Some(t.spec_id()), None => None })
}

/// Callbacks waiting to run, in the order in which they were scheduled.
pub struct CallbackQueue<F> {
    keys: KeySpace,
    pending: Vec<PendingCallback<F>>,
}

impl<F> CallbackQueue<F> {
    /// The pending callbacks.
    pub closed spec fn pending(&self) -> Seq<PendingView> {
        self.pending@.map_values(|p: PendingCallback<F>| view_of(p))
    }

    /// The function of the pending callback at position `i`.
    pub closed spec fn func_at(&self, i: int) -> F {
        self.pending@[i].func
    }

    pub closed spec fn wf(&self) -> bool {
        &&& self.keys.wf()
        &&& distinct_tokens(self.pending())
        &&& forall|k: u64| self.keys.live().contains(k) <==> has_token(self.pending(), k)
        &&& self.keys.live().len() == self.pending@.len()
        &&& forall|i: int| 0 <= i < self.pending@.len() ==> key_norm(#[trigger] self.pending@[i].token) == self.pending@[i].token
    }

    /// The tokens of the pending callbacks of a well-formed queue are
    /// pairwise distinct.
    pub proof fn lemma_tokens_distinct(&self)
        requires
            self.wf(),
        ensures
            distinct_tokens(self.pending()),
    {
    }

    /// An empty queue.
    pub fn new() -> (q: Self)
        ensures
            q.wf(),
            q.pending() == Seq::<PendingView>::empty(),
    {
        let q = CallbackQueue { keys: KeySpace::new(), pending: Vec::new() };
        proof {
            assert(q.pending() =~= Seq::<PendingView>::empty());
        }
        q
    }

    /// Number of pending callbacks.
    pub fn len(&self) -> (r: usize)
        ensures
            r == self.pending().len(),
    {
        self.pending.len()
    }

    /// Schedules `f` to run at instant `at`, or as soon as possible if `at`
    /// is `None`. A timer is set for the deadline, so that the event loop
    /// wakes up then.
    pub fn schedule_callback(&mut self, timers: &mut Timers, at: Option<u64>, f: F) -> (t: CallbackToken)
        requires
            old(self).wf(),
            old(timers).wf(),
            old(self).pending().len() < MAX_LIVE_KEYS,
            at is Some ==> old(timers).deadlines().len() < MAX_LIVE_KEYS,
        ensures
            final(self).wf(),
            final(timers).wf(),
            !has_token(old(self).pending(), t.spec_id()),
            final(self).pending().len() == old(self).pending().len() + 1,
            final(self).pending().drop_last() == old(self).pending(),
            final(self).pending().last().0 == t.spec_id(),
            final(self).pending().last().1 == at,
            final(self).func_at(final(self).pending().len() - 1) == f,
            forall|i: int| 0 <= i < old(self).pending().len() ==> #[trigger] final(self).func_at(i) == old(self).func_at(i),
            match at {
                None => final(self).pending().last().2 is None && final(timers).deadlines() == old(timers).deadlines(),
                Some(d) => {
                    let tt = final(self).pending().last().2->0;
                    &&& final(self).pending().last().2 is Some
                    &&& !old(timers).deadlines().contains_key(tt)
                    &&& final(timers).deadlines() == old(timers).deadlines().insert(tt, d)
                },
            },
    {
        let timer = match at {
            Some(d) => Some(TimerToken::new(d, timers)),
            None => None,
        };
        proof {
            assert(self.keys.live().len() == self.pending@.len());
        }
        let id = self.keys.insert();
        let ghost old_view = self.pending();
        self.pending.push(PendingCallback { token: id, deadline: at, timer, func: f });
        proof {
            let nv = self.pending();
            assert(nv.drop_last() =~= old_view);
            assert(!has_token(old_view, id));
            assert forall|i: int, j: int| 0 <= i < j < nv.len() implies nv[i].0 != nv[j].0 by {
                if j == nv.len() - 1 {
                    assert(old_view[i] == nv[i]);
                } else {
                    assert(old_view[i] == nv[i] && old_view[j] == nv[j]);
                }
            }
            assert forall|k: u64| self.keys.live().contains(k) <==> has_token(nv, k) by {
                if has_token(nv, k) {
                    let i = choose|i: int| 0 <= i < nv.len() && nv[i].0 == k;
                    if i < nv.len() - 1 {
                        assert(old_view[i] == nv[i]);
                    }
                }
                if k != id && self.keys.live().contains(k) {
                    let i = choose|i: int| 0 <= i < old_view.len() && old_view[i].0 == k;
                    assert(nv[i] == old_view[i]);
                }
                if k == id {
                    assert(nv[nv.len() - 1].0 == id);
                }
            }
            assert(old(self).keys.live().len() + 1 == self.keys.live().len());
        }
        CallbackToken { id }
    }

    /// Schedules `f` to run once `after` time units have elapsed from `now`.
    pub fn run_after(&mut self, timers: &mut Timers, now: u64, after: u64, f: F) -> (t: CallbackToken)
        requires
            old(self).wf(),
            old(timers).wf(),
            old(self).pending().len() < MAX_LIVE_KEYS,
            old(timers).deadlines().len() < MAX_LIVE_KEYS,
            now + after <= u64::MAX,
        ensures
            final(self).wf(),
            final(timers).wf(),
            !has_token(old(self).pending(), t.spec_id()),
            final(self).pending().len() == old(self).pending().len() + 1,
            final(self).pending().drop_last() == old(self).pending(),
            final(self).pending().last().0 == t.spec_id(),
            final(self).pending().last().1 == Some((now + after) as u64),
            final(self).func_at(final(self).pending().len() - 1) == f,
            forall|i: int| 0 <= i < old(self).pending().len() ==> #[trigger] final(self).func_at(i) == old(self).func_at(i),
            final(timers).deadlines().len() == old(timers).deadlines().len() + 1,
            final(timers).deadlines().contains_key(final(self).pending().last().2->0),
            final(timers).deadlines()[final(self).pending().last().2->0] == (now + after) as u64,
    {
        let t = self.schedule_callback(timers, Some(now + after), f);
        proof {
            old(timers).lemma_finite();
        }
        t
    }

    /// Schedules `f` to run during the next iteration of the event loop.
    pub fn run_queued(&mut self, timers: &mut Timers, f: F) -> (t: CallbackToken)
        requires
            old(self).wf(),
            old(timers).wf(),
            old(self).pending().len() < MAX_LIVE_KEYS,
        ensures
            final(self).wf(),
            final(timers).wf(),
            !has_token(old(self).pending(), t.spec_id()),
            final(self).pending() == old(self).pending().push((t.spec_id(), None, None)),
            final(self).func_at(final(self).pending().len() - 1) == f,
            forall|i: int| 0 <= i < old(self).pending().len() ==> #[trigger] final(self).func_at(i) == old(self).func_at(i),
            final(timers).deadlines() == old(timers).deadlines(),
    {
        let t = self.schedule_callback(timers, None, f);
        proof {
            assert(final(self).pending() =~= old(self).pending().push((t.spec_id(), None, None)));
        }
        t
    }

    /// Removes the pending callback whose token is `token`, if any.
    fn take_entry(&mut self, token: CallbackToken) -> (r: Option<PendingCallback<F>>)
        requires
            old(self).wf(),
        ensures
            final(self).wf(),
            final(self).pending() == remove_token(old(self).pending(), token.spec_id()),
            r is Some <==> has_token(old(self).pending(), token.spec_id()),
            r matches Some(p) ==> view_of(p) == old(self).pending()[token_index(old(self).pending(), token.spec_id())]
                && p.func == old(self).func_at(token_index(old(self).pending(), token.spec_id())),
            forall|i: int| 0 <= i < final(self).pending().len() ==> #[trigger] final(self).func_at(i) == old(self).func_at(
                if has_token(old(self).pending(), token.spec_id()) && i >= token_index(old(self).pending(), token.spec_id()) { i + 1 } else { i }),
    {
        proof { use_type_invariant(&token); }
        let id = token.id;
        let ghost old_view = self.pending();
        let mut i: usize = 0;
        while i < self.pending.len() && self.pending[i].token != id
            invariant
                self.pending() == old_view,
                i <= old_view.len(),
                forall|j: int| 0 <= j < i ==> old_view[j].0 != id,
            decreases self.pending.len() - i,
        {
            proof { assert(old_view[i as int] == view_of(self.pending@[i as int])); }
            i += 1;
        }
        if i < self.pending.len() {
            proof {
                assert(old_view[i as int] == view_of(self.pending@[i as int]));
                assert(old_view[i as int].0 == id);
                assert(has_token(old_view, id));
                let c = token_index(old_view, id);
                assert(c == i);
            }
            let p = self.pending.remove(i);
            self.keys.remove(id);
            proof {
                let nv = self.pending();
                assert(nv =~= old_view.remove(i as int));
                assert forall|a: int, b: int| 0 <= a < b < nv.len() implies nv[a].0 != nv[b].0 by {
                    let a0 = if a < i { a } else { a + 1 };
                    let b0 = if b < i { b } else { b + 1 };
                    assert(nv[a] == old_view[a0]);
                    assert(nv[b] == old_view[b0]);
                }
                assert forall|k: u64| self.keys.live().contains(k) <==> has_token(nv, k) by {
                    if has_token(nv, k) {
                        let a = choose|a: int| 0 <= a < nv.len() && nv[a].0 == k;
                        let a0 = if a < i { a } else { a + 1 };
                        assert(old_view[a0].0 == k);
                        assert(has_token(old_view, k));
                    }
                    if self.keys.live().contains(k) {
                        assert(has_token(old_view, k));
                        let a = choose|a: int| 0 <= a < old_view.len() && old_view[a].0 == k;
                        assert(a != i);
                        let a1 = if a < i { a } else { a - 1 };
                        assert(nv[a1].0 == k);
                    }
                }
            }
            Some(p)
        } else {
            proof {
                assert(!has_token(old_view, id));
            }
            None
        }
    }

    /// Removes the callback with token `token` and returns its function, to
    /// be run by the caller. Its timer, if any, is left to expire.
    pub fn take_callback(&mut self, token: CallbackToken) -> (r: Option<F>)
        requires
            old(self).wf(),
        ensures
            final(self).wf(),
            final(self).pending() == remove_token(old(self).pending(), token.spec_id()),
            r is Some <==> has_token(old(self).pending(), token.spec_id()),
            r matches Some(f) ==> f == old(self).func_at(token_index(old(self).pending(), token.spec_id())),
            forall|i: int| 0 <= i < final(self).pending().len() ==> #[trigger] final(self).func_at(i) == old(self).func_at(
                if has_token(old(self).pending(), token.spec_id()) && i >= token_index(old(self).pending(), token.spec_id()) { i + 1 } else { i }),
            forall|now: u64| !(#[trigger] due_tokens(final(self).pending(), now)).contains(token.spec_id()),
    {
        proof {
            assert forall|now: u64| !(#[trigger] due_tokens(remove_token(old(self).pending(), token.spec_id()), now)).contains(token.spec_id()) by {
                lemma_cancelled_never_due(old(self).pending(), token.spec_id(), now);
            }
        }
        match self.take_entry(token) {
            Some(p) => Some(p.func),
            None => None,
        }
    }

    /// Cancels the callback with token `token`, and its timer if it has one.
    pub fn cancel_callback(&mut self, timers: &mut Timers, token: CallbackToken)
        requires
            old(self).wf(),
            old(timers).wf(),
        ensures
            final(self).wf(),
            final(timers).wf(),
            final(self).pending() == remove_token(old(self).pending(), token.spec_id()),
            ({
                let removed = old(self).pending()[token_index(old(self).pending(), token.spec_id())];
                if has_token(old(self).pending(), token.spec_id()) && removed.2 is Some {
                    final(timers).deadlines() == old(timers).deadlines().remove(removed.2->0)
                } else {
                    final(timers).deadlines() == old(timers).deadlines()
                }
            }),
            forall|now: u64| !(#[trigger] due_tokens(final(self).pending(), now)).contains(token.spec_id()),
            forall|i: int| 0 <= i < final(self).pending().len() ==> #[trigger] final(self).func_at(i) == old(self).func_at(
                if has_token(old(self).pending(), token.spec_id()) && i >= token_index(old(self).pending(), token.spec_id()) { i + 1 } else { i }),
    {
        proof {
            assert forall|now: u64| !(#[trigger] due_tokens(remove_token(old(self).pending(), token.spec_id()), now)).contains(token.spec_id()) by {
                lemma_cancelled_never_due(old(self).pending(), token.spec_id(), now);
            }
        }
        match self.take_entry(token) {
            Some(p) => {
                match p.timer {
                    Some(t) => t.cancel(timers),
                    None => {}
                }
            }
            None => {}
        }
    }

    /// The callbacks that are due at instant `now`, in the order in which they
    /// were scheduled, and the earliest deadline among the others.
    pub fn due_callbacks(&self, now: u64) -> (r: (Vec<CallbackToken>, Option<u64>))
        requires
            self.wf(),
        ensures
            r.0@.map_values(|t: CallbackToken| t.spec_id()) == due_tokens(self.pending(), now),
            r.0@.map_values(|t: CallbackToken| t.spec_id())
                == self.pending().filter(|p: PendingView| is_due(p, now)).map_values(|p: PendingView| p.0),
            r.1 == min_of(later_deadlines(self.pending(), now)),
    {
        proof {
            lemma_due_in_queue_order(self.pending(), now);
        }
        let mut due: Vec<CallbackToken> = Vec::new();
        let mut next: Option<u64> = None;
        let mut i: usize = 0;
        while i < self.pending.len()
            invariant
                self.wf(),
                i <= self.pending@.len(),
                due@.map_values(|t: CallbackToken| t.spec_id()) == due_tokens(self.pending().take(i as int), now),
                next == min_of(later_deadlines(self.pending().take(i as int), now)),
            decreases self.pending.len() - i,
        {
            let p = &self.pending[i];
            let ghost pre = self.pending().take(i as int);
            let ghost cur = self.pending().take(i + 1);
            proof {
                assert(cur.drop_last() =~= pre);
                assert(cur.last() == view_of(self.pending@[i as int]));
            }
            match p.deadline {
                Some(d) => {
                    if d <= now {
                        due.push(CallbackToken { id: p.token });
                    } else {
                        next = match next {
                            Some(m) => Some(if d < m { d } else { m }),
                            None => Some(d),
                        };
                        proof {
                            assert(later_deadlines(cur, now).drop_last() =~= later_deadlines(pre, now));
                        }
                    }
                }
                None => {
                    due.push(CallbackToken { id: p.token });
                }
            }
            proof {
                assert(due@.map_values(|t: CallbackToken| t.spec_id()) =~= due_tokens(cur, now));
            }
            i += 1;
        }
        proof {
            assert(self.pending().take(i as int) =~= self.pending());
        }
        (due, next)
    }
}

proof fn lemma_due_tokens_listed(s: Seq<PendingView>, now: u64, x: u64)
    ensures
        due_tokens(s, now).contains(x) ==> has_token(s, x),
    decreases s.len(),
{
    if s.len() > 0 {
        lemma_due_tokens_listed(s.drop_last(), now, x);
        let d = due_tokens(s.drop_last(), now);
        if due_tokens(s, now).contains(x) {
            if is_due(s.last(), now) {
                let i = choose|i: int| 0 <= i < due_tokens(s, now).len() && due_tokens(s, now)[i] == x;
                if i < d.len() {
                    assert(d[i] == x);
                    let j = choose|j: int| 0 <= j < s.drop_last().len() && s.drop_last()[j].0 == x;
                    assert(s[j].0 == x);
                } else {
                    assert(s[s.len() - 1].0 == x);
                }
            } else {
                let j = choose|j: int| 0 <= j < s.drop_last().len() && s.drop_last()[j].0 == x;
                assert(s[j].0 == x);
            }
        }
    }
}

/// The due callbacks come in queue order: they are exactly the records of
/// the queue that are due at `now`, in the order in which they stand in it.
pub proof fn lemma_due_in_queue_order(s: Seq<PendingView>, now: u64)
    ensures
        due_tokens(s, now) == s.filter(|p: PendingView| is_due(p, now)).map_values(|p: PendingView| p.0),
    decreases s.len(),
{
    reveal(Seq::filter);
    let pred = |p: PendingView| is_due(p, now);
    if s.len() > 0 {
        lemma_due_in_queue_order(s.drop_last(), now);
        let f0 = s.drop_last().filter(pred);
        assert(s.filter(pred) == (if pred(s.last()) { f0.push(s.last()) } else { f0 }));
        if pred(s.last()) {
            assert(f0.push(s.last()).map_values(|p: PendingView| p.0)
                =~= f0.map_values(|p: PendingView| p.0).push(s.last().0));
        }
    } else {
        assert(s.filter(pred).map_values(|p: PendingView| p.0) =~= Seq::<u64>::empty());
    }
}

/// A callback just added to a queue is due at instant `now` exactly when its
/// record is due then: always for one queued without a deadline, and from its
/// deadline on for one scheduled with `run_after`.
pub proof fn lemma_scheduled_due_iff(s: Seq<PendingView>, p: PendingView, now: u64)
    requires
        !has_token(s, p.0),
    ensures
        due_tokens(s.push(p), now).contains(p.0) <==> is_due(p, now),
{
    let t = s.push(p);
    assert(t.drop_last() =~= s);
    lemma_due_tokens_listed(s, now, p.0);
    if is_due(p, now) {
        assert(due_tokens(t, now).last() == p.0);
    }
}

/// A cancelled callback is never due: once its token is removed from a
/// queue whose tokens are distinct, it is due at no instant.
pub proof fn lemma_cancelled_never_due(s: Seq<PendingView>, t: u64, now: u64)
    requires
        distinct_tokens(s),
    ensures
        !due_tokens(remove_token(s, t), now).contains(t),
{
    let r = remove_token(s, t);
    lemma_due_tokens_listed(r, now, t);
    if has_token(s, t) {
        let i = token_index(s, t);
        if has_token(r, t) {
            let j = choose|j: int| 0 <= j < r.len() && r[j].0 == t;
            if j < i {
                assert(r[j] == s[j]);
            } else {
                assert(r[j] == s[j + 1]);
            }
        }
    }
}

} // verus!
