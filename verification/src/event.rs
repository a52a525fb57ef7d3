//! Event emitters and subscriptions.
//!
//! An `EventRegistry` holds the live emitters and the subscriptions to events
//! that emitters send. Emitting an event does not run anything: it yields the
//! subscriptions that are interested in it, which the caller then invokes
//! one by one with `take_callback` and `finish_callback`.

use vstd::prelude::*;
use std::collections::{BTreeSet, HashMap, HashSet};
use crate::keys::{key_norm, KeySpace, MAX_LIVE_KEYS};
use vstd::std_specs::iter::IteratorSpec;

verus! {

broadcast use {
    vstd::std_specs::hash::group_hash_axioms,
    vstd::std_specs::btree::group_btree_axioms,
    vstd::laws_cmp::group_laws_cmp,
};

/// Uniquely identifies an event emitter.
#[derive(Copy, Clone, Debug, PartialEq, Eq, Hash, Structural)]
pub struct EmitterKey {
    id: u64,
}

impl EmitterKey {
    #[verifier::type_invariant]
    spec fn inv(self) -> bool {
        key_norm(self.id) == self.id
    }

    /// The key as a number.
    pub closed spec fn spec_id(self) -> u64 {
        self.id
    }

    /// The key as a number.
    pub fn id(&self) -> (r: u64)
        ensures
            r == self.spec_id(),
            key_norm(r) == r,
    {
        proof { use_type_invariant(self); }
        self.id
    }

    /// The emitter key whose number is `id`.
    pub(crate) fn from_id(id: u64) -> (k: EmitterKey)
        requires
            key_norm(id) == id,
        ensures
            k.spec_id() == id,
    {
        EmitterKey { id }
    }
}

/// Uniquely identifies a subscription to events emitted by one or more emitters.
#[derive(Copy, Clone, Debug, PartialEq, Eq, Hash, Structural)]
pub struct SubscriptionKey {
    id: u64,
}

impl SubscriptionKey {
    #[verifier::type_invariant]
    spec fn inv(self) -> bool {
        key_norm(self.id) == self.id
    }

    /// The key as a number.
    pub closed spec fn spec_id(self) -> u64 {
        self.id
    }

    /// The key as a number.
    pub fn id(&self) -> (r: u64)
        ensures
            r == self.spec_id(),
            key_norm(r) == r,
    {
        proof { use_type_invariant(self); }
        self.id
    }

    /// Removes the subscription: its callback will not be handed out again.
    pub fn unsubscribe<C>(self, registry: &mut EventRegistry<C>)
        requires
            old(registry).wf(),
        ensures
            final(registry).wf(),
            final(registry).subscriptions() == old(registry).subscriptions().remove(self.spec_id()),
            final(registry).emitters() == old(registry).emitters(),
            final(registry).entries() == old(registry).entries(),
            final(registry).global_key() == old(registry).global_key(),
            final(registry).once() == old(registry).once().remove(self.spec_id()),
    {
        registry.remove_subscription(self);
    }
}

/// Identifies a type of event.
///
/// `DATA_CHANGED` is reserved for `DataChanged`; callers number the other
/// event types they use.
#[derive(Copy, Clone, Debug, PartialEq, Eq, Hash, Structural)]
pub struct EventTypeKey(pub u64);

/// The event type number of `DataChanged`.
pub const DATA_CHANGED: u64 = 0;

/// Generic event emitted when a model has been changed.
#[derive(Copy, Clone, Debug, Eq, PartialEq, Structural)]
pub struct DataChanged;

/// Implemented by data model types that can emit events of type `T`.
pub trait EventEmitter<T> {}

impl<T> EventEmitter<DataChanged> for T {}

/// An owned emitter key. The emitter stays live until `release` is called.
pub struct EmitterHandle(EmitterKey);

impl EmitterHandle {
    /// The emitter key.
    pub closed spec fn spec_key(&self) -> EmitterKey {
        self.0
    }

    /// Creates a new emitter, live in `registry`.
    pub fn new<C>(registry: &mut EventRegistry<C>) -> (h: EmitterHandle)
        requires
            old(registry).wf(),
            old(registry).emitters().len() < MAX_LIVE_KEYS,
        ensures
            final(registry).wf(),
            !old(registry).emitters().contains(h.spec_key().spec_id()),
            final(registry).emitters() == old(registry).emitters().insert(h.spec_key().spec_id()),
            final(registry).subscriptions() == old(registry).subscriptions(),
            final(registry).entries() == old(registry).entries(),
            final(registry).global_key() == old(registry).global_key(),
            final(registry).once() == old(registry).once(),
    {
        EmitterHandle(registry.new_emitter())
    }

    /// Returns the emitter key.
    pub fn key(&self) -> (k: EmitterKey)
        ensures
            k == self.spec_key(),
    {
        self.0
    }

    /// Removes the emitter from `registry`.
    pub fn release<C>(self, registry: &mut EventRegistry<C>)
        requires
            old(registry).wf(),
            self.spec_key().spec_id() != old(registry).global_key(),
        ensures
            final(registry).wf(),
            final(registry).emitters() == old(registry).emitters().remove(self.spec_key().spec_id()),
            final(registry).subscriptions() == old(registry).subscriptions(),
            final(registry).entries() == old(registry).entries(),
            final(registry).global_key() == old(registry).global_key(),
            final(registry).once() == old(registry).once(),
    {
        registry.remove_emitter(self.0);
    }
}

/// The live emitters and the subscriptions to their events.
///
/// Each subscription holds a callback of type `C`; the callback is out of the
/// registry (`None`) while it runs.
pub struct EventRegistry<C> {
    emitters: KeySpace,
    global: u64,
    subs: KeySpace,
    callbacks: HashMap<u64, Option<C>>,
    /// (emitter, event type, subscription) triples.
    by_emitter: BTreeSet<(u64, u64, u64)>,
    /// Subscriptions that are removed after their callback has run once.
    once: HashSet<u64>,
}

/// Triples of `u64` are totally ordered, as `BTreeSet` needs.
proof fn lemma_triples_ordered()
    ensures
        vstd::laws_cmp::obeys_cmp::<(u64, u64, u64)>(),
{
}

/// What `take_callback` hands out for subscription `k`.
pub open spec fn take_callback_spec<C>(subs: Map<u64, Option<C>>, k: u64) -> Option<C> {
    if subs.contains_key(k) { subs[k] } else { None }
}

/// A subscription that has been removed is never handed out for invocation
/// again.
pub proof fn lemma_unsubscribed_not_dispatched<C>(subs: Map<u64, Option<C>>, k: u64)
    ensures
        take_callback_spec(subs.remove(k), k) is None,
{
}

/// The subscriptions after the invocation of the callback of `k` ends with
/// `keep`: the callback is put back if `keep` and `k` does not run once;
/// otherwise `k` is removed.
pub open spec fn finish_spec<C>(subs: Map<u64, Option<C>>, once: Set<u64>, k: u64, callback: C, keep: bool) -> Map<u64, Option<C>> {
    if keep && !once.contains(k) {
        subs.insert(k, Some(callback))
    } else {
        subs.remove(k)
    }
}

/// A subscription that runs once is not handed out again after its callback
/// has run, whatever the callback asked.
pub proof fn lemma_once_runs_once<C>(subs: Map<u64, Option<C>>, once: Set<u64>, k: u64, callback: C, keep: bool)
    requires
        once.contains(k),
    ensures
        take_callback_spec(finish_spec(subs, once, k, callback, keep), k) is None,
{
}

/// A callback that has been handed out is not handed out again before it is
/// put back: one dispatch invokes a subscription at most once.
pub proof fn lemma_taken_not_dispatched_twice<C>(subs: Map<u64, Option<C>>, k: u64)
    ensures
        take_callback_spec(subs.insert(k, None), k) is None,
{
}

/// Whether one of `r` is the subscription `k`.
pub open spec fn keys_contain(r: Seq<SubscriptionKey>, k: u64) -> bool {
    exists|i: int| 0 <= i < r.len() && r[i].spec_id() == k
}

/// Whether one of the first `n` triples of `s` is `(a, b, k)`.
pub open spec fn seen_prefix(s: Seq<&(u64, u64, u64)>, n: int, a: u64, b: u64, k: u64) -> bool {
    exists|m: int| 0 <= m < n && *s[m] == (a, b, k)
}

impl<C> EventRegistry<C> {
    /// The live emitters.
    pub closed spec fn emitters(&self) -> Set<u64> {
        self.emitters.live()
    }

    /// The emitter of global events.
    pub closed spec fn global_key(&self) -> u64 {
        self.global
    }

    /// The live subscriptions, with their callbacks.
    pub closed spec fn subscriptions(&self) -> Map<u64, Option<C>> {
        self.callbacks@
    }

    /// The subscriptions that are removed after their callback has run once.
    pub closed spec fn once(&self) -> Set<u64> {
        self.once@
    }

    /// The (emitter, event type, subscription) triples that route events.
    /// Triples of removed emitters or subscriptions linger until `cleanup`.
    pub closed spec fn entries(&self) -> Set<(u64, u64, u64)> {
        self.by_emitter@
    }

    pub closed spec fn wf(&self) -> bool {
        &&& self.emitters.wf()
        &&& self.subs.wf()
        &&& self.subs.live() == self.callbacks@.dom()
        &&& self.emitters.live().contains(self.global)
        &&& key_norm(self.global) == self.global
        &&& forall|e: (u64, u64, u64)| self.by_emitter@.contains(e) ==> key_norm(e.0) == e.0 && key_norm(e.2) == e.2
        &&& forall|k: u64| self.once@.contains(k) ==> self.callbacks@.contains_key(k)
    }

    /// The subscriptions that an event of type `t` from `source` reaches.
    pub open spec fn targets(&self, source: u64, t: u64) -> Set<u64> {
        Set::new(|k: u64| self.entries().contains((source, t, k)))
    }

    /// Creates a registry whose only live emitter is the global one.
    pub fn new() -> (r: Self)
        ensures
            r.wf(),
            r.emitters() == Set::<u64>::empty().insert(r.global_key()),
            r.subscriptions() == Map::<u64, Option<C>>::empty(),
            r.entries() == Set::<(u64, u64, u64)>::empty(),
            r.once() == Set::<u64>::empty(),
    {
        let mut emitters = KeySpace::new();
        let global = emitters.insert();
        EventRegistry {
            emitters,
            global,
            subs: KeySpace::new(),
            callbacks: HashMap::new(),
            by_emitter: BTreeSet::new(),
            once: HashSet::new(),
        }
    }

    /// The emitter of global events.
    pub fn global_emitter(&self) -> (k: EmitterKey)
        requires
            self.wf(),
        ensures
            k.spec_id() == self.global_key(),
    {
        EmitterKey { id: self.global }
    }

    fn new_emitter(&mut self) -> (k: EmitterKey)
        requires
            old(self).wf(),
            old(self).emitters().len() < MAX_LIVE_KEYS,
        ensures
            final(self).wf(),
            !old(self).emitters().contains(k.spec_id()),
            final(self).emitters() == old(self).emitters().insert(k.spec_id()),
            final(self).subscriptions() == old(self).subscriptions(),
            final(self).entries() == old(self).entries(),
            final(self).global_key() == old(self).global_key(),
            final(self).once() == old(self).once(),
    {
        let id = self.emitters.insert();
        EmitterKey { id }
    }

    fn remove_emitter(&mut self, k: EmitterKey)
        requires
            old(self).wf(),
            k.spec_id() != old(self).global_key(),
        ensures
            final(self).wf(),
            final(self).emitters() == old(self).emitters().remove(k.spec_id()),
            final(self).subscriptions() == old(self).subscriptions(),
            final(self).entries() == old(self).entries(),
            final(self).global_key() == old(self).global_key(),
            final(self).once() == old(self).once(),
    {
        let id = k.id();
        self.emitters.remove(id);
    }

    /// Number of live emitters.
    pub fn emitter_count(&self) -> (r: usize)
        requires
            self.wf(),
        ensures
            r == self.emitters().len(),
    {
        self.emitters.len()
    }

    /// Number of live subscriptions.
    pub fn subscription_count(&self) -> (r: usize)
        requires
            self.wf(),
        ensures
            r == self.subscriptions().len(),
    {
        self.subs.len()
    }

    /// Whether `key` is a live subscription.
    pub fn contains_subscription(&self, key: SubscriptionKey) -> (r: bool)
        requires
            self.wf(),
        ensures
            r == self.subscriptions().contains_key(key.spec_id()),
    {
        let id = key.id();
        self.callbacks.contains_key(&id)
    }

    /// Whether `k` is a live emitter.
    pub fn is_live_emitter(&self, k: EmitterKey) -> (r: bool)
        requires
            self.wf(),
        ensures
            r == self.emitters().contains(k.spec_id()),
    {
        let id = k.id();
        self.emitters.contains(id)
    }

    /// Subscribes `callback` to events of type `t` emitted by any of `sources`.
    pub fn subscribe_raw(&mut self, sources: &Vec<EmitterKey>, t: EventTypeKey, callback: C) -> (k: SubscriptionKey)
        requires
            old(self).wf(),
            old(self).subscriptions().len() < MAX_LIVE_KEYS,
        ensures
            final(self).wf(),
            !old(self).subscriptions().contains_key(k.spec_id()),
            final(self).subscriptions() == old(self).subscriptions().insert(k.spec_id(), Some(callback)),
            final(self).entries() == old(self).entries().union(
                Set::new(|e: (u64, u64, u64)| e.1 == t.0 && e.2 == k.spec_id()
                    && exists|i: int| 0 <= i < sources.len() && sources[i].spec_id() == e.0)),
            forall|i: int| 0 <= i < sources.len() ==>
                final(self).targets(#[trigger] sources[i].spec_id(), t.0).contains(k.spec_id()),
            final(self).emitters() == old(self).emitters(),
            final(self).global_key() == old(self).global_key(),
            final(self).once() == old(self).once(),
    {
        proof {
            assert(self.subs.live() == self.callbacks@.dom());
        }
        let id = self.subs.insert();
        self.callbacks.insert(id, Some(callback));
        let ghost added = Set::new(|e: (u64, u64, u64)| e.1 == t.0 && e.2 == id
            && exists|i: int| 0 <= i < sources.len() && sources[i].spec_id() == e.0);
        let mut i: usize = 0;
        while i < sources.len()
            invariant
                i <= sources.len(),
                key_norm(id) == id,
                self.subs.wf(),
                self.subs.live() == old(self).subs.live().insert(id),
                self.callbacks@ == old(self).callbacks@.insert(id, Some(callback)),
                self.once@ == old(self).once@,
                self.emitters == old(self).emitters,
                self.global == old(self).global,
                forall|e: (u64, u64, u64)| self.by_emitter@.contains(e) ==> key_norm(e.0) == e.0 && key_norm(e.2) == e.2,
                self.by_emitter@ == old(self).by_emitter@.union(
                    Set::new(|e: (u64, u64, u64)| e.1 == t.0 && e.2 == id
                        && exists|j: int| 0 <= j < i && sources[j].spec_id() == e.0)),
            decreases sources.len() - i,
        {
            let s = sources[i].id();
            self.by_emitter.insert((s, t.0, id));
            i += 1;
            proof {
                assert(self.by_emitter@ =~= old(self).by_emitter@.union(
                    Set::new(|e: (u64, u64, u64)| e.1 == t.0 && e.2 == id
                        && exists|j: int| 0 <= j < i && sources[j].spec_id() == e.0))) by {
                    assert forall|e: (u64, u64, u64)| self.by_emitter@.contains(e) implies
                        old(self).by_emitter@.contains(e) || (e.1 == t.0 && e.2 == id
                        && exists|j: int| 0 <= j < i && sources[j].spec_id() == e.0) by {
                        if e == (s, t.0, id) {
                            assert(sources[i - 1].spec_id() == e.0);
                        }
                    }
                    assert forall|e: (u64, u64, u64)| (e.1 == t.0 && e.2 == id
                        && exists|j: int| 0 <= j < i && sources[j].spec_id() == e.0) implies self.by_emitter@.contains(e) by {
                        let j = choose|j: int| 0 <= j < i && sources[j].spec_id() == e.0;
                        if j < i - 1 {
                            assert(exists|j2: int| 0 <= j2 < i - 1 && sources[j2].spec_id() == e.0);
                        }
                    }
                }
            }
        }
        proof {
            assert(self.by_emitter@ =~= old(self).by_emitter@.union(added));
        }
        SubscriptionKey { id }
    }

    /// The subscriptions that an event of type `t` from `source` reaches, each
    /// once.
    pub fn event_targets(&self, source: EmitterKey, t: EventTypeKey) -> (r: Vec<SubscriptionKey>)
        requires
            self.wf(),
        ensures
            forall|i: int, j: int| 0 <= i < j < r.len() ==> r[i].spec_id() != r[j].spec_id(),
            forall|k: u64| #[trigger] self.targets(source.spec_id(), t.0).contains(k)
                <==> keys_contain(r@, k),
    {
        let src = source.id();
        let mut r: Vec<SubscriptionKey> = Vec::new();
        let ghost entries = self.by_emitter@;
        let ghost full = vstd::std_specs::btree::spec_btree_keys_iter(&self.by_emitter).remaining();
        proof {
            lemma_triples_ordered();
        }
        for e in it: self.by_emitter.iter()
            invariant
                self.wf(),
                it.seq() == full,
                entries == self.by_emitter@,
                it.seq().unref().to_set() == entries,
                it.seq().no_duplicates(),
                forall|i: int, j: int| 0 <= i < j < r.len() ==> r[i].spec_id() != r[j].spec_id(),
                forall|k: u64| #[trigger] keys_contain(r@, k)
                    <==> seen_prefix(it.seq(), it.index(), src, t.0, k),
        {
            let ghost idx = it.index();
            let ghost seq = it.seq();
            let ghost r0 = r@;
            let (s, ty, k) = *e;
            proof {
                assert(seq.unref()[idx] == (s, ty, k));
            }
            if s == src && ty == t.0 {
                proof {
                    assert(seq.unref().to_set().contains((s, ty, k)));
                    if keys_contain(r0, k) {
                        let m = choose|m: int| 0 <= m < idx && *seq[m] == (src, t.0, k);
                        assert(seq[m] == seq[idx]);
                    }
                }
                r.push(SubscriptionKey { id: k });
                proof {
                    assert forall|k2: u64| #[trigger] keys_contain(r@, k2)
                        <==> seen_prefix(seq, idx + 1, src, t.0, k2) by {
                        if keys_contain(r@, k2) {
                            let i = choose|i: int| 0 <= i < r@.len() && r@[i].spec_id() == k2;
                            if i < r0.len() {
                                assert(keys_contain(r0, k2));
                            }
                        }
                        if seen_prefix(seq, idx + 1, src, t.0, k2) {
                            let m = choose|m: int| 0 <= m < idx + 1 && *seq[m] == (src, t.0, k2);
                            if m < idx {
                                assert(seen_prefix(seq, idx, src, t.0, k2));
                                assert(keys_contain(r0, k2));
                                let i = choose|i: int| 0 <= i < r0.len() && r0[i].spec_id() == k2;
                                assert(r@[i] == r0[i]);
                            } else {
                                assert(r@[r0.len() as int].spec_id() == k2);
                            }
                        }
                    }
                }
            } else {
                proof {
                    assert forall|k2: u64| #[trigger] keys_contain(r@, k2)
                        <==> seen_prefix(seq, idx + 1, src, t.0, k2) by {
                        if seen_prefix(seq, idx + 1, src, t.0, k2) {
                            let m = choose|m: int| 0 <= m < idx + 1 && *seq[m] == (src, t.0, k2);
                            assert(m != idx);
                            assert(seen_prefix(seq, idx, src, t.0, k2));
                        }
                        if seen_prefix(seq, idx, src, t.0, k2) {
                            let m = choose|m: int| 0 <= m < idx && *seq[m] == (src, t.0, k2);
                            assert(seen_prefix(seq, idx + 1, src, t.0, k2));
                        }
                    }
                }
            }
        }
        proof {
            let seq = full;
            assert forall|k: u64| #[trigger] self.targets(source.spec_id(), t.0).contains(k)
                <==> keys_contain(r@, k) by {
                if self.targets(source.spec_id(), t.0).contains(k) {
                    assert(seq.unref().to_set().contains((src, t.0, k)));
                    let m = choose|m: int| 0 <= m < seq.unref().len() && seq.unref()[m] == (src, t.0, k);
                    assert(seen_prefix(seq, seq.len() as int, src, t.0, k));
                }
                if keys_contain(r@, k) {
                    let m = choose|m: int| 0 <= m < seq.len() && *seq[m] == (src, t.0, k);
                    assert(seq.unref()[m] == (src, t.0, k));
                    assert(seq.unref().to_set().contains((src, t.0, k)));
                }
            }
        }
        r
    }

    /// The subscriptions that an event of type `t` emitted by `source`
    /// reaches. The caller invokes each of them with `take_callback` and
    /// `finish_callback`.
    pub fn emit_raw(&self, source: EmitterKey, t: EventTypeKey) -> (r: Vec<SubscriptionKey>)
        requires
            self.wf(),
        ensures
            forall|i: int, j: int| 0 <= i < j < r.len() ==> r[i].spec_id() != r[j].spec_id(),
            forall|k: u64| #[trigger] self.targets(source.spec_id(), t.0).contains(k)
                <==> keys_contain(r@, k),
    {
        self.event_targets(source, t)
    }

    /// The subscriptions that a global event of type `t` reaches.
    pub fn emit_global(&self, t: EventTypeKey) -> (r: Vec<SubscriptionKey>)
        requires
            self.wf(),
        ensures
            forall|i: int, j: int| 0 <= i < j < r.len() ==> r[i].spec_id() != r[j].spec_id(),
            forall|k: u64| #[trigger] self.targets(self.global_key(), t.0).contains(k)
                <==> keys_contain(r@, k),
    {
        let g = self.global_emitter();
        self.event_targets(g, t)
    }

    /// Subscribes `callback` to global events of type `t`.
    pub fn subscribe_global(&mut self, t: EventTypeKey, callback: C) -> (k: SubscriptionKey)
        requires
            old(self).wf(),
            old(self).subscriptions().len() < MAX_LIVE_KEYS,
        ensures
            final(self).wf(),
            !old(self).subscriptions().contains_key(k.spec_id()),
            final(self).subscriptions() == old(self).subscriptions().insert(k.spec_id(), Some(callback)),
            final(self).entries() == old(self).entries().insert((old(self).global_key(), t.0, k.spec_id())),
            final(self).emitters() == old(self).emitters(),
            final(self).global_key() == old(self).global_key(),
            final(self).once() == old(self).once(),
    {
        let g = self.global_emitter();
        let mut sources: Vec<EmitterKey> = Vec::new();
        sources.push(g);
        let k = self.subscribe_raw(&sources, t, callback);
        proof {
            assert(final(self).entries() =~= old(self).entries().insert((old(self).global_key(), t.0, k.spec_id()))) by {
                assert(sources[0].spec_id() == old(self).global_key());
            }
        }
        k
    }

    /// Subscribes `callback` to events of type `t` emitted by any of
    /// `sources`, for one invocation only: the subscription is removed once
    /// its callback has run.
    pub fn subscribe_once(&mut self, sources: &Vec<EmitterKey>, t: EventTypeKey, callback: C) -> (k: SubscriptionKey)
        requires
            old(self).wf(),
            old(self).subscriptions().len() < MAX_LIVE_KEYS,
        ensures
            final(self).wf(),
            !old(self).subscriptions().contains_key(k.spec_id()),
            final(self).subscriptions() == old(self).subscriptions().insert(k.spec_id(), Some(callback)),
            final(self).entries() == old(self).entries().union(
                Set::new(|e: (u64, u64, u64)| e.1 == t.0 && e.2 == k.spec_id()
                    && exists|i: int| 0 <= i < sources.len() && sources[i].spec_id() == e.0)),
            forall|i: int| 0 <= i < sources.len() ==>
                final(self).targets(#[trigger] sources[i].spec_id(), t.0).contains(k.spec_id()),
            final(self).emitters() == old(self).emitters(),
            final(self).global_key() == old(self).global_key(),
            final(self).once() == old(self).once().insert(k.spec_id()),
    {
        let k = self.subscribe_raw(sources, t, callback);
        let id = k.id();
        self.once.insert(id);
        k
    }

    /// Subscribes `callback` to `DataChanged` events from any of `sources`.
    pub fn watch_multi(&mut self, sources: &Vec<EmitterKey>, callback: C) -> (k: SubscriptionKey)
        requires
            old(self).wf(),
            old(self).subscriptions().len() < MAX_LIVE_KEYS,
        ensures
            final(self).wf(),
            !old(self).subscriptions().contains_key(k.spec_id()),
            final(self).subscriptions() == old(self).subscriptions().insert(k.spec_id(), Some(callback)),
            final(self).entries() == old(self).entries().union(
                Set::new(|e: (u64, u64, u64)| e.1 == DATA_CHANGED && e.2 == k.spec_id()
                    && exists|i: int| 0 <= i < sources.len() && sources[i].spec_id() == e.0)),
            forall|i: int| 0 <= i < sources.len() ==>
                final(self).targets(#[trigger] sources[i].spec_id(), DATA_CHANGED).contains(k.spec_id()),
            final(self).emitters() == old(self).emitters(),
            final(self).global_key() == old(self).global_key(),
            final(self).once() == old(self).once(),
    {
        self.subscribe_raw(sources, EventTypeKey(DATA_CHANGED), callback)
    }

    /// Hands out the callback of subscription `key` so that it can be
    /// invoked; the subscription keeps no callback until `finish_callback`.
    /// Returns `None` if the subscription was removed or its callback is
    /// already out.
    pub fn take_callback(&mut self, key: SubscriptionKey) -> (r: Option<C>)
        requires
            old(self).wf(),
        ensures
            final(self).wf(),
            r == take_callback_spec(old(self).subscriptions(), key.spec_id()),
            r is Some ==> final(self).subscriptions() == old(self).subscriptions().insert(key.spec_id(), None),
            r is None ==> final(self).subscriptions() == old(self).subscriptions(),
            final(self).emitters() == old(self).emitters(),
            final(self).entries() == old(self).entries(),
            final(self).global_key() == old(self).global_key(),
            final(self).once() == old(self).once(),
    {
        let id = key.id();
        match self.callbacks.remove(&id) {
            Some(Some(cb)) => {
                self.callbacks.insert(id, None);
                proof {
                    assert(self.callbacks@ =~= old(self).callbacks@.insert(id, None));
                    assert(self.callbacks@.dom() =~= old(self).callbacks@.dom());
                }
                Some(cb)
            }
            Some(None) => {
                self.callbacks.insert(id, None);
                proof {
                    assert(self.callbacks@ =~= old(self).callbacks@);
                    assert(self.callbacks@.dom() =~= old(self).callbacks@.dom());
                }
                None
            }
            None => {
                proof {
                    assert(self.callbacks@ =~= old(self).callbacks@);
                }
                None
            }
        }
    }

    /// The next of `targets`, from position `from` on, whose callback can be
    /// invoked: its position, with its callback taken out as by
    /// `take_callback`. Targets on the way whose subscription was removed, or
    /// whose callback is already out, are skipped. `None` if no target is
    /// left; then nothing changes.
    pub fn dispatch_next(&mut self, targets: &Vec<SubscriptionKey>, from: usize) -> (r: Option<(usize, C)>)
        requires
            old(self).wf(),
        ensures
            final(self).wf(),
            final(self).emitters() == old(self).emitters(),
            final(self).entries() == old(self).entries(),
            final(self).global_key() == old(self).global_key(),
            final(self).once() == old(self).once(),
            r is None ==> final(self).subscriptions() == old(self).subscriptions(),
            r is None ==> forall|j: int| from <= j < targets.len()
                ==> take_callback_spec(old(self).subscriptions(), #[trigger] targets[j].spec_id()) is None,
            r matches Some(p) ==> {
                &&& from <= p.0 < targets.len()
                &&& forall|j: int| from <= j < p.0
                    ==> take_callback_spec(old(self).subscriptions(), #[trigger] targets[j].spec_id()) is None
                &&& take_callback_spec(old(self).subscriptions(), targets[p.0 as int].spec_id()) == Some(p.1)
                &&& final(self).subscriptions() == old(self).subscriptions().insert(targets[p.0 as int].spec_id(), None)
            },
    {
        let mut i: usize = from;
        while i < targets.len()
            invariant
                self.wf(),
                from <= i,
                self.subscriptions() == old(self).subscriptions(),
                self.emitters() == old(self).emitters(),
                self.entries() == old(self).entries(),
                self.global_key() == old(self).global_key(),
                self.once() == old(self).once(),
                forall|j: int| from <= j < i
                    ==> take_callback_spec(old(self).subscriptions(), #[trigger] targets[j].spec_id()) is None,
            decreases targets.len() - i,
        {
            let key = targets[i];
            match self.take_callback(key) {
                Some(c) => {
                    return Some((i, c));
                },
                None => {},
            }
            i = i + 1;
        }
        None
    }

    /// Ends the invocation of a callback handed out by `take_callback`: the
    /// callback is put back if `keep` and the subscription is not one that
    /// runs once; otherwise the subscription is removed.
    pub fn finish_callback(&mut self, key: SubscriptionKey, callback: C, keep: bool)
        requires
            old(self).wf(),
            keep ==> old(self).subscriptions().contains_key(key.spec_id()),
        ensures
            final(self).wf(),
            final(self).subscriptions() == finish_spec(old(self).subscriptions(), old(self).once(), key.spec_id(), callback, keep),
            final(self).once() == old(self).once().remove(key.spec_id()),
            final(self).emitters() == old(self).emitters(),
            final(self).entries() == old(self).entries(),
            final(self).global_key() == old(self).global_key(),
    {
        let id = key.id();
        if keep && !self.once.contains(&id) {
            self.callbacks.insert(id, Some(callback));
            proof {
                assert(self.callbacks@.dom() =~= old(self).callbacks@.dom());
                assert(self.once@ =~= old(self).once@.remove(id));
            }
        } else {
            self.remove_subscription(key);
        }
    }

    /// Drops the routing triples whose emitter or subscription is no longer
    /// live.
    pub fn cleanup(&mut self)
        requires
            old(self).wf(),
        ensures
            final(self).wf(),
            final(self).entries() == old(self).entries().filter(
                |e: (u64, u64, u64)| old(self).emitters().contains(e.0) && old(self).subscriptions().contains_key(e.2)),
            final(self).emitters() == old(self).emitters(),
            final(self).subscriptions() == old(self).subscriptions(),
            final(self).global_key() == old(self).global_key(),
            final(self).once() == old(self).once(),
    {
        let ghost entries = self.by_emitter@;
        let ghost full = vstd::std_specs::btree::spec_btree_keys_iter(&self.by_emitter).remaining();
        let ghost keep = |e: (u64, u64, u64)| self.emitters.live().contains(e.0) && self.callbacks@.contains_key(e.2);
        let mut kept: BTreeSet<(u64, u64, u64)> = BTreeSet::new();
        proof {
            lemma_triples_ordered();
        }
        for e in it: self.by_emitter.iter()
            invariant
                self.wf(),
                self.emitters.live() == old(self).emitters.live(),
                self.callbacks@ == old(self).callbacks@,
                self.once@ == old(self).once@,
                keep == (|e: (u64, u64, u64)| old(self).emitters.live().contains(e.0) && old(self).callbacks@.contains_key(e.2)),
                it.seq() == full,
                entries == self.by_emitter@,
                it.seq().unref().to_set() == entries,
                forall|x: (u64, u64, u64)| #[trigger] kept@.contains(x)
                    <==> keep(x) && (exists|m: int| 0 <= m < it.index() && *it.seq()[m] == x),
        {
            let ghost idx = it.index();
            let ghost k0 = kept@;
            let (a, b, c) = *e;
            proof {
                assert(full.unref()[idx] == (a, b, c));
                assert(full.unref().to_set().contains((a, b, c)));
            }
            let live_emitter = self.emitters.contains(a) ;
            let live_sub = self.callbacks.contains_key(&c);
            if live_emitter && live_sub {
                kept.insert((a, b, c));
            }
            proof {
                let t = (a, b, c);
                assert(keep(t) == (live_emitter && live_sub));
                assert(*full[idx] == t);
                assert forall|x: (u64, u64, u64)| #[trigger] kept@.contains(x)
                    <==> keep(x) && (exists|m: int| 0 <= m < idx + 1 && *full[m] == x) by {
                    if kept@.contains(x) {
                        if x == t {
                            assert(0 <= idx < idx + 1 && *full[idx] == x);
                        } else {
                            assert(k0.contains(x));
                            let m = choose|m: int| 0 <= m < idx && *full[m] == x;
                            assert(0 <= m < idx + 1 && *full[m] == x);
                        }
                    }
                    if keep(x) && (exists|m: int| 0 <= m < idx + 1 && *full[m] == x) {
                        let m = choose|m: int| 0 <= m < idx + 1 && *full[m] == x;
                        if m == idx {
                            assert(x == t);
                        } else {
                            assert(exists|m2: int| 0 <= m2 < idx && *full[m2] == x);
                            assert(k0.contains(x));
                        }
                    }
                }
            }
        }
        proof {
            assert forall|x: (u64, u64, u64)| #[trigger] kept@.contains(x)
                <==> entries.filter(keep).contains(x) by {
                if entries.contains(x) {
                    assert(full.unref().to_set().contains(x));
                    let m = choose|m: int| 0 <= m < full.unref().len() && full.unref()[m] == x;
                    assert(*full[m] == x);
                }
                if kept@.contains(x) {
                    let m = choose|m: int| 0 <= m < full.len() && *full[m] == x;
                    assert(full.unref()[m] == x);
                }
            }
            assert(kept@ =~= entries.filter(keep));
        }
        self.by_emitter = kept;
    }

    /// Removes a subscription; its callback is dropped.
    pub fn remove_subscription(&mut self, key: SubscriptionKey)
        requires
            old(self).wf(),
        ensures
            final(self).wf(),
            final(self).subscriptions() == old(self).subscriptions().remove(key.spec_id()),
            final(self).emitters() == old(self).emitters(),
            final(self).entries() == old(self).entries(),
            final(self).global_key() == old(self).global_key(),
            final(self).once() == old(self).once().remove(key.spec_id()),
    {
        let id = key.id();
        self.callbacks.remove(&id);
        self.subs.remove(id);
        self.once.remove(&id);
    }
}

} // verus!
