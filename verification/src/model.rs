//! Observable data models.
//!
//! A `Model` is a shared, mutable piece of data with an emitter: every change
//! made through `replace` is announced as a `DataChanged` event. Clones of a
//! model share the data and the emitter.

use vstd::prelude::*;
use std::cell::RefCell;
use std::collections::BTreeSet;
use std::rc::Rc;
use crate::event::{
    keys_contain, EmitterKey, EventRegistry, EventTypeKey, SubscriptionKey, DATA_CHANGED,
};
use crate::keys::{key_norm, MAX_LIVE_KEYS};
use crate::weak::{rc_downgrade, weak_upgrade, WeakPtr};
use crate::rc_cell::{BorrowError, BorrowMutError};
use vstd::std_specs::iter::IteratorSpec;

verus! {

broadcast use {vstd::std_specs::btree::group_btree_axioms, vstd::laws_cmp::group_laws_cmp};

/// A `std::cell::RefCell` holding the data of a model. Its contents are not
/// visible to the proofs.
#[verifier::external_body]
#[verifier::reject_recursive_types(T)]
pub struct SharedCell<T> {
    cell: RefCell<T>,
}

/// `RefCell::new`.
#[verifier::external_body]
fn shared_cell_new<T>(value: T) -> (c: SharedCell<T>)
{
    SharedCell { cell: RefCell::new(value) }
}

/// `RefCell::try_borrow`: if the cell is not mutably borrowed, runs `f` on the
/// stored data while it is borrowed and returns `Some` of what `f` returned;
/// otherwise `f` is not run and the result is `None`. Whether the cell is
/// borrowed depends on the holders of the model at run time, so when the
/// result is `Some` is not stated.
#[verifier::external_body]
fn shared_cell_read<T, R, F: FnOnce(&T) -> R>(c: &SharedCell<T>, f: F) -> (r: Option<R>)
    requires
        forall|v: &T| call_requires(f, (v,)),
    ensures
        r matches Some(x) ==> exists|v: &T| call_ensures(f, (v,), x),
{
    match c.cell.try_borrow() {
        Ok(v) => Some(f(&*v)),
        Err(_) => None,
    }
}

/// `RefCell::try_borrow_mut`: if the cell is not borrowed at all, runs `f` on
/// the stored data and `a` while it is mutably borrowed and returns `Ok` of
/// what `f` returned; otherwise `f` is not run and `a` is handed back in
/// `Err`. When the result is `Ok` is not stated, as for `shared_cell_read`;
/// when it is, `f` ran on a mutable reference to the stored data.
#[verifier::external_body]
fn shared_cell_write<T, A, R, F: FnOnce(&mut T, A) -> R>(c: &SharedCell<T>, a: A, f: F) -> (r: Result<R, A>)
    requires
        forall|v: &mut T| call_requires(f, (v, a)),
    ensures
        r matches Err(b) ==> b == a,
        r matches Ok(x) ==> exists|v: &mut T| call_ensures(f, (v, a), x),
{
    match c.cell.try_borrow_mut() {
        Ok(mut v) => Ok(f(&mut *v, a)),
        Err(_) => Err(a),
    }
}

/// A container for a mutable piece of data that allows subscribers to listen
/// for changes to the data.
#[verifier::reject_recursive_types(T)]
pub struct Model<T> {
    key: EmitterKey,
    inner: Rc<SharedCell<T>>,
}

/// A type-erased reference to a model, compared by identity.
#[derive(Copy, Clone, Debug, PartialEq, Eq, Hash, Structural)]
pub struct ModelAny {
    pub key: EmitterKey,
}

/// A weak reference to a model, obtained with `Model::downgrade`.
#[verifier::reject_recursive_types(T)]
pub struct WeakModel<T> {
    key: EmitterKey,
    inner: WeakPtr<SharedCell<T>>,
}

/// A type-erased weak reference to a model, compared by identity.
#[derive(Copy, Clone, Debug, PartialEq, Eq, Hash, Structural)]
pub struct WeakModelAny {
    pub key: EmitterKey,
}

impl<T> Model<T> {
    /// The emitter of the model's events; it identifies the model.
    pub closed spec fn spec_key(&self) -> EmitterKey {
        self.key
    }

    /// Creates a new model holding `initial_data`, with a new emitter.
    pub fn new<C>(initial_data: T, registry: &mut EventRegistry<C>) -> (m: Self)
        requires
            old(registry).wf(),
            old(registry).emitters().len() < MAX_LIVE_KEYS,
        ensures
            final(registry).wf(),
            !old(registry).emitters().contains(m.spec_key().spec_id()),
            final(registry).emitters() == old(registry).emitters().insert(m.spec_key().spec_id()),
            final(registry).subscriptions() == old(registry).subscriptions(),
            final(registry).entries() == old(registry).entries(),
            final(registry).global_key() == old(registry).global_key(),
            final(registry).once() == old(registry).once(),
    {
        let handle = crate::event::EmitterHandle::new(registry);
        Model { key: handle.key(), inner: Rc::new(shared_cell_new(initial_data)) }
    }

    /// The emitter of the model's events.
    pub fn key(&self) -> (k: EmitterKey)
        ensures
            k == self.spec_key(),
    {
        self.key
    }

    /// Returns a clone of the data inside this model, or `BorrowError` if the
    /// data is being written at the time of the call.
    pub fn get(&self) -> (r: Result<T, BorrowError>)
        where
            T: Clone,
    {
        match shared_cell_read(&*self.inner, |v: &T| v.clone()) {
            Some(v) => Ok(v),
            None => Err(BorrowError),
        }
    }

    /// Sets the data inside this model and returns the previous data, together
    /// with the subscriptions that the resulting `DataChanged` event reaches.
    /// If the data is being read or written at the time of the call, nothing
    /// is changed, no event is emitted, and `data` is handed back with
    /// `BorrowMutError`.
    pub fn replace<C>(&self, data: T, registry: &EventRegistry<C>) -> (r: Result<(T, Vec<SubscriptionKey>), (T, BorrowMutError)>)
        requires
            registry.wf(),
        ensures
            r matches Err(e) ==> e.0 == data,
            r matches Ok(p) ==> exists|v: &mut T| p.0 == *v && *final(v) == data,
            r matches Ok(p) ==> forall|i: int, j: int| 0 <= i < j < p.1.len() ==> p.1[i].spec_id() != p.1[j].spec_id(),
            r matches Ok(p) ==> forall|k: u64| #[trigger] registry.targets(self.spec_key().spec_id(), DATA_CHANGED).contains(k)
                <==> keys_contain(p.1@, k),
    {
        match shared_cell_write(&*self.inner, data, |v: &mut T, d: T| -> (r: T)
            ensures
                *final(v) == d,
                r == *old(v),
            {
                let mut d = d;
                std::mem::swap(v, &mut d);
                d
            }) {
            Ok(old) => {
                let t = EventTypeKey(DATA_CHANGED);
                let targets = self.emit(t, registry);
                proof {
                    assert forall|k: u64| #[trigger] registry.targets(self.spec_key().spec_id(), DATA_CHANGED).contains(k)
                        <==> keys_contain(targets@, k) by {
                        assert(registry.targets(self.spec_key().spec_id(), t.0).contains(k) <==> keys_contain(targets@, k));
                    }
                }
                Ok((old, targets))
            },
            Err(d) => Err((d, BorrowMutError)),
        }
    }

    /// Updates the data with `f` and emits a `DataChanged` event: returns the
    /// subscriptions that the event reaches. If the data is being read or
    /// written at the time of the call, `f` is not run, no event is emitted,
    /// and the result is `BorrowMutError`.
    pub fn update<C, F: FnOnce(&mut T)>(&self, f: F, registry: &EventRegistry<C>) -> (r: Result<Vec<SubscriptionKey>, BorrowMutError>)
        requires
            registry.wf(),
            forall|v: &mut T| call_requires(f, (v,)),
        ensures
            r is Ok ==> exists|v: &mut T| call_ensures(f, (v,), ()),
            r matches Ok(t) ==> forall|i: int, j: int| 0 <= i < j < t.len() ==> t[i].spec_id() != t[j].spec_id(),
            r matches Ok(t) ==> forall|k: u64| #[trigger] registry.targets(self.spec_key().spec_id(), DATA_CHANGED).contains(k)
                <==> keys_contain(t@, k),
    {
        match shared_cell_write(&*self.inner, f, |v: &mut T, g: F| -> ()
            requires
                forall|x: &mut T| call_requires(g, (x,)),
            ensures
                exists|x: &mut T| *x == *old(v) && *final(x) == *final(v) && call_ensures(g, (x,), ()),
            {
                g(v)
            }) {
            Ok(_) => {
                let t = EventTypeKey(DATA_CHANGED);
                let targets = self.emit(t, registry);
                proof {
                    assert forall|k: u64| #[trigger] registry.targets(self.spec_key().spec_id(), DATA_CHANGED).contains(k)
                        <==> keys_contain(targets@, k) by {
                        assert(registry.targets(self.spec_key().spec_id(), t.0).contains(k) <==> keys_contain(targets@, k));
                    }
                }
                Ok(targets)
            },
            Err(_) => Err(BorrowMutError),
        }
    }

    /// Updates the data with `f`, which also receives a weak reference to
    /// the model. No event is emitted. If the data is being read or written at
    /// the time of the call, `f` is not run and the result is
    /// `BorrowMutError`.
    pub fn modify<F: FnOnce(&mut T, WeakModel<T>)>(&self, f: F) -> (r: Result<(), BorrowMutError>)
        requires
            forall|v: &mut T, w: WeakModel<T>| call_requires(f, (v, w)),
        ensures
            r is Ok ==> exists|v: &mut T, w: WeakModel<T>| w.spec_key() == self.spec_key() && call_ensures(f, (v, w), ()),
    {
        let w = self.downgrade();
        match shared_cell_write(&*self.inner, (f, w), |v: &mut T, a: (F, WeakModel<T>)| -> ()
            requires
                forall|x: &mut T, y: WeakModel<T>| call_requires(a.0, (x, y)),
            ensures
                exists|x: &mut T| *x == *old(v) && *final(x) == *final(v) && call_ensures(a.0, (x, a.1), ()),
            {
                let (g, w) = a;
                g(v, w)
            }) {
            Ok(_) => Ok(()),
            Err(_) => Err(BorrowMutError),
        }
    }

    /// Runs `f` on the data and returns what it returned, or `BorrowError` if
    /// the data is being written at the time of the call.
    pub fn read<R, F: FnOnce(&T) -> R>(&self, f: F) -> (r: Result<R, BorrowError>)
        requires
            forall|v: &T| call_requires(f, (v,)),
        ensures
            r is Ok ==> exists|v: &T| call_ensures(f, (v,), r->Ok_0),
    {
        let o = shared_cell_read(&*self.inner, f);
        let res = match o {
            Some(x) => Ok(x),
            None => Err(BorrowError),
        };
        proof {
            if o is Some {
                let w = choose|v: &T| call_ensures(f, (v,), o->Some_0);
                assert(call_ensures(f, (w,), o->Some_0));
                assert(res->Ok_0 == o->Some_0);
                assert(call_ensures(f, (w,), res->Ok_0));
            }
        }
        res
    }

    /// `get`, recording in `scope` that the model was read.
    pub fn get_tracked(&self, scope: &mut TrackingScope) -> (r: Result<T, BorrowError>)
        where
            T: Clone,
        requires
            old(scope).wf(),
        ensures
            final(scope).wf(),
            final(scope).reads@ == old(scope).reads@.insert(self.spec_key().spec_id()),
            final(scope).writes@ == old(scope).writes@,
    {
        scope.track_read(self.key);
        self.get()
    }

    /// `replace`, recording in `scope` that the model was read and written.
    pub fn replace_tracked<C>(&self, data: T, registry: &EventRegistry<C>, scope: &mut TrackingScope) -> (r: Result<(T, Vec<SubscriptionKey>), (T, BorrowMutError)>)
        requires
            registry.wf(),
            old(scope).wf(),
        ensures
            final(scope).wf(),
            final(scope).reads@ == old(scope).reads@.insert(self.spec_key().spec_id()),
            final(scope).writes@ == old(scope).writes@.insert(self.spec_key().spec_id()),
            r matches Err(e) ==> e.0 == data,
            r matches Ok(p) ==> exists|v: &mut T| p.0 == *v && *final(v) == data,
            r matches Ok(p) ==> forall|i: int, j: int| 0 <= i < j < p.1.len() ==> p.1[i].spec_id() != p.1[j].spec_id(),
            r matches Ok(p) ==> forall|k: u64| #[trigger] registry.targets(self.spec_key().spec_id(), DATA_CHANGED).contains(k)
                <==> keys_contain(p.1@, k),
    {
        scope.track_write(self.key);
        self.replace(data, registry)
    }

    /// `update`, recording in `scope` that the model was written.
    pub fn update_tracked<C, F: FnOnce(&mut T)>(&self, f: F, registry: &EventRegistry<C>, scope: &mut TrackingScope) -> (r: Result<Vec<SubscriptionKey>, BorrowMutError>)
        requires
            registry.wf(),
            old(scope).wf(),
            forall|v: &mut T| call_requires(f, (v,)),
        ensures
            final(scope).wf(),
            final(scope).reads@ == old(scope).reads@.insert(self.spec_key().spec_id()),
            final(scope).writes@ == old(scope).writes@.insert(self.spec_key().spec_id()),
            r is Ok ==> exists|v: &mut T| call_ensures(f, (v,), ()),
            r matches Ok(t) ==> forall|i: int, j: int| 0 <= i < j < t.len() ==> t[i].spec_id() != t[j].spec_id(),
            r matches Ok(t) ==> forall|k: u64| #[trigger] registry.targets(self.spec_key().spec_id(), DATA_CHANGED).contains(k)
                <==> keys_contain(t@, k),
    {
        scope.track_write(self.key);
        self.update(f, registry)
    }

    /// Emits an event of type `t`: returns the subscriptions it reaches.
    pub fn emit<C>(&self, t: EventTypeKey, registry: &EventRegistry<C>) -> (r: Vec<SubscriptionKey>)
        requires
            registry.wf(),
        ensures
            forall|i: int, j: int| 0 <= i < j < r.len() ==> r[i].spec_id() != r[j].spec_id(),
            forall|k: u64| #[trigger] registry.targets(self.spec_key().spec_id(), t.0).contains(k)
                <==> keys_contain(r@, k),
    {
        registry.emit_raw(self.key, t)
    }

    /// Subscribes `callback` to changes of the model's data.
    pub fn watch<C>(&self, callback: C, registry: &mut EventRegistry<C>) -> (k: SubscriptionKey)
        requires
            old(registry).wf(),
            old(registry).subscriptions().len() < MAX_LIVE_KEYS,
        ensures
            final(registry).wf(),
            !old(registry).subscriptions().contains_key(k.spec_id()),
            final(registry).subscriptions() == old(registry).subscriptions().insert(k.spec_id(), Some(callback)),
            final(registry).entries() == old(registry).entries().insert((self.spec_key().spec_id(), DATA_CHANGED, k.spec_id())),
            final(registry).targets(self.spec_key().spec_id(), DATA_CHANGED).contains(k.spec_id()),
            final(registry).emitters() == old(registry).emitters(),
            final(registry).global_key() == old(registry).global_key(),
            final(registry).once() == old(registry).once(),
    {
        let mut sources: Vec<EmitterKey> = Vec::new();
        sources.push(self.key);
        let k = registry.watch_multi(&sources, callback);
        proof {
            assert(final(registry).entries() =~= old(registry).entries().insert(
                (self.spec_key().spec_id(), DATA_CHANGED, k.spec_id()))) by {
                assert(sources[0].spec_id() == self.spec_key().spec_id());
            }
        }
        k
    }

    /// Returns a weak reference to the model.
    pub fn downgrade(&self) -> (w: WeakModel<T>)
        ensures
            w.spec_key() == self.spec_key(),
    {
        WeakModel { key: self.key, inner: rc_downgrade(&self.inner) }
    }

    /// Returns a type-erased reference to the model.
    pub fn as_dyn(&self) -> (r: ModelAny)
        ensures
            r.key == self.spec_key(),
    {
        ModelAny { key: self.key }
    }
}

impl<T> Clone for Model<T> {
    fn clone(&self) -> (r: Self)
        ensures
            r.spec_key() == self.spec_key(),
    {
        Model { key: self.key, inner: Rc::clone(&self.inner) }
    }
}

impl<T> WeakModel<T> {
    /// The emitter of the model's events.
    pub closed spec fn spec_key(&self) -> EmitterKey {
        self.key
    }

    /// Tries to upgrade this weak reference to a strong reference to the
    /// model. Returns `None` if the model has been dropped.
    pub fn upgrade(&self) -> (r: Option<Model<T>>)
        ensures
            r matches Some(m) ==> m.spec_key() == self.spec_key(),
    {
        match weak_upgrade(&self.inner) {
            Some(inner) => Some(Model { key: self.key, inner }),
            None => None,
        }
    }

    /// Returns a type-erased weak reference to the model.
    pub fn as_dyn(&self) -> (r: WeakModelAny)
        ensures
            r.key == self.spec_key(),
    {
        WeakModelAny { key: self.key }
    }
}

/// The models read and written within a scope.
pub struct TrackingScope {
    /// Emitters of the models read within the scope.
    pub reads: BTreeSet<u64>,
    /// Emitters of the models written within the scope.
    pub writes: BTreeSet<u64>,
}

impl TrackingScope {
    /// Every recorded emitter is a valid key.
    pub open spec fn wf(&self) -> bool {
        &&& forall|k: u64| self.reads@.contains(k) ==> key_norm(k) == k
        &&& forall|k: u64| self.writes@.contains(k) ==> key_norm(k) == k
    }

    /// A scope in which nothing was accessed yet.
    pub fn new() -> (s: Self)
        ensures
            s.wf(),
            s.reads@ == Set::<u64>::empty(),
            s.writes@ == Set::<u64>::empty(),
    {
        TrackingScope { reads: BTreeSet::new(), writes: BTreeSet::new() }
    }

    /// Records a read of the model with emitter `model`.
    pub fn track_read(&mut self, model: EmitterKey)
        requires
            old(self).wf(),
        ensures
            final(self).wf(),
            final(self).reads@ == old(self).reads@.insert(model.spec_id()),
            final(self).writes@ == old(self).writes@,
    {
        let id = model.id();
        self.reads.insert(id);
    }

    /// Records a write of the model with emitter `model`; a write is a read
    /// as well.
    pub fn track_write(&mut self, model: EmitterKey)
        requires
            old(self).wf(),
        ensures
            final(self).wf(),
            final(self).reads@ == old(self).reads@.insert(model.spec_id()),
            final(self).writes@ == old(self).writes@.insert(model.spec_id()),
    {
        let id = model.id();
        self.reads.insert(id);
        self.writes.insert(id);
    }

    /// Subscribes `callback` to changes of every model read within the scope,
    /// for one invocation: the subscription is removed once the callback has
    /// run.
    pub fn watch_once<C>(&self, callback: C, registry: &mut EventRegistry<C>) -> (k: SubscriptionKey)
        requires
            self.wf(),
            old(registry).wf(),
            old(registry).subscriptions().len() < MAX_LIVE_KEYS,
        ensures
            final(registry).wf(),
            !old(registry).subscriptions().contains_key(k.spec_id()),
            final(registry).subscriptions() == old(registry).subscriptions().insert(k.spec_id(), Some(callback)),
            forall|m: u64| #[trigger] self.reads@.contains(m) ==> final(registry).targets(m, DATA_CHANGED).contains(k.spec_id()),
            final(registry).once() == old(registry).once().insert(k.spec_id()),
            final(registry).emitters() == old(registry).emitters(),
            final(registry).global_key() == old(registry).global_key(),
    {
        let mut sources: Vec<EmitterKey> = Vec::new();
        let ghost full = vstd::std_specs::btree::spec_btree_keys_iter(&self.reads).remaining();
        proof {
            lemma_u64_ordered();
        }
        for id in it: self.reads.iter()
            invariant
                self.wf(),
                it.seq() == full,
                it.seq().unref().to_set() == self.reads@,
                sources.len() == it.index(),
                forall|i: int| 0 <= i < it.index() ==> #[trigger] sources[i].spec_id() == *full[i],
        {
            proof {
                assert(full.unref()[it.index()] == *id);
                assert(full.unref().to_set().contains(*id));
            }
            sources.push(EmitterKey::from_id(*id));
        }
        let k = registry.subscribe_once(&sources, EventTypeKey(DATA_CHANGED), callback);
        proof {
            assert forall|m: u64| #[trigger] self.reads@.contains(m) implies
                final(registry).targets(m, DATA_CHANGED).contains(k.spec_id()) by {
                assert(full.unref().to_set().contains(m));
                let i = choose|i: int| 0 <= i < full.unref().len() && full.unref()[i] == m;
                assert(sources[i].spec_id() == m);
            }
        }
        k
    }
}

/// Runs `f` with a new, empty tracking scope, and returns what `f` returned
/// together with the scope, which records the models that `f` read and wrote
/// through it.
pub fn with_tracking_scope<R, F: FnOnce(&mut TrackingScope) -> R>(f: F) -> (r: (R, TrackingScope))
    requires
        forall|s: &mut TrackingScope| s.wf() && s.reads@.is_empty() && s.writes@.is_empty() ==> call_requires(f, (s,)),
    ensures
        exists|s: &mut TrackingScope| s.reads@.is_empty() && s.writes@.is_empty() && *final(s) == r.1 && call_ensures(f, (s,), r.0),
{
    let mut scope = TrackingScope::new();
    let x = f(&mut scope);
    (x, scope)
}

/// `u64` is totally ordered, as `BTreeSet` needs.
proof fn lemma_u64_ordered()
    ensures
        vstd::laws_cmp::obeys_cmp::<u64>(),
{
}

} // verus!
