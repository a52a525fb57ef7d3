//! Allocation of stable, unique keys, backed by `slotmap`.
//!
//! A key is carried around as the 64-bit value that `slotmap::KeyData::as_ffi`
//! produces. All live keys of a `KeySpace` are distinct; a removed key is never
//! live again until the slot map hands it out anew.

use vstd::prelude::*;
use slotmap::{DefaultKey, Key, KeyData, SlotMap};

verus! {

/// A `slotmap::SlotMap` used only for its keys. The field is opaque to the
/// proofs: what the map holds is known through `live_keys` alone.
#[verifier::external_body]
pub struct SlotKeys {
    map: SlotMap<DefaultKey, ()>,
}

/// The set of keys, as `as_ffi` values, that are live in a slot map.
pub uninterp spec fn live_keys(m: SlotKeys) -> Set<u64>;

/// The value that `KeyData::from_ffi` reads back from an arbitrary `u64`: the
/// version half always has its lowest bit set.
pub open spec fn key_norm(k: u64) -> u64 {
    k | 0x1_0000_0000u64
}

/// Number of live keys at which the slot map is full: its slots (a sentinel
/// and one per key) then number `u32::MAX`, and a further insertion panics.
pub const MAX_LIVE_KEYS: usize = 0xFFFF_FFFEusize;

/// `SlotMap::new`: the new map holds no key.
#[verifier::external_body]
fn slot_map_new() -> (m: SlotKeys)
    ensures
        live_keys(m) == Set::<u64>::empty(),
{
    SlotKeys { map: SlotMap::new() }
}

/// `SlotMap::insert`: returns a key that was not live before and is live
/// afterwards, every other live key staying live. The map panics only when
/// `u32::MAX - 1` keys are live, which `requires` rules out.
#[verifier::external_body]
fn slot_map_insert(m: &mut SlotKeys) -> (k: u64)
    requires
        live_keys(*old(m)).len() < MAX_LIVE_KEYS,
    ensures
        key_norm(k) == k,
        !live_keys(*old(m)).contains(k),
        live_keys(*final(m)) == live_keys(*old(m)).insert(k),
{
    m.map.insert(()).data().as_ffi()
}

/// `SlotMap::remove`: the key read back from `k` stops being live; the
/// result tells whether it was live.
#[verifier::external_body]
fn slot_map_remove(m: &mut SlotKeys, k: u64) -> (r: bool)
    ensures
        r == live_keys(*old(m)).contains(key_norm(k)),
        live_keys(*final(m)) == live_keys(*old(m)).remove(key_norm(k)),
{
    m.map.remove(DefaultKey::from(KeyData::from_ffi(k))).is_some()
}

/// `SlotMap::contains_key`: whether the key read back from `k` is live.
#[verifier::external_body]
fn slot_map_contains(m: &SlotKeys, k: u64) -> (r: bool)
    ensures
        r == live_keys(*m).contains(key_norm(k)),
{
    m.map.contains_key(DefaultKey::from(KeyData::from_ffi(k)))
}

/// `SlotMap::len`: the number of live keys.
#[verifier::external_body]
fn slot_map_len(m: &SlotKeys) -> (r: usize)
    ensures
        r as nat == live_keys(*m).len(),
{
    m.map.len()
}

/// A source of unique keys.
pub struct KeySpace {
    map: SlotKeys,
}

impl KeySpace {
    /// The keys that are currently live.
    pub closed spec fn live(&self) -> Set<u64> {
        live_keys(self.map)
    }

    /// Every live key is finite in number and reads back as itself.
    pub closed spec fn wf(&self) -> bool {
        &&& live_keys(self.map).finite()
        &&& forall|k: u64| live_keys(self.map).contains(k) ==> key_norm(k) == k
    }

    /// Creates a key space with no live key.
    pub fn new() -> (s: Self)
        ensures
            s.wf(),
            s.live() == Set::<u64>::empty(),
            s.live().finite(),
    {
        KeySpace { map: slot_map_new() }
    }

    /// A well-formed key space has finitely many live keys.
    pub proof fn lemma_finite(&self)
        requires
            self.wf(),
        ensures
            self.live().finite(),
    {
    }

    /// A live key reads back as itself.
    pub proof fn lemma_live_normal(&self, k: u64)
        requires
            self.wf(),
            self.live().contains(k),
        ensures
            key_norm(k) == k,
    {
    }

    /// Number of live keys.
    pub fn len(&self) -> (r: usize)
        requires
            self.wf(),
        ensures
            r as nat == self.live().len(),
    {
        slot_map_len(&self.map)
    }

    /// Hands out a key that is not live, and makes it live.
    pub fn insert(&mut self) -> (k: u64)
        requires
            old(self).wf(),
            old(self).live().len() < MAX_LIVE_KEYS,
        ensures
            final(self).wf(),
            key_norm(k) == k,
            !old(self).live().contains(k),
            final(self).live() == old(self).live().insert(k),
            final(self).live().finite(),
            final(self).live().len() == old(self).live().len() + 1,
    {
        slot_map_insert(&mut self.map)
    }

    /// Makes `k` not live; returns whether it was live.
    pub fn remove(&mut self, k: u64) -> (r: bool)
        requires
            old(self).wf(),
            key_norm(k) == k,
        ensures
            final(self).wf(),
            r == old(self).live().contains(k),
            final(self).live() == old(self).live().remove(k),
            final(self).live().finite(),
            r ==> final(self).live().len() == old(self).live().len() - 1,
            !r ==> final(self).live().len() == old(self).live().len(),
    {
        slot_map_remove(&mut self.map, k)
    }

    /// Whether `k` is live.
    pub fn contains(&self, k: u64) -> (r: bool)
        requires
            self.wf(),
            key_norm(k) == k,
        ensures
            r == self.live().contains(k),
    {
        slot_map_contains(&self.map, k)
    }
}

} // verus!
