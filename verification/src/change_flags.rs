//! Change flags of the nodes of an element tree, and how a change propagates
//! from a node to its ancestors and, at the root, to the window.

use vstd::prelude::*;
use crate::tree::{ancestor_at, NodeKey, Tree};

verus! {

/// What must be redone for a node: paint, layout, or both.
#[derive(Copy, Clone, Debug, PartialEq, Eq, Hash, Structural)]
pub struct ChangeFlags {
    bits: u32,
}

impl ChangeFlags {
    pub const PAINT: u32 = 1;
    pub const LAYOUT: u32 = 2;
    pub const NONE: u32 = 0;

    /// The bits of the flags.
    pub closed spec fn spec_bits(self) -> u32 {
        self.bits
    }

    /// No flag.
    pub fn empty() -> (r: ChangeFlags)
        ensures
            r.spec_bits() == 0,
    {
        ChangeFlags { bits: 0 }
    }

    /// The flags with bits `bits`.
    pub fn from_bits(bits: u32) -> (r: ChangeFlags)
        ensures
            r.spec_bits() == bits,
    {
        ChangeFlags { bits }
    }

    /// The bits of the flags.
    pub fn bits(&self) -> (r: u32)
        ensures
            r == self.spec_bits(),
    {
        self.bits
    }

    /// Whether every bit of `other` is set.
    pub fn contains(&self, other: u32) -> (r: bool)
        ensures
            r == (self.spec_bits() & other == other),
    {
        self.bits & other == other
    }
}

/// What the window of a tree must do once a change reaches the root.
#[derive(Copy, Clone, Debug, PartialEq, Eq, Structural)]
pub enum WindowUpdate {
    /// Lay out (and paint) the window again.
    Layout,
    /// Paint the window again.
    Paint,
    /// Nothing.
    Nothing,
}

/// The request that the flags `f` of the root make to the window.
pub open spec fn window_update_spec(f: u32) -> WindowUpdate {
    if f & ChangeFlags::LAYOUT == ChangeFlags::LAYOUT {
        WindowUpdate::Layout
    } else if f & ChangeFlags::PAINT == ChangeFlags::PAINT {
        WindowUpdate::Paint
    } else {
        WindowUpdate::Nothing
    }
}

/// The flags of the nodes of `t`, by key.
pub open spec fn flags_map(t: &Tree<ChangeFlags>) -> Map<u64, u32> {
    Map::new(|k: u64| t.dom().contains(k), |k: u64| t.value_of(k).spec_bits())
}

/// Propagation of the flags of node `k` to its ancestors, in the tree shape
/// of `t` with the flags `m`: each parent that lacks some of the flags of
/// its child gets them and passes on its own flags; the propagation stops at
/// a parent that already has them, or at the root, which asks its window to
/// lay out or paint. At most `fuel` parents are visited.
pub open spec fn propagate_spec(t: &Tree<ChangeFlags>, m: Map<u64, u32>, k: u64, fuel: nat) -> (Map<u64, u32>, WindowUpdate)
    decreases fuel,
{
    if fuel == 0 {
        (m, WindowUpdate::Nothing)
    } else {
        match t.parent_of(k) {
            Some(p) => if m[p] & m[k] == m[k] {
                (m, WindowUpdate::Nothing)
            } else {
                propagate_spec(t, m.insert(p, m[p] | m[k]), p, (fuel - 1) as nat)
            },
            None => (m, window_update_spec(m[k])),
        }
    }
}

/// The window request made by root flags `f`.
fn window_update(f: u32) -> (r: WindowUpdate)
    ensures
        r == window_update_spec(f),
{
    if f & ChangeFlags::LAYOUT == ChangeFlags::LAYOUT {
        WindowUpdate::Layout
    } else if f & ChangeFlags::PAINT == ChangeFlags::PAINT {
        WindowUpdate::Paint
    } else {
        WindowUpdate::Nothing
    }
}

/// Propagates the flags of `node` to its ancestors, and returns what the
/// window must do. Following parent links meets the root within as many
/// steps as there are nodes, unless the links loop; the propagation stops
/// there in any case.
pub fn propagate_dirty_flags(tree: &mut Tree<ChangeFlags>, node: NodeKey) -> (r: WindowUpdate)
    requires
        old(tree).wf(),
        old(tree).dom().contains(node.spec_id()),
    ensures
        final(tree).wf(),
        final(tree).dom() == old(tree).dom(),
        forall|k: u64| old(tree).dom().contains(k) ==> {
            &&& #[trigger] final(tree).parent_of(k) == old(tree).parent_of(k)
            &&& final(tree).children_of(k) == old(tree).children_of(k)
        },
        ({
            let (m, u) = propagate_spec(old(tree), flags_map(old(tree)), node.spec_id(), old(tree).dom().len());
            flags_map(final(tree)) == m && r == u
        }),
{
    let n = tree.len();
    let ghost t0 = *old(tree);
    let ghost goal = propagate_spec(&t0, flags_map(&t0), node.spec_id(), n as nat);
    assert(goal == propagate_spec(old(tree), flags_map(old(tree)), node.spec_id(), old(tree).dom().len()));
    let mut cur = node;
    let mut steps: usize = 0;
    while steps < n
        invariant
            t0 == *old(tree),
            goal == propagate_spec(old(tree), flags_map(old(tree)), node.spec_id(), old(tree).dom().len()),
            tree.wf(),
            tree.dom() == t0.dom(),
            tree.dom().contains(cur.spec_id()),
            n == t0.dom().len(),
            steps <= n,
            forall|k: u64| t0.dom().contains(k) ==> {
                &&& #[trigger] tree.parent_of(k) == t0.parent_of(k)
                &&& tree.children_of(k) == t0.children_of(k)
            },
            goal == propagate_spec(&t0, flags_map(tree), cur.spec_id(), (n - steps) as nat),
        ensures
            goal == propagate_spec(old(tree), flags_map(old(tree)), node.spec_id(), old(tree).dom().len()),
            tree.wf(),
            tree.dom() == t0.dom(),
            forall|k: u64| t0.dom().contains(k) ==> {
                &&& #[trigger] tree.parent_of(k) == t0.parent_of(k)
                &&& tree.children_of(k) == t0.children_of(k)
            },
            goal == (flags_map(tree), WindowUpdate::Nothing),
        decreases n - steps,
    {
        let flags = tree.get(cur).unwrap().bits;
        match tree.parent(cur) {
            Some(p) => {
                let pf = tree.get(p).unwrap().bits;
                if pf & flags == flags {
                    return WindowUpdate::Nothing;
                }
                let ghost before = *tree;
                tree.replace_value(p, ChangeFlags { bits: pf | flags });
                proof {
                    assert(flags_map(tree) =~= flags_map(&before).insert(p.spec_id(), pf | flags));
                    assert forall|k: u64| t0.dom().contains(k) implies {
                        &&& #[trigger] tree.parent_of(k) == t0.parent_of(k)
                        &&& tree.children_of(k) == t0.children_of(k)
                    } by {
                        if k != p.spec_id() {
                            assert(before.dom().contains(k));
                        }
                    }
                }
                cur = p;
                steps = steps + 1;
            },
            None => {
                return window_update(flags);
            },
        }
    }
    WindowUpdate::Nothing
}

/// Sets the flags `f` on `node` and propagates them; returns what the window
/// must do.
fn mark(tree: &mut Tree<ChangeFlags>, node: NodeKey, f: u32) -> (r: WindowUpdate)
    requires
        old(tree).wf(),
        old(tree).dom().contains(node.spec_id()),
    ensures
        final(tree).wf(),
        final(tree).dom() == old(tree).dom(),
        forall|k: u64| old(tree).dom().contains(k) ==> {
            &&& #[trigger] final(tree).parent_of(k) == old(tree).parent_of(k)
            &&& final(tree).children_of(k) == old(tree).children_of(k)
        },
        ({
            let m0 = flags_map(old(tree)).insert(node.spec_id(), flags_map(old(tree))[node.spec_id()] | f);
            let (m, u) = propagate_spec(old(tree), m0, node.spec_id(), old(tree).dom().len());
            flags_map(final(tree)) == m && r == u
        }),
{
    let cur = tree.get(node).unwrap().bits;
    let ghost t0 = *old(tree);
    tree.replace_value(node, ChangeFlags { bits: cur | f });
    let ghost t1 = *tree;
    proof {
        assert(flags_map(tree) =~= flags_map(&t0).insert(node.spec_id(), cur | f));
        assert forall|k: u64| t0.dom().contains(k) implies
            #[trigger] t1.parent_of(k) == t0.parent_of(k) && t1.children_of(k) == t0.children_of(k) by {
            if k != node.spec_id() {
                assert(t0.dom().contains(k));
            }
        }
        assert forall|x: u64| t0.dom().contains(x) && t0.parent_of(x) is Some implies t0.dom().contains(t0.parent_of(x)->0) by {
            t0.lemma_parent_in_dom(x);
        }
        lemma_propagate_same_shape(&t0, &t1, flags_map(tree), node.spec_id(), t0.dom().len());
    }
    propagate_dirty_flags(tree, node)
}

/// The propagation depends on the tree only through its parent links.
proof fn lemma_propagate_same_shape(a: &Tree<ChangeFlags>, b: &Tree<ChangeFlags>, m: Map<u64, u32>, k: u64, fuel: nat)
    requires
        a.wf(),
        a.dom() == b.dom(),
        a.dom().contains(k),
        forall|x: u64| a.dom().contains(x) ==> #[trigger] b.parent_of(x) == a.parent_of(x),
        forall|x: u64| a.dom().contains(x) && a.parent_of(x) is Some ==> a.dom().contains(a.parent_of(x)->0),
    ensures
        propagate_spec(a, m, k, fuel) == propagate_spec(b, m, k, fuel),
    decreases fuel,
{
    if fuel > 0 {
        match a.parent_of(k) {
            Some(p) => {
                assert(b.parent_of(k) == Some(p));
                lemma_propagate_same_shape(a, b, m.insert(p, m[p] | m[k]), p, (fuel - 1) as nat);
            },
            None => {},
        }
    }
}

/// Marks `node` as needing layout, propagates the change, and returns what
/// the window must do.
pub fn mark_needs_layout(tree: &mut Tree<ChangeFlags>, node: NodeKey) -> (r: WindowUpdate)
    requires
        old(tree).wf(),
        old(tree).dom().contains(node.spec_id()),
    ensures
        final(tree).wf(),
        final(tree).dom() == old(tree).dom(),
        ({
            let m0 = flags_map(old(tree)).insert(node.spec_id(), flags_map(old(tree))[node.spec_id()] | ChangeFlags::LAYOUT);
            let (m, u) = propagate_spec(old(tree), m0, node.spec_id(), old(tree).dom().len());
            flags_map(final(tree)) == m && r == u
        }),
{
    mark(tree, node, ChangeFlags::LAYOUT)
}

/// Marks `node` as needing paint, propagates the change, and returns what
/// the window must do.
pub fn mark_needs_paint(tree: &mut Tree<ChangeFlags>, node: NodeKey) -> (r: WindowUpdate)
    requires
        old(tree).wf(),
        old(tree).dom().contains(node.spec_id()),
    ensures
        final(tree).wf(),
        final(tree).dom() == old(tree).dom(),
        ({
            let m0 = flags_map(old(tree)).insert(node.spec_id(), flags_map(old(tree))[node.spec_id()] | ChangeFlags::PAINT);
            let (m, u) = propagate_spec(old(tree), m0, node.spec_id(), old(tree).dom().len());
            flags_map(final(tree)) == m && r == u
        }),
{
    mark(tree, node, ChangeFlags::PAINT)
}

proof fn lemma_bits_superset(a: u32, b: u32, c: u32)
    by (bit_vector)
    ensures
        (a | b) & a == a,
        (a & b == b && b & c == c) ==> a & c == c,
        a & a == a,
{
}

/// Propagating a change never clears a flag: every node keeps the flags it
/// had, and gains only flags.
pub proof fn lemma_propagate_keeps_flags(t: &Tree<ChangeFlags>, m: Map<u64, u32>, k: u64, fuel: nat)
    ensures
        forall|x: u64| #[trigger] m.dom().contains(x) ==> propagate_spec(t, m, k, fuel).0.dom().contains(x)
            && propagate_spec(t, m, k, fuel).0[x] & m[x] == m[x],
    decreases fuel,
{
    if fuel > 0 {
        match t.parent_of(k) {
            Some(p) => if m[p] & m[k] != m[k] {
                let m1 = m.insert(p, m[p] | m[k]);
                lemma_propagate_keeps_flags(t, m1, p, (fuel - 1) as nat);
                let r = propagate_spec(t, m1, p, (fuel - 1) as nat).0;
                assert forall|x: u64| #[trigger] m.dom().contains(x) implies r.dom().contains(x) && r[x] & m[x] == m[x] by {
                    assert(m1.dom().contains(x));
                    lemma_bits_superset(m[p], m[k], 0);
                    lemma_bits_superset(r[x], m1[x], m[x]);
                    lemma_bits_superset(m[x], 0, 0);
                }
            } else {
                assert forall|x: u64| #[trigger] m.dom().contains(x) implies m[x] & m[x] == m[x] by {
                    lemma_bits_superset(m[x], 0, 0);
                }
            },
            None => {
                assert forall|x: u64| #[trigger] m.dom().contains(x) implies m[x] & m[x] == m[x] by {
                    lemma_bits_superset(m[x], 0, 0);
                }
            },
        }
    } else {
        assert forall|x: u64| #[trigger] m.dom().contains(x) implies m[x] & m[x] == m[x] by {
            lemma_bits_superset(m[x], 0, 0);
        }
    }
}

/// Every node's flags are contained in its parent's.
pub open spec fn flags_contained(t: &Tree<ChangeFlags>, m: Map<u64, u32>) -> bool {
    forall|x: u64| #[trigger] t.dom().contains(x) && t.parent_of(x) is Some
        ==> m[t.parent_of(x)->0] & m[x] == m[x]
}

/// Every node's flags are contained in its parent's, except possibly those
/// of node `k`.
pub open spec fn flags_contained_except(t: &Tree<ChangeFlags>, m: Map<u64, u32>, k: u64) -> bool {
    forall|x: u64| #[trigger] t.dom().contains(x) && x != k && t.parent_of(x) is Some
        ==> m[t.parent_of(x)->0] & m[x] == m[x]
}

proof fn lemma_bits_union(a: u32, b: u32, c: u32)
    by (bit_vector)
    ensures
        (a | b) & b == b,
        a & c == c ==> (a | b) & c == c,
{
}

/// Propagation from `k` restores the containment that only `k` may break,
/// when the chain of ancestors of `k` reaches the root within `fuel` links.
proof fn lemma_propagate_contains(t: &Tree<ChangeFlags>, m: Map<u64, u32>, k: u64, fuel: nat)
    requires
        t.wf(),
        t.dom().contains(k),
        m.dom() == t.dom(),
        flags_contained_except(t, m, k),
        ancestor_at(t, k, fuel + 1) is None,
    ensures
        flags_contained(t, propagate_spec(t, m, k, fuel).0),
    decreases fuel,
{
    if fuel == 0 {
        reveal_with_fuel(ancestor_at, 2);
        assert(t.parent_of(k) is None);
    } else {
        match t.parent_of(k) {
            Some(p) => {
                if m[p] & m[k] != m[k] {
                    t.lemma_parent_in_dom(k);
                    let m1 = m.insert(p, m[p] | m[k]);
                    lemma_bits_superset(m[k], 0, 0);
                    assert(k != p);
                    assert forall|x: u64| #[trigger] t.dom().contains(x) && x != p && t.parent_of(x) is Some
                        implies m1[t.parent_of(x)->0] & m1[x] == m1[x] by {
                        let q = t.parent_of(x)->0;
                        t.lemma_parent_in_dom(x);
                        lemma_bits_union(m[p], m[k], m[x]);
                        if x == k {
                        } else {
                            assert(m[q] & m[x] == m[x]);
                        }
                    }
                    assert(m1.dom() =~= t.dom());
                    lemma_propagate_contains(t, m1, p, (fuel - 1) as nat);
                }
            },
            None => {},
        }
    }
}

/// Marking a node with flags `f` and propagating them keeps every node's
/// flags contained in its parent's, when they were before and the chain of
/// ancestors of the node reaches the root within `fuel` links (as it does
/// with `fuel` the number of nodes, unless the parent links loop).
pub proof fn lemma_mark_keeps_containment(t: &Tree<ChangeFlags>, k: u64, f: u32, fuel: nat)
    requires
        t.wf(),
        t.dom().contains(k),
        flags_contained(t, flags_map(t)),
        ancestor_at(t, k, fuel + 1) is None,
    ensures
        flags_contained(t, propagate_spec(t, flags_map(t).insert(k, flags_map(t)[k] | f), k, fuel).0),
{
    let m = flags_map(t);
    let m0 = m.insert(k, m[k] | f);
    assert forall|x: u64| #[trigger] t.dom().contains(x) && x != k && t.parent_of(x) is Some
        implies m0[t.parent_of(x)->0] & m0[x] == m0[x] by {
        let q = t.parent_of(x)->0;
        t.lemma_parent_in_dom(x);
        assert(m[q] & m[x] == m[x]);
        lemma_bits_union(m[q], f, m[x]);
    }
    assert(m0.dom() =~= t.dom());
    lemma_propagate_contains(t, m0, k, fuel);
}

} // verus!
