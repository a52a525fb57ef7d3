//! The layer stack of a composition.
//!
//! A composition is a sequence of stack operations: entering a layer group,
//! leaving it, or placing a layer. When a frame is composed, the builder walks
//! the stack of the previous frame from a stack position `sp`, reusing what
//! it can and inserting what is new, so that layers are kept across frames.

use vstd::prelude::*;
use std::ops::Range;
use crate::keys::{key_norm, KeySpace, MAX_LIVE_KEYS};

verus! {

/// Pixel format of a drawable surface.
#[derive(Copy, Clone, Ord, PartialOrd, Eq, PartialEq, Debug, Hash, Structural)]
pub enum ColorType {
    Alpha8,
    RGBA8888,
    BGRA8888,
    RGBA1010102,
    BGRA1010102,
    RGB101010x,
    BGR101010x,
    BGR101010xXR,
    Gray8,
    RGBAF16,
    RGBAF32,
    A16Float,
    A16UNorm,
    R16G16B16A16UNorm,
    SRGBA8888,
    R8UNorm,
}

/// Uniquely identifies a compositor layer in the application.
#[derive(Copy, Clone, PartialEq, Eq, Debug, Hash, Structural)]
pub struct LayerID(pub u64);

/// An operation of the layer stack.
#[derive(Copy, Clone, PartialEq, Eq, Debug, Structural)]
pub enum StackOp {
    /// Enter a layer group.
    Enter(LayerID),
    /// Exit a layer group.
    Exit,
    /// A layer.
    Layer(LayerID),
}

/// Position of the `Exit` that closes a group, scanning from `cur` at nesting
/// `depth` within the group: the first `Exit` met at depth zero, or the end of
/// the stack.
pub open spec fn scan_exit(s: Seq<StackOp>, cur: int, depth: nat) -> int
    decreases s.len() - cur,
{
    if cur >= s.len() || cur < 0 {
        cur
    } else {
        match s[cur] {
            StackOp::Enter(_) => scan_exit(s, cur + 1, depth + 1),
            StackOp::Exit => if depth == 0 { cur } else { scan_exit(s, cur + 1, (depth - 1) as nat) },
            StackOp::Layer(_) => scan_exit(s, cur + 1, depth),
        }
    }
}

/// Length of the group that starts at `pos` (with its `Enter`), not counting
/// its closing `Exit`.
pub open spec fn group_len_spec(s: Seq<StackOp>, pos: int) -> int {
    scan_exit(s, pos + 1, 0) - pos
}

/// Position of the first `op` met at nesting depth zero, scanning from `cur`
/// at nesting `depth`; the scan stops at the `Exit` that closes the current
/// group. `Enter` operations are never the target.
pub open spec fn scan_find(s: Seq<StackOp>, cur: int, depth: nat, op: StackOp) -> Option<int>
    decreases s.len() - cur,
{
    if cur >= s.len() || cur < 0 {
        None
    } else {
        match s[cur] {
            StackOp::Enter(_) => scan_find(s, cur + 1, depth + 1, op),
            StackOp::Exit => if depth == 0 && op == StackOp::Exit {
                Some(cur)
            } else if depth == 0 {
                None
            } else {
                scan_find(s, cur + 1, (depth - 1) as nat, op)
            },
            StackOp::Layer(l) => if depth == 0 && op == StackOp::Layer(l) {
                Some(cur)
            } else {
                scan_find(s, cur + 1, depth, op)
            },
        }
    }
}

/// Position of the first `Enter(group)` at or after `from`.
pub open spec fn find_enter(s: Seq<StackOp>, from: int, group: LayerID) -> Option<int>
    decreases s.len() - from,
{
    if from >= s.len() || from < 0 {
        None
    } else if s[from] == StackOp::Enter(group) {
        Some(from)
    } else {
        find_enter(s, from + 1, group)
    }
}

/// The stack after moving the segment `[start, end)` to position `sp`.
pub open spec fn rotate_spec(s: Seq<StackOp>, sp: int, start: int, end: int) -> Seq<StackOp> {
    s.subrange(0, sp) + s.subrange(start, end) + s.subrange(sp, start) + s.subrange(end, s.len() as int)
}

/// How much `op` changes the nesting depth: an `Enter` opens a group, an
/// `Exit` closes one.
pub open spec fn nesting_step(op: StackOp) -> int {
    match op {
        StackOp::Enter(_) => 1,
        StackOp::Exit => -1,
        StackOp::Layer(_) => 0,
    }
}

/// Number of `Enter` minus number of `Exit` operations in `s[a..b]`.
pub open spec fn nesting_delta(s: Seq<StackOp>, a: int, b: int) -> int
    decreases b - a,
{
    if b <= a {
        0
    } else {
        nesting_delta(s, a, b - 1) + nesting_step(s[b - 1])
    }
}

proof fn lemma_nesting_delta_front(s: Seq<StackOp>, a: int, b: int)
    requires
        a < b,
    ensures
        nesting_delta(s, a, b) == nesting_step(s[a]) + nesting_delta(s, a + 1, b),
    decreases b - a,
{
    if b - 1 > a {
        lemma_nesting_delta_front(s, a, b - 1);
    } else {
        assert(nesting_delta(s, a, a) == 0);
        assert(nesting_delta(s, a + 1, b) == 0);
    }
}

/// What `scan_exit` finds, in terms of nesting: from depth `depth` at `cur`,
/// the depth never drops below zero up to the result, and if the result is
/// within the stack it is an `Exit` at which the depth is zero.
proof fn lemma_scan_exit_nesting(s: Seq<StackOp>, cur: int, depth: nat)
    requires
        0 <= cur <= s.len(),
    ensures
        cur <= scan_exit(s, cur, depth) <= s.len(),
        forall|q: int| cur <= q <= scan_exit(s, cur, depth) ==> depth + #[trigger] nesting_delta(s, cur, q) >= 0,
        scan_exit(s, cur, depth) < s.len() ==> {
            &&& s[scan_exit(s, cur, depth)] == StackOp::Exit
            &&& depth + nesting_delta(s, cur, scan_exit(s, cur, depth)) == 0
        },
    decreases s.len() - cur,
{
    let e = scan_exit(s, cur, depth);
    if cur < s.len() {
        let nd: int = depth + nesting_step(s[cur]);
        match s[cur] {
            StackOp::Exit => if depth == 0 {
                return;
            },
            _ => {},
        }
        let d1 = nd as nat;
        lemma_scan_exit_nesting(s, cur + 1, d1);
        assert(e == scan_exit(s, cur + 1, d1));
        assert forall|q: int| cur <= q <= e implies depth + #[trigger] nesting_delta(s, cur, q) >= 0 by {
            if q > cur {
                lemma_nesting_delta_front(s, cur, q);
                assert(d1 + nesting_delta(s, cur + 1, q) >= 0);
            }
        }
        if e < s.len() {
            lemma_nesting_delta_front(s, cur, e);
        }
    }
}

/// The length of a group reaches the `Exit` that balances its `Enter`:
/// between the `Enter` at `p` and position `p + len`, no prefix closes more
/// groups than it opens, and if `p + len` lies within the stack it is an
/// `Exit` after equally many `Enter` and `Exit` operations (so the `Exit` of
/// a nested group never ends the group).
pub proof fn lemma_group_len_balanced(s: Seq<StackOp>, p: int)
    requires
        0 <= p < s.len(),
    ensures
        p < p + group_len_spec(s, p) <= s.len(),
        forall|q: int| p + 1 <= q <= p + group_len_spec(s, p) ==> #[trigger] nesting_delta(s, p + 1, q) >= 0,
        p + group_len_spec(s, p) < s.len() ==> {
            &&& s[p + group_len_spec(s, p)] == StackOp::Exit
            &&& nesting_delta(s, p + 1, p + group_len_spec(s, p)) == 0
        },
{
    lemma_scan_exit_nesting(s, p + 1, 0);
}

proof fn lemma_scan_exit_bounds(s: Seq<StackOp>, cur: int, depth: nat)
    requires
        0 <= cur,
    ensures
        cur <= scan_exit(s, cur, depth),
        scan_exit(s, cur, depth) <= if cur <= s.len() { s.len() as int } else { cur },
    decreases s.len() - cur,
{
    if cur < s.len() {
        match s[cur] {
            StackOp::Enter(_) => lemma_scan_exit_bounds(s, cur + 1, depth + 1),
            StackOp::Exit => if depth != 0 { lemma_scan_exit_bounds(s, cur + 1, (depth - 1) as nat) },
            StackOp::Layer(_) => lemma_scan_exit_bounds(s, cur + 1, depth),
        }
    }
}

proof fn lemma_scan_find_bounds(s: Seq<StackOp>, cur: int, depth: nat, op: StackOp)
    requires
        0 <= cur,
    ensures
        scan_find(s, cur, depth, op) matches Some(p) ==> cur <= p < s.len() && s[p] == op,
    decreases s.len() - cur,
{
    if cur < s.len() {
        match s[cur] {
            StackOp::Enter(_) => lemma_scan_find_bounds(s, cur + 1, depth + 1, op),
            StackOp::Exit => if depth != 0 { lemma_scan_find_bounds(s, cur + 1, (depth - 1) as nat, op) },
            StackOp::Layer(_) => lemma_scan_find_bounds(s, cur + 1, depth, op),
        }
    }
}

proof fn lemma_find_enter_bounds(s: Seq<StackOp>, from: int, group: LayerID)
    requires
        0 <= from,
    ensures
        find_enter(s, from, group) matches Some(p) ==> from <= p < s.len() && s[p] == StackOp::Enter(group)
            && forall|q: int| from <= q < p ==> s[q] != StackOp::Enter(group),
        find_enter(s, from, group) is None ==> forall|q: int| from <= q < s.len() ==> s[q] != StackOp::Enter(group),
    decreases s.len() - from,
{
    if from < s.len() {
        lemma_find_enter_bounds(s, from + 1, group);
    }
}

/// Kind of a compositor layer.
#[derive(Copy, Clone, PartialEq, Eq, Debug, Structural)]
pub enum LayerKind {
    /// A layer holding a recorded picture.
    Picture,
    /// A layer group.
    Group,
}

/// What the composition keeps about a layer: its kind, and the last
/// revision of the composition in which it was used.
#[derive(Copy, Clone, PartialEq, Eq, Debug, Structural)]
pub struct LayerInfo {
    pub rev: usize,
    pub kind: LayerKind,
}

/// The layer named by a stack operation, if any.
pub open spec fn op_layer(op: StackOp) -> Option<LayerID> {
    match op {
        StackOp::Enter(l) => Some(l),
        StackOp::Layer(l) => Some(l),
        StackOp::Exit => None,
    }
}

/// The layer information held as a list of distinct keys, read as a map.
pub open spec fn assoc_map(s: Seq<(u64, LayerInfo)>) -> Map<u64, LayerInfo> {
    Map::new(
        |k: u64| exists|i: int| 0 <= i < s.len() && s[i].0 == k,
        |k: u64| s[choose|i: int| 0 <= i < s.len() && s[i].0 == k].1,
    )
}

/// No key occurs twice in the list.
pub open spec fn distinct_keys(s: Seq<(u64, LayerInfo)>) -> bool {
    forall|i: int, j: int| 0 <= i < s.len() && 0 <= j < s.len() && i != j ==> s[i].0 != s[j].0
}

/// The layer named at `s[i]`, if any, is known to the information map.
pub open spec fn known_at(s: Seq<StackOp>, m: Map<u64, LayerInfo>, i: int) -> bool {
    op_layer(s[i]) matches Some(l) ==> m.dom().contains(l.0)
}

/// Every layer that the stack names is known to the information map.
pub open spec fn stack_known(s: Seq<StackOp>, m: Map<u64, LayerInfo>) -> bool {
    forall|i: int| 0 <= i < s.len() ==> #[trigger] known_at(s, m, i)
}

/// Every key of the list reads back as itself.
pub open spec fn keys_normal(s: Seq<(u64, LayerInfo)>) -> bool {
    forall|i: int| 0 <= i < s.len() ==> key_norm(#[trigger] s[i].0) == s[i].0
}

/// The layers named in `s[lo..hi]`.
pub open spec fn range_ids(s: Seq<StackOp>, lo: int, hi: int) -> Set<u64> {
    Set::new(|k: u64| exists|j: int| lo <= j < hi && op_layer(s[j]) == Some(LayerID(k)))
}

/// `m` with the layers of `ids` marked as used in revision `rev`.
pub open spec fn mark_used(m: Map<u64, LayerInfo>, ids: Set<u64>, rev: usize) -> Map<u64, LayerInfo> {
    Map::new(
        |k: u64| m.dom().contains(k),
        |k: u64| if ids.contains(k) { LayerInfo { rev: rev, kind: m[k].kind } } else { m[k] },
    )
}

/// The stack with a new empty group `g` opened at `sp`.
pub open spec fn open_group_spec(s: Seq<StackOp>, sp: int, g: LayerID) -> Seq<StackOp> {
    s.subrange(0, sp) + seq![StackOp::Enter(g), StackOp::Exit] + s.subrange(sp, s.len() as int)
}

/// The stack with the operations in `[sp, next)` removed.
pub open spec fn remove_range_spec(s: Seq<StackOp>, sp: int, next: int) -> Seq<StackOp> {
    s.subrange(0, sp) + s.subrange(next, s.len() as int)
}

/// The layers placed by the stack, in order, leaving out groups.
pub open spec fn placed_layers(s: Seq<StackOp>) -> Seq<LayerID>
    decreases s.len(),
{
    if s.len() == 0 {
        Seq::empty()
    } else {
        placed_layers(s.drop_last()) + match s.last() {
            StackOp::Layer(l) => seq![l],
            _ => Seq::<LayerID>::empty(),
        }
    }
}

proof fn lemma_assoc_at(s: Seq<(u64, LayerInfo)>, i: int)
    requires
        distinct_keys(s),
        0 <= i < s.len(),
    ensures
        assoc_map(s).dom().contains(s[i].0),
        assoc_map(s)[s[i].0] == s[i].1,
{
    let k = s[i].0;
    assert(exists|j: int| 0 <= j < s.len() && s[j].0 == k);
    let j = choose|j: int| 0 <= j < s.len() && s[j].0 == k;
    assert(j == i);
}

proof fn lemma_assoc_update(s: Seq<(u64, LayerInfo)>, i: int, v: LayerInfo)
    requires
        distinct_keys(s),
        0 <= i < s.len(),
    ensures
        distinct_keys(s.update(i, (s[i].0, v))),
        assoc_map(s.update(i, (s[i].0, v))) == assoc_map(s).insert(s[i].0, v),
{
    let t = s.update(i, (s[i].0, v));
    let k0 = s[i].0;
    assert forall|k: u64| #[trigger] assoc_map(t).dom().contains(k) == assoc_map(s).insert(k0, v).dom().contains(k) by {
        if exists|j: int| 0 <= j < s.len() && s[j].0 == k {
            let j = choose|j: int| 0 <= j < s.len() && s[j].0 == k;
            assert(t[j].0 == k);
        }
        if exists|j: int| 0 <= j < t.len() && t[j].0 == k {
            let j = choose|j: int| 0 <= j < t.len() && t[j].0 == k;
            assert(s[j].0 == k);
        }
    }
    assert forall|k: u64| assoc_map(t).dom().contains(k) implies #[trigger] assoc_map(t)[k] == assoc_map(s).insert(k0, v)[k] by {
        let j = choose|j: int| 0 <= j < t.len() && t[j].0 == k;
        assert(s[j].0 == k);
        lemma_assoc_at(t, j);
        if j != i {
            lemma_assoc_at(s, j);
        }
    }
    assert(assoc_map(t) =~= assoc_map(s).insert(k0, v));
}

proof fn lemma_assoc_push(s: Seq<(u64, LayerInfo)>, k0: u64, v: LayerInfo)
    requires
        distinct_keys(s),
        !assoc_map(s).dom().contains(k0),
    ensures
        distinct_keys(s.push((k0, v))),
        assoc_map(s.push((k0, v))) == assoc_map(s).insert(k0, v),
{
    let t = s.push((k0, v));
    assert forall|i: int| 0 <= i < s.len() implies s[i].0 != k0 by {
        if s[i].0 == k0 {
            assert(assoc_map(s).dom().contains(k0));
        }
    }
    assert forall|k: u64| #[trigger] assoc_map(t).dom().contains(k) == assoc_map(s).insert(k0, v).dom().contains(k) by {
        if exists|j: int| 0 <= j < s.len() && s[j].0 == k {
            let j = choose|j: int| 0 <= j < s.len() && s[j].0 == k;
            assert(t[j].0 == k);
        }
        if k == k0 {
            assert(t[s.len() as int].0 == k);
        }
        if exists|j: int| 0 <= j < t.len() && t[j].0 == k {
            let j = choose|j: int| 0 <= j < t.len() && t[j].0 == k;
            if j < s.len() {
                assert(s[j].0 == k);
            }
        }
    }
    assert forall|k: u64| assoc_map(t).dom().contains(k) implies #[trigger] assoc_map(t)[k] == assoc_map(s).insert(k0, v)[k] by {
        let j = choose|j: int| 0 <= j < t.len() && t[j].0 == k;
        lemma_assoc_at(t, j);
        if j < s.len() {
            assert(s[j].0 == k);
            lemma_assoc_at(s, j);
        }
    }
    assert(assoc_map(t) =~= assoc_map(s).insert(k0, v));
}

/// No element of `s` before position `from` has key `k`.
spec fn assoc_index_from(s: Seq<(u64, LayerInfo)>, k: u64, from: int) -> bool {
    forall|j: int| 0 <= j < from ==> s[j].0 != k
}

/// Index of key `k` in the list, or the list's length if it is absent.
fn find_info(infos: &Vec<(u64, LayerInfo)>, k: u64) -> (r: usize)
    requires
        distinct_keys(infos@),
    ensures
        r <= infos@.len(),
        r < infos@.len() ==> infos@[r as int].0 == k,
        r == infos@.len() <==> !assoc_map(infos@).dom().contains(k),
{
    let mut i: usize = 0;
    while i < infos.len()
        invariant
            i <= infos@.len(),
            assoc_index_from(infos@, k, i as int),
        decreases infos@.len() - i,
    {
        if infos[i].0 == k {
            return i;
        }
        i += 1;
    }
    proof {
        if assoc_map(infos@).dom().contains(k) {
            let j = choose|j: int| 0 <= j < infos@.len() && infos@[j].0 == k;
            assert(infos@[j].0 != k);
        }
    }
    i
}

/// Appends `src[from..to]` to `out`.
fn push_range(out: &mut Vec<StackOp>, src: &Vec<StackOp>, from: usize, to: usize)
    requires
        from <= to <= src@.len(),
    ensures
        final(out)@ == old(out)@ + src@.subrange(from as int, to as int),
{
    let mut i: usize = from;
    while i < to
        invariant
            from <= i <= to,
            to <= src@.len(),
            out@ == old(out)@ + src@.subrange(from as int, i as int),
        decreases to - i,
    {
        out.push(src[i]);
        proof {
            assert(src@.subrange(from as int, i + 1) == src@.subrange(from as int, i as int).push(src@[i as int]));
        }
        i += 1;
    }
}

/// The stack after moving `[start, end)` to `sp`, the operations in
/// `[sp, start)` moving after it.
fn rotated(s: &Vec<StackOp>, sp: usize, start: usize, end: usize) -> (r: Vec<StackOp>)
    requires
        sp <= start <= end <= s@.len(),
    ensures
        r@ == rotate_spec(s@, sp as int, start as int, end as int),
{
    let mut r: Vec<StackOp> = Vec::new();
    push_range(&mut r, s, 0, sp);
    push_range(&mut r, s, start, end);
    push_range(&mut r, s, sp, start);
    let n = s.len();
    push_range(&mut r, s, end, n);
    proof {
        assert(Seq::<StackOp>::empty() + s@.subrange(0, sp as int) == s@.subrange(0, sp as int));
    }
    r
}

/// Moving a segment of the stack keeps every operation: the moved stack is a
/// permutation of the stack it was made from.
pub proof fn lemma_rotate_keeps_ops(s: Seq<StackOp>, sp: int, start: int, end: int)
    requires
        0 <= sp <= start <= end <= s.len(),
    ensures
        rotate_spec(s, sp, start, end).len() == s.len(),
        rotate_spec(s, sp, start, end).to_multiset() == s.to_multiset(),
{
    let a = s.subrange(0, sp);
    let b = s.subrange(sp, start);
    let c = s.subrange(start, end);
    let d = s.subrange(end, s.len() as int);
    assert(s == a + b + c + d);
    vstd::seq_lib::lemma_multiset_commutative(a + b + c, d);
    vstd::seq_lib::lemma_multiset_commutative(a + b, c);
    vstd::seq_lib::lemma_multiset_commutative(a, b);
    vstd::seq_lib::lemma_multiset_commutative(a + c + b, d);
    vstd::seq_lib::lemma_multiset_commutative(a + c, b);
    vstd::seq_lib::lemma_multiset_commutative(a, c);
    assert(rotate_spec(s, sp, start, end) == a + c + b + d);
    assert(a.to_multiset().add(b.to_multiset()).add(c.to_multiset()) =~= a.to_multiset().add(c.to_multiset()).add(b.to_multiset()));
}

proof fn lemma_rotate_index(s: Seq<StackOp>, sp: int, start: int, end: int, i: int)
    requires
        0 <= sp <= start <= end <= s.len(),
        0 <= i < s.len(),
    ensures
        rotate_spec(s, sp, start, end).len() == s.len(),
        i < sp ==> rotate_spec(s, sp, start, end)[i] == s[i],
        sp <= i < sp + (end - start) ==> rotate_spec(s, sp, start, end)[i] == s[i - sp + start],
        sp + (end - start) <= i < end ==> rotate_spec(s, sp, start, end)[i] == s[i - (end - start)],
        end <= i ==> rotate_spec(s, sp, start, end)[i] == s[i],
{
}

/// Opening a new group and closing it at once leaves exactly the group's
/// `Enter` and `Exit` in place: the closing `Exit` is found right after the
/// `Enter`, and nothing is removed as stale.
pub proof fn lemma_empty_group_kept(s: Seq<StackOp>, sp: int, g: LayerID)
    requires
        0 <= sp <= s.len(),
    ensures
        scan_find(open_group_spec(s, sp, g), sp + 1, 0, StackOp::Exit) == Some(sp + 1),
        remove_range_spec(open_group_spec(s, sp, g), sp + 1, sp + 1) == open_group_spec(s, sp, g),
        open_group_spec(s, sp, g)[sp] == StackOp::Enter(g),
{
    let t = open_group_spec(s, sp, g);
    assert(t[sp + 1] == StackOp::Exit);
    assert(t[sp] == StackOp::Enter(g));
    assert(t.subrange(0, sp + 1) + t.subrange(sp + 1, t.len() as int) =~= t);
}

/// A layer composition: the layers that are live, what is known of every
/// layer, the stack of layer operations, and the revision.
pub struct Composition {
    layers: KeySpace,
    infos: Vec<(u64, LayerInfo)>,
    stack: Vec<StackOp>,
    rev: usize,
}

impl Composition {
    /// The stack of layer operations.
    pub closed spec fn ops(&self) -> Seq<StackOp> {
        self.stack@
    }

    /// The layers that are live.
    pub closed spec fn live(&self) -> Set<u64> {
        self.layers.live()
    }

    /// What is known of each layer ever created in this composition.
    pub closed spec fn info(&self) -> Map<u64, LayerInfo> {
        assoc_map(self.infos@)
    }

    /// The revision of the composition.
    pub closed spec fn revision(&self) -> usize {
        self.rev
    }

    pub closed spec fn wf(&self) -> bool {
        &&& self.layers.wf()
        &&& distinct_keys(self.infos@)
        &&& keys_normal(self.infos@)
        &&& forall|k: u64| self.layers.live().contains(k) ==> #[trigger] assoc_map(self.infos@).dom().contains(k)
        &&& stack_known(self.stack@, assoc_map(self.infos@))
    }

    /// Whether layer `id` is live.
    pub fn contains_layer(&self, id: LayerID) -> (r: bool)
        requires
            self.wf(),
        ensures
            r == self.live().contains(id.0),
    {
        if id.0 | 0x1_0000_0000u64 != id.0 {
            proof {
                if self.layers.live().contains(id.0) {
                    self.layers.lemma_live_normal(id.0);
                }
            }
            return false;
        }
        self.layers.contains(id.0)
    }

    /// The layers to composite on a window, in stack order.
    pub fn placed_layers(&self) -> (r: Vec<LayerID>)
        ensures
            r@ == placed_layers(self.ops()),
    {
        let mut r: Vec<LayerID> = Vec::new();
        let mut i: usize = 0;
        while i < self.stack.len()
            invariant
                i <= self.stack@.len(),
                r@ == placed_layers(self.stack@.subrange(0, i as int)),
            decreases self.stack@.len() - i,
        {
            proof {
                assert(self.stack@.subrange(0, i + 1).drop_last() == self.stack@.subrange(0, i as int));
            }
            match self.stack[i] {
                StackOp::Layer(l) => {
                    r.push(l);
                    proof {
                        assert(r@ == placed_layers(self.stack@.subrange(0, i as int)) + seq![l]);
                    }
                },
                _ => {
                    proof {
                        assert(placed_layers(self.stack@.subrange(0, i as int)) + Seq::<LayerID>::empty()
                            == placed_layers(self.stack@.subrange(0, i as int)));
                    }
                },
            }
            i += 1;
        }
        proof {
            assert(self.stack@.subrange(0, i as int) == self.stack@);
        }
        r
    }
}

impl Default for Composition {
    /// An empty composition at revision zero.
    fn default() -> (r: Composition)
        ensures
            r.wf(),
            r.ops() == Seq::<StackOp>::empty(),
            r.live() == Set::<u64>::empty(),
            r.info() == Map::<u64, LayerInfo>::empty(),
            r.revision() == 0,
    {
        let c = Composition { layers: KeySpace::new(), infos: Vec::new(), stack: Vec::new(), rev: 0 };
        proof {
            assert(assoc_map(c.infos@) =~= Map::<u64, LayerInfo>::empty());
        }
        c
    }
}

/// Builds a composition, reusing the layers of the previous one where it can.
pub struct CompositionBuilder {
    comp: Composition,
    sp: usize,
}

impl CompositionBuilder {
    /// The stack of layer operations.
    pub closed spec fn ops(&self) -> Seq<StackOp> {
        self.comp.stack@
    }

    /// The current position in the stack.
    pub closed spec fn pos(&self) -> int {
        self.sp as int
    }

    /// The layers that are live.
    pub closed spec fn live(&self) -> Set<u64> {
        self.comp.layers.live()
    }

    /// What is known of each layer.
    pub closed spec fn info(&self) -> Map<u64, LayerInfo> {
        assoc_map(self.comp.infos@)
    }

    /// The revision being built.
    pub closed spec fn revision(&self) -> usize {
        self.comp.rev
    }

    pub closed spec fn wf(&self) -> bool {
        &&& self.comp.wf()
        &&& self.sp <= self.comp.stack@.len()
    }

    /// Starts a new revision of `previous`, or of an empty composition.
    pub fn new(previous: Option<Composition>) -> (b: CompositionBuilder)
        requires
            previous matches Some(p) ==> p.wf() && p.revision() < usize::MAX,
        ensures
            b.wf(),
            b.pos() == 0,
            match previous {
                Some(p) => b.ops() == p.ops() && b.live() == p.live() && b.info() == p.info()
                    && b.revision() == p.revision() + 1,
                None => b.ops() == Seq::<StackOp>::empty() && b.live() == Set::<u64>::empty()
                    && b.info() == Map::<u64, LayerInfo>::empty() && b.revision() == 1,
            },
    {
        let mut comp = match previous {
            Some(p) => p,
            None => Composition::default(),
        };
        comp.rev = comp.rev + 1;
        CompositionBuilder { comp, sp: 0 }
    }

    /// The current position in the stack.
    pub fn sp(&self) -> (r: usize)
        ensures
            r == self.pos(),
    {
        self.sp
    }

    /// The operation at the current position, if any.
    pub fn current(&self) -> (r: Option<StackOp>)
        requires
            self.wf(),
        ensures
            r == (if self.pos() < self.ops().len() { Some(self.ops()[self.pos()]) } else { None::<StackOp> }),
    {
        if self.sp < self.comp.stack.len() {
            Some(self.comp.stack[self.sp])
        } else {
            None
        }
    }

    /// Creates a layer of the given kind, used in the current revision.
    fn insert_layer(&mut self, kind: LayerKind) -> (id: LayerID)
        requires
            old(self).wf(),
            old(self).live().len() < MAX_LIVE_KEYS,
        ensures
            final(self).wf(),
            final(self).ops() == old(self).ops(),
            final(self).pos() == old(self).pos(),
            final(self).revision() == old(self).revision(),
            !old(self).live().contains(id.0),
            final(self).live() == old(self).live().insert(id.0),
            final(self).info() == old(self).info().insert(id.0, LayerInfo { rev: old(self).revision(), kind: kind }),
    {
        let k = self.comp.layers.insert();
        let info = LayerInfo { rev: self.comp.rev, kind };
        let i = find_info(&self.comp.infos, k);
        if i < self.comp.infos.len() {
            proof {
                lemma_assoc_update(self.comp.infos@, i as int, info);
            }
            self.comp.infos.set(i, (k, info));
        } else {
            proof {
                lemma_assoc_push(self.comp.infos@, k, info);
            }
            self.comp.infos.push((k, info));
        }
        proof {
            let m = assoc_map(self.comp.infos@);
            assert forall|j: int| 0 <= j < self.comp.stack@.len() implies
                known_at(self.comp.stack@, m, j) by {
                assert(old(self).comp.stack@[j] == self.comp.stack@[j]);
                assert(known_at(old(self).comp.stack@, assoc_map(old(self).comp.infos@), j));
            }
        }
        LayerID(k)
    }

    /// Length of the group whose `Enter` is at `sp`, up to (not including)
    /// the `Exit` that closes it, or up to the end of the stack if it is not
    /// closed.
    pub fn group_len(&self, sp: usize) -> (r: usize)
        requires
            sp < self.ops().len(),
        ensures
            r == group_len_spec(self.ops(), sp as int),
            0 < r,
            sp + r <= self.ops().len(),
            forall|q: int| sp + 1 <= q <= sp + r ==> #[trigger] nesting_delta(self.ops(), sp + 1, q) >= 0,
            sp + r < self.ops().len() ==> {
                &&& self.ops()[sp + r] == StackOp::Exit
                &&& nesting_delta(self.ops(), sp + 1, sp + r) == 0
            },
    {
        proof {
            lemma_group_len_balanced(self.ops(), sp as int);
        }
        let n = self.comp.stack.len();
        let mut depth: usize = 0;
        let mut cur: usize = sp + 1; // skip the first op, which should be the `Enter`
        proof {
            lemma_scan_exit_bounds(self.comp.stack@, cur as int, 0);
        }
        loop
            invariant
                n == self.comp.stack@.len(),
                sp < cur <= n,
                depth <= cur - sp - 1,
                scan_exit(self.comp.stack@, cur as int, depth as nat) == scan_exit(self.comp.stack@, sp + 1, 0),
            ensures
                cur == scan_exit(self.comp.stack@, sp + 1, 0),
            decreases n - cur,
        {
            if cur >= n {
                break;
            }
            match self.comp.stack[cur] {
                StackOp::Enter(_) => depth += 1,
                StackOp::Exit => {
                    if depth == 0 {
                        break;
                    } else {
                        depth -= 1;
                    }
                },
                _ => {},
            }
            cur += 1;
        }
        cur - sp
    }

    /// Position of the first `op` at nesting depth zero from the current
    /// position, within the current group.
    pub fn find_next_at_matching_depth(&self, op: StackOp) -> (r: Option<usize>)
        requires
            self.wf(),
        ensures
            r == (match scan_find(self.ops(), self.pos(), 0, op) {
                Some(p) => Some(p as usize),
                None => None::<usize>,
            }),
    {
        let n = self.comp.stack.len();
        let mut depth: usize = 0;
        let mut cur: usize = self.sp;
        loop
            invariant
                n == self.comp.stack@.len(),
                self.sp <= cur <= n,
                depth <= cur - self.sp,
                scan_find(self.comp.stack@, cur as int, depth as nat, op) == scan_find(self.comp.stack@, self.sp as int, 0, op),
            decreases n - cur,
        {
            if cur >= n {
                return None;
            }
            match self.comp.stack[cur] {
                StackOp::Enter(_) => depth += 1,
                StackOp::Exit => {
                    if depth == 0 {
                        if op == StackOp::Exit {
                            return Some(cur);
                        }
                        return None;
                    } else {
                        depth -= 1;
                    }
                },
                StackOp::Layer(l) => {
                    if depth == 0 && op == StackOp::Layer(l) {
                        return Some(cur);
                    }
                },
            }
            cur += 1;
        }
    }

    /// The range of the group `group` (its `Enter` and its content, not its
    /// closing `Exit`), searched from the current position.
    pub fn group_range(&self, group: LayerID) -> (r: Option<Range<usize>>)
        requires
            self.wf(),
        ensures
            match find_enter(self.ops(), self.pos(), group) {
                None => r is None,
                Some(p) => r matches Some(g) && g.start == p && g.end == p + group_len_spec(self.ops(), p)
                    && g.end <= self.ops().len(),
            },
    {
        let n = self.comp.stack.len();
        let mut pos: usize = self.sp;
        proof {
            lemma_find_enter_bounds(self.comp.stack@, pos as int, group);
        }
        while pos < n && self.comp.stack[pos] != StackOp::Enter(group)
            invariant
                n == self.comp.stack@.len(),
                self.sp <= pos <= n,
                find_enter(self.comp.stack@, pos as int, group) == find_enter(self.comp.stack@, self.sp as int, group),
            decreases n - pos,
        {
            pos += 1;
        }
        if pos >= n {
            return None;
        }
        let len = self.group_len(pos);
        proof {
            lemma_scan_exit_bounds(self.comp.stack@, pos + 1, 0);
        }
        Some(Range { start: pos, end: pos + len })
    }

    /// Moves the segment `[start, end)` to the current position.
    fn move_to_current(&mut self, start: usize, end: usize)
        requires
            old(self).wf(),
            old(self).pos() <= start <= end <= old(self).ops().len(),
        ensures
            final(self).wf(),
            final(self).ops() == rotate_spec(old(self).ops(), old(self).pos(), start as int, end as int),
            final(self).pos() == old(self).pos(),
            final(self).live() == old(self).live(),
            final(self).info() == old(self).info(),
            final(self).revision() == old(self).revision(),
    {
        let r = rotated(&self.comp.stack, self.sp, start, end);
        proof {
            let s = self.comp.stack@;
            let m = assoc_map(self.comp.infos@);
            assert forall|i: int| 0 <= i < r@.len() implies
                known_at(r@, m, i) by {
                lemma_rotate_index(s, self.sp as int, start as int, end as int, i);
                if i < self.sp {
                    assert(known_at(s, m, i));
                } else if i < self.sp + (end - start) {
                    assert(known_at(s, m, i - self.sp + start));
                } else if i < end {
                    assert(known_at(s, m, i - (end - start)));
                } else {
                    assert(known_at(s, m, i));
                }
            }
            lemma_rotate_keeps_ops(s, self.sp as int, start as int, end as int);
        }
        self.comp.stack = r;
    }

    /// Enters a layer group: the group `prev` of the previous revision, moved
    /// to the current position, or a new empty group. The position moves
    /// inside the group.
    pub fn enter_group(&mut self, prev: Option<LayerID>) -> (r: LayerID)
        requires
            old(self).wf(),
            prev matches Some(g) ==> find_enter(old(self).ops(), old(self).pos(), g) is Some,
            prev is None ==> old(self).live().len() < MAX_LIVE_KEYS,
        ensures
            final(self).wf(),
            final(self).pos() == old(self).pos() + 1,
            final(self).revision() == old(self).revision(),
            match prev {
                Some(g) => {
                    let p = find_enter(old(self).ops(), old(self).pos(), g)->0;
                    &&& r == g
                    &&& final(self).ops()[old(self).pos()] == StackOp::Enter(g)
                    &&& final(self).ops() == rotate_spec(old(self).ops(), old(self).pos(), p, p + group_len_spec(old(self).ops(), p))
                    &&& final(self).live() == old(self).live()
                    &&& final(self).info() == old(self).info()
                },
                None => {
                    &&& !old(self).live().contains(r.0)
                    &&& final(self).live() == old(self).live().insert(r.0)
                    &&& final(self).info() == old(self).info().insert(r.0, LayerInfo { rev: old(self).revision(), kind: LayerKind::Group })
                    &&& final(self).ops() == open_group_spec(old(self).ops(), old(self).pos(), r)
                },
            },
    {
        match prev {
            Some(g) => {
                let range = self.group_range(g);
                let range = match range {
                    Some(x) => x,
                    None => { return g; },
                };
                proof {
                    lemma_find_enter_bounds(old(self).ops(), old(self).pos(), g);
                    lemma_scan_exit_bounds(old(self).ops(), range.start + 1, 0);
                }
                self.move_to_current(range.start, range.end);
                proof {
                    let p = find_enter(old(self).ops(), old(self).pos(), g)->0;
                    lemma_find_enter_bounds(old(self).ops(), old(self).pos(), g);
                    assert(self.comp.stack@[self.sp as int] == StackOp::Enter(g)) by {
                        lemma_rotate_index(old(self).ops(), self.sp as int, p, range.end as int, self.sp as int);
                        lemma_scan_exit_bounds(old(self).ops(), p + 1, 0);
                    }
                }
                self.sp = self.sp + 1;
                g
            },
            None => {
                let group = self.insert_layer(LayerKind::Group);
                let ghost s0 = self.comp.stack@;
                let ghost m = assoc_map(self.comp.infos@);
                let sp = self.sp;
                self.comp.stack.insert(sp, StackOp::Exit);
                self.comp.stack.insert(sp, StackOp::Enter(group));
                proof {
                    assert(self.comp.stack@ =~= open_group_spec(s0, sp as int, group));
                    assert forall|i: int| 0 <= i < self.comp.stack@.len() implies
                        known_at(self.comp.stack@, m, i) by {
                        if i >= sp + 2 {
                            assert(self.comp.stack@[i] == s0[i - 2]);
                            assert(known_at(s0, m, i - 2));
                        } else if i < sp {
                            assert(self.comp.stack@[i] == s0[i]);
                            assert(known_at(s0, m, i));
                        }
                    }
                }
                let n = self.comp.stack.len();
                assert(sp + 1 <= n);
                self.sp = sp + 1;
                group
            },
        }
    }

    /// Exits the current layer group: the operations from the current
    /// position to the `Exit` that closes the group are stale, left from the
    /// previous revision and not reused; they are removed, and the position
    /// moves past the `Exit`.
    pub fn exit_group(&mut self)
        requires
            old(self).wf(),
            scan_find(old(self).ops(), old(self).pos(), 0, StackOp::Exit) is Some,
        ensures
            final(self).wf(),
            final(self).ops() == remove_range_spec(old(self).ops(), old(self).pos(),
                scan_find(old(self).ops(), old(self).pos(), 0, StackOp::Exit)->0),
            final(self).ops()[old(self).pos()] == StackOp::Exit,
            final(self).pos() == old(self).pos() + 1,
            final(self).live() == old(self).live(),
            final(self).info() == old(self).info(),
            final(self).revision() == old(self).revision(),
    {
        let next_exit = self.find_next_at_matching_depth(StackOp::Exit);
        let next_exit = match next_exit {
            Some(x) => x,
            None => { return; },
        };
        proof {
            lemma_scan_find_bounds(self.comp.stack@, self.sp as int, 0, StackOp::Exit);
        }
        let mut r: Vec<StackOp> = Vec::new();
        push_range(&mut r, &self.comp.stack, 0, self.sp);
        let n = self.comp.stack.len();
        push_range(&mut r, &self.comp.stack, next_exit, n);
        proof {
            let s = self.comp.stack@;
            assert(r@ =~= remove_range_spec(s, self.sp as int, next_exit as int));
            let m = assoc_map(self.comp.infos@);
            assert forall|i: int| 0 <= i < r@.len() implies
                known_at(r@, m, i) by {
                if i < self.sp {
                    assert(r@[i] == s[i]);
                    assert(known_at(s, m, i));
                } else {
                    assert(r@[i] == s[i - self.sp + next_exit]);
                    assert(known_at(s, m, i - self.sp + next_exit));
                }
            }
            assert(r@[self.sp as int] == s[next_exit as int]);
        }
        self.comp.stack = r;
        self.sp = self.sp + 1;
    }

    /// Marks the layers named in `[lo, hi)` as used in the current revision.
    fn mark_range(&mut self, lo: usize, hi: usize)
        requires
            old(self).wf(),
            lo <= hi <= old(self).ops().len(),
        ensures
            final(self).wf(),
            final(self).ops() == old(self).ops(),
            final(self).pos() == old(self).pos(),
            final(self).live() == old(self).live(),
            final(self).revision() == old(self).revision(),
            final(self).info() == mark_used(old(self).info(), range_ids(old(self).ops(), lo as int, hi as int), old(self).revision()),
    {
        let ghost m0 = assoc_map(self.comp.infos@);
        let ghost s = self.comp.stack@;
        let rev = self.comp.rev;
        let mut i: usize = lo;
        proof {
            assert(mark_used(m0, range_ids(s, lo as int, lo as int), rev) =~= m0);
        }
        while i < hi
            invariant
                lo <= i <= hi,
                hi <= s.len(),
                self.comp.stack@ == s,
                self.sp == old(self).sp,
                self.comp.rev == rev,
                rev == old(self).comp.rev,
                self.comp.layers == old(self).comp.layers,
                m0 == assoc_map(old(self).comp.infos@),
                s == old(self).comp.stack@,
                stack_known(s, m0),
                self.wf(),
                assoc_map(self.comp.infos@) == mark_used(m0, range_ids(s, lo as int, i as int), rev),
            decreases hi - i,
        {
            let ghost before = range_ids(s, lo as int, i as int);
            match self.comp.stack[i] {
                StackOp::Exit => {
                    proof {
                        assert(range_ids(s, lo as int, i + 1) =~= before) by {
                            assert forall|k: u64| #[trigger] range_ids(s, lo as int, i + 1).contains(k) implies before.contains(k) by {
                                let j = choose|j: int| lo <= j < i + 1 && op_layer(s[j]) == Some(LayerID(k));
                                assert(j != i);
                            }
                        }
                    }
                },
                StackOp::Enter(l) | StackOp::Layer(l) => {
                    proof {
                        assert(op_layer(s[i as int]) == Some(l));
                        assert(known_at(s, m0, i as int));
                        assert(m0.dom().contains(l.0));
                    }
                    let j = find_info(&self.comp.infos, l.0);
                    proof {
                        assert(assoc_map(self.comp.infos@).dom().contains(l.0));
                    }
                    let old_info = self.comp.infos[j].1;
                    let info = LayerInfo { rev, kind: old_info.kind };
                    proof {
                        lemma_assoc_at(self.comp.infos@, j as int);
                        lemma_assoc_update(self.comp.infos@, j as int, info);
                    }
                    self.comp.infos.set(j, (l.0, info));
                    proof {
                        let after = range_ids(s, lo as int, i + 1);
                        assert(after =~= before.insert(l.0)) by {
                            assert(op_layer(s[i as int]) == Some(LayerID(l.0)));
                            assert forall|k: u64| #[trigger] after.contains(k) implies before.insert(l.0).contains(k) by {
                                let jj = choose|jj: int| lo <= jj < i + 1 && op_layer(s[jj]) == Some(LayerID(k));
                                if jj != i {
                                    assert(before.contains(k));
                                }
                            }
                        }
                        assert(assoc_map(self.comp.infos@) =~= mark_used(m0, after, rev));
                        let mm = assoc_map(self.comp.infos@);
                        assert forall|jj: int| 0 <= jj < self.comp.stack@.len() implies
                            known_at(self.comp.stack@, mm, jj) by {
                            assert(known_at(s, m0, jj));
                        }
                    }
                },
            }
            i += 1;
        }
    }

    /// Reuses the group `group` of the previous revision: moves it (its
    /// `Enter` and its content, not its `Exit`) to the current position,
    /// marks the layers in it as used in this revision, and moves the
    /// position past them.
    pub fn reuse_group(&mut self, group: LayerID)
        requires
            old(self).wf(),
            find_enter(old(self).ops(), old(self).pos(), group) is Some,
        ensures
            final(self).wf(),
            ({
                let p = find_enter(old(self).ops(), old(self).pos(), group)->0;
                let len = group_len_spec(old(self).ops(), p);
                &&& final(self).ops() == rotate_spec(old(self).ops(), old(self).pos(), p, p + len)
                &&& final(self).ops()[old(self).pos()] == StackOp::Enter(group)
                &&& final(self).pos() == old(self).pos() + len
                &&& final(self).info() == mark_used(old(self).info(),
                        range_ids(final(self).ops(), old(self).pos(), old(self).pos() + len), old(self).revision())
            }),
            final(self).live() == old(self).live(),
            final(self).revision() == old(self).revision(),
    {
        let range = self.group_range(group);
        let range = match range {
            Some(x) => x,
            None => { return; },
        };
        proof {
            lemma_find_enter_bounds(old(self).ops(), old(self).pos(), group);
            lemma_scan_exit_bounds(old(self).ops(), range.start + 1, 0);
        }
        self.move_to_current(range.start, range.end);
        let sp = self.sp;
        let len = range.end - range.start;
        proof {
            lemma_rotate_index(old(self).ops(), sp as int, range.start as int, range.end as int, sp as int);
        }
        self.mark_range(sp, sp + len);
        self.sp = sp + len;
    }

    /// Places a picture layer at the current position: the picture layer of
    /// the previous revision found there is reused, otherwise a new one is
    /// inserted. Returns the layer and whether it was reused.
    pub fn push_picture_layer(&mut self) -> (r: (LayerID, bool))
        requires
            old(self).wf(),
            old(self).live().len() < MAX_LIVE_KEYS,
        ensures
            final(self).wf(),
            final(self).pos() == old(self).pos() + 1,
            final(self).revision() == old(self).revision(),
            ({
                let s = old(self).ops();
                let sp = old(self).pos();
                let reusable = sp < s.len() && s[sp] is Layer
                    && old(self).info()[s[sp]->Layer_0.0].kind == LayerKind::Picture;
                if reusable {
                    &&& r == (s[sp]->Layer_0, true)
                    &&& final(self).ops() == s
                    &&& final(self).live() == old(self).live()
                    &&& final(self).info() == old(self).info().insert(r.0.0,
                            LayerInfo { rev: old(self).revision(), kind: LayerKind::Picture })
                } else {
                    &&& !r.1
                    &&& !old(self).live().contains(r.0.0)
                    &&& final(self).live() == old(self).live().insert(r.0.0)
                    &&& final(self).info() == old(self).info().insert(r.0.0,
                            LayerInfo { rev: old(self).revision(), kind: LayerKind::Picture })
                    &&& final(self).ops() == s.insert(sp, StackOp::Layer(r.0))
                }
            }),
    {
        let sp = self.sp;
        if sp < self.comp.stack.len() {
            match self.comp.stack[sp] {
                StackOp::Layer(l) => {
                    proof {
                        assert(op_layer(self.comp.stack@[sp as int]) == Some(l));
                        assert(known_at(self.comp.stack@, assoc_map(self.comp.infos@), sp as int));
                    }
                    let j = find_info(&self.comp.infos, l.0);
                    let info = self.comp.infos[j].1;
                    proof {
                        lemma_assoc_at(self.comp.infos@, j as int);
                    }
                    if info.kind == LayerKind::Picture {
                        let new_info = LayerInfo { rev: self.comp.rev, kind: LayerKind::Picture };
                        proof {
                            lemma_assoc_update(self.comp.infos@, j as int, new_info);
                        }
                        let ghost m = assoc_map(self.comp.infos@);
                        self.comp.infos.set(j, (l.0, new_info));
                        proof {
                            let mm = assoc_map(self.comp.infos@);
                            assert forall|jj: int| 0 <= jj < self.comp.stack@.len() implies
                                known_at(self.comp.stack@, mm, jj) by {
                                assert(known_at(self.comp.stack@, m, jj));
                            }
                        }
                        self.sp = sp + 1;
                        return (l, true);
                    }
                },
                _ => {},
            }
        }
        let l = self.insert_layer(LayerKind::Picture);
        let ghost s0 = self.comp.stack@;
        let ghost m = assoc_map(self.comp.infos@);
        self.comp.stack.insert(sp, StackOp::Layer(l));
        proof {
            assert forall|i: int| 0 <= i < self.comp.stack@.len() implies
                known_at(self.comp.stack@, m, i) by {
                if i > sp {
                    assert(self.comp.stack@[i] == s0[i - 1]);
                    assert(known_at(s0, m, i - 1));
                } else if i < sp {
                    assert(self.comp.stack@[i] == s0[i]);
                    assert(known_at(s0, m, i));
                }
            }
        }
        let n = self.comp.stack.len();
        assert(sp + 1 <= n);
        self.sp = sp + 1;
        (l, false)
    }

    /// Finishes the composition: the layers not used in this revision are no
    /// longer live.
    pub fn finish(self) -> (c: Composition)
        requires
            self.wf(),
        ensures
            c.wf(),
            c.ops() == self.ops(),
            c.info() == self.info(),
            c.revision() == self.revision(),
            c.live() == self.live().filter(|k: u64| self.info()[k].rev == self.revision()),
    {
        let mut comp = self.comp;
        let ghost live0 = comp.layers.live();
        let ghost m = assoc_map(comp.infos@);
        let rev = comp.rev;
        let mut i: usize = 0;
        while i < comp.infos.len()
            invariant
                i <= comp.infos@.len(),
                comp.layers.wf(),
                comp.infos@ == self.comp.infos@,
                comp.stack@ == self.comp.stack@,
                comp.rev == rev,
                rev == self.comp.rev,
                m == assoc_map(comp.infos@),
                live0 == self.comp.layers.live(),
                distinct_keys(comp.infos@),
                keys_normal(comp.infos@),
                forall|k: u64| live0.contains(k) ==> #[trigger] m.dom().contains(k),
                forall|k: u64| #[trigger] comp.layers.live().contains(k) <==> live0.contains(k)
                    && !(exists|j: int| 0 <= j < i && comp.infos@[j].0 == k && comp.infos@[j].1.rev != rev),
            decreases comp.infos@.len() - i,
        {
            let (k, info) = comp.infos[i];
            proof {
                lemma_assoc_at(comp.infos@, i as int);
            }
            if info.rev != rev {
                comp.layers.remove(k);
            }
            proof {
                assert forall|kk: u64| #[trigger] comp.layers.live().contains(kk) <==> live0.contains(kk)
                    && !(exists|j: int| 0 <= j < i + 1 && comp.infos@[j].0 == kk && comp.infos@[j].1.rev != rev) by {
                    if exists|j: int| 0 <= j < i + 1 && comp.infos@[j].0 == kk && comp.infos@[j].1.rev != rev {
                        let j = choose|j: int| 0 <= j < i + 1 && comp.infos@[j].0 == kk && comp.infos@[j].1.rev != rev;
                        if j < i {
                            assert(exists|j2: int| 0 <= j2 < i && comp.infos@[j2].0 == kk && comp.infos@[j2].1.rev != rev);
                        }
                    }
                    if exists|j: int| 0 <= j < i && comp.infos@[j].0 == kk && comp.infos@[j].1.rev != rev {
                        let j = choose|j: int| 0 <= j < i && comp.infos@[j].0 == kk && comp.infos@[j].1.rev != rev;
                        assert(0 <= j < i + 1);
                    }
                }
            }
            i += 1;
        }
        proof {
            let target = live0.filter(|k: u64| m[k].rev == rev);
            assert forall|k: u64| #[trigger] comp.layers.live().contains(k) <==> target.contains(k) by {
                if live0.contains(k) {
                    assert(m.dom().contains(k));
                    let j = choose|j: int| 0 <= j < comp.infos@.len() && comp.infos@[j].0 == k;
                    lemma_assoc_at(comp.infos@, j);
                }
            }
            assert(comp.layers.live() =~= target);
            assert forall|k: u64| comp.layers.live().contains(k) implies #[trigger] m.dom().contains(k) by {}
        }
        comp
    }
}

} // verus!
