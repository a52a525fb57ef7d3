//! A tree of nodes stored in an arena, addressed by keys.
//!
//! Every node knows its parent, its children in order, and its position
//! among its parent's children. Nodes without a parent are roots.

use vstd::prelude::*;
use std::collections::{HashMap, HashSet};
use crate::keys::{key_norm, KeySpace, MAX_LIVE_KEYS};
use vstd::std_specs::iter::IteratorSpec;

verus! {

broadcast use {
    vstd::std_specs::hash::group_hash_axioms,
};

/// Identifies a node of a tree.
#[derive(Copy, Clone, Debug, PartialEq, Eq, Hash, Structural)]
pub struct NodeKey {
    id: u64,
}

impl NodeKey {
    #[verifier::type_invariant]
    spec fn inv(self) -> bool {
        key_norm(self.id) == self.id
    }

    /// The key as a number.
    pub closed spec fn spec_id(self) -> u64 {
        self.id
    }

    /// The key as a number.
    pub fn id(&self) -> (r: u64)
        ensures
            r == self.spec_id(),
            key_norm(r) == r,
    {
        proof { use_type_invariant(self); }
        self.id
    }
}

/// A node: its links and its value.
pub struct TreeNode<N> {
    parent: Option<u64>,
    children: Vec<u64>,
    index_in_parent: usize,
    inner: N,
}

/// The parent link of node `k` agrees with its parent's list of children.
spec fn parent_link_ok<N>(m: Map<u64, TreeNode<N>>, k: u64) -> bool {
    match m[k].parent {
        Some(p) => {
            &&& p != k
            &&& m.dom().contains(p)
            &&& m[k].index_in_parent < m[p].children@.len()
            &&& m[p].children@[m[k].index_in_parent as int] == k
        },
        None => true,
    }
}

/// The `i`-th child of node `p` names `p` as its parent and `i` as its
/// position.
spec fn child_link_ok<N>(m: Map<u64, TreeNode<N>>, p: u64, i: int) -> bool {
    let c = m[p].children@[i];
    &&& m.dom().contains(c)
    &&& m[c].parent == Some(p)
    &&& m[c].index_in_parent == i
}

/// Parent and child links agree everywhere.
spec fn links_ok<N>(m: Map<u64, TreeNode<N>>) -> bool {
    &&& forall|k: u64| m.dom().contains(k) ==> #[trigger] parent_link_ok(m, k)
    &&& forall|p: u64, i: int| m.dom().contains(p) && 0 <= i < m[p].children@.len() ==> #[trigger] child_link_ok(m, p, i)
}

/// The node `i` steps up from `k` along parent links, if the chain is that
/// long.
pub open spec fn ancestor_at<N>(t: &Tree<N>, k: u64, i: nat) -> Option<u64>
    decreases i,
{
    if i == 0 {
        Some(k)
    } else {
        match t.parent_of(k) {
            Some(p) => ancestor_at(t, p, (i - 1) as nat),
            None => None,
        }
    }
}

/// `k` lies in the subtree of `root` (`root` itself included).
pub open spec fn in_subtree<N>(t: &Tree<N>, k: u64, root: u64) -> bool {
    exists|i: nat| ancestor_at(t, k, i) == Some(root)
}

/// The chain of ancestors of `k`, nearest first, following at most `fuel`
/// parent links.
pub open spec fn ancestor_chain<N>(t: &Tree<N>, k: u64, fuel: nat) -> Seq<u64>
    decreases fuel,
{
    if fuel == 0 {
        Seq::empty()
    } else {
        match t.parent_of(k) {
            Some(p) => seq![p] + ancestor_chain(t, p, (fuel - 1) as nat),
            None => Seq::empty(),
        }
    }
}

/// `k` is the key of one of the nodes of `r`.
pub open spec fn key_listed(r: Seq<NodeKey>, k: u64) -> bool {
    exists|i: int| 0 <= i < r.len() && r[i].spec_id() == k
}

/// A tree of nodes holding values of type `N`.
pub struct Tree<N> {
    keys: KeySpace,
    nodes: HashMap<u64, TreeNode<N>>,
}

impl<N> Tree<N> {
    /// The nodes, by key.
    pub closed spec fn node_map(&self) -> Map<u64, TreeNode<N>> {
        self.nodes@
    }

    /// The keys of the nodes of the tree.
    pub closed spec fn dom(&self) -> Set<u64> {
        self.nodes@.dom()
    }

    /// The parent of node `k`.
    pub closed spec fn parent_of(&self, k: u64) -> Option<u64> {
        self.nodes@[k].parent
    }

    /// The children of node `k`, in order.
    pub closed spec fn children_of(&self, k: u64) -> Seq<u64> {
        self.nodes@[k].children@
    }

    /// The value of node `k`.
    pub closed spec fn value_of(&self, k: u64) -> N {
        self.nodes@[k].inner
    }

    pub closed spec fn wf(&self) -> bool {
        &&& self.keys.wf()
        &&& self.keys.live() == self.nodes@.dom()
        &&& links_ok(self.nodes@)
    }

    /// Nodes other than those in `except` keep their links and values.
    pub open spec fn same_nodes_except(&self, other: &Tree<N>, except: Set<u64>) -> bool {
        forall|k: u64| #[trigger] self.dom().contains(k) && !except.contains(k) ==> {
            &&& other.dom().contains(k)
            &&& self.parent_of(k) == other.parent_of(k)
            &&& self.children_of(k) == other.children_of(k)
            &&& self.value_of(k) == other.value_of(k)
        }
    }

    /// An empty tree.
    pub fn new() -> (t: Tree<N>)
        ensures
            t.wf(),
            t.dom() == Set::<u64>::empty(),
    {
        let t = Tree { keys: KeySpace::new(), nodes: HashMap::new() };
        proof {
            assert(t.nodes@.dom() =~= Set::<u64>::empty());
        }
        t
    }

    /// Number of nodes.
    pub fn len(&self) -> (r: usize)
        requires
            self.wf(),
        ensures
            r == self.dom().len(),
    {
        self.keys.len()
    }

    /// Whether the tree has a node with key `k`.
    pub fn contains(&self, k: NodeKey) -> (r: bool)
        requires
            self.wf(),
        ensures
            r == self.dom().contains(k.spec_id()),
    {
        self.nodes.contains_key(&k.id())
    }

    /// Inserts a new root node holding `node`, and returns its key.
    pub fn create(&mut self, node: N) -> (k: NodeKey)
        requires
            old(self).wf(),
            old(self).dom().len() < MAX_LIVE_KEYS,
        ensures
            final(self).wf(),
            !old(self).dom().contains(k.spec_id()),
            final(self).dom() == old(self).dom().insert(k.spec_id()),
            final(self).parent_of(k.spec_id()) is None,
            final(self).children_of(k.spec_id()) == Seq::<u64>::empty(),
            final(self).value_of(k.spec_id()) == node,
            final(self).same_nodes_except(old(self), set![k.spec_id()]),
            old(self).same_nodes_except(final(self), Set::empty()),
    {
        let id = self.keys.insert();
        let ghost m0 = self.nodes@;
        self.nodes.insert(id, TreeNode { parent: None, children: Vec::new(), index_in_parent: 0, inner: node });
        proof {
            let m = self.nodes@;
            assert(m.dom() =~= self.keys.live());
            assert forall|k: u64| m.dom().contains(k) implies #[trigger] parent_link_ok(m, k) by {
                if k != id {
                    assert(parent_link_ok(m0, k));
                }
            }
            assert forall|p: u64, i: int| m.dom().contains(p) && 0 <= i < m[p].children@.len() implies #[trigger] child_link_ok(m, p, i) by {
                assert(p != id);
                assert(child_link_ok(m0, p, i));
            }
        }
        NodeKey { id }
    }

    /// The value of node `k`, if the tree has it.
    pub fn get(&self, k: NodeKey) -> (r: Option<&N>)
        requires
            self.wf(),
        ensures
            r matches Some(v) ==> self.dom().contains(k.spec_id()) && *v == self.value_of(k.spec_id()),
            r is None ==> !self.dom().contains(k.spec_id()),
    {
        match self.nodes.get(&k.id()) {
            Some(n) => Some(&n.inner),
            None => None,
        }
    }

    /// The parent of node `k`, if it has one.
    pub fn parent(&self, k: NodeKey) -> (r: Option<NodeKey>)
        requires
            self.wf(),
            self.dom().contains(k.spec_id()),
        ensures
            r matches Some(p) ==> self.parent_of(k.spec_id()) == Some(p.spec_id()) && self.dom().contains(p.spec_id()),
            r is None ==> self.parent_of(k.spec_id()) is None,
    {
        let n = self.nodes.get(&k.id()).unwrap();
        match n.parent {
            Some(p) => {
                proof {
                    assert(parent_link_ok(self.nodes@, k.spec_id()));
                    self.keys.lemma_live_normal(p);
                }
                Some(NodeKey { id: p })
            },
            None => None,
        }
    }

    /// The children of node `k`, in order.
    pub fn children(&self, k: NodeKey) -> (r: Vec<NodeKey>)
        requires
            self.wf(),
            self.dom().contains(k.spec_id()),
        ensures
            r.len() == self.children_of(k.spec_id()).len(),
            forall|i: int| 0 <= i < r.len() ==> #[trigger] r[i].spec_id() == self.children_of(k.spec_id())[i],
    {
        let n = self.nodes.get(&k.id()).unwrap();
        let mut r: Vec<NodeKey> = Vec::new();
        let mut i: usize = 0;
        while i < n.children.len()
            invariant
                self.wf(),
                self.dom().contains(k.spec_id()),
                *n == self.nodes@[k.spec_id()],
                i <= n.children@.len(),
                r.len() == i,
                forall|j: int| 0 <= j < i ==> #[trigger] r[j].spec_id() == n.children@[j],
            decreases n.children@.len() - i,
        {
            let c = n.children[i];
            proof {
                assert(child_link_ok(self.nodes@, k.spec_id(), i as int));
                self.keys.lemma_live_normal(c);
            }
            r.push(NodeKey { id: c });
            i += 1;
        }
        r
    }

    /// Number of children of node `k`.
    pub fn child_count(&self, k: NodeKey) -> (r: usize)
        requires
            self.wf(),
            self.dom().contains(k.spec_id()),
        ensures
            r == self.children_of(k.spec_id()).len(),
    {
        self.nodes.get(&k.id()).unwrap().children.len()
    }

    /// The first child of node `k`, if it has children.
    pub fn first_child(&self, k: NodeKey) -> (r: Option<NodeKey>)
        requires
            self.wf(),
            self.dom().contains(k.spec_id()),
        ensures
            r matches Some(c) ==> self.children_of(k.spec_id()).len() > 0 && c.spec_id() == self.children_of(k.spec_id())[0]
                && self.dom().contains(c.spec_id()),
            r is None ==> self.children_of(k.spec_id()).len() == 0,
    {
        let n = self.nodes.get(&k.id()).unwrap();
        if n.children.len() > 0 {
            let c = n.children[0];
            proof {
                assert(child_link_ok(self.nodes@, k.spec_id(), 0));
                self.keys.lemma_live_normal(c);
            }
            Some(NodeKey { id: c })
        } else {
            None
        }
    }

    /// The next sibling of node `k`: the child of its parent that follows
    /// it, if any.
    pub fn next_sibling(&self, k: NodeKey) -> (r: Option<NodeKey>)
        requires
            self.wf(),
            self.dom().contains(k.spec_id()),
        ensures
            match self.parent_of(k.spec_id()) {
                None => r is None,
                Some(p) => {
                    let i = self.children_of(p).index_of(k.spec_id());
                    &&& self.children_of(p).contains(k.spec_id())
                    &&& (i + 1 < self.children_of(p).len() ==> (r matches Some(s) && s.spec_id() == self.children_of(p)[i + 1]
                        && self.dom().contains(s.spec_id())))
                    &&& (i + 1 >= self.children_of(p).len() ==> r is None)
                },
            },
    {
        let n = self.nodes.get(&k.id()).unwrap();
        proof {
            assert(parent_link_ok(self.nodes@, k.spec_id()));
        }
        match n.parent {
            None => None,
            Some(p) => {
                let pn = self.nodes.get(&p).unwrap();
                let len = pn.children.len();
                let next = n.index_in_parent + 1;
                proof {
                    let cs = pn.children@;
                    let idx = n.index_in_parent as int;
                    assert(cs.contains(k.spec_id()));
                    assert forall|j: int| 0 <= j < cs.len() && cs[j] == k.spec_id() implies j == idx by {
                        assert(child_link_ok(self.nodes@, p, j));
                    }
                    assert(cs.index_of(k.spec_id()) == idx);
                }
                if next < pn.children.len() {
                    let s = pn.children[next];
                    proof {
                        assert(child_link_ok(self.nodes@, p, next as int));
                        self.keys.lemma_live_normal(s);
                    }
                    Some(NodeKey { id: s })
                } else {
                    None
                }
            },
        }
    }
}

impl<N> Tree<N> {
    /// Detaches node `k` from its parent; `k` becomes a root and keeps its
    /// subtree.
    pub fn detach(&mut self, k: NodeKey)
        requires
            old(self).wf(),
            old(self).dom().contains(k.spec_id()),
        ensures
            final(self).wf(),
            final(self).dom() == old(self).dom(),
            final(self).parent_of(k.spec_id()) is None,
            final(self).children_of(k.spec_id()) == old(self).children_of(k.spec_id()),
            final(self).value_of(k.spec_id()) == old(self).value_of(k.spec_id()),
            match old(self).parent_of(k.spec_id()) {
                None => final(self).same_nodes_except(old(self), set![k.spec_id()]),
                Some(p) => {
                    &&& final(self).parent_of(p) == old(self).parent_of(p)
                    &&& final(self).value_of(p) == old(self).value_of(p)
                    &&& final(self).children_of(p) == old(self).children_of(p).remove(
                        old(self).children_of(p).index_of(k.spec_id()))
                    &&& final(self).same_nodes_except(old(self), set![k.spec_id(), p])
                },
            },
    {
        let id = k.id();
        let ghost m0 = self.nodes@;
        proof {
            assert(parent_link_ok(m0, id));
        }
        let mut n = self.nodes.remove(&id).unwrap();
        match n.parent {
            None => {
                self.nodes.insert(id, n);
                proof {
                    assert(self.nodes@ =~= m0);
                    assert(self.keys.wf());
                    assert(self.keys.live() == self.nodes@.dom());
                    assert(links_ok(self.nodes@));
                }
            },
            Some(p) => {
                let mut pn = self.nodes.remove(&p).unwrap();
                let idx = n.index_in_parent;
                let ghost cs = pn.children@;
                proof {
                    assert forall|j: int| 0 <= j < cs.len() && cs[j] == id implies j == idx by {
                        assert(child_link_ok(m0, p, j));
                    }
                    assert(cs.index_of(id) == idx);
                }
                pn.children.remove(idx);
                let mut i: usize = idx;
                while i < pn.children.len()
                    invariant
                        m0 == old(self).nodes@,
                        self.keys == old(self).keys,
                        links_ok(m0),
                        m0.dom().contains(id),
                        m0.dom().contains(p),
                        m0[id].parent == Some(p),
                        m0[id].index_in_parent == idx,
                        p != id,
                        cs == m0[p].children@,
                        idx < cs.len(),
                        cs[idx as int] == id,
                        pn.children@ == cs.remove(idx as int),
                        idx <= i <= pn.children@.len(),
                        self.nodes@.dom() == m0.dom().remove(id).remove(p),
                        forall|x: u64| #[trigger] self.nodes@.dom().contains(x) ==> {
                            &&& self.nodes@[x].parent == m0[x].parent
                            &&& self.nodes@[x].children@ == m0[x].children@
                            &&& self.nodes@[x].inner == m0[x].inner
                            &&& self.nodes@[x].index_in_parent == if m0[x].parent == Some(p)
                                && idx < m0[x].index_in_parent <= i { (m0[x].index_in_parent - 1) as usize } else { m0[x].index_in_parent }
                        },
                    decreases pn.children@.len() - i,
                {
                    let c = pn.children[i];
                    proof {
                        assert(child_link_ok(m0, p, i + 1));
                        assert(c == cs[i + 1]);
                        assert(child_link_ok(m0, p, idx as int));
                        assert(c != id);
                        assert(parent_link_ok(m0, p));
                    }
                    let mut cn = self.nodes.remove(&c).unwrap();
                    cn.index_in_parent = cn.index_in_parent - 1;
                    self.nodes.insert(c, cn);
                    proof {
                        assert forall|x: u64| #[trigger] self.nodes@.dom().contains(x) implies {
                            &&& self.nodes@[x].parent == m0[x].parent
                            &&& self.nodes@[x].children@ == m0[x].children@
                            &&& self.nodes@[x].inner == m0[x].inner
                            &&& self.nodes@[x].index_in_parent == if m0[x].parent == Some(p)
                                && idx < m0[x].index_in_parent <= i + 1 { (m0[x].index_in_parent - 1) as usize } else { m0[x].index_in_parent }
                        } by {
                            if x != c && m0[x].parent == Some(p) && m0[x].index_in_parent == i + 1 {
                                assert(parent_link_ok(m0, x));
                            }
                        }
                    }
                    i += 1;
                }
                let ghost mid = self.nodes@;
                self.nodes.insert(p, pn);
                n.parent = None;
                self.nodes.insert(id, n);
                proof {
                    assert(self.nodes@.dom() =~= m0.dom());
                    assert forall|x: u64| #[trigger] self.nodes@.dom().contains(x) && x != id && x != p implies {
                        &&& self.nodes@[x].parent == m0[x].parent
                        &&& self.nodes@[x].children@ == m0[x].children@
                        &&& self.nodes@[x].inner == m0[x].inner
                        &&& self.nodes@[x].index_in_parent == if m0[x].parent == Some(p)
                            && idx < m0[x].index_in_parent { (m0[x].index_in_parent - 1) as usize } else { m0[x].index_in_parent }
                    } by {
                        assert(mid.dom().contains(x));
                        assert(parent_link_ok(m0, x));
                    }
                    self.lemma_detach_links(m0, id, p, idx);
                    assert(self.keys.wf());
                    assert(self.keys.live() == self.nodes@.dom());
                    assert(links_ok(self.nodes@));
                }
            },
        }
    }

    proof fn lemma_detach_links(&self, m0: Map<u64, TreeNode<N>>, id: u64, p: u64, idx: usize)
        requires
            links_ok(m0),
            m0.dom().contains(id),
            m0.dom().contains(p),
            m0[id].parent == Some(p),
            m0[id].index_in_parent == idx,
            p != id,
            idx < m0[p].children@.len(),
            m0[p].children@[idx as int] == id,
            self.nodes@.dom() == m0.dom(),
            self.nodes@[id].parent is None,
            self.nodes@[id].children@ == m0[id].children@,
            self.nodes@[id].inner == m0[id].inner,
            self.nodes@[p].parent == m0[p].parent,
            self.nodes@[p].index_in_parent == m0[p].index_in_parent,
            self.nodes@[p].inner == m0[p].inner,
            self.nodes@[p].children@ == m0[p].children@.remove(idx as int),
            forall|x: u64| #[trigger] self.nodes@.dom().contains(x) && x != id && x != p ==> {
                &&& self.nodes@[x].parent == m0[x].parent
                &&& self.nodes@[x].children@ == m0[x].children@
                &&& self.nodes@[x].inner == m0[x].inner
                &&& self.nodes@[x].index_in_parent == if m0[x].parent == Some(p)
                    && idx < m0[x].index_in_parent { (m0[x].index_in_parent - 1) as usize } else { m0[x].index_in_parent }
            },
        ensures
            links_ok(self.nodes@),
    {
        let m = self.nodes@;
        let cs = m0[p].children@;
        assert forall|x: u64| m.dom().contains(x) implies #[trigger] parent_link_ok(m, x) by {
            assert(parent_link_ok(m0, x));
            if x != id {
                match m0[x].parent {
                    Some(q) => {
                        if q == p && x != p {
                            let j = m0[x].index_in_parent as int;
                            assert(child_link_ok(m0, p, idx as int));
                            assert(j != idx);
                            if j > idx {
                                assert(m[p].children@[j - 1] == cs[j]);
                            } else {
                                assert(m[p].children@[j] == cs[j]);
                            }
                        } else if x == p {
                            if q == id {
                                assert(m[id].children@ == m0[id].children@);
                            }
                        }
                    },
                    None => {},
                }
            }
        }
        assert forall|y: u64, i: int| m.dom().contains(y) && 0 <= i < m[y].children@.len() implies #[trigger] child_link_ok(m, y, i) by {
            if y == p {
                if i < idx {
                    assert(m[p].children@[i] == cs[i]);
                    assert(child_link_ok(m0, p, i));
                    assert(cs[i] != id);
                    assert(parent_link_ok(m0, p));
                } else {
                    assert(m[p].children@[i] == cs[i + 1]);
                    assert(child_link_ok(m0, p, i + 1));
                    assert(child_link_ok(m0, p, idx as int));
                    assert(cs[i + 1] != id);
                    assert(parent_link_ok(m0, p));
                }
            } else {
                assert(m[y].children@ == m0[y].children@);
                assert(child_link_ok(m0, y, i));
                let c = m0[y].children@[i];
                if c == id {
                    assert(m0[id].parent == Some(y));
                }
            }
        }
    }
}

impl<N> Tree<N> {
    /// Makes node `k` the last child of node `of`, detaching it from its
    /// previous parent first. Returns `k`.
    pub fn insert_as_child(&mut self, k: NodeKey, of: NodeKey) -> (r: NodeKey)
        requires
            old(self).wf(),
            old(self).dom().contains(k.spec_id()),
            old(self).dom().contains(of.spec_id()),
            k.spec_id() != of.spec_id(),
        ensures
            r == k,
            final(self).wf(),
            final(self).dom() == old(self).dom(),
            final(self).parent_of(k.spec_id()) == Some(of.spec_id()),
            final(self).children_of(k.spec_id()) == old(self).children_of(k.spec_id()),
            final(self).value_of(k.spec_id()) == old(self).value_of(k.spec_id()),
            final(self).parent_of(of.spec_id()) == old(self).parent_of(of.spec_id()),
            final(self).value_of(of.spec_id()) == old(self).value_of(of.spec_id()),
            final(self).children_of(of.spec_id()) == (if old(self).parent_of(k.spec_id()) == Some(of.spec_id()) {
                old(self).children_of(of.spec_id()).remove(old(self).children_of(of.spec_id()).index_of(k.spec_id()))
            } else {
                old(self).children_of(of.spec_id())
            }).push(k.spec_id()),
            match old(self).parent_of(k.spec_id()) {
                Some(p) => {
                    &&& p != of.spec_id() ==> final(self).children_of(p) == old(self).children_of(p).remove(
                        old(self).children_of(p).index_of(k.spec_id()))
                    &&& final(self).parent_of(p) == old(self).parent_of(p)
                    &&& final(self).value_of(p) == old(self).value_of(p)
                    &&& final(self).same_nodes_except(old(self), set![k.spec_id(), of.spec_id(), p])
                },
                None => final(self).same_nodes_except(old(self), set![k.spec_id(), of.spec_id()]),
            },
    {
        self.detach(k);
        let id = k.id();
        let oid = of.id();
        let ghost m1 = self.nodes@;
        let mut pn = self.nodes.remove(&oid).unwrap();
        pn.children.push(id);
        let idx = pn.children.len() - 1;
        self.nodes.insert(oid, pn);
        let mut n = self.nodes.remove(&id).unwrap();
        n.parent = Some(oid);
        n.index_in_parent = idx;
        self.nodes.insert(id, n);
        proof {
            assert(self.nodes@.dom() =~= m1.dom());
            self.lemma_attach_links(m1, id, oid);
        }
        k
    }

    proof fn lemma_attach_links(&self, m1: Map<u64, TreeNode<N>>, id: u64, oid: u64)
        requires
            links_ok(m1),
            m1.dom().contains(id),
            m1.dom().contains(oid),
            id != oid,
            m1[id].parent is None,
            self.nodes@.dom() == m1.dom(),
            self.nodes@[id].parent == Some(oid),
            self.nodes@[id].index_in_parent == m1[oid].children@.len(),
            self.nodes@[id].children@ == m1[id].children@,
            self.nodes@[id].inner == m1[id].inner,
            self.nodes@[oid].parent == m1[oid].parent,
            self.nodes@[oid].index_in_parent == m1[oid].index_in_parent,
            self.nodes@[oid].inner == m1[oid].inner,
            self.nodes@[oid].children@ == m1[oid].children@.push(id),
            forall|x: u64| #[trigger] self.nodes@.dom().contains(x) && x != id && x != oid ==> self.nodes@[x] == m1[x],
        ensures
            links_ok(self.nodes@),
    {
        let m = self.nodes@;
        assert forall|x: u64| m.dom().contains(x) implies #[trigger] parent_link_ok(m, x) by {
            assert(parent_link_ok(m1, x));
            if x != id {
                match m1[x].parent {
                    Some(q) => {
                        if q == oid {
                            assert(m[oid].children@[m1[x].index_in_parent as int] == m1[oid].children@[m1[x].index_in_parent as int]);
                        }
                    },
                    None => {},
                }
            }
        }
        assert forall|y: u64, i: int| m.dom().contains(y) && 0 <= i < m[y].children@.len() implies #[trigger] child_link_ok(m, y, i) by {
            if y == oid {
                if i < m1[oid].children@.len() {
                    assert(child_link_ok(m1, oid, i));
                    assert(m[oid].children@[i] == m1[oid].children@[i]);
                    assert(parent_link_ok(m1, oid));
                }
            } else {
                assert(child_link_ok(m1, y, i));
                if y != id {
                    assert(m[y] == m1[y]);
                }
            }
        }
    }
}

impl<N> Tree<N> {
    /// The values of the ancestors of node `k`, nearest first. Following
    /// parent links from `k` meets a root within as many steps as there are
    /// nodes, unless the links loop; the chain stops there in any case.
    pub fn ancestors(&self, k: NodeKey) -> (r: Vec<&N>)
        requires
            self.wf(),
            self.dom().contains(k.spec_id()),
        ensures
            r.len() == ancestor_chain(self, k.spec_id(), self.dom().len()).len(),
            forall|i: int| 0 <= i < r.len() ==> *r[i] == self.value_of(#[trigger] ancestor_chain(self, k.spec_id(), self.dom().len())[i]),
    {
        let n = self.len();
        let mut r: Vec<&N> = Vec::new();
        let mut cur = k.id();
        let mut steps: usize = 0;
        let ghost full = ancestor_chain(self, k.spec_id(), n as nat);
        let ghost done: Seq<u64> = Seq::empty();
        while steps < n
            invariant
                self.wf(),
                n == self.dom().len(),
                full == ancestor_chain(self, k.spec_id(), n as nat),
                self.dom().contains(cur),
                steps <= n,
                full == done + ancestor_chain(self, cur, (n - steps) as nat),
                r.len() == done.len(),
                forall|i: int| 0 <= i < r.len() ==> *r[i] == self.value_of(#[trigger] done[i]),
            ensures
                r.len() == full.len(),
                forall|i: int| 0 <= i < r.len() ==> *r[i] == self.value_of(#[trigger] full[i]),
            decreases n - steps,
        {
            let node = self.nodes.get(&cur).unwrap();
            match node.parent {
                Some(p) => {
                    proof {
                        assert(parent_link_ok(self.nodes@, cur));
                        assert(ancestor_chain(self, cur, (n - steps) as nat) == seq![p] + ancestor_chain(self, p, (n - steps - 1) as nat));
                        assert(done + (seq![p] + ancestor_chain(self, p, (n - steps - 1) as nat))
                            == done.push(p) + ancestor_chain(self, p, (n - steps - 1) as nat));
                    }
                    let pn = self.nodes.get(&p).unwrap();
                    r.push(&pn.inner);
                    proof {
                        done = done.push(p);
                    }
                    cur = p;
                    steps += 1;
                },
                None => {
                    proof {
                        assert(ancestor_chain(self, cur, (n - steps) as nat) == Seq::<u64>::empty());
                        assert(done + Seq::<u64>::empty() == done);
                    }
                    break;
                },
            }
        }
        proof {
            if steps == n {
                assert(done + Seq::<u64>::empty() == done);
            }
        }
        r
    }

    /// The roots of the tree: the nodes without a parent, in no particular
    /// order.
    pub fn orphans(&self) -> (r: Vec<NodeKey>)
        requires
            self.wf(),
        ensures
            forall|k: u64| #[trigger] key_listed(r@, k) <==> (self.dom().contains(k) && self.parent_of(k) is None),
    {
        let mut r: Vec<NodeKey> = Vec::new();
        let ghost full = vstd::std_specs::hash::spec_keys_iter(&self.nodes).remaining();
        let ghost mut cnt: int = 0;
        for key in it: self.nodes.keys()
            invariant
                self.wf(),
                it.seq() == full,
                cnt == it.index(),
                0 <= cnt <= full.len(),
                full.unref().to_set() == self.nodes@.dom(),
                forall|k: u64| #[trigger] key_listed(r@, k)
                    <==> (full.unref().take(cnt).contains(k) && self.parent_of(k) is None),
        {
            let id = *key;
            proof {
                assert(full.unref()[cnt] == id);
                assert(full.unref().to_set().contains(id));
            }
            let node = self.nodes.get(&id).unwrap();
            let ghost before = r@;
            if node.parent.is_none() {
                proof {
                    self.keys.lemma_live_normal(id);
                }
                r.push(NodeKey { id });
            }
            proof {
                let next = full.unref().take(cnt + 1);
                assert(next == full.unref().take(cnt).push(id));
                assert forall|k: u64| #[trigger] key_listed(r@, k)
                    <==> (next.contains(k) && self.parent_of(k) is None) by {
                    if key_listed(r@, k) {
                        let i = choose|i: int| 0 <= i < r@.len() && r@[i].spec_id() == k;
                        if i < before.len() {
                            assert(before[i] == r@[i]);
                            assert(key_listed(before, k));
                            let j = choose|j: int| 0 <= j < full.unref().take(cnt).len() && full.unref().take(cnt)[j] == k;
                            assert(next[j] == k);
                        } else {
                            assert(k == id);
                            assert(next[cnt] == id);
                        }
                    }
                    if next.contains(k) && self.parent_of(k) is None {
                        if k == id {
                            assert(r@[r@.len() - 1].spec_id() == k);
                        } else {
                            assert(full.unref().take(cnt).contains(k));
                            assert(key_listed(before, k));
                            let i = choose|i: int| 0 <= i < before.len() && before[i].spec_id() == k;
                            assert(r@[i].spec_id() == k);
                        }
                    }
                }
                cnt = cnt + 1;
            }
        }
        proof {
            assert(full.unref().take(cnt) == full.unref());
            assert forall|k: u64| #[trigger] key_listed(r@, k)
                <==> (self.dom().contains(k) && self.parent_of(k) is None) by {
                assert(full.unref().to_set().contains(k) == full.unref().contains(k));
            }
        }
        r
    }
}

impl<N> Tree<N> {
    /// Every node whose chain of parents reaches `root` is in `seen`, when
    /// `seen` holds `root` and the children of each of its nodes.
    proof fn lemma_closed_subtree(&self, seen: Set<u64>, root: u64, x: u64, n: nat)
        requires
            self.wf(),
            seen.contains(root),
            forall|y: u64, j: int| seen.contains(y) && self.dom().contains(y) && 0 <= j < self.children_of(y).len()
                ==> seen.contains(#[trigger] self.children_of(y)[j]),
            forall|y: u64| seen.contains(y) ==> self.dom().contains(y),
            self.dom().contains(x),
            ancestor_at(self, x, n) == Some(root),
        ensures
            seen.contains(x),
        decreases n,
    {
        if n > 0 {
            assert(parent_link_ok(self.nodes@, x));
            match self.parent_of(x) {
                Some(p) => {
                    self.lemma_closed_subtree(seen, root, p, (n - 1) as nat);
                    let j = self.nodes@[x].index_in_parent as int;
                    assert(self.children_of(p)[j] == x);
                },
                None => {},
            }
        }
    }

    /// Two trees whose nodes have the same parents, but for `k`, have the same
    /// subtree under `k`.
    proof fn lemma_subtree_same(a: &Tree<N>, b: &Tree<N>, k: u64, x: u64, n: nat)
        requires
            a.wf(),
            b.wf(),
            a.dom() == b.dom(),
            forall|y: u64| a.dom().contains(y) && y != k ==> #[trigger] a.parent_of(y) == b.parent_of(y),
            a.dom().contains(x),
            ancestor_at(a, x, n) == Some(k),
        ensures
            in_subtree(b, x, k),
        decreases n,
    {
        if x == k {
            assert(ancestor_at(b, x, 0) == Some(k));
        } else if n > 0 {
            assert(parent_link_ok(a.nodes@, x));
            match a.parent_of(x) {
                Some(p) => {
                    Self::lemma_subtree_same(a, b, k, p, (n - 1) as nat);
                    let m = choose|m: nat| ancestor_at(b, p, m) == Some(k);
                    assert(ancestor_at(b, x, m + 1) == Some(k));
                },
                None => {},
            }
        }
    }

    /// A child of a node of the subtree of `root` is in the subtree.
    proof fn lemma_child_in_subtree(&self, root: u64, y: u64, j: int)
        requires
            self.wf(),
            self.dom().contains(y),
            0 <= j < self.children_of(y).len(),
            in_subtree(self, y, root),
        ensures
            in_subtree(self, self.children_of(y)[j], root),
            self.dom().contains(self.children_of(y)[j]),
    {
        assert(child_link_ok(self.nodes@, y, j));
        let c = self.children_of(y)[j];
        let n = choose|n: nat| ancestor_at(self, y, n) == Some(root);
        assert(ancestor_at(self, c, n + 1) == Some(root));
    }

    /// The keys of the subtree of `root`, `root` included, each once.
    fn collect_subtree(&self, root: u64) -> (r: Vec<u64>)
        requires
            self.wf(),
            self.dom().contains(root),
        ensures
            forall|x: u64| #[trigger] r@.contains(x) <==> (self.dom().contains(x) && in_subtree(self, x, root)),
    {
        let mut out: Vec<u64> = Vec::new();
        let mut seen: HashSet<u64> = HashSet::new();
        let mut stack: Vec<u64> = Vec::new();
        let ghost mut done: Set<u64> = Set::empty();
        out.push(root);
        seen.insert(root);
        stack.push(root);
        proof {
            self.keys.lemma_finite();
            assert(ancestor_at(self, root, 0) == Some(root));
            assert(out@[0] == root);
        }
        while stack.len() > 0
            invariant
                self.wf(),
                self.dom().contains(root),
                self.dom().finite(),
                seen@.contains(root),
                forall|x: u64| #[trigger] seen@.contains(x) <==> out@.contains(x),
                forall|x: u64| #[trigger] seen@.contains(x) ==> self.dom().contains(x) && in_subtree(self, x, root),
                forall|x: u64| #[trigger] seen@.contains(x) <==> (done.contains(x) || stack@.contains(x)),
                forall|y: u64, j: int| done.contains(y) && 0 <= j < self.children_of(y).len()
                    ==> seen@.contains(#[trigger] self.children_of(y)[j]),
                seen@.subset_of(self.dom()),
            decreases self.dom().len() - seen@.len(), stack.len(),
        {
            proof {
                vstd::set_lib::lemma_len_subset(seen@, self.dom());
            }
            let ghost seen0 = seen@;
            let ghost stack0 = stack@;
            let x = stack.pop().unwrap();
            let ghost stack1 = stack@;
            proof {
                assert(stack0 == stack1.push(x));
                assert(stack0[stack0.len() - 1] == x);
                assert(seen@.contains(x));
                assert forall|x2: u64| #[trigger] seen@.contains(x2) <==> (done.contains(x2) || x2 == x || stack@.contains(x2)) by {
                    if stack0.contains(x2) {
                        let q = choose|q: int| 0 <= q < stack0.len() && stack0[q] == x2;
                        if q < stack1.len() {
                            assert(stack1[q] == x2);
                        }
                    }
                    if stack1.contains(x2) {
                        let q = choose|q: int| 0 <= q < stack1.len() && stack1[q] == x2;
                        assert(stack0[q] == x2);
                    }
                }
            }
            let xn = self.nodes.get(&x).unwrap();
            let mut i: usize = 0;
            while i < xn.children.len()
                invariant
                    self.wf(),
                    self.dom().finite(),
                    self.dom().contains(x),
                    *xn == self.nodes@[x],
                    i <= xn.children@.len(),
                    seen@.contains(root),
                    seen@.contains(x),
                    in_subtree(self, x, root),
                    seen0.subset_of(seen@),
                    seen@.subset_of(self.dom()),
                    stack@.len() - stack1.len() <= seen@.len() - seen0.len(),
                    forall|x2: u64| #[trigger] seen@.contains(x2) <==> out@.contains(x2),
                    forall|x2: u64| #[trigger] seen@.contains(x2) ==> self.dom().contains(x2) && in_subtree(self, x2, root),
                    forall|x2: u64| #[trigger] seen@.contains(x2) <==> (done.contains(x2) || x2 == x || stack@.contains(x2)),
                    forall|y: u64, j: int| done.contains(y) && 0 <= j < self.children_of(y).len()
                        ==> seen@.contains(#[trigger] self.children_of(y)[j]),
                    forall|j: int| 0 <= j < i ==> seen@.contains(#[trigger] self.children_of(x)[j]),
                decreases xn.children@.len() - i,
            {
                let c = xn.children[i];
                proof {
                    self.lemma_child_in_subtree(root, x, i as int);
                }
                if !seen.contains(&c) {
                    let ghost sb = seen@;
                    let ghost stb = stack@;
                    let ghost ob = out@;
                    seen.insert(c);
                    out.push(c);
                    stack.push(c);
                    proof {
                        assert forall|x2: u64| #[trigger] seen@.contains(x2) <==> out@.contains(x2) by {
                            if x2 != c {
                                assert(sb.contains(x2) == ob.contains(x2));
                                if ob.contains(x2) {
                                    let q = choose|q: int| 0 <= q < ob.len() && ob[q] == x2;
                                    assert(out@[q] == x2);
                                }
                                if out@.contains(x2) {
                                    let q = choose|q: int| 0 <= q < out@.len() && out@[q] == x2;
                                    assert(q < ob.len());
                                    assert(ob[q] == x2);
                                }
                            } else {
                                assert(out@[out@.len() - 1] == c);
                            }
                        }
                        assert forall|x2: u64| #[trigger] seen@.contains(x2) <==> (done.contains(x2) || x2 == x || stack@.contains(x2)) by {
                            if x2 != c {
                                if stb.contains(x2) {
                                    let q = choose|q: int| 0 <= q < stb.len() && stb[q] == x2;
                                    assert(stack@[q] == x2);
                                }
                                if stack@.contains(x2) {
                                    let q = choose|q: int| 0 <= q < stack@.len() && stack@[q] == x2;
                                    assert(q < stb.len());
                                    assert(stb[q] == x2);
                                }
                            } else {
                                assert(stack@[stack@.len() - 1] == c);
                            }
                        }
                        vstd::set_lib::lemma_len_subset(sb, self.dom());
                    }
                }
                i += 1;
            }
            proof {
                let d0 = done;
                done = done.insert(x);
                assert forall|x2: u64| #[trigger] seen@.contains(x2) <==> (done.contains(x2) || stack@.contains(x2)) by {}
                assert forall|y: u64, j: int| done.contains(y) && 0 <= j < self.children_of(y).len()
                    implies seen@.contains(#[trigger] self.children_of(y)[j]) by {
                    if y != x {
                        assert(d0.contains(y));
                    }
                }
                vstd::set_lib::lemma_len_subset(seen@, self.dom());
                vstd::set_lib::lemma_len_subset(seen0, seen@);
            }
        }
        proof {
            assert forall|x: u64| #[trigger] out@.contains(x) <==> (self.dom().contains(x) && in_subtree(self, x, root)) by {
                if self.dom().contains(x) && in_subtree(self, x, root) {
                    let n = choose|n: nat| ancestor_at(self, x, n) == Some(root);
                    assert forall|y: u64, j: int| seen@.contains(y) && self.dom().contains(y) && 0 <= j < self.children_of(y).len()
                        implies seen@.contains(#[trigger] self.children_of(y)[j]) by {
                        assert(!stack@.contains(y));
                        assert(done.contains(y));
                    }
                    assert forall|y: u64| seen@.contains(y) implies self.dom().contains(y) by {}
                    self.lemma_closed_subtree(seen@, root, x, n);
                    assert(seen@.contains(x));
                }
                if out@.contains(x) {
                    assert(seen@.contains(x));
                }
            }
        }
        out
    }
}

impl<N> Tree<N> {
    /// Removes node `k` and its descendants, and returns the value of `k`;
    /// `None` if the tree has no node `k`. The parent of `k` loses it from
    /// its children.
    pub fn remove(&mut self, k: NodeKey) -> (r: Option<N>)
        requires
            old(self).wf(),
        ensures
            final(self).wf(),
            match r {
                None => {
                    &&& !old(self).dom().contains(k.spec_id())
                    &&& final(self).dom() == old(self).dom()
                    &&& final(self).same_nodes_except(old(self), Set::empty())
                },
                Some(v) => {
                    &&& old(self).dom().contains(k.spec_id())
                    &&& v == old(self).value_of(k.spec_id())
                    &&& final(self).dom() == old(self).dom().filter(|x: u64| !in_subtree(old(self), x, k.spec_id()))
                    &&& match old(self).parent_of(k.spec_id()) {
                        Some(p) => {
                            &&& final(self).dom().contains(p) ==> final(self).children_of(p) == old(self).children_of(p).remove(
                                old(self).children_of(p).index_of(k.spec_id()))
                                && final(self).parent_of(p) == old(self).parent_of(p)
                                && final(self).value_of(p) == old(self).value_of(p)
                            &&& final(self).same_nodes_except(old(self), set![p])
                        },
                        None => final(self).same_nodes_except(old(self), Set::empty()),
                    }
                },
            },
    {
        let id = k.id();
        if !self.nodes.contains_key(&id) {
            proof {
                assert forall|x: u64| #[trigger] self.dom().contains(x) && !Set::<u64>::empty().contains(x) implies {
                    &&& old(self).dom().contains(x)
                    &&& self.parent_of(x) == old(self).parent_of(x)
                    &&& self.children_of(x) == old(self).children_of(x)
                    &&& self.value_of(x) == old(self).value_of(x)
                } by {}
            }
            return None;
        }
        self.detach(k);
        let ghost det = *self;
        let subtree = self.collect_subtree(id);
        let ghost m1 = self.nodes@;
        let ghost s_all = subtree@.to_set();
        proof {
            assert forall|j: int| 0 <= j < subtree@.len() implies key_norm(#[trigger] subtree@[j]) == subtree@[j] by {
                assert(subtree@.contains(subtree@[j]));
                self.keys.lemma_live_normal(subtree@[j]);
            }
        }
        let mut i: usize = 0;
        while i < subtree.len()
            invariant
                0 <= i <= subtree@.len(),
                m1 == det.nodes@,
                det.wf(),
                det.dom().contains(id),
                self.keys.wf(),
                self.keys.live() == self.nodes@.dom(),
                forall|j: int| 0 <= j < subtree@.len() ==> key_norm(#[trigger] subtree@[j]) == subtree@[j],
                self.nodes@.dom() == m1.dom().filter(|x: u64| !(x != id && subtree@.take(i as int).contains(x))),
                forall|x: u64| #[trigger] self.nodes@.dom().contains(x) ==> self.nodes@[x] == m1[x],
            decreases subtree@.len() - i,
        {
            let x = subtree[i];
            if x != id {
                self.nodes.remove(&x);
                self.keys.remove(x);
            }
            proof {
                let t0 = subtree@.take(i as int);
                let t1 = subtree@.take(i + 1);
                assert(t1 == t0.push(x));
                assert forall|y: u64| #[trigger] t1.contains(y) <==> (t0.contains(y) || y == x) by {
                    if t1.contains(y) {
                        let q = choose|q: int| 0 <= q < t1.len() && t1[q] == y;
                        if q < t0.len() {
                            assert(t0[q] == y);
                        }
                    }
                    if t0.contains(y) {
                        let q = choose|q: int| 0 <= q < t0.len() && t0[q] == y;
                        assert(t1[q] == y);
                    }
                    if y == x {
                        assert(t1[i as int] == y);
                    }
                }
                assert(self.nodes@.dom() =~= m1.dom().filter(|y: u64| !(y != id && subtree@.take(i + 1).contains(y))));
            }
            i += 1;
        }
        let n = self.nodes.remove(&id).unwrap();
        self.keys.remove(id);
        proof {
            assert(subtree@.take(i as int) == subtree@);
            let sub = |x: u64| in_subtree(&det, x, id);
            assert(self.nodes@.dom() =~= m1.dom().filter(|x: u64| !in_subtree(&det, x, id))) by {
                assert forall|x: u64| self.nodes@.dom().contains(x) <==> m1.dom().contains(x) && !in_subtree(&det, x, id) by {
                    if m1.dom().contains(x) {
                        assert(subtree@.contains(x) <==> in_subtree(&det, x, id));
                        if x == id {
                            assert(ancestor_at(&det, id, 0) == Some(id));
                        }
                    }
                }
            }
            self.lemma_remove_links(det, id);
            // The subtree of `k` is the same before and after detaching it.
            assert forall|x: u64| old(self).dom().contains(x) implies
                (in_subtree(&det, x, id) <==> in_subtree(old(self), x, id)) by {
                if in_subtree(&det, x, id) {
                    let n0 = choose|n0: nat| ancestor_at(&det, x, n0) == Some(id);
                    Self::lemma_subtree_same(&det, old(self), id, x, n0);
                }
                if in_subtree(old(self), x, id) {
                    let n0 = choose|n0: nat| ancestor_at(old(self), x, n0) == Some(id);
                    Self::lemma_subtree_same(old(self), &det, id, x, n0);
                }
            }
            assert(self.dom() =~= old(self).dom().filter(|x: u64| !in_subtree(old(self), x, id)));
        }
        Some(n.inner)
    }

    /// Removing a subtree whose root has no parent leaves consistent links.
    proof fn lemma_remove_links(&self, det: Tree<N>, id: u64)
        requires
            det.wf(),
            det.dom().contains(id),
            det.parent_of(id) is None,
            self.nodes@.dom() == det.dom().filter(|x: u64| !in_subtree(&det, x, id)),
            forall|x: u64| #[trigger] self.nodes@.dom().contains(x) ==> self.nodes@[x] == det.nodes@[x],
        ensures
            links_ok(self.nodes@),
    {
        let m = self.nodes@;
        let m1 = det.nodes@;
        assert forall|x: u64| m.dom().contains(x) implies #[trigger] parent_link_ok(m, x) by {
            assert(parent_link_ok(m1, x));
            match m1[x].parent {
                Some(q) => {
                    if in_subtree(&det, q, id) {
                        let n = choose|n: nat| ancestor_at(&det, q, n) == Some(id);
                        assert(ancestor_at(&det, x, n + 1) == Some(id));
                    }
                },
                None => {},
            }
        }
        assert forall|y: u64, i: int| m.dom().contains(y) && 0 <= i < m[y].children@.len() implies #[trigger] child_link_ok(m, y, i) by {
            assert(child_link_ok(m1, y, i));
            let c = m1[y].children@[i];
            if in_subtree(&det, c, id) {
                let n = choose|n: nat| ancestor_at(&det, c, n) == Some(id);
                if n == 0 {
                    assert(c == id);
                } else {
                    assert(ancestor_at(&det, y, (n - 1) as nat) == Some(id));
                }
            }
        }
    }
}

impl<N> Tree<N> {
    /// Replaces the value of node `k` with `value`, and returns the previous
    /// value.
    pub fn replace_value(&mut self, k: NodeKey, value: N) -> (r: N)
        requires
            old(self).wf(),
            old(self).dom().contains(k.spec_id()),
        ensures
            final(self).wf(),
            r == old(self).value_of(k.spec_id()),
            final(self).dom() == old(self).dom(),
            final(self).value_of(k.spec_id()) == value,
            final(self).parent_of(k.spec_id()) == old(self).parent_of(k.spec_id()),
            final(self).children_of(k.spec_id()) == old(self).children_of(k.spec_id()),
            final(self).same_nodes_except(old(self), set![k.spec_id()]),
    {
        let id = k.id();
        let ghost m0 = self.nodes@;
        let n = self.nodes.remove(&id).unwrap();
        let TreeNode { parent, children, index_in_parent, inner } = n;
        self.nodes.insert(id, TreeNode { parent, children, index_in_parent, inner: value });
        proof {
            let m = self.nodes@;
            assert(m.dom() =~= m0.dom());
            assert forall|x: u64| m.dom().contains(x) implies #[trigger] parent_link_ok(m, x) by {
                assert(parent_link_ok(m0, x));
            }
            assert forall|p: u64, i: int| m.dom().contains(p) && 0 <= i < m[p].children@.len() implies #[trigger] child_link_ok(m, p, i) by {
                assert(child_link_ok(m0, p, i));
            }
        }
        inner
    }
}

impl<N> Tree<N> {
    /// The parent of a node is a node of the tree.
    pub proof fn lemma_parent_in_dom(&self, k: u64)
        requires
            self.wf(),
            self.dom().contains(k),
            self.parent_of(k) is Some,
        ensures
            self.dom().contains(self.parent_of(k)->0),
    {
        assert(parent_link_ok(self.nodes@, k));
    }
}

} // verus!
