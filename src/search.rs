use vstd::prelude::*;

use crate::container::{Container, PORTION_SCALE, even_share, rescaled, same_but_clients, same_but_portion};

verus! {

impl Container {
    /// Whether this node or one below it has the window `id`.
    pub open spec fn has(self, id: u64) -> bool
        decreases self,
    {
        ||| self.id == id
        ||| exists|i: int| #![trigger self.clients@[i]] 0 <= i < self.clients@.len() && self.clients@[i].has(id)
    }

    /// The node reached from this one by following child indices `path`.
    pub open spec fn node_at(self, path: Seq<usize>) -> Option<Container>
        decreases path.len(),
    {
        if path.len() == 0 {
            Some(self)
        } else if path[0] < self.clients@.len() {
            self.clients@[path[0] as int].node_at(path.skip(1))
        } else {
            None
        }
    }

    /// `after` is `self` with the node at `path` replaced by `sub`.
    pub open spec fn replaced(self, path: Seq<usize>, sub: Container, after: Container) -> bool
        decreases path.len(),
    {
        if path.len() == 0 {
            after == sub
        } else {
            let i = path[0] as int;
            &&& 0 <= i < self.clients@.len()
            &&& same_but_clients(after, self)
            &&& after.clients@.len() == self.clients@.len()
            &&& forall|j: int| 0 <= j < self.clients@.len() && j != i ==> #[trigger] after.clients@[j] == self.clients@[j]
            &&& self.clients@[i].replaced(path.skip(1), sub, after.clients@[i])
        }
    }

    /// Whether a node strictly below this one has the window `id`.
    pub open spec fn has_below(self, id: u64) -> bool {
        exists|i: int| #![trigger self.clients@[i]] 0 <= i < self.clients@.len() && self.clients@[i].has(id)
    }

    /// `after` is `self` once `r`, the first node below it whose window is
    /// `id`, is removed: a direct child if one matches, else recursively from
    /// the first child holding `id`, which is itself removed where that leaves
    /// it empty. `gone` lists, innermost first, the windows of the containers
    /// removed for being left empty.
    pub open spec fn tree_removed(self, id: u64, after: Container, r: Container, gone: Seq<u64>) -> bool
        decreases self,
    {
        if self.has_child(id) {
            &&& gone.len() == 0
            &&& exists|i: int| #[trigger] self.first_child(id, i) && r == self.clients@[i] && self.removed(i, after)
        } else {
            exists|i: int| #![trigger self.clients@[i]] {
                &&& 0 <= i < self.clients@.len()
                &&& self.clients@[i].has(id)
                &&& forall|j: int| 0 <= j < i ==> !(#[trigger] self.clients@[j]).has(id)
                &&& {
                    ||| {
                        &&& same_but_clients(after, self)
                        &&& after.clients@.len() == self.clients@.len()
                        &&& forall|j: int| 0 <= j < self.clients@.len() && j != i ==> #[trigger] after.clients@[j] == self.clients@[j]
                        &&& after.clients@[i].clients@.len() > 0
                        &&& self.clients@[i].tree_removed(id, after.clients@[i], r, gone)
                    }
                    ||| {
                        &&& self.removed(i, after)
                        &&& gone.len() > 0
                        &&& gone.last() == self.clients@[i].id
                        &&& exists|child: Container| #![trigger child.clients@]
                            child.clients@.len() == 0 && self.clients@[i].tree_removed(id, child, r, gone.drop_last())
                    }
                }
            }
        }
    }

    /// Removes the first node below this one whose window is `id`: first among
    /// the direct children, then depth-first in each child in turn. A container
    /// left empty by the removal (other than this one) is removed as well, and
    /// its window is appended to `pruned` so that the caller can destroy it.
    pub fn tree_remove(&mut self, id: u64, pruned: &mut Vec<u64>) -> (r: Option<Container>)
        requires
            old(self).wf(),
        ensures
            final(self).wf(),
            same_but_clients(*final(self), *old(self)),
            match r {
                Some(c) => c.id == id && c.wf() && old(self).has_below(id)
                    && old(self).tree_removed(id, *final(self), c, final(pruned)@.skip(old(pruned)@.len() as int)),
                None => !old(self).has_below(id) && *final(self) == *old(self) && *final(pruned) == *old(pruned),
            },
            final(pruned)@.len() >= old(pruned)@.len(),
            final(pruned)@.take(old(pruned)@.len() as int) == old(pruned)@,
        decreases *old(self),
    {
        let direct = self.remove(id);
        match direct {
            Some(c) => {
                proof {
                    let i = choose|i: int| #[trigger] old(self).first_child(id, i) && c == old(self).clients@[i] && old(self).removed(i, *self);
                    assert(old(self).has_child(id));
                    assert(old(self).clients@[i].has(id));
                    assert(old(self).clients@[i].wf());
                    assert(pruned@.take(pruned@.len() as int) =~= pruned@);
                    assert(pruned@.skip(pruned@.len() as int) =~= Seq::<u64>::empty());
                }
                return Some(c);
            },
            None => {},
        }
        let n = self.clients.len();
        let mut i: usize = 0;
        while i < n
            invariant
                n == self.clients@.len(),
                i <= n,
                *self == *old(self),
                *pruned == *old(pruned),
                self.wf(),
                !old(self).has_child(id),
                forall|j: int| 0 <= j < i ==> !(#[trigger] self.clients@[j]).has(id),
            decreases n - i,
        {
            if self.clients[i].tree_search(id).is_some() {
                let ghost before = *self;
                let ghost child0 = self.clients@[i as int];
                proof {
                    assert(child0.wf());
                    assert(child0.id != id);
                    assert(child0.has_below(id));
                    assert(old(self).has_below(id));
                }
                let found = self.clients[i].tree_remove(id, pruned);
                let ghost child1 = self.clients@[i as int];
                let ghost inner = pruned@.skip(old(pruned)@.len() as int);
                let ghost mid = *self;
                proof {
                    assert(found is Some);
                    assert(self.clients@ =~= before.clients@.update(i as int, child1));
                    crate::container::lemma_sum_update(before.clients@, i as int, child1);
                    assert forall|j: int| 0 <= j < self.clients@.len() implies (#[trigger] self.clients@[j]).wf() by {
                        if j != i {
                            assert(self.clients@[j] == before.clients@[j]);
                        }
                    }
                    assert(self.wf());
                }
                if self.clients[i].is_empty() {
                    let gone = self.clients[i].id;
                    let ghost earlier = pruned@;
                    self.remove_by_index(i);
                    pruned.push(gone);
                    proof {
                        assert(pruned@.take(old(pruned)@.len() as int) =~= earlier.take(old(pruned)@.len() as int));
                        assert(same_but_clients(mid, *old(self)));
                        assert(mid.clients@ == old(self).clients@.update(i as int, child1));
                        assert(mid.clients@.remove(i as int) =~= old(self).clients@.remove(i as int));
                        assert(mid.clients@[i as int].portion == old(self).clients@[i as int].portion);
                        assert(mid.removed(i as int, *self));
                        lemma_removed_congruent(mid, *old(self), i as int, *self);
                        let all = pruned@.skip(old(pruned)@.len() as int);
                        assert(all =~= inner.push(gone));
                        assert(all.drop_last() =~= inner);
                        assert(child0.tree_removed(id, child1, found->0, all.drop_last()));
                        assert(child1.clients@.len() == 0);
                        assert(old(self).clients@[i as int] == child0);
                        assert(!old(self).has_child(id));
                        assert(old(self).removed(i as int, *self));
                        assert(old(self).clients@[i as int].has(id));
                        assert(forall|j: int| 0 <= j < i ==> !(#[trigger] old(self).clients@[j]).has(id));
                        assert(0 <= i < old(self).clients@.len());
                        assert(old(self).tree_removed(id, *self, found->0, all));
                    }
                } else {
                    proof {
                        assert(forall|j: int| 0 <= j < self.clients@.len() && j != i ==> #[trigger] self.clients@[j] == old(self).clients@[j]);
                        assert(child0.tree_removed(id, self.clients@[i as int], found->0, inner));
                        assert(old(self).clients@[i as int] == child0);
                        assert(!old(self).has_child(id));
                        assert(old(self).tree_removed(id, *self, found->0, inner));
                    }
                }
                return found;
            }
            i = i + 1;
        }
        proof {
            assert(pruned@.take(pruned@.len() as int) =~= pruned@);
            assert(!old(self).has_below(id));
        }
        None
    }

    /// Path of child indices from this node to the first node, in depth-first
    /// order, whose window is `id`.
    pub fn find_path(&self, id: u64) -> (r: Option<Vec<usize>>)
        ensures
            match r {
                Some(p) => self.node_at(p@) is Some && self.node_at(p@)->0.id == id,
                None => !self.has(id),
            },
        decreases self,
    {
        if self.id == id {
            return Some(Vec::new());
        }
        let n = self.clients.len();
        let mut i: usize = 0;
        while i < n
            invariant
                n == self.clients@.len(),
                i <= n,
                self.id != id,
                forall|j: int| 0 <= j < i ==> !(#[trigger] self.clients@[j]).has(id),
            decreases n - i,
        {
            match self.clients[i].find_path(id) {
                Some(p) => {
                    let mut path: Vec<usize> = Vec::new();
                    path.push(i);
                    let mut k: usize = 0;
                    while k < p.len()
                        invariant
                            k <= p@.len(),
                            path@ == seq![i].add(p@.take(k as int)),
                        decreases p@.len() - k,
                    {
                        path.push(p[k]);
                        proof {
                            assert(p@.take(k as int + 1) =~= p@.take(k as int).push(p@[k as int]));
                        }
                        k = k + 1;
                    }
                    proof {
                        assert(p@.take(p@.len() as int) =~= p@);
                        assert(path@.skip(1) =~= p@);
                    }
                    return Some(path);
                },
                None => {},
            }
            i = i + 1;
        }
        None
    }

    /// The first node, in depth-first order, whose window is `id`.
    pub fn tree_search(&self, id: u64) -> (r: Option<&Container>)
        ensures
            match r {
                Some(c) => c.id == id && self.has(id) && exists|p: Seq<usize>| self.node_at(p) == Some(*c),
                None => !self.has(id),
            },
            self.id == id ==> r == Some(self),
        decreases self,
    {
        if self.id == id {
            proof {
                assert(self.node_at(Seq::<usize>::empty()) == Some(*self));
            }
            return Some(self);
        }
        let n = self.clients.len();
        let mut i: usize = 0;
        while i < n
            invariant
                n == self.clients@.len(),
                i <= n,
                self.id != id,
                forall|j: int| 0 <= j < i ==> !(#[trigger] self.clients@[j]).has(id),
            decreases n - i,
        {
            let found = self.clients[i].tree_search(id);
            match found {
                Some(c) => {
                    proof {
                        let p = choose|p: Seq<usize>| self.clients@[i as int].node_at(p) == Some(*c);
                        let q = seq![i].add(p);
                        assert(q.skip(1) =~= p);
                        assert(self.node_at(q) == Some(*c));
                    }
                    return Some(c);
                },
                None => {},
            }
            i = i + 1;
        }
        None
    }

    /// The node at `path[k..]`.
    pub fn node_at_ref(&self, path: &Vec<usize>, k: usize) -> (r: &Container)
        requires
            k <= path@.len(),
            self.node_at(path@.skip(k as int)) is Some,
        ensures
            *r == self.node_at(path@.skip(k as int))->0,
        decreases path@.len() - k,
    {
        if k == path.len() {
            proof {
                assert(path@.skip(k as int) =~= Seq::<usize>::empty());
            }
            return self;
        }
        proof {
            assert(path@.skip(k as int).skip(1) =~= path@.skip(k as int + 1));
        }
        let i = path[k];
        self.clients[i].node_at_ref(path, k + 1)
    }

    /// Mutable access to the node at `path[k..]`.
    pub fn node_at_mut(&mut self, path: &Vec<usize>, k: usize) -> (r: &mut Container)
        requires
            k <= path@.len(),
            old(self).node_at(path@.skip(k as int)) is Some,
        ensures
            *r == old(self).node_at(path@.skip(k as int))->0,
            old(self).replaced(path@.skip(k as int), *final(r), *final(self)),
        decreases path@.len() - k,
    {
        if k == path.len() {
            proof {
                assert(path@.skip(k as int) =~= Seq::<usize>::empty());
            }
            return self;
        }
        proof {
            assert(path@.skip(k as int).skip(1) =~= path@.skip(k as int + 1));
        }
        let i = path[k];
        let child = &mut self.clients[i];
        child.node_at_mut(path, k + 1)
    }
}

/// The node at a non-empty path is a child of the node at the path's prefix.
pub proof fn lemma_node_at_parent(c: Container, path: Seq<usize>)
    requires
        path.len() > 0,
        c.node_at(path) is Some,
    ensures
        c.node_at(path.drop_last()) is Some,
        path.last() < c.node_at(path.drop_last())->0.clients@.len(),
        c.node_at(path) == Some(c.node_at(path.drop_last())->0.clients@[path.last() as int]),
    decreases path.len(),
{
    if path.len() == 1 {
        assert(path.drop_last() =~= Seq::<usize>::empty());
        assert(path.skip(1) =~= Seq::<usize>::empty());
    } else {
        let child = c.clients@[path[0] as int];
        lemma_node_at_parent(child, path.skip(1));
        assert(path.skip(1).drop_last() =~= path.drop_last().skip(1));
        assert(path.skip(1).last() == path.last());
    }
}

/// Removing a child gives the same result from two containers that agree on
/// everything but that child's contents.
pub proof fn lemma_removed_congruent(a: Container, b: Container, i: int, after: Container)
    requires
        0 <= i < a.clients@.len(),
        a.clients@.len() == b.clients@.len(),
        a.clients@.remove(i) == b.clients@.remove(i),
        a.clients@[i].portion == b.clients@[i].portion,
        same_but_clients(a, b),
        a.removed(i, after),
    ensures
        b.removed(i, after),
{
    let s = b.clients@.remove(i);
    let m = s.len() as int;
    let t = PORTION_SCALE - b.clients@[i].portion;
    assert(same_but_clients(after, b));
    assert(after.clients@.len() == m);
    assert forall|j: int| 0 <= j < m implies {
        &&& same_but_portion(after.clients@[j], #[trigger] s[j])
        &&& after.clients@[j].portion == if t > 0 {
            rescaled(s, j, PORTION_SCALE as int, t)
        } else {
            even_share(j, m)
        }
    } by {
        assert(a.clients@.remove(i)[j] == s[j]);
    }
}

/// After a replacement, the new node stands at the path.
pub proof fn lemma_replaced_node_at(c: Container, path: Seq<usize>, sub: Container, after: Container)
    requires
        c.replaced(path, sub, after),
    ensures
        after.node_at(path) == Some(sub),
    decreases path.len(),
{
    if path.len() > 0 {
        lemma_replaced_node_at(c.clients@[path[0] as int], path.skip(1), sub, after.clients@[path[0] as int]);
    }
}

/// A node reached by a path belongs to the tree.
pub proof fn lemma_node_at_has(c: Container, path: Seq<usize>)
    requires
        c.node_at(path) is Some,
    ensures
        c.has(c.node_at(path)->0.id),
    decreases path.len(),
{
    if path.len() > 0 {
        let i = path[0] as int;
        lemma_node_at_has(c.clients@[i], path.skip(1));
        assert(c.clients@[i].has(c.node_at(path)->0.id));
    }
}

/// Every node of a well-formed tree is well-formed.
pub proof fn lemma_node_wf(c: Container, path: Seq<usize>)
    requires
        c.wf(),
        c.node_at(path) is Some,
    ensures
        c.node_at(path)->0.wf(),
    decreases path.len(),
{
    if path.len() > 0 {
        lemma_node_wf(c.clients@[path[0] as int], path.skip(1));
    }
}

/// Replacing a node by a well-formed one with the same portion keeps the tree
/// well-formed.
pub proof fn lemma_replaced_wf(c: Container, path: Seq<usize>, sub: Container, after: Container)
    requires
        c.wf(),
        c.node_at(path) is Some,
        c.replaced(path, sub, after),
        sub.wf(),
        sub.portion == c.node_at(path)->0.portion,
    ensures
        after.wf(),
        after.portion == c.portion,
    decreases path.len(),
{
    if path.len() > 0 {
        let i = path[0] as int;
        lemma_replaced_wf(c.clients@[i], path.skip(1), sub, after.clients@[i]);
        crate::container::lemma_sum_update(c.clients@, i, after.clients@[i]);
        assert(c.clients@.update(i, after.clients@[i]) =~= after.clients@);
        assert forall|j: int| 0 <= j < after.clients@.len() implies (#[trigger] after.clients@[j]).wf() by {
            if j != i {
                assert(after.clients@[j] == c.clients@[j]);
            }
        }
    }
}

} // verus!
