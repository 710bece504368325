use vstd::prelude::*;

use crate::container::{Container, Mode, Type as Category};
use crate::geometry::Rectangle;
use crate::handler::parent_path;
use crate::layout::Placement;
use crate::search::{lemma_node_at_has, lemma_node_at_parent, lemma_node_wf, lemma_replaced_node_at, lemma_replaced_wf};

verus! {

/// One workspace: a key and the root of its tree.
pub struct Space {
    pub key: char,
    pub root: Container,
}

/// The set of workspaces, one of which is current and shown.
pub struct Workspaces {
    pub current: char,
    pub mode: Mode,
    /// Area given to a workspace when it is created.
    pub rec: Option<Rectangle>,
    /// The workspaces in order of creation; keys are unique.
    pub spaces: Vec<Space>,
}

/// The windows of a sequence of placements, in order.
pub open spec fn placed_ids(placements: Seq<Placement>) -> Seq<u64> {
    placements.map_values(|p: Placement| p.id)
}

impl Workspaces {
    /// Keys are unique and every tree is well-formed.
    pub open spec fn wf(self) -> bool {
        &&& forall|k: int| 0 <= k < self.spaces@.len() ==> (#[trigger] self.spaces@[k]).root.wf()
        &&& forall|a: int, b: int|
            0 <= a < self.spaces@.len() && 0 <= b < self.spaces@.len() && a != b
                ==> #[trigger] self.spaces@[a].key != #[trigger] self.spaces@[b].key
    }

    /// Position of the workspace `key`.
    pub open spec fn index_of(self, key: char, k: int) -> bool {
        0 <= k < self.spaces@.len() && self.spaces@[k].key == key
    }

    /// Whether a workspace `key` exists.
    pub open spec fn has_space(self, key: char) -> bool {
        exists|k: int| #[trigger] self.index_of(key, k)
    }

    pub open spec fn current_key(self) -> char {
        self.current
    }

    /// No workspace yet; `'0'` is current until another is switched to.
    pub fn new() -> (r: Workspaces)
        ensures
            r.wf(),
            r.spaces@.len() == 0,
            r.current_key() == '0',
            r.mode == Mode::Normal,
            r.rec.is_none(),
    {
        Workspaces { current: '0', mode: Mode::Normal, rec: None, spaces: Vec::new() }
    }

    /// Position of the workspace `key`, if it exists.
    pub fn find_space(&self, key: char) -> (r: Option<usize>)
        ensures
            match r {
                Some(k) => self.index_of(key, k as int),
                None => !self.has_space(key),
            },
    {
        let n = self.spaces.len();
        let mut k: usize = 0;
        while k < n
            invariant
                n == self.spaces@.len(),
                k <= n,
                forall|j: int| 0 <= j < k ==> (#[trigger] self.spaces@[j]).key != key,
            decreases n - k,
        {
            if self.spaces[k].key == key {
                return Some(k);
            }
            k = k + 1;
        }
        None
    }

    pub fn contain(&self, key: char) -> (r: bool)
        ensures
            r == self.has_space(key),
    {
        self.find_space(key).is_some()
    }

    pub fn current_name(&self) -> (r: char)
        ensures
            r == self.current,
    {
        self.current
    }

    /// The root of the workspace `key`.
    pub fn get(&self, key: char) -> (r: Option<&Container>)
        ensures
            match r {
                Some(c) => exists|k: int| #[trigger] self.index_of(key, k) && *c == self.spaces@[k].root,
                None => !self.has_space(key),
            },
    {
        match self.find_space(key) {
            Some(k) => Some(&self.spaces[k].root),
            None => None,
        }
    }

    /// The root of the current workspace.
    pub fn current(&self) -> (r: Option<&Container>)
        ensures
            match r {
                Some(c) => exists|k: int| #[trigger] self.index_of(self.current, k) && *c == self.spaces@[k].root,
                None => !self.has_space(self.current),
            },
    {
        self.get(self.current)
    }

    /// Creates the workspace `key`, framed by the window `frame` and covering
    /// `rec` where one is set. An existing workspace is left as it is.
    pub fn create(&mut self, key: char, frame: u64) -> (r: bool)
        requires
            old(self).wf(),
        ensures
            final(self).wf(),
            r == !old(self).has_space(key),
            final(self).current == old(self).current,
            final(self).rec == old(self).rec,
            final(self).mode == old(self).mode,
            !r ==> final(self).spaces@ == old(self).spaces@,
            r ==> {
                &&& final(self).spaces@.len() == old(self).spaces@.len() + 1
                &&& final(self).spaces@.take(old(self).spaces@.len() as int) == old(self).spaces@
                &&& final(self).spaces@.last().key == key
                &&& final(self).spaces@.last().root.id == frame
                &&& final(self).spaces@.last().root.clients@.len() == 0
                &&& final(self).spaces@.last().root.category == Category::Workspace
            },
    {
        if self.contain(key) {
            return false;
        }
        let rect = match self.rec {
            Some(r) => r,
            None => Rectangle { x: 0, y: 0, width: 0, height: 0 },
        };
        let mut root = Container::new(frame, rect);
        root.category = Category::Workspace;
        let ghost s0 = self.spaces@;
        self.spaces.push(Space { key, root });
        proof {
            assert(self.spaces@.take(s0.len() as int) =~= s0);
            assert forall|a: int, b: int|
                0 <= a < self.spaces@.len() && 0 <= b < self.spaces@.len() && a != b
                    implies #[trigger] self.spaces@[a].key != #[trigger] self.spaces@[b].key by {
                if a == s0.len() {
                    assert(!old(self).index_of(key, b));
                } else if b == s0.len() {
                    assert(!old(self).index_of(key, a));
                }
            }
            assert forall|k: int| 0 <= k < self.spaces@.len() implies (#[trigger] self.spaces@[k]).root.wf() by {
                if k < s0.len() {
                    assert(self.spaces@[k] == s0[k]);
                }
            }
        }
        true
    }

    /// Drops the workspace `key` and its tree.
    pub fn delete(&mut self, key: char) -> (r: Option<Container>)
        requires
            old(self).wf(),
        ensures
            final(self).wf(),
            final(self).current == old(self).current,
            !final(self).has_space(key),
            match r {
                Some(c) => exists|k: int| #[trigger] old(self).index_of(key, k) && c == old(self).spaces@[k].root
                    && final(self).spaces@ == old(self).spaces@.remove(k),
                None => !old(self).has_space(key) && final(self).spaces@ == old(self).spaces@,
            },
    {
        match self.find_space(key) {
            Some(k) => {
                let ghost s0 = self.spaces@;
                let space = self.spaces.remove(k);
                proof {
                    assert(old(self).index_of(key, k as int));
                    assert forall|j: int| 0 <= j < self.spaces@.len() implies !#[trigger] self.index_of(key, j) by {
                        let o = if j < k { j } else { j + 1 };
                        assert(self.spaces@[j] == s0[o]);
                    }
                    assert forall|a: int, b: int|
                        0 <= a < self.spaces@.len() && 0 <= b < self.spaces@.len() && a != b
                            implies #[trigger] self.spaces@[a].key != #[trigger] self.spaces@[b].key by {
                        let oa = if a < k { a } else { a + 1 };
                        let ob = if b < k { b } else { b + 1 };
                        assert(self.spaces@[a] == s0[oa]);
                        assert(self.spaces@[b] == s0[ob]);
                    }
                    assert forall|j: int| 0 <= j < self.spaces@.len() implies (#[trigger] self.spaces@[j]).root.wf() by {
                        let o = if j < k { j } else { j + 1 };
                        assert(self.spaces@[j] == s0[o]);
                    }
                }
                Some(space.root)
            },
            None => None,
        }
    }

    /// The node at `p` in workspace `k` has the window `id`, and no earlier
    /// workspace holds `id`.
    pub open spec fn located(self, id: u64, k: int, p: Seq<usize>) -> bool {
        &&& 0 <= k < self.spaces@.len()
        &&& self.spaces@[k].root.node_at(p) is Some
        &&& self.spaces@[k].root.node_at(p)->0.id == id
        &&& forall|j: int| 0 <= j < k ==> !(#[trigger] self.spaces@[j]).root.has(id)
    }

    /// Whether some workspace holds the window `id`.
    pub open spec fn holds(self, id: u64) -> bool {
        exists|j: int| 0 <= j < self.spaces@.len() && (#[trigger] self.spaces@[j]).root.has(id)
    }

    /// The workspace and the path within it of the first node, over the
    /// workspaces in order, whose window is `id`.
    pub fn locate(&self, id: u64) -> (r: Option<(usize, Vec<usize>)>)
        ensures
            match r {
                Some((k, p)) => self.located(id, k as int, p@) && self.holds(id),
                None => !self.holds(id),
            },
    {
        let n = self.spaces.len();
        let mut k: usize = 0;
        while k < n
            invariant
                n == self.spaces@.len(),
                k <= n,
                forall|j: int| 0 <= j < k ==> !(#[trigger] self.spaces@[j]).root.has(id),
            decreases n - k,
        {
            match self.spaces[k].root.find_path(id) {
                Some(p) => {
                    proof {
                        lemma_node_at_has(self.spaces@[k as int].root, p@);
                    }
                    return Some((k, p));
                },
                None => {},
            }
            k = k + 1;
        }
        None
    }

    /// The tree of workspace `key` holds the node `c`.
    pub open spec fn holds_node(self, key: char, c: Container) -> bool {
        exists|k: int, p: Seq<usize>| #[trigger] self.index_of(key, k) && #[trigger] self.spaces@[k].root.node_at(p) == Some(c)
    }

    /// The key of the workspace holding the first node whose window is `id`,
    /// and that node.
    pub fn get_container(&self, id: u64) -> (r: Option<(char, &Container)>)
        ensures
            match r {
                Some((key, c)) => c.id == id && self.has_space(key) && self.holds_node(key, *c),
                None => forall|j: int| 0 <= j < self.spaces@.len() ==> !(#[trigger] self.spaces@[j]).root.has(id),
            },
    {
        let n = self.spaces.len();
        let mut k: usize = 0;
        while k < n
            invariant
                n == self.spaces@.len(),
                k <= n,
                forall|j: int| 0 <= j < k ==> !(#[trigger] self.spaces@[j]).root.has(id),
            decreases n - k,
        {
            match self.spaces[k].root.tree_search(id) {
                Some(c) => {
                    proof {
                        let kk = k as int;
                        let root = self.spaces@[kk].root;
                        let p = choose|p: Seq<usize>| root.node_at(p) == Some(*c);
                        assert(self.index_of(self.spaces@[kk].key, kk));
                        assert(self.spaces@[kk].root.node_at(p) == Some(*c));
                        assert(self.holds_node(self.spaces@[kk].key, *c));
                        assert(self.has_space(self.spaces@[kk].key));
                    }
                    return Some((self.spaces[k].key, c));
                },
                None => {},
            }
            k = k + 1;
        }
        None
    }

    /// The node that holds the input focus, `focus` being the window that the
    /// display reports as focused.
    pub fn get_focus(&self, focus: u64) -> (r: Option<&Container>)
        ensures
            match r {
                Some(c) => c.id == focus && exists|key: char| #[trigger] self.holds_node(key, *c),
                None => forall|j: int| 0 <= j < self.spaces@.len() ==> !(#[trigger] self.spaces@[j]).root.has(focus),
            },
    {
        match self.get_container(focus) {
            Some((_, c)) => Some(c),
            None => None,
        }
    }

    /// `after` is `self` with the tree of the `k`-th workspace replaced by
    /// `root`.
    pub open spec fn root_replaced(self, k: int, root: Container, after: Workspaces) -> bool {
        &&& 0 <= k < self.spaces@.len()
        &&& after.current == self.current
        &&& after.mode == self.mode
        &&& after.rec == self.rec
        &&& after.spaces@.len() == self.spaces@.len()
        &&& after.spaces@[k].key == self.spaces@[k].key
        &&& after.spaces@[k].root == root
        &&& forall|j: int| 0 <= j < self.spaces@.len() && j != k ==> #[trigger] after.spaces@[j] == self.spaces@[j]
    }

    /// The workspace named by `workspace`, or the current one.
    pub open spec fn target_key(self, workspace: Option<char>) -> char {
        match workspace {
            Some(k) => k,
            None => self.current,
        }
    }

    /// Appends `container` to the root of the workspace `workspace`, or of the
    /// current one; nothing happens where that workspace does not exist.
    pub fn add_window(&mut self, container: Container, workspace: Option<char>) -> (r: bool)
        requires
            old(self).wf(),
            container.wf(),
        ensures
            final(self).wf(),
            r ==> exists|k: int|
                #[trigger] old(self).index_of(old(self).target_key(workspace), k) && old(self).root_replaced(k, final(self).spaces@[k].root, *final(self))
                    && old(self).spaces@[k].root.inserted(
                    old(self).spaces@[k].root.clients@.len() as int,
                    container,
                    final(self).spaces@[k].root,
                ),
            !r ==> *final(self) == *old(self),
            r == old(self).has_space(old(self).target_key(workspace)),
    {
        let key = match workspace {
            Some(k) => k,
            None => self.current,
        };
        assert(key == old(self).target_key(workspace));
        match self.find_space(key) {
            Some(k) => {
                let ghost w0 = *self;
                self.spaces[k].root.add(container);
                proof {
                    assert(w0.spaces@[k as int].root.wf());
                    let root = self.spaces@[k as int].root;
                    assert(w0.root_replaced(k as int, root, *self));
                    Self::lemma_root_replaced_wf(w0, k as int, root, *self);
                    assert(old(self).index_of(key, k as int));
                    assert(old(self).root_replaced(k as int, self.spaces@[k as int].root, *self));
                }
                true
            },
            None => false,
        }
    }

    /// Replacing one workspace's tree by a well-formed one keeps the set
    /// well-formed.
    pub proof fn lemma_root_replaced_wf(w: Workspaces, k: int, root: Container, after: Workspaces)
        requires
            w.wf(),
            w.root_replaced(k, root, after),
            root.wf(),
        ensures
            after.wf(),
    {
        assert forall|a: int, b: int|
            0 <= a < after.spaces@.len() && 0 <= b < after.spaces@.len() && a != b
                implies #[trigger] after.spaces@[a].key != #[trigger] after.spaces@[b].key by {
            assert(after.spaces@[a].key == w.spaces@[a].key);
            assert(after.spaces@[b].key == w.spaces@[b].key);
        }
        assert forall|j: int| 0 <= j < after.spaces@.len() implies (#[trigger] after.spaces@[j]).root.wf() by {
            if j != k {
                assert(after.spaces@[j] == w.spaces@[j]);
            }
        }
    }

    /// `after` is `self` with `container` inserted as child `i + 1` of the
    /// node at `pp` in workspace `k`, whose child `i` is the node `focus`.
    pub open spec fn inserted_at(
        self,
        k: int,
        pp: Seq<usize>,
        i: int,
        focus: u64,
        container: Container,
        after: Workspaces,
    ) -> bool {
        let root = self.spaces@[k].root;
        let parent = root.node_at(pp)->0;
        let new_parent = after.spaces@[k].root.node_at(pp)->0;
        &&& root.node_at(pp) is Some
        &&& 0 <= i < parent.clients@.len()
        &&& parent.clients@[i].id == focus
        &&& parent.inserted(i + 1, container, new_parent)
        &&& root.replaced(pp, new_parent, after.spaces@[k].root)
        &&& self.root_replaced(k, after.spaces@[k].root, after)
    }

    /// `after` is `self` with `container` inserted right after the focused
    /// node `focus`, within its parent, in workspace `k`.
    pub open spec fn inserted_next_to(self, k: int, focus: u64, container: Container, after: Workspaces) -> bool {
        exists|pp: Seq<usize>, i: int| #[trigger] self.inserted_at(k, pp, i, focus, container, after)
    }

    /// `after` is `self` with `container` appended to the root of the current
    /// workspace.
    pub open spec fn appended_current(self, container: Container, after: Workspaces) -> bool {
        exists|k: int| {
            &&& #[trigger] self.index_of(self.current, k)
            &&& self.root_replaced(k, after.spaces@[k].root, after)
            &&& self.spaces@[k].root.inserted(self.spaces@[k].root.clients@.len() as int, container, after.spaces@[k].root)
        }
    }

    /// Inserts `container` right after the focused node `focus` in that node's
    /// parent; where the focused node is unknown or is a workspace root, appends
    /// it to the current workspace instead.
    pub fn insert_window(&mut self, container: Container, focus: u64) -> (r: bool)
        requires
            old(self).wf(),
            container.wf(),
        ensures
            final(self).wf(),
            !r ==> *final(self) == *old(self),
            !old(self).holds(focus) ==> {
                &&& r == old(self).has_space(old(self).current)
                &&& r ==> old(self).appended_current(container, *final(self))
            },
            old(self).holds(focus) ==> exists|k: int, p: Seq<usize>| {
                &&& #[trigger] old(self).located(focus, k, p)
                &&& p.len() > 0 ==> r && old(self).inserted_at(k, p.drop_last(), p.last() as int, focus, container, *final(self))
                &&& p.len() == 0 ==> {
                    &&& r == old(self).has_space(old(self).current)
                    &&& r ==> old(self).appended_current(container, *final(self))
                }
            },
    {
        match self.locate(focus) {
            Some((k, path)) => {
                proof {
                    if path@.len() == 0 {
                        assert(path@ =~= Seq::<usize>::empty());
                        assert(old(self).located(focus, k as int, Seq::<usize>::empty()));
                    }
                }
                if path.len() > 0 {
                    let last = path.len() - 1;
                    let index = path[last];
                    let parent_path = parent_path(&path);
                    let ghost root0 = self.spaces@[k as int].root;
                    proof {
                        lemma_node_at_parent(root0, path@);
                        lemma_node_wf(root0, parent_path@);
                        assert(parent_path@.skip(0) =~= parent_path@);
                    }
                    let ghost parent0 = root0.node_at(parent_path@)->0;
                    let parent_len = self.spaces[k].root.node_at_ref(&parent_path, 0).clients.len();
                    let ghost w0 = *self;
                    let parent = self.spaces[k].root.node_at_mut(&parent_path, 0);
                    parent.insert(index + 1, container);
                    assert(exists|p: Container| root0.replaced(parent_path@, p, self.spaces@[k as int].root) && parent0.inserted(index + 1, container, p) && p.wf());
                    proof {
                        let root1 = self.spaces@[k as int].root;
                        assert(parent_path@.skip(0) =~= parent_path@);
                        let parent1 = choose|p: Container| root0.replaced(parent_path@, p, root1) && parent0.inserted(index + 1, container, p) && p.wf();
                        lemma_replaced_node_at(root0, parent_path@, parent1, root1);
                        lemma_replaced_wf(root0, parent_path@, parent1, root1);
                        lemma_node_at_has(root0, path@);
                        assert(w0.root_replaced(k as int, root1, *self));
                        Self::lemma_root_replaced_wf(w0, k as int, root1, *self);
                        assert(root0.has(focus));
                        assert(parent0.clients@[index as int].id == focus);
                        assert(root1.node_at(parent_path@) is Some);
                        assert(old(self).inserted_at(k as int, parent_path@, index as int, focus, container, *self));
                    }
                    return true;
                }
            },
            None => {},
        }
        self.add_window(container, None)
    }

    /// Removes the first node below a workspace root, over the workspaces in
    /// order, whose window is `id`; emptied containers are pruned and their
    /// windows appended to `pruned`.
    pub fn remove_window(&mut self, id: u64, pruned: &mut Vec<u64>) -> (r: Option<Container>)
        requires
            old(self).wf(),
        ensures
            final(self).wf(),
            match r {
                Some(c) => c.id == id && exists|k: int| {
                    &&& 0 <= k < old(self).spaces@.len()
                    &&& #[trigger] old(self).spaces@[k].root.has_below(id)
                    &&& forall|j: int| 0 <= j < k ==> !(#[trigger] old(self).spaces@[j]).root.has_below(id)
                    &&& old(self).spaces@[k].root.tree_removed(id, final(self).spaces@[k].root, c, final(pruned)@.skip(old(pruned)@.len() as int))
                    &&& old(self).root_replaced(k, final(self).spaces@[k].root, *final(self))
                },
                None => {
                    &&& forall|k: int| 0 <= k < old(self).spaces@.len() ==> !(#[trigger] old(self).spaces@[k]).root.has_below(id)
                    &&& final(self).spaces@ == old(self).spaces@
                    &&& final(self).current == old(self).current
                    &&& final(self).mode == old(self).mode
                    &&& final(self).rec == old(self).rec
                    &&& final(pruned)@ == old(pruned)@
                },
            },
    {
        let n = self.spaces.len();
        let mut k: usize = 0;
        while k < n
            invariant
                n == self.spaces@.len(),
                k <= n,
                self.wf(),
                self.spaces@ == old(self).spaces@,
                self.current == old(self).current,
                self.mode == old(self).mode,
                self.rec == old(self).rec,
                pruned@ == old(pruned)@,
                forall|j: int| 0 <= j < k ==> !(#[trigger] self.spaces@[j]).root.has_below(id),
            decreases n - k,
        {
            let ghost w0 = *self;
            let found = self.spaces[k].root.tree_remove(id, pruned);
            match found {
                Some(c) => {
                    proof {
                        let root1 = self.spaces@[k as int].root;
                        assert(w0.root_replaced(k as int, root1, *self));
                        Self::lemma_root_replaced_wf(w0, k as int, root1, *self);
                        assert(old(self).spaces@[k as int].root.has_below(id));
                        assert(old(self).root_replaced(k as int, root1, *self));
                    }
                    return Some(c);
                },
                None => {
                    proof {
                        assert(self.spaces@ =~= w0.spaces@);
                    }
                },
            }
            k = k + 1;
        }
        None
    }

    /// The result of switching to workspace `new`: nothing where it is already
    /// current; otherwise it becomes current, created framed by `frame` after
    /// the existing workspaces where it did not exist, which are all kept.
    pub open spec fn switch_outcome(self, new: char, frame: u64, r: bool, after: Workspaces) -> bool {
        &&& r == (new != self.current)
        &&& !r ==> after == self
        &&& r ==> after.current == new && after.has_space(new)
        &&& r ==> after.mode == self.mode && after.rec == self.rec
        &&& r && self.has_space(new) ==> after.spaces@ == self.spaces@
        &&& r && !self.has_space(new) ==> {
            &&& after.spaces@.len() == self.spaces@.len() + 1
            &&& after.spaces@.take(self.spaces@.len() as int) == self.spaces@
            &&& after.spaces@.last().key == new
            &&& after.spaces@.last().root.id == frame
            &&& after.spaces@.last().root.clients@.len() == 0
        }
    }

    /// Makes `new` the current workspace, creating it framed by `frame` where
    /// it does not exist. Returns whether the current workspace changed.
    pub fn switch_workspace(&mut self, new: char, frame: u64) -> (r: bool)
        requires
            old(self).wf(),
        ensures
            final(self).wf(),
            old(self).switch_outcome(new, frame, r, *final(self)),
    {
        if new == self.current {
            return false;
        }
        self.create(new, frame);
        self.current = new;
        proof {
            if !old(self).has_space(new) {
                assert(self.index_of(new, self.spaces@.len() - 1));
            } else {
                let k = choose|k: int| #[trigger] old(self).index_of(new, k);
                assert(self.index_of(new, k));
            }
        }
        true
    }

    /// `after` is `self` with the first node below workspace `from`'s root whose
    /// window is `id` removed from that tree (the containers it left empty,
    /// `gone`, pruned), every other workspace except `to` unchanged, and the
    /// keys kept in order.
    pub open spec fn moved_out(self, id: u64, from: char, to: char, gone: Seq<u64>, after: Workspaces) -> bool {
        &&& after.spaces@.len() >= self.spaces@.len()
        &&& forall|j: int| 0 <= j < self.spaces@.len() ==> (#[trigger] after.spaces@[j]).key == self.spaces@[j].key
        &&& exists|kf: int, c: Container|
            #![trigger self.index_of(from, kf), self.spaces@[kf].root.tree_removed(id, after.spaces@[kf].root, c, gone)]
            {
                &&& self.index_of(from, kf)
                &&& c.id == id
                &&& self.spaces@[kf].root.tree_removed(id, after.spaces@[kf].root, c, gone)
                &&& forall|j: int|
                    0 <= j < self.spaces@.len() && j != kf && self.spaces@[j].key != to ==> #[trigger] after.spaces@[j] == self.spaces@[j]
            }
    }

    /// Moves the first node below the root of workspace `from` whose window is
    /// `id` to the end of workspace `to`, creating `to`, framed by `frame`,
    /// where it does not exist. Containers emptied in `from` are pruned and
    /// their windows appended to `pruned`. Returns whether a node moved.
    pub fn move_window(&mut self, id: u64, from: char, to: char, frame: u64, pruned: &mut Vec<u64>) -> (r: bool)
        requires
            old(self).wf(),
        ensures
            final(self).wf(),
            from == to ==> !r && *final(self) == *old(self),
            r ==> exists|k: int| {
                &&& #[trigger] final(self).index_of(to, k)
                &&& final(self).spaces@[k].root.clients@.len() > 0
                &&& final(self).spaces@[k].root.clients@.last().id == id
            },
            r == (from != to && exists|k: int| #[trigger] old(self).index_of(from, k) && old(self).spaces@[k].root.has_below(id)),
            r ==> old(self).moved_out(id, from, to, final(pruned)@.skip(old(pruned)@.len() as int), *final(self)),
            final(self).current == old(self).current,
    {
        if from == to {
            return false;
        }
        let created = self.create(to, frame);
        let ghost wc = *self;
        proof {
            if created {
                assert(wc.index_of(to, wc.spaces@.len() - 1));
            } else {
                let k = choose|k: int| #[trigger] old(self).index_of(to, k);
                assert(wc.index_of(to, k));
            }
            assert(wc.has_space(to));
            assert forall|k: int| #[trigger] old(self).index_of(from, k) implies wc.index_of(from, k) by {
                assert(wc.spaces@.take(old(self).spaces@.len() as int)[k] == wc.spaces@[k]);
            }
        }
        let kf = match self.find_space(from) {
            Some(k) => k,
            None => {
                return false;
            },
        };
        proof {
            if kf as int >= old(self).spaces@.len() {
                assert(wc.spaces@.last().key == to);
            }
            assert(wc.spaces@.take(old(self).spaces@.len() as int)[kf as int] == wc.spaces@[kf as int]);
            assert(old(self).index_of(from, kf as int));
            assert forall|k: int| #[trigger] old(self).index_of(from, k) implies k == kf by {
                if k != kf {
                    assert(old(self).spaces@[k].key != old(self).spaces@[kf as int].key);
                }
            }
        }
        let ghost w0 = *self;
        let removed = self.spaces[kf].root.tree_remove(id, pruned);
        proof {
            let root1 = self.spaces@[kf as int].root;
            assert(w0.root_replaced(kf as int, root1, *self));
            Self::lemma_root_replaced_wf(w0, kf as int, root1, *self);
        }
        match removed {
            Some(c) => {
                let ghost w1 = *self;
                proof {
                    let k = choose|k: int| #[trigger] wc.index_of(to, k);
                    assert(w1.spaces@[k].key == wc.spaces@[k].key);
                    assert(w1.index_of(to, k));
                }
                let moved = self.add_window(c, Some(to));
                proof {
                    if moved {
                        let k = choose|k: int| #[trigger] w1.index_of(to, k) && w1.root_replaced(k, self.spaces@[k].root, *self)
                            && w1.spaces@[k].root.inserted(w1.spaces@[k].root.clients@.len() as int, c, self.spaces@[k].root);
                        assert(self.index_of(to, k));
                        assert(self.spaces@[k].root.clients@.last().id == id);
                        let n0 = old(self).spaces@.len() as int;
                        assert(k != kf as int);
                        assert(self.spaces@[kf as int] == w1.spaces@[kf as int]);
                        assert(old(self).spaces@[kf as int] == wc.spaces@.take(n0)[kf as int]);
                        assert forall|j: int| 0 <= j < n0 implies (#[trigger] self.spaces@[j]).key == old(self).spaces@[j].key by {
                            assert(wc.spaces@.take(n0)[j] == wc.spaces@[j]);
                        }
                        assert forall|j: int| 0 <= j < n0 && j != kf && old(self).spaces@[j].key != to
                            implies #[trigger] self.spaces@[j] == old(self).spaces@[j] by {
                            assert(wc.spaces@.take(n0)[j] == wc.spaces@[j]);
                            assert(j != k);
                        }
                        let gone = pruned@.skip(old(pruned)@.len() as int);
                        assert(old(self).spaces@[kf as int].root.tree_removed(id, self.spaces@[kf as int].root, c, gone));
                        assert(old(self).moved_out(id, from, to, gone, *self));
                        if !old(self).has_space(from) {
                            assert(w0.index_of(from, kf as int));
                            assert(w0.spaces@[kf as int].key == old(self).spaces@[kf as int].key);
                        }
                        assert(old(self).index_of(from, kf as int));
                    }
                }
                moved
            },
            None => {
                proof {
                    assert(w0.spaces@[kf as int] == old(self).spaces@[kf as int]);
                }
                false
            },
        }
    }

    /// Lays out the children of the first node whose window is `id`, with
    /// `focus` holding the input focus; returns their placements, or none
    /// where the node is unknown or too large to lay out.
    pub fn relayout(&mut self, id: u64, focus: u64) -> (r: Vec<Placement>)
        requires
            old(self).wf(),
        ensures
            final(self).wf(),
            final(self).current == old(self).current,
            !old(self).holds(id) ==> r@.len() == 0 && *final(self) == *old(self),
            old(self).holds(id) ==> exists|k: int, p: Seq<usize>| {
                let c = old(self).spaces@[k].root.node_at(p)->0;
                &&& #[trigger] old(self).located(id, k, p)
                &&& c.layout_fits() ==> {
                    &&& r@.len() == c.clients@.len()
                    &&& forall|i: int| 0 <= i < r@.len() ==> #[trigger] r@[i] == c.placement(i, focus)
                }
                &&& !c.layout_fits() ==> r@.len() == 0 && *final(self) == *old(self)
            },
    {
        match self.locate(id) {
            Some((k, path)) => {
                proof {
                    assert(path@.skip(0) =~= path@);
                    lemma_node_wf(self.spaces@[k as int].root, path@);
                }
                proof {
                    assert(old(self).located(id, k as int, path@));
                }
                if !self.spaces[k].root.node_at_ref(&path, 0).fits_layout() {
                    return Vec::new();
                }
                let ghost w0 = *self;
                let ghost root0 = self.spaces@[k as int].root;
                let node = self.spaces[k].root.node_at_mut(&path, 0);
                let placements = node.update_layout(focus);
                assert(exists|p: Container| root0.replaced(path@, p, self.spaces@[k as int].root) && p.wf()
                    && p.portion == root0.node_at(path@)->0.portion);
                proof {
                    let root1 = self.spaces@[k as int].root;
                    let p = choose|p: Container| root0.replaced(path@, p, root1) && p.wf() && p.portion == root0.node_at(path@)->0.portion;
                    lemma_replaced_wf(root0, path@, p, root1);
                    assert(w0.root_replaced(k as int, root1, *self));
                    Self::lemma_root_replaced_wf(w0, k as int, root1, *self);
                }
                placements
            },
            None => Vec::new(),
        }
    }

    /// The first node whose window is `id` holds children.
    pub open spec fn nested(self, id: u64) -> bool {
        exists|k: int, p: Seq<usize>| #[trigger] self.located(id, k, p) && self.spaces@[k].root.node_at(p)->0.clients@.len() > 0
    }

    /// The first node whose window is `id` holds no children.
    pub open spec fn leaf_node(self, id: u64) -> bool {
        exists|k: int, p: Seq<usize>| #[trigger] self.located(id, k, p) && self.spaces@[k].root.node_at(p)->0.clients@.len() == 0
    }

    /// The windows among `placements` whose nodes hold children of their own,
    /// in order: the containers to lay out next, since a layout pass
    /// positions direct children only.
    pub fn nested_containers(&self, placements: &Vec<Placement>) -> (r: Vec<u64>)
        ensures
            forall|i: int| 0 <= i < r@.len() ==> self.nested(#[trigger] r@[i]),
            forall|i: int| 0 <= i < r@.len() ==> placed_ids(placements@).contains(#[trigger] r@[i]),
            forall|j: int| 0 <= j < placements@.len() && !r@.contains(#[trigger] placements@[j].id)
                ==> !self.holds(placements@[j].id) || self.leaf_node(placements@[j].id),
    {
        let mut out: Vec<u64> = Vec::new();
        let n = placements.len();
        let mut j: usize = 0;
        while j < n
            invariant
                n == placements@.len(),
                j <= n,
                forall|i: int| 0 <= i < out@.len() ==> self.nested(#[trigger] out@[i]),
                forall|i: int| 0 <= i < out@.len() ==> placed_ids(placements@).contains(#[trigger] out@[i]),
                forall|m: int| 0 <= m < j && !out@.contains(#[trigger] placements@[m].id)
                    ==> !self.holds(placements@[m].id) || self.leaf_node(placements@[m].id),
            decreases n - j,
        {
            let id = placements[j].id;
            let ghost before = out@;
            match self.locate(id) {
                Some((k, path)) => {
                    proof {
                        assert(path@.skip(0) =~= path@);
                    }
                    if !self.spaces[k].root.node_at_ref(&path, 0).is_empty() {
                        out.push(id);
                        proof {
                            assert(self.located(id, k as int, path@));
                            assert(self.nested(id));
                            assert(out@[out@.len() - 1] == id);
                            assert forall|i: int| 0 <= i < out@.len() implies self.nested(#[trigger] out@[i]) by {
                                if i < before.len() {
                                    assert(out@[i] == before[i]);
                                }
                            }
                            assert(placed_ids(placements@)[j as int] == id);
                            assert forall|i: int| 0 <= i < out@.len() implies placed_ids(placements@).contains(#[trigger] out@[i]) by {
                                if i < before.len() {
                                    assert(out@[i] == before[i]);
                                }
                            }
                            assert forall|m: int| 0 <= m < j + 1 && !out@.contains(#[trigger] placements@[m].id)
                                implies !self.holds(placements@[m].id) || self.leaf_node(placements@[m].id) by {
                                if m < j {
                                    if before.contains(placements@[m].id) {
                                        let w = choose|w: int| 0 <= w < before.len() && before[w] == placements@[m].id;
                                        assert(out@[w] == before[w]);
                                    }
                                } else {
                                    assert(out@[out@.len() - 1] == placements@[m].id);
                                }
                            }
                        }
                    } else {
                        proof {
                            assert(self.located(id, k as int, path@));
                            assert(self.leaf_node(id));
                        }
                    }
                },
                None => {},
            }
            j = j + 1;
        }
        out
    }
}

} // verus!
