use vstd::prelude::*;

use crate::container::{Container, Mode, PORTION_SCALE, same_but_clients, same_but_portion, lemma_wf_same_clients};
use crate::layout::{LayoutDirection, MoveDirection, Type as LayoutType};
use crate::navigation::{circulated, toggled};
use crate::search::{lemma_node_at_parent, lemma_node_wf, lemma_replaced_node_at, lemma_replaced_wf};
use crate::tiling::Direction;
use crate::workspaces::Workspaces;

verus! {

/// Whether a resize command grows or shrinks the focused window.
#[derive(Debug, Clone, Copy, PartialEq, Eq, Structural)]
pub enum Resize {
    Shrink,
    Grow,
}

/// Share of the split axis that one resize command moves: a twentieth.
pub const RESIZE_STEP: i64 = 50_000;

/// The portion step of a resize command.
pub open spec fn step_of(resize: Resize) -> int {
    match resize {
        Resize::Shrink => -RESIZE_STEP,
        Resize::Grow => RESIZE_STEP as int,
    }
}

/// `a / b` rounded toward zero.
pub open spec fn trunc_div(a: int, b: int) -> int {
    if a >= 0 {
        a / b
    } else {
        -((-a) / b)
    }
}

/// The portion step for a drag of `delta` pixels across a container `extent`
/// pixels long; no step for a container of no extent.
pub open spec fn drag_step(delta: int, extent: int) -> int {
    if extent == 0 {
        0
    } else {
        trunc_div(delta * PORTION_SCALE, extent)
    }
}

/// The portion step of releasing, at `(x, y)`, a drag that started at
/// `(ax, ay)` in container `c`: the drag distance along the split axis in
/// proportion to the container's extent.
pub open spec fn release_step(c: Container, x: int, y: int, ax: int, ay: int) -> int {
    match c.direction {
        LayoutDirection::Vertical => drag_step(y - ay, c.rect.height as int),
        LayoutDirection::Horizontal => drag_step(x - ax, c.rect.width as int),
    }
}

/// `after` is `c` once a drag of the border before child `i` ends with the
/// portion step `step`: the two children beside the border exchange `step`
/// where that is allowed, and the drag is over.
pub open spec fn drag_released(c: Container, i: int, step: int, after: Container) -> bool {
    let moved = i >= 1 && c.can_shift(i - 1, i, step);
    &&& after.mode == Mode::Normal
    &&& after.id == c.id
    &&& after.visible == c.visible
    &&& after.titlebar_height == c.titlebar_height
    &&& after.category == c.category
    &&& after.titlebar == c.titlebar
    &&& after.portion == c.portion
    &&& after.rect == c.rect
    &&& after.layout == c.layout
    &&& after.direction == c.direction
    &&& after.clients@.len() == c.clients@.len()
    &&& forall|j: int|
        0 <= j < c.clients@.len() ==> {
            &&& same_but_portion(#[trigger] after.clients@[j], c.clients@[j])
            &&& after.clients@[j].portion == c.clients@[j].portion + if moved && j == i - 1 {
                step
            } else if moved && j == i {
                -step
            } else {
                0
            }
        }
}

/// `a` and `b` agree on everything but their mode.
pub open spec fn same_but_mode(a: Container, b: Container) -> bool {
    &&& a.id == b.id
    &&& a.visible == b.visible
    &&& a.titlebar_height == b.titlebar_height
    &&& a.clients == b.clients
    &&& a.category == b.category
    &&& a.titlebar == b.titlebar
    &&& a.portion == b.portion
    &&& a.rect == b.rect
    &&& a.layout == b.layout
    &&& a.direction == b.direction
}

/// Child `i` of `c` is the first whose leading border a press at `(x, y)` grabs.
pub open spec fn first_border(c: Container, x: int, y: int, i: int) -> bool {
    &&& 0 <= i < c.clients@.len()
    &&& c.hits_border(i, x, y)
    &&& forall|j: int| 0 <= j < i ==> !#[trigger] c.hits_border(j, x, y)
}

/// `after` is `c` after a press at `(x, y)`: a container at rest starts
/// dragging the first border the press grabs; otherwise nothing changes.
pub open spec fn pressed(c: Container, x: i32, y: i32, after: Container) -> bool {
    if c.mode == Mode::Normal && exists|i: int| #[trigger] first_border(c, x as int, y as int, i) {
        exists|i: int| #[trigger] first_border(c, x as int, y as int, i) && after.mode == Mode::Resize(i as usize, x, y) && same_but_mode(after, c)
    } else {
        after == c
    }
}

/// The window that a press at `(x, y)` on `c` focuses: the first child whose
/// title bar it hits, else `c` itself.
pub open spec fn press_target(c: Container, x: int, y: int, t: u64) -> bool {
    ||| exists|i: int| {
        &&& 0 <= i < c.clients@.len()
        &&& #[trigger] c.hits_titlebar(i, x, y)
        &&& (forall|j: int| 0 <= j < i ==> !c.hits_titlebar(j, x, y))
        &&& t == c.clients@[i].id
    }
    ||| (forall|i: int| 0 <= i < c.clients@.len() ==> !#[trigger] c.hits_titlebar(i, x, y)) && t == c.id
}

/// The portion step for a drag of `delta` pixels across a container `extent`
/// pixels long.
pub fn step_for_drag(delta: i64, extent: u32) -> (r: i64)
    requires
        -0x1_0000_0000 <= delta <= 0x1_0000_0000,
    ensures
        r == drag_step(delta as int, extent as int),
{
    if extent == 0 {
        return 0;
    }
    let big: u64 = PORTION_SCALE;
    if delta >= 0 {
        proof {
            let d = delta as int;
            let e = extent as int;
            assert(d * PORTION_SCALE / e <= d * PORTION_SCALE) by (nonlinear_arith)
                requires d >= 0, e >= 1;
            assert(d * PORTION_SCALE <= 0x1_0000_0000 * PORTION_SCALE) by (nonlinear_arith)
                requires 0 <= d <= 0x1_0000_0000;
        }
        ((delta as u64) * big / (extent as u64)) as i64
    } else {
        proof {
            let d = -(delta as int);
            let e = extent as int;
            assert(d * PORTION_SCALE / e <= d * PORTION_SCALE) by (nonlinear_arith)
                requires d >= 0, e >= 1;
            assert(d * PORTION_SCALE <= 0x1_0000_0000 * PORTION_SCALE) by (nonlinear_arith)
                requires 0 <= d <= 0x1_0000_0000;
            assert((-(delta as int)) * PORTION_SCALE == -((delta as int) * PORTION_SCALE));
        }
        let m: u64 = ((-delta) as u64) * big / (extent as u64);
        -(m as i64)
    }
}

/// `path` without its last step.
pub fn parent_path(path: &Vec<usize>) -> (r: Vec<usize>)
    requires
        path@.len() > 0,
    ensures
        r@ == path@.drop_last(),
{
    let last = path.len() - 1;
    let mut out: Vec<usize> = Vec::new();
    let mut j: usize = 0;
    while j < last
        invariant
            last == path@.len() - 1,
            j <= last,
            out@ == path@.take(j as int),
        decreases last - j,
    {
        out.push(path[j]);
        proof {
            assert(path@.take(j as int + 1) =~= path@.take(j as int).push(path@[j as int]));
        }
        j = j + 1;
    }
    proof {
        assert(out@ =~= path@.drop_last());
    }
    out
}

/// The container that a layout command at the node `p` acts on: the node's
/// parent, or the node itself where it is a root.
pub open spec fn layout_target(p: Seq<usize>) -> Seq<usize> {
    if p.len() == 0 {
        p
    } else {
        p.drop_last()
    }
}

impl Workspaces {
    /// The result of a layout command on the focused node `focus`: the
    /// container acted on is the node's parent, or the node itself where it is
    /// a root.
    pub open spec fn layout_outcome(self, layout_type: LayoutType, focus: u64, r: Option<u64>, after: Workspaces) -> bool {
        &&& r.is_some() == self.holds(focus)
        &&& r.is_none() ==> after == self
        &&& r.is_some() ==> after.mode == Mode::Layout
        &&& match r {
            Some(id) => exists|k: int, p: Seq<usize>| {
                let t = layout_target(p);
                &&& #[trigger] self.located(focus, k, p)
                &&& self.spaces@[k].root.node_at(t) is Some
                &&& id == self.spaces@[k].root.node_at(t)->0.id
                &&& after.spaces@[k].root.node_at(t) is Some
                &&& self.spaces@[k].root.node_at(t)->0.relaid(layout_type, after.spaces@[k].root.node_at(t)->0)
                &&& forall|j: int| 0 <= j < self.spaces@.len() && j != k ==> #[trigger] after.spaces@[j] == self.spaces@[j]
            },
            None => true,
        }
        &&& after.current == self.current
    }

    /// The result of a full-screen toggle of the focused node `focus`.
    pub open spec fn fullscreen_outcome(self, focus: u64, r: Option<u64>, after: Workspaces) -> bool {
        &&& r.is_some() == self.holds(focus)
        &&& r.is_some() ==> r == Some(focus) && exists|k: int, p: Seq<usize>| {
            &&& #[trigger] self.located(focus, k, p)
            &&& self.root_replaced(k, after.spaces@[k].root, after)
            &&& after.spaces@[k].root.node_at(p) is Some
            &&& after.spaces@[k].root.node_at(p)->0.mode == toggled(self.spaces@[k].root.node_at(p)->0.mode)
        }
        &&& r.is_none() ==> after == self
        &&& after.current == self.current
    }

    /// The result of splitting the focused node `focus` with the frame `frame`.
    pub open spec fn split_outcome(self, focus: u64, frame: u64, root: u64, r: bool, after: Workspaces) -> bool {
        &&& r ==> exists|k: int, p: Seq<usize>| {
            &&& #[trigger] self.located(focus, k, p)
            &&& self.spaces@[k].root.node_at(p)->0.clients@.len() == 0
            &&& after.spaces@[k].root.node_at(p) is Some
            &&& after.spaces@[k].root.node_at(p)->0.id == focus
            &&& after.spaces@[k].root.node_at(p)->0.clients@.len() == 1
            &&& after.spaces@[k].root.node_at(p)->0.clients@[0].id == frame
            &&& after.spaces@[k].root.node_at(p)->0.clients@[0].clients@.len() == 0
            &&& frame != focus
            &&& same_but_clients(after.spaces@[k].root.node_at(p)->0, self.spaces@[k].root.node_at(p)->0)
            &&& self.root_replaced(k, after.spaces@[k].root, after)
        }
        &&& self.holds(focus) && focus != root && frame != focus && (forall|k: int, p: Seq<usize>|
            #[trigger] self.located(focus, k, p) ==> self.spaces@[k].root.node_at(p)->0.clients@.len() == 0) ==> r
        &&& !r ==> after == self
        &&& after.current == self.current
    }

    /// The result of a resize command on the focused node `focus`.
    pub open spec fn resize_outcome(self, axis: LayoutDirection, resize: Resize, focus: u64, r: Option<u64>, after: Workspaces) -> bool {
        &&& r.is_none() ==> after == self
        &&& r.is_some() ==> after.mode == Mode::Layout
        &&& match r {
            Some(id) => exists|k: int, p: Seq<usize>| {
                let pp = p.drop_last();
                let parent = self.spaces@[k].root.node_at(pp)->0;
                &&& #[trigger] self.located(focus, k, p)
                &&& p.len() > 0
                &&& self.spaces@[k].root.node_at(pp) is Some
                &&& parent.direction == axis
                &&& id == parent.id
                &&& after.spaces@[k].root.node_at(pp) is Some
                &&& parent.child_resized(p.last() as int, step_of(resize), after.spaces@[k].root.node_at(pp)->0)
                &&& forall|j: int| 0 <= j < self.spaces@.len() && j != k ==> #[trigger] after.spaces@[j] == self.spaces@[j]
            },
            None => true,
        }
        &&& self.holds(focus) && (forall|k: int, p: Seq<usize>| #[trigger] self.located(focus, k, p) ==> p.len() > 0
            && self.spaces@[k].root.node_at(p.drop_last())->0.direction == axis) ==> r.is_some()
        &&& after.current == self.current
    }

    /// What a focus command moving in `direction` from `focus` yields.
    pub open spec fn focus_outcome(self, direction: MoveDirection, focus: u64, r: Option<u64>) -> bool {
        &&& match r {
            Some(w) => self.has_neighbor(direction, focus, w),
            None => true,
        }
        &&& !self.holds(focus) ==> r.is_none()
        &&& self.holds(focus) ==> exists|k: int, p: Seq<usize>| #[trigger] self.located(focus, k, p) && self.moved_focus(k, p, direction, r)
    }

    /// The result of moving the focused node `focus` to workspace `key`;
    /// `gone` are the windows of the containers this emptied.
    pub open spec fn move_outcome(self, key: char, focus: u64, r: bool, gone: Seq<u64>, after: Workspaces) -> bool {
        &&& r ==> exists|k: int| {
            &&& #[trigger] after.index_of(key, k)
            &&& after.spaces@[k].root.clients@.len() > 0
            &&& after.spaces@[k].root.clients@.last().id == focus
        }
        &&& r == (key != self.current && exists|k: int|
            #[trigger] self.index_of(self.current, k) && self.spaces@[k].root.has_below(focus))
        &&& after.current == self.current
        &&& r ==> self.moved_out(focus, self.current, key, gone, after)
    }

    /// The workspace, the path of the parent, and the index within it of the
    /// first node whose window is `focus`, where that node has a parent.
    pub fn locate_parent(&self, focus: u64) -> (r: Option<(usize, Vec<usize>, usize)>)
        ensures
            match r {
                Some((k, pp, i)) => {
                    &&& k < self.spaces@.len()
                    &&& self.spaces@[k as int].root.node_at(pp@) is Some
                    &&& i < self.spaces@[k as int].root.node_at(pp@)->0.clients@.len()
                    &&& self.spaces@[k as int].root.node_at(pp@)->0.clients@[i as int].id == focus
                },
                None => !self.holds(focus) || exists|k: int| #[trigger] self.located(focus, k, Seq::<usize>::empty()),
            },
    {
        match self.locate(focus) {
            Some((k, path)) => {
                if path.len() == 0 {
                    proof {
                        assert(path@ =~= Seq::<usize>::empty());
                        assert(self.located(focus, k as int, Seq::<usize>::empty()));
                    }
                    return None;
                }
                let last = path.len() - 1;
                let index = path[last];
                let pp = parent_path(&path);
                proof {
                    lemma_node_at_parent(self.spaces@[k as int].root, path@);
                }
                Some((k, pp, index))
            },
            None => None,
        }
    }

    /// Replacing the node at `path` in workspace `k` by a well-formed node with
    /// the same portion keeps the set well-formed.
    proof fn lemma_node_replaced(self, k: int, path: Seq<usize>, sub: Container, after: Workspaces)
        requires
            self.wf(),
            0 <= k < self.spaces@.len(),
            self.spaces@[k].root.node_at(path) is Some,
            self.spaces@[k].root.replaced(path, sub, after.spaces@[k].root),
            sub.wf(),
            sub.portion == self.spaces@[k].root.node_at(path)->0.portion,
            self.root_replaced(k, after.spaces@[k].root, after),
        ensures
            after.wf(),
    {
        lemma_replaced_wf(self.spaces@[k].root, path, sub, after.spaces@[k].root);
        Self::lemma_root_replaced_wf(self, k, after.spaces@[k].root, after);
    }

    /// Applies a layout command: the parent of the focused node `focus` (or the
    /// node itself, where it is a workspace root) switches to `layout_type`, or
    /// flips its split direction if it already uses it. Returns the container
    /// to lay out again.
    pub fn change_focused_layout(&mut self, layout_type: LayoutType, focus: u64) -> (r: Option<u64>)
        requires
            old(self).wf(),
        ensures
            final(self).wf(),
            old(self).layout_outcome(layout_type, focus, r, *final(self)),
    {
        match self.locate(focus) {
            Some((k, path)) => {
                let target = if path.len() == 0 { path } else { parent_path(&path) };
                let ghost w0 = *self;
                let ghost root0 = self.spaces@[k as int].root;
                proof {
                    assert(target@ == layout_target(path@));
                    if path@.len() > 0 {
                        lemma_node_at_parent(root0, path@);
                    }
                    assert(target@.skip(0) =~= target@);
                    lemma_node_wf(root0, target@);
                }
                let node = self.spaces[k].root.node_at_mut(&target, 0);
                node.change_layout(layout_type);
                let id = node.id;
                proof {
                    let root1 = self.spaces@[k as int].root;
                    let p = choose|p: Container| root0.replaced(target@, p, root1) && root0.node_at(target@)->0.relaid(layout_type, p);
                    lemma_wf_same_clients(root0.node_at(target@)->0, p);
                    assert(w0.root_replaced(k as int, root1, *self));
                    w0.lemma_node_replaced(k as int, target@, p, *self);
                    lemma_replaced_node_at(root0, target@, p, root1);
                    assert(old(self).located(focus, k as int, path@));
                }
                self.mode = Mode::Layout;
                Some(id)
            },
            None => None,
        }
    }

    /// Toggles full-screen display of the focused node `focus`; returns it.
    pub fn toggle_fullscreen(&mut self, focus: u64) -> (r: Option<u64>)
        requires
            old(self).wf(),
        ensures
            final(self).wf(),
            old(self).fullscreen_outcome(focus, r, *final(self)),
    {
        match self.locate(focus) {
            Some((k, path)) => {
                let ghost w0 = *self;
                let ghost root0 = self.spaces@[k as int].root;
                proof {
                    assert(path@.skip(0) =~= path@);
                    lemma_node_wf(root0, path@);
                }
                let node = self.spaces[k].root.node_at_mut(&path, 0);
                node.mode_toggle();
                proof {
                    let root1 = self.spaces@[k as int].root;
                    let p = choose|p: Container| root0.replaced(path@, p, root1) && p.clients == root0.node_at(path@)->0.clients
                        && p.portion == root0.node_at(path@)->0.portion && p.mode == toggled(root0.node_at(path@)->0.mode);
                    lemma_wf_same_clients(root0.node_at(path@)->0, p);
                    assert(w0.root_replaced(k as int, root1, *self));
                    w0.lemma_node_replaced(k as int, path@, p, *self);
                    lemma_replaced_node_at(root0, path@, p, root1);
                    assert(old(self).located(focus, k as int, path@));
                }
                Some(focus)
            },
            None => None,
        }
    }

    /// Splits the focused leaf `focus`, the new child being framed by `frame`
    /// (see `Container::split`); `root` is the display's root window.
    pub fn split_focused(&mut self, focus: u64, frame: u64, root: u64) -> (r: bool)
        requires
            old(self).wf(),
        ensures
            final(self).wf(),
            old(self).split_outcome(focus, frame, root, r, *final(self)),
    {
        match self.locate(focus) {
            Some((k, path)) => {
                let ghost w0 = *self;
                let ghost root0 = self.spaces@[k as int].root;
                proof {
                    assert(path@.skip(0) =~= path@);
                    lemma_node_wf(root0, path@);
                    assert(old(self).located(focus, k as int, path@));
                }
                if !self.spaces[k].root.node_at_ref(&path, 0).is_empty() || focus == root || frame == focus {
                    return false;
                }
                let node = self.spaces[k].root.node_at_mut(&path, 0);
                let done = node.split(frame, root);
                proof {
                    let root1 = self.spaces@[k as int].root;
                    let p = choose|p: Container| root0.replaced(path@, p, root1) && p.wf()
                        && p.portion == root0.node_at(path@)->0.portion && p.id == focus && p.clients@.len() == 1
                        && p.clients@[0].id == frame && p.clients@[0].clients@.len() == 0
                        && same_but_clients(p, root0.node_at(path@)->0);
                    assert(w0.root_replaced(k as int, root1, *self));
                    w0.lemma_node_replaced(k as int, path@, p, *self);
                    lemma_replaced_node_at(root0, path@, p, root1);
                }
                done
            },
            None => false,
        }
    }

    /// `focus` is child `i` of the node at `pp` in workspace `k`, and moving
    /// in `direction` among its siblings reaches another child, `next`.
    pub open spec fn neighbor_at(self, k: int, pp: Seq<usize>, i: int, direction: MoveDirection, focus: u64, next: u64) -> bool {
        let parent = self.spaces@[k].root.node_at(pp)->0;
        let n = parent.clients@.len() as int;
        &&& 0 <= k < self.spaces@.len()
        &&& self.spaces@[k].root.node_at(pp) is Some
        &&& 0 <= i < n
        &&& parent.clients@[i].id == focus
        &&& circulated(n, i, parent.direction, direction) != i
        &&& next == parent.clients@[circulated(n, i, parent.direction, direction)].id
    }

    /// What a focus command moving in `direction` from the node at `p` in
    /// workspace `k` yields: the sibling along the parent's split axis, or
    /// nothing where the move stays put or the node has no parent.
    pub open spec fn moved_focus(self, k: int, p: Seq<usize>, direction: MoveDirection, r: Option<u64>) -> bool {
        if p.len() == 0 {
            r.is_none()
        } else {
            let parent = self.spaces@[k].root.node_at(p.drop_last())->0;
            let n = parent.clients@.len() as int;
            let i = p.last() as int;
            let c = circulated(n, i, parent.direction, direction);
            if c == i {
                r.is_none()
            } else {
                r == Some(parent.clients@[c].id)
            }
        }
    }

    /// Moving in `direction` from `focus` among its siblings reaches `next`.
    pub open spec fn has_neighbor(self, direction: MoveDirection, focus: u64, next: u64) -> bool {
        exists|k: int, pp: Seq<usize>, i: int| #[trigger] self.neighbor_at(k, pp, i, direction, focus, next)
    }

    /// The window that a focus command moving in `direction` from the focused
    /// node `focus` reaches: the neighbor of `focus` within its parent along
    /// the parent's split axis, wrapping around.
    pub fn focus_direction(&self, direction: MoveDirection, focus: u64) -> (r: Option<u64>)
        ensures
            self.focus_outcome(direction, focus, r),
    {
        match self.locate(focus) {
            Some((k, path)) => {
                proof {
                    assert(self.located(focus, k as int, path@));
                }
                if path.len() == 0 {
                    return None;
                }
                let pp = parent_path(&path);
                let index = path[path.len() - 1];
                proof {
                    lemma_node_at_parent(self.spaces@[k as int].root, path@);
                    assert(pp@.skip(0) =~= pp@);
                }
                let parent = self.spaces[k].root.node_at_ref(&pp, 0);
                let size = parent.size();
                match parent.circulate(index, direction) {
                    Some(next) => {
                        proof {
                            let n = parent.clients@.len() as int;
                            let c = circulated(n, index as int, parent.direction, direction);
                            let i = index as int;
                            assert(0 <= (i + n - 1) % n < n) by (nonlinear_arith)
                                requires n > 0, 0 <= i < n;
                            assert(0 <= (i + 1) % n < n) by (nonlinear_arith)
                                requires n > 0, 0 <= i < n;
                            assert(0 <= c < n);
                            assert(n == size);
                            assert(next as int == c);
                        }
                        if next != index {
                            let found = parent.clients[next].id;
                            proof {
                                assert(self.neighbor_at(k as int, pp@, index as int, direction, focus, found));
                            }
                            return Some(found);
                        }
                        None
                    },
                    None => None,
                }
            },
            None => None,
        }
    }

    /// Applies a resize command: where the parent of the focused node `focus`
    /// is split along `axis`, the focused node grows or shrinks by
    /// `RESIZE_STEP` (all or nothing, see `Container::resize_child`). Returns
    /// the parent, to lay out again.
    pub fn resize_focused(&mut self, axis: LayoutDirection, resize: Resize, focus: u64) -> (r: Option<u64>)
        requires
            old(self).wf(),
        ensures
            final(self).wf(),
            old(self).resize_outcome(axis, resize, focus, r, *final(self)),
    {
        match self.locate(focus) {
            Some((k, path)) => {
                proof {
                    assert(old(self).located(focus, k as int, path@));
                }
                if path.len() == 0 {
                    return None;
                }
                let pp = parent_path(&path);
                let index = path[path.len() - 1];
                let ghost w0 = *self;
                let ghost root0 = self.spaces@[k as int].root;
                proof {
                    lemma_node_at_parent(root0, path@);
                    assert(pp@.skip(0) =~= pp@);
                    lemma_node_wf(root0, pp@);
                }
                if self.spaces[k].root.node_at_ref(&pp, 0).direction != axis {
                    return None;
                }
                let step: i64 = match resize {
                    Resize::Shrink => -RESIZE_STEP,
                    Resize::Grow => RESIZE_STEP,
                };
                let parent = self.spaces[k].root.node_at_mut(&pp, 0);
                parent.resize_child(index, step);
                let id = parent.id;
                proof {
                    let root1 = self.spaces@[k as int].root;
                    let p = choose|p: Container| root0.replaced(pp@, p, root1) && p.wf()
                        && p.portion == root0.node_at(pp@)->0.portion
                        && root0.node_at(pp@)->0.child_resized(index as int, step as int, p);
                    assert(w0.root_replaced(k as int, root1, *self));
                    w0.lemma_node_replaced(k as int, pp@, p, *self);
                    lemma_replaced_node_at(root0, pp@, p, root1);
                }
                self.mode = Mode::Layout;
                Some(id)
            },
            None => None,
        }
    }

    /// Moves the focused node `focus` from the current workspace to workspace
    /// `key` (see `move_window`).
    pub fn move_focused_to_workspace(&mut self, key: char, focus: u64, frame: u64, pruned: &mut Vec<u64>) -> (r: bool)
        requires
            old(self).wf(),
        ensures
            final(self).wf(),
            old(self).move_outcome(key, focus, r, final(pruned)@.skip(old(pruned)@.len() as int), *final(self)),
    {
        let from = self.current;
        self.move_window(focus, from, key, frame, pruned)
    }

    /// A pointer press at `(x, y)` in the window `window`: returns the window to
    /// focus (the child whose title bar was hit, else `window` itself), and
    /// where the press falls on a border between children of a container at
    /// rest, starts dragging that border.
    pub fn button_press(&mut self, window: u64, x: i32, y: i32) -> (r: Option<u64>)
        requires
            old(self).wf(),
        ensures
            final(self).wf(),
            r.is_some() == old(self).holds(window),
            r.is_none() ==> *final(self) == *old(self),
            match r {
                Some(t) => exists|k: int, p: Seq<usize>| {
                    let c = old(self).spaces@[k].root.node_at(p)->0;
                    &&& #[trigger] old(self).located(window, k, p)
                    &&& press_target(c, x as int, y as int, t)
                    &&& final(self).spaces@[k].root.node_at(p) is Some
                    &&& pressed(c, x, y, final(self).spaces@[k].root.node_at(p)->0)
                    &&& old(self).root_replaced(k, final(self).spaces@[k].root, *final(self))
                },
                None => true,
            },
            final(self).current == old(self).current,
    {
        match self.locate(window) {
            Some((k, path)) => {
                let ghost w0 = *self;
                let ghost root0 = self.spaces@[k as int].root;
                proof {
                    assert(path@.skip(0) =~= path@);
                    lemma_node_wf(root0, path@);
                    assert(old(self).located(window, k as int, path@));
                }
                let c = self.spaces[k].root.node_at_ref(&path, 0);
                let ghost c0 = *c;
                let target = match c.query_point(x, y) {
                    Some(child) => child.id,
                    None => c.id,
                };
                let border = c.query_border(x, y);
                let at_rest = c.mode == Mode::Normal;
                let mut changed = false;
                match border {
                    Some(i) => {
                        if at_rest {
                            let node = self.spaces[k].root.node_at_mut(&path, 0);
                            node.mode = Mode::Resize(i, x, y);
                            assert(same_but_mode(*node, c0) && node.mode == Mode::Resize(i, x, y));
                            changed = true;
                            proof {
                                assert(first_border(c0, x as int, y as int, i as int));
                                let root1 = self.spaces@[k as int].root;
                                let p = choose|p: Container| root0.replaced(path@, p, root1) && same_but_mode(p, c0)
                                    && p.mode == Mode::Resize(i, x, y);
                                lemma_wf_same_clients(c0, p);
                                assert(w0.root_replaced(k as int, root1, *self));
                                w0.lemma_node_replaced(k as int, path@, p, *self);
                                lemma_replaced_node_at(root0, path@, p, root1);
                                assert(pressed(c0, x, y, p));
                            }
                        }
                    },
                    None => {},
                }
                proof {
                    if !changed {
                        assert(!(c0.mode == Mode::Normal && exists|i: int| #[trigger] first_border(c0, x as int, y as int, i)));
                        assert(self.spaces@[k as int].root.node_at(path@) == Some(c0));
                        assert(old(self).root_replaced(k as int, self.spaces@[k as int].root, *self));
                    }
                    assert(press_target(c0, x as int, y as int, target));
                }
                Some(target)
            },
            None => None,
        }
    }

    /// A pointer release at `(x, y)` in the window `window`: where a border drag
    /// is in progress there, shifts the portions of the two children beside the
    /// border by the drag distance along the split axis, in proportion to the
    /// container's extent, and ends the drag. A drag whose border no longer
    /// exists (its window went away meanwhile) just ends. Returns the container
    /// to lay out again.
    pub fn button_release(&mut self, window: u64, x: i32, y: i32) -> (r: Option<u64>)
        requires
            old(self).wf(),
        ensures
            final(self).wf(),
            r.is_none() ==> *final(self) == *old(self),
            r.is_some() ==> r == Some(window),
            r.is_some() ==> exists|k: int, p: Seq<usize>| {
                let c = old(self).spaces@[k].root.node_at(p)->0;
                &&& #[trigger] old(self).located(window, k, p)
                &&& c.mode is Resize
                &&& final(self).spaces@[k].root.node_at(p) is Some
                &&& drag_released(
                    c,
                    c.mode->Resize_0 as int,
                    release_step(c, x as int, y as int, c.mode->Resize_1 as int, c.mode->Resize_2 as int),
                    final(self).spaces@[k].root.node_at(p)->0,
                )
                &&& old(self).root_replaced(k, final(self).spaces@[k].root, *final(self))
            },
            old(self).holds(window) && (forall|k: int, p: Seq<usize>| #[trigger] old(self).located(window, k, p)
                ==> old(self).spaces@[k].root.node_at(p)->0.mode is Resize) ==> r.is_some(),
            final(self).current == old(self).current,
    {
        match self.locate(window) {
            Some((k, path)) => {
                let ghost w0 = *self;
                let ghost root0 = self.spaces@[k as int].root;
                proof {
                    assert(path@.skip(0) =~= path@);
                    lemma_node_wf(root0, path@);
                    assert(old(self).located(window, k as int, path@));
                }
                let c = self.spaces[k].root.node_at_ref(&path, 0);
                match c.mode {
                    Mode::Resize(index, ax, ay) => {
                        let (delta, extent): (i64, u32) = match c.direction {
                            LayoutDirection::Vertical => (y as i64 - ay as i64, c.rect.height),
                            LayoutDirection::Horizontal => (x as i64 - ax as i64, c.rect.width),
                        };
                        let step = step_for_drag(delta, extent);
                        let ghost c0 = *c;
                        let node = self.spaces[k].root.node_at_mut(&path, 0);
                        if index >= 1 {
                            node.resize_children(index - 1, index, step);
                        }
                        let ghost before = *node;
                        node.mode = Mode::Normal;
                        proof {
                            lemma_wf_same_clients(before, *node);
                            assert(drag_released(c0, index as int, step as int, *node));
                        }
                        proof {
                            let root1 = self.spaces@[k as int].root;
                            let p = choose|p: Container| root0.replaced(path@, p, root1) && p.wf()
                                && p.portion == root0.node_at(path@)->0.portion && drag_released(c0, index as int, step as int, p);
                            assert(w0.root_replaced(k as int, root1, *self));
                            w0.lemma_node_replaced(k as int, path@, p, *self);
                            lemma_replaced_node_at(root0, path@, p, root1);
                        }
                        Some(window)
                    },
                    _ => None,
                }
            },
            None => None,
        }
    }
}

/// Switches the layout of the focused window's container.
pub struct LayoutHandler {
    layout_type: LayoutType,
}

impl LayoutHandler {
    pub fn new(layout: LayoutType) -> (r: LayoutHandler)
        ensures
            r.layout_type() == layout,
    {
        LayoutHandler { layout_type: layout }
    }

    pub closed spec fn layout_type(self) -> LayoutType {
        self.layout_type
    }

    /// See `Workspaces::change_focused_layout`.
    pub fn handle(&self, workspaces: &mut Workspaces, focus: u64) -> (r: Option<u64>)
        requires
            old(workspaces).wf(),
        ensures
            final(workspaces).wf(),
            old(workspaces).layout_outcome(self.layout_type(), focus, r, *final(workspaces)),
    {
        workspaces.change_focused_layout(self.layout_type, focus)
    }
}

/// Switches to another workspace.
pub struct WorkspaceHandler {
    pub key: char,
}

impl WorkspaceHandler {
    /// See `Workspaces::switch_workspace`; `frame` frames the workspace if it
    /// has to be created.
    pub fn handle(&self, workspaces: &mut Workspaces, frame: u64) -> (r: bool)
        requires
            old(workspaces).wf(),
        ensures
            final(workspaces).wf(),
            old(workspaces).switch_outcome(self.key, frame, r, *final(workspaces)),
            final(workspaces).current == self.key,
    {
        let key = self.key;
        workspaces.switch_workspace(key, frame)
    }
}

/// Moves the focused window to another workspace.
pub struct WindowToWorkspaceHandler {
    pub key: char,
}

impl WindowToWorkspaceHandler {
    /// See `Workspaces::move_focused_to_workspace`.
    pub fn handle(&self, workspaces: &mut Workspaces, focus: u64, frame: u64, pruned: &mut Vec<u64>) -> (r: bool)
        requires
            old(workspaces).wf(),
        ensures
            final(workspaces).wf(),
            old(workspaces).move_outcome(self.key, focus, r, final(pruned)@.skip(old(pruned)@.len() as int), *final(workspaces)),
    {
        let key = self.key;
        workspaces.move_focused_to_workspace(key, focus, frame, pruned)
    }
}

/// Moves the input focus to a neighbor of the focused window.
pub struct WindowFocusHandler {
    pub direction: Direction,
}

/// The move that a direction stands for; an axis is no move.
pub open spec fn move_of(d: Direction) -> Option<MoveDirection> {
    match d {
        Direction::Up => Some(MoveDirection::Up),
        Direction::Down => Some(MoveDirection::Down),
        Direction::Left => Some(MoveDirection::Left),
        Direction::Right => Some(MoveDirection::Right),
        _ => None,
    }
}

impl WindowFocusHandler {
    /// The window to focus next (see `Workspaces::focus_direction`).
    pub fn handle(&self, workspaces: &Workspaces, focus: u64) -> (r: Option<u64>)
        ensures
            move_of(self.direction) is None ==> r is None,
            move_of(self.direction) is Some ==> workspaces.focus_outcome(move_of(self.direction)->0, focus, r),
    {
        let mv = match self.direction {
            Direction::Up => MoveDirection::Up,
            Direction::Down => MoveDirection::Down,
            Direction::Left => MoveDirection::Left,
            Direction::Right => MoveDirection::Right,
            _ => {
                return None;
            },
        };
        workspaces.focus_direction(mv, focus)
    }
}

/// Closes the focused window.
pub struct WindowCloseHandler;

impl WindowCloseHandler {
    /// The window to close: the focused one, where the workspaces know it.
    pub fn handle(&self, workspaces: &Workspaces, focus: u64) -> (r: Option<u64>)
        ensures
            r.is_some() == workspaces.holds(focus),
            r.is_some() ==> r == Some(focus),
    {
        match workspaces.locate(focus) {
            Some(_) => Some(focus),
            None => None,
        }
    }
}

} // verus!
