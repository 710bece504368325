use vstd::prelude::*;

use crate::container::{Container, Mode, PORTION_SCALE, Type as Category, same_but_clients};
use crate::layout::{LayoutDirection, MoveDirection, Type as LayoutType};

verus! {

/// Half-width of the band around a border in which a press grabs the border.
pub const BORDER_GRAB: i64 = 2;

/// The sibling reached from `index` among `size` siblings by moving in `mv`
/// inside a container split along `dir`; a move across the split axis stays.
pub open spec fn circulated(size: int, index: int, dir: LayoutDirection, mv: MoveDirection) -> int {
    match dir {
        LayoutDirection::Vertical => match mv {
            MoveDirection::Up => (index + size - 1) % size,
            MoveDirection::Down => (index + 1) % size,
            _ => index,
        },
        LayoutDirection::Horizontal => match mv {
            MoveDirection::Left => (index + size - 1) % size,
            MoveDirection::Right => (index + 1) % size,
            _ => index,
        },
    }
}

/// The mode after a full-screen toggle.
pub open spec fn toggled(m: Mode) -> Mode {
    match m {
        Mode::Normal => Mode::Fullscreen,
        Mode::Fullscreen => Mode::Normal,
        m => m,
    }
}

/// `|a - b|`.
pub open spec fn distance(a: int, b: int) -> int {
    if a >= b {
        a - b
    } else {
        b - a
    }
}

impl Container {
    /// Whether a press at `(x, y)` falls on the title bar of the `i`-th child.
    pub open spec fn hits_titlebar(self, i: int, x: int, y: int) -> bool {
        match self.clients@[i].titlebar {
            Some(rec) => rec.spec_contain(x, y),
            None => false,
        }
    }

    /// Whether a press at `(x, y)` falls on the leading border of the `i`-th
    /// child, across the split axis.
    pub open spec fn hits_border(self, i: int, x: int, y: int) -> bool {
        let rec = self.clients@[i].rect;
        match self.direction {
            LayoutDirection::Vertical => distance(y, rec.y as int) <= BORDER_GRAB,
            LayoutDirection::Horizontal => distance(x, rec.x as int) <= BORDER_GRAB,
        }
    }

    /// Index of the sibling reached from `index` by moving in `direction`;
    /// `None` where `index` is not a child.
    pub fn circulate(&self, index: usize, direction: MoveDirection) -> (r: Option<usize>)
        ensures
            index >= self.clients@.len() ==> r.is_none(),
            index < self.clients@.len() ==> r == Some(
                circulated(self.clients@.len() as int, index as int, self.direction, direction) as usize,
            ),
    {
        let size = self.clients.len();
        if index >= size {
            return None;
        }
        let back: usize = if index == 0 { size - 1 } else { index - 1 };
        let forth: usize = if index + 1 == size { 0 } else { index + 1 };
        proof {
            let s = size as int;
            let i = index as int;
            if i == 0 {
                assert((i + s - 1) % s == s - 1) by (nonlinear_arith)
                    requires i == 0, s > 0;
            } else {
                assert((i + s - 1) % s == i - 1) by (nonlinear_arith)
                    requires 0 < i < s;
            }
            if i + 1 == s {
                assert((i + 1) % s == 0) by (nonlinear_arith)
                    requires i + 1 == s, s > 0;
            } else {
                assert((i + 1) % s == i + 1) by (nonlinear_arith)
                    requires 0 <= i, i + 1 < s;
            }
        }
        let next = match self.direction {
            LayoutDirection::Vertical => match direction {
                MoveDirection::Up => back,
                MoveDirection::Down => forth,
                _ => index,
            },
            LayoutDirection::Horizontal => match direction {
                MoveDirection::Left => back,
                MoveDirection::Right => forth,
                _ => index,
            },
        };
        Some(next)
    }

    /// The sibling after the first child whose window is `id`, wrapping
    /// around to the first child.
    pub fn next_client(&self, id: u64) -> (r: Option<&Container>)
        ensures
            match r {
                Some(c) => exists|i: int|
                    #[trigger] self.first_child(id, i) && *c == self.clients@[(i + 1) % self.clients@.len() as int],
                None => !self.has_child(id),
            },
    {
        match self.contain(id) {
            Some(i) => {
                let next: usize = if i == self.clients.len() - 1 { 0 } else { i + 1 };
                proof {
                    let s = self.clients@.len() as int;
                    let k = i as int;
                    assert(self.first_child(id, k));
                    if k + 1 == s {
                        assert((k + 1) % s == 0) by (nonlinear_arith)
                            requires k + 1 == s, s > 0;
                    } else {
                        assert((k + 1) % s == k + 1) by (nonlinear_arith)
                            requires 0 <= k, k + 1 < s;
                    }
                }
                Some(&self.clients[next])
            },
            None => None,
        }
    }

    /// The sibling before the first child whose window is `id`, wrapping
    /// around to the last child.
    pub fn last_client(&self, id: u64) -> (r: Option<&Container>)
        ensures
            match r {
                Some(c) => exists|i: int|
                    #[trigger] self.first_child(id, i) && *c == self.clients@[(i + self.clients@.len() - 1) % self.clients@.len() as int],
                None => !self.has_child(id),
            },
    {
        match self.contain(id) {
            Some(i) => {
                let last: usize = if i == 0 { self.clients.len() - 1 } else { i - 1 };
                proof {
                    let s = self.clients@.len() as int;
                    let k = i as int;
                    assert(self.first_child(id, k));
                    if k == 0 {
                        assert((k + s - 1) % s == s - 1) by (nonlinear_arith)
                            requires k == 0, s > 0;
                    } else {
                        assert((k + s - 1) % s == k - 1) by (nonlinear_arith)
                            requires 0 < k < s;
                    }
                }
                Some(&self.clients[last])
            },
            None => None,
        }
    }

    /// The first child whose title bar contains the point `(x, y)`.
    pub fn query_point(&self, x: i32, y: i32) -> (r: Option<&Container>)
        ensures
            match r {
                Some(c) => exists|i: int|
                    0 <= i < self.clients@.len() && *c == self.clients@[i] && #[trigger] self.hits_titlebar(i, x as int, y as int)
                        && forall|j: int| 0 <= j < i ==> !self.hits_titlebar(j, x as int, y as int),
                None => forall|i: int| 0 <= i < self.clients@.len() ==> !#[trigger] self.hits_titlebar(i, x as int, y as int),
            },
    {
        let n = self.clients.len();
        let mut i: usize = 0;
        while i < n
            invariant
                n == self.clients@.len(),
                i <= n,
                forall|j: int| 0 <= j < i ==> !#[trigger] self.hits_titlebar(j, x as int, y as int),
            decreases n - i,
        {
            match self.clients[i].titlebar {
                Some(rec) => {
                    if rec.contain(x, y) {
                        proof {
                            assert(self.hits_titlebar(i as int, x as int, y as int));
                        }
                        return Some(&self.clients[i]);
                    }
                },
                None => {},
            }
            i = i + 1;
        }
        None
    }

    /// Index of the first child whose leading border lies within the grab band
    /// around `(x, y)`.
    pub fn query_border(&self, x: i32, y: i32) -> (r: Option<usize>)
        ensures
            match r {
                Some(i) => i < self.clients@.len() && self.hits_border(i as int, x as int, y as int)
                    && forall|j: int| 0 <= j < i ==> !#[trigger] self.hits_border(j, x as int, y as int),
                None => forall|i: int| 0 <= i < self.clients@.len() ==> !#[trigger] self.hits_border(i, x as int, y as int),
            },
    {
        let n = self.clients.len();
        let mut i: usize = 0;
        while i < n
            invariant
                n == self.clients@.len(),
                i <= n,
                forall|j: int| 0 <= j < i ==> !#[trigger] self.hits_border(j, x as int, y as int),
            decreases n - i,
        {
            let rec = self.clients[i].rect;
            let d: i64 = match self.direction {
                LayoutDirection::Vertical => y as i64 - rec.y as i64,
                LayoutDirection::Horizontal => x as i64 - rec.x as i64,
            };
            if -BORDER_GRAB <= d && d <= BORDER_GRAB {
                return Some(i);
            }
            i = i + 1;
        }
        None
    }

    /// `after` is `self` switched to `layout_type`, or with its split direction
    /// flipped where it already uses that layout; a new layout starts split
    /// horizontally. Nothing else changes.
    pub open spec fn relaid(self, layout_type: LayoutType, after: Container) -> bool {
        &&& after.layout == layout_type
        &&& after.direction == if self.layout == layout_type {
            match self.direction {
                LayoutDirection::Horizontal => LayoutDirection::Vertical,
                LayoutDirection::Vertical => LayoutDirection::Horizontal,
            }
        } else {
            LayoutDirection::Horizontal
        }
        &&& after.id == self.id
        &&& after.clients == self.clients
        &&& after.portion == self.portion
        &&& after.mode == self.mode
        &&& after.category == self.category
        &&& after.rect == self.rect
        &&& after.titlebar == self.titlebar
        &&& after.titlebar_height == self.titlebar_height
        &&& after.visible == self.visible
    }

    /// Switches to `layout_type`; asking for the layout already in use flips the
    /// split direction instead. A new layout starts split horizontally.
    pub fn change_layout(&mut self, layout_type: LayoutType)
        ensures
            old(self).relaid(layout_type, *final(self)),
    {
        if self.layout == layout_type {
            self.direction = match self.direction {
                LayoutDirection::Horizontal => LayoutDirection::Vertical,
                LayoutDirection::Vertical => LayoutDirection::Horizontal,
            };
        } else {
            self.layout = layout_type;
            self.direction = LayoutDirection::Horizontal;
        }
    }

    /// Toggles between normal and full-screen display; other modes stay.
    pub fn mode_toggle(&mut self)
        ensures
            final(self).mode == toggled(old(self).mode),
            final(self).id == old(self).id,
            final(self).clients == old(self).clients,
            final(self).portion == old(self).portion,
            final(self).layout == old(self).layout,
            final(self).direction == old(self).direction,
            final(self).category == old(self).category,
            final(self).rect == old(self).rect,
            final(self).titlebar == old(self).titlebar,
            final(self).titlebar_height == old(self).titlebar_height,
            final(self).visible == old(self).visible,
    {
        self.mode = match self.mode {
            Mode::Normal => Mode::Fullscreen,
            Mode::Fullscreen => Mode::Normal,
            m => m,
        };
    }

    /// Splits a leaf: this node keeps its window `id` and becomes an internal
    /// node whose one child is a new leaf framed by the window `new_id`, of the
    /// same size and with the same title bar height. Only a leaf that is not
    /// the display's root window `root` splits, and only into a window other
    /// than its own; otherwise nothing changes.
    pub fn split(&mut self, new_id: u64, root: u64) -> (r: bool)
        requires
            old(self).wf(),
        ensures
            r == (old(self).clients@.len() == 0 && old(self).id != root && new_id != old(self).id),
            !r ==> *final(self) == *old(self),
            r ==> {
                &&& same_but_clients(*final(self), *old(self))
                &&& final(self).clients@.len() == 1
                &&& final(self).clients@[0].id == new_id
                &&& final(self).clients@[0].id != final(self).id
                &&& final(self).clients@[0].clients@.len() == 0
                &&& final(self).clients@[0].category == Category::Container
                &&& final(self).clients@[0].mode == Mode::Normal
                &&& final(self).clients@[0].portion == PORTION_SCALE
                &&& final(self).clients@[0].rect == old(self).rect
                &&& final(self).clients@[0].titlebar_height == old(self).titlebar_height
            },
            final(self).wf(),
    {
        if !self.is_empty() || self.id == root || new_id == self.id {
            return false;
        }
        let mut child = Container::new(new_id, self.rect);
        child.titlebar_height = self.titlebar_height;
        self.add(child);
        proof {
            assert(child.wf());
        }
        true
    }
}

} // verus!
