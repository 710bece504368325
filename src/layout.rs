use vstd::prelude::*;

use crate::container::{Container, PORTION_SCALE, portion_sum, prefix_sum, same_but_clients, lemma_prefix_step, lemma_prefix_mono, lemma_prefix_full, lemma_wf_same_clients};
use crate::geometry::Rectangle;

verus! {

/// How a container arranges its children.
#[derive(Debug, Clone, Copy, PartialEq, Eq, Structural)]
pub enum Type {
    /// Children share the content area along the split axis.
    Tiling,
    /// Children share one body rectangle; a strip of headers selects the active one.
    Tab,
}

/// The main axis of a tiling container.
#[derive(Debug, Clone, Copy, PartialEq, Eq, Structural)]
pub enum LayoutDirection {
    Vertical,
    Horizontal,
}

/// A navigation direction between siblings.
#[derive(Debug, Clone, Copy, PartialEq, Eq, Structural)]
pub enum MoveDirection {
    Up,
    Down,
    Left,
    Right,
}

} // verus!

verus! {

/// Thickness of the border drawn around each child window.
pub const BORDER: u32 = 1;

/// Largest width, height or title bar height that the layout handles: the
/// windowing protocol carries window sizes in 16 bits.
pub const MAX_EXTENT: u32 = 65535;

/// Where one child of a container goes after a layout pass.
#[derive(Debug, Clone, Copy, PartialEq, Eq, Structural)]
pub struct Placement {
    /// The child's window.
    pub id: u64,
    /// The child's title bar, in the container's coordinates.
    pub titlebar: Rectangle,
    /// The child's window geometry, in the container's coordinates.
    pub body: Rectangle,
    /// Whether the child holds the input focus and is drawn as focused.
    pub focused: bool,
    /// Whether the child is raised above its siblings.
    pub raise: bool,
}

/// `a - b`, or zero where `b` exceeds `a`.
pub open spec fn sat_sub(a: int, b: int) -> int {
    if a >= b {
        a - b
    } else {
        0
    }
}

/// Length along the split axis of a child with `portion`, rounded down.
pub open spec fn slot_len(portion: int, axis: int) -> int {
    portion * axis / (PORTION_SCALE as int)
}

/// Where the `i`-th child's slot starts along the split axis: the lengths of
/// the slots before it, added up.
pub open spec fn slot_offset(s: Seq<Container>, i: int, axis: int) -> int
    decreases i,
{
    if i <= 0 {
        0
    } else {
        slot_offset(s, i - 1, axis) + slot_len(s[i - 1].portion as int, axis)
    }
}

/// `a` and `b` agree on everything but their title bar and geometry.
pub open spec fn same_but_geometry(a: Container, b: Container) -> bool {
    &&& a.id == b.id
    &&& a.visible == b.visible
    &&& a.titlebar_height == b.titlebar_height
    &&& a.clients == b.clients
    &&& a.mode == b.mode
    &&& a.category == b.category
    &&& a.portion == b.portion
    &&& a.layout == b.layout
    &&& a.direction == b.direction
}

impl Container {
    /// Length of this container along its split axis.
    pub open spec fn axis_len(self) -> int {
        match self.direction {
            LayoutDirection::Vertical => self.rect.height as int,
            LayoutDirection::Horizontal => self.rect.width as int,
        }
    }

    /// The slot of the `i`-th child in a tiling layout: its share of the split
    /// axis, the whole of the other axis.
    pub open spec fn tiling_slot(self, i: int) -> Rectangle {
        let off = slot_offset(self.clients@, i, self.axis_len());
        let len = slot_len(self.clients@[i].portion as int, self.axis_len());
        match self.direction {
            LayoutDirection::Vertical => Rectangle {
                x: 0,
                y: off as i32,
                width: self.rect.width,
                height: len as u32,
            },
            LayoutDirection::Horizontal => Rectangle {
                x: off as i32,
                y: 0,
                width: len as u32,
                height: self.rect.height,
            },
        }
    }

    /// The slot of the `i`-th child: its tiling slot, or in a tab layout the
    /// whole container.
    pub open spec fn child_slot(self, i: int) -> Rectangle {
        match self.layout {
            Type::Tiling => self.tiling_slot(i),
            Type::Tab => Rectangle { x: 0, y: 0, width: self.rect.width, height: self.rect.height },
        }
    }

    /// The title bar of the `i`-th child: the top of its slot, or in a tab
    /// layout the `i`-th of as many equal segments of the top edge as there are
    /// children.
    pub open spec fn child_titlebar(self, i: int) -> Rectangle {
        let th = self.clients@[i].titlebar_height;
        match self.layout {
            Type::Tiling => {
                let slot = self.tiling_slot(i);
                Rectangle { x: slot.x, y: slot.y, width: slot.width, height: th }
            },
            Type::Tab => {
                let seg = self.rect.width as int / self.clients@.len() as int;
                Rectangle { x: (seg * i) as i32, y: 0, width: seg as u32, height: th }
            },
        }
    }

    /// The window geometry of the `i`-th child: its slot less the title bar
    /// and a border on every side.
    pub open spec fn child_body(self, i: int) -> Rectangle {
        let th = self.clients@[i].titlebar_height as int;
        let slot = self.child_slot(i);
        Rectangle {
            x: (slot.x + BORDER) as i32,
            y: (slot.y + th + BORDER) as i32,
            width: sat_sub(slot.width as int, 2 * BORDER) as u32,
            height: sat_sub(slot.height as int, th + 2 * BORDER) as u32,
        }
    }

    /// What a layout pass yields for the `i`-th child when `focus` holds the
    /// input focus.
    pub open spec fn placement(self, i: int, focus: u64) -> Placement {
        let focused = self.clients@[i].id == focus;
        Placement {
            id: self.clients@[i].id,
            titlebar: self.child_titlebar(i),
            body: self.child_body(i),
            focused,
            raise: self.layout == Type::Tab && focused,
        }
    }

    /// The sizes that a layout pass handles.
    pub open spec fn layout_fits(self) -> bool {
        &&& self.rect.width <= MAX_EXTENT
        &&& self.rect.height <= MAX_EXTENT
        &&& forall|i: int| 0 <= i < self.clients@.len() ==> (#[trigger] self.clients@[i]).titlebar_height <= MAX_EXTENT
    }

    /// Whether a layout pass can handle this container's sizes.
    pub fn fits_layout(&self) -> (r: bool)
        ensures
            r == self.layout_fits(),
    {
        if self.rect.width > MAX_EXTENT || self.rect.height > MAX_EXTENT {
            return false;
        }
        let n = self.clients.len();
        let mut i: usize = 0;
        while i < n
            invariant
                n == self.clients@.len(),
                i <= n,
                forall|j: int| 0 <= j < i ==> (#[trigger] self.clients@[j]).titlebar_height <= MAX_EXTENT,
            decreases n - i,
        {
            if self.clients[i].titlebar_height > MAX_EXTENT {
                return false;
            }
            i = i + 1;
        }
        true
    }

    /// Positions the direct children (not their own children): records each
    /// child's title bar and window geometry, and returns one placement per
    /// child for the display to apply. `focus` is the window that holds the
    /// input focus.
    pub fn update_layout(&mut self, focus: u64) -> (r: Vec<Placement>)
        requires
            old(self).wf(),
            old(self).layout_fits(),
        ensures
            r@.len() == old(self).clients@.len(),
            forall|i: int| 0 <= i < r@.len() ==> #[trigger] r@[i] == old(self).placement(i, focus),
            same_but_clients(*final(self), *old(self)),
            final(self).clients@.len() == old(self).clients@.len(),
            forall|i: int|
                0 <= i < old(self).clients@.len() ==> {
                    &&& same_but_geometry(#[trigger] final(self).clients@[i], old(self).clients@[i])
                    &&& final(self).clients@[i].titlebar == Some(old(self).child_titlebar(i))
                    &&& final(self).clients@[i].rect == old(self).child_body(i)
                },
            final(self).wf(),
    {
        let n = self.clients.len();
        let mut out: Vec<Placement> = Vec::new();
        let ghost c0 = *self;
        let axis: u64 = match self.direction {
            LayoutDirection::Vertical => self.rect.height as u64,
            LayoutDirection::Horizontal => self.rect.width as u64,
        };
        let width: u64 = self.rect.width as u64;
        let height: u64 = self.rect.height as u64;
        let seg: u64 = if n == 0 { 0 } else { width / (n as u64) };
        let mut offset: u64 = 0;
        let mut i: usize = 0;
        proof {
            assert(c0.clients@.take(0) =~= Seq::<Container>::empty());
            lemma_prefix_full(c0.clients@);
        }
        while i < n
            invariant
                n == c0.clients@.len(),
                i <= n,
                c0 == *old(self),
                c0.wf(),
                c0.layout_fits(),
                axis == c0.axis_len(),
                width == c0.rect.width,
                height == c0.rect.height,
                n > 0 ==> seg == width / (n as u64),
                same_but_clients(*self, c0),
                self.clients@.len() == n,
                offset == slot_offset(c0.clients@, i as int, axis as int),
                offset * PORTION_SCALE <= prefix_sum(c0.clients@, i as int) * axis,
                out@.len() == i,
                forall|k: int| 0 <= k < i ==> #[trigger] out@[k] == c0.placement(k, focus),
                forall|k: int| i <= k < n ==> self.clients@[k] == c0.clients@[k],
                forall|k: int|
                    0 <= k < i ==> {
                        &&& same_but_geometry(#[trigger] self.clients@[k], c0.clients@[k])
                        &&& self.clients@[k].titlebar == Some(c0.child_titlebar(k))
                        &&& self.clients@[k].rect == c0.child_body(k)
                    },
            decreases n - i,
        {
            let th: u32 = self.clients[i].titlebar_height;
            let portion: u64 = self.clients[i].portion;
            proof {
                lemma_prefix_step(c0.clients@, i as int);
                lemma_prefix_mono(c0.clients@, i as int + 1, n as int);
                lemma_prefix_full(c0.clients@);
                crate::container::lemma_sum_nonneg(c0.clients@.take(i as int));
                let big = PORTION_SCALE as int;
                let p = portion as int;
                let a = axis as int;
                let o = offset as int;
                let pre = prefix_sum(c0.clients@, i as int);
                assert(pre + p <= big);
                assert(p * a / big * big <= p * a) by (nonlinear_arith)
                    requires big > 0, p >= 0, a >= 0;
                assert((o + p * a / big) * big <= (pre + p) * a) by (nonlinear_arith)
                    requires o * big <= pre * a, p * a / big * big <= p * a, big > 0;
                assert((pre + p) * a <= big * a) by (nonlinear_arith)
                    requires pre + p <= big, a >= 0;
                assert(o + p * a / big <= a) by (nonlinear_arith)
                    requires (o + p * a / big) * big <= big * a, big > 0;
                assert(p * a <= big * a) by (nonlinear_arith)
                    requires p <= big, a >= 0;
                assert(self.clients@[i as int].titlebar_height <= MAX_EXTENT);
            }
            let len: u64 = ((portion as u128) * (axis as u128) / (PORTION_SCALE as u128)) as u64;
            let slot: Rectangle = match self.layout {
                Type::Tiling => match self.direction {
                    LayoutDirection::Vertical => Rectangle { x: 0, y: offset as i32, width: self.rect.width, height: len as u32 },
                    LayoutDirection::Horizontal => Rectangle { x: offset as i32, y: 0, width: len as u32, height: self.rect.height },
                },
                Type::Tab => Rectangle { x: 0, y: 0, width: self.rect.width, height: self.rect.height },
            };
            let titlebar: Rectangle = match self.layout {
                Type::Tiling => Rectangle { x: slot.x, y: slot.y, width: slot.width, height: th },
                Type::Tab => {
                    proof {
                        let w = width as int;
                        let m = n as int;
                        let k = i as int;
                        assert(w / m * k <= w) by (nonlinear_arith)
                            requires m > 0, 0 <= k < m, w >= 0;
                    }
                    Rectangle { x: (seg * (i as u64)) as i32, y: 0, width: seg as u32, height: th }
                },
            };
            let body_width: u32 = if slot.width >= 2 * BORDER { slot.width - 2 * BORDER } else { 0 };
            let body_height: u32 = if slot.height >= th + 2 * BORDER { slot.height - th - 2 * BORDER } else { 0 };
            let body = Rectangle {
                x: slot.x + BORDER as i32,
                y: slot.y + th as i32 + BORDER as i32,
                width: body_width,
                height: body_height,
            };
            let id = self.clients[i].id;
            let focused = id == focus;
            let raise = match self.layout {
                Type::Tab => focused,
                Type::Tiling => false,
            };
            proof {
                assert(slot == c0.child_slot(i as int));
                assert(titlebar == c0.child_titlebar(i as int));
                assert(body == c0.child_body(i as int));
            }
            self.clients[i].titlebar = Some(titlebar);
            self.clients[i].rect = body;
            out.push(Placement { id, titlebar, body, focused, raise });
            offset = offset + len;
            i = i + 1;
        }
        proof {
            assert forall|k: int| 0 <= k < self.clients@.len() implies (#[trigger] self.clients@[k]).wf() by {
                lemma_wf_same_clients(c0.clients@[k], self.clients@[k]);
            }
            assert forall|k: int| 0 <= k < n implies self.clients@[k].portion == (#[trigger] c0.clients@[k]).portion by {}
            lemma_same_portions(c0.clients@, self.clients@);
        }
        out
    }
}

/// Two sequences of siblings with equal portions have equal portion sums.
pub proof fn lemma_same_portions(a: Seq<Container>, b: Seq<Container>)
    requires
        a.len() == b.len(),
        forall|k: int| 0 <= k < a.len() ==> b[k].portion == (#[trigger] a[k]).portion,
    ensures
        portion_sum(a) == portion_sum(b),
    decreases a.len(),
{
    if a.len() > 0 {
        lemma_same_portions(a.drop_last(), b.drop_last());
    }
}

} // verus!
