use vstd::prelude::*;

use crate::geometry::Rectangle;

verus! {

/// One box of the task bar: where it goes, the workspace key it shows, and
/// whether that workspace is current.
#[derive(Debug, Clone, Copy, PartialEq, Eq, Structural)]
pub struct Cell {
    pub rect: Rectangle,
    pub key: char,
    pub current: bool,
}

/// A strip listing the workspaces as square boxes, the current one marked.
pub struct TaskBar {
    pub height: u32,
    pub current: Option<char>,
    pub workspaces: Vec<char>,
}

impl TaskBar {
    pub fn new(height: u32) -> (r: TaskBar)
        ensures
            r.height == height,
            r.current.is_none(),
            r.workspaces@.len() == 0,
    {
        TaskBar { height, current: None, workspaces: Vec::new() }
    }

    /// Replaces the listed workspaces.
    pub fn load(&mut self, keys: Vec<char>)
        ensures
            final(self).workspaces@ == keys@,
            final(self).height == old(self).height,
            final(self).current == old(self).current,
    {
        self.workspaces = keys;
    }

    pub fn set_current(&mut self, current: char)
        ensures
            final(self).current == Some(current),
            final(self).height == old(self).height,
            final(self).workspaces@ == old(self).workspaces@,
    {
        self.current = Some(current);
    }

    /// The box of the `i`-th workspace: squares one pixel apart, inset by one
    /// pixel from the strip's edges.
    pub open spec fn cell(self, i: int) -> Cell {
        let side = if self.height >= 2 { self.height - 2 } else { 0 };
        Cell {
            rect: Rectangle { x: (i * (self.height + 1) + 1) as i32, y: 1, width: side as u32, height: side as u32 },
            key: self.workspaces@[i],
            current: self.current == Some(self.workspaces@[i]),
        }
    }

    /// The boxes to draw, one per listed workspace, in order.
    pub fn cells(&self) -> (r: Vec<Cell>)
        requires
            self.workspaces@.len() * (self.height + 1) + 1 <= i32::MAX,
        ensures
            r@.len() == self.workspaces@.len(),
            forall|i: int| 0 <= i < r@.len() ==> #[trigger] r@[i] == self.cell(i),
    {
        let n = self.workspaces.len();
        let side: u32 = if self.height >= 2 { self.height - 2 } else { 0 };
        let step: u64 = self.height as u64 + 1;
        let mut out: Vec<Cell> = Vec::new();
        let mut i: usize = 0;
        while i < n
            invariant
                n == self.workspaces@.len(),
                i <= n,
                step == self.height + 1,
                n * (self.height + 1) + 1 <= i32::MAX,
                side == if self.height >= 2 { self.height - 2 } else { 0 },
                out@.len() == i,
                forall|k: int| 0 <= k < i ==> #[trigger] out@[k] == self.cell(k),
            decreases n - i,
        {
            proof {
                let a = i as int;
                let b = step as int;
                let m = n as int;
                assert(a * b + 1 <= m * b + 1) by (nonlinear_arith)
                    requires 0 <= a < m, b >= 1;
            }
            let key = self.workspaces[i];
            let current = match self.current {
                Some(c) => c == key,
                None => false,
            };
            let x: u64 = (i as u64) * step + 1;
            let cell = Cell { rect: Rectangle { x: x as i32, y: 1, width: side, height: side }, key, current };
            assert(cell == self.cell(i as int));
            out.push(cell);
            assert(out@.len() == i + 1);
            i = i + 1;
        }
        out
    }
}

} // verus!
