use vstd::prelude::*;

use crate::geometry::Rectangle;
use crate::layout::Type;

verus! {

/// A direction: an axis to split along, or a way to move.
#[derive(Debug, Clone, Copy, PartialEq, Eq, Structural)]
pub enum Direction {
    Vertical,
    Horizontal,
    Up,
    Down,
    Left,
    Right,
}

/// Equal-share tiling of a whole screen: every window gets the same extent
/// along the split axis.
pub struct TilingLayout {
    pub direction: Direction,
}

impl TilingLayout {
    pub fn new(d: Direction) -> (r: TilingLayout)
        ensures
            r.direction == d,
    {
        TilingLayout { direction: d }
    }

    pub fn get_type(&self) -> (r: Type)
        ensures
            r == Type::Tiling,
    {
        Type::Tiling
    }

    /// Flips a vertical split to horizontal and back; other directions stay.
    pub fn toggle(&mut self)
        ensures
            final(self).direction == match old(self).direction {
                Direction::Vertical => Direction::Horizontal,
                Direction::Horizontal => Direction::Vertical,
                d => d,
            },
    {
        self.direction = match self.direction {
            Direction::Vertical => Direction::Horizontal,
            Direction::Horizontal => Direction::Vertical,
            d => d,
        };
    }

    /// The geometry of the `i`-th of `n` windows on a `width` by `height`
    /// screen: an equal share of the split axis, the whole other axis.
    pub open spec fn cell(self, i: int, n: int, width: int, height: int) -> Rectangle {
        match self.direction {
            Direction::Vertical => Rectangle {
                x: 0,
                y: (height / n * i) as i32,
                width: width as u32,
                height: (height / n) as u32,
            },
            Direction::Horizontal => Rectangle {
                x: (width / n * i) as i32,
                y: 0,
                width: (width / n) as u32,
                height: height as u32,
            },
            _ => Rectangle { x: 0, y: 0, width: width as u32, height: height as u32 },
        }
    }

    /// Geometry for `n` windows on a `width` by `height` screen, in order.
    pub fn configure(&self, n: usize, width: i32, height: i32) -> (r: Vec<Rectangle>)
        requires
            width >= 0,
            height >= 0,
        ensures
            r@.len() == n,
            forall|i: int| 0 <= i < n ==> #[trigger] r@[i] == self.cell(i, n as int, width as int, height as int),
    {
        let mut out: Vec<Rectangle> = Vec::new();
        if n == 0 {
            return out;
        }
        let w: u64 = width as u64 / n as u64;
        let h: u64 = height as u64 / n as u64;
        let mut i: usize = 0;
        while i < n
            invariant
                n > 0,
                i <= n,
                width >= 0,
                height >= 0,
                w == width as int / n as int,
                h == height as int / n as int,
                out@.len() == i,
                forall|k: int| 0 <= k < i ==> #[trigger] out@[k] == self.cell(k, n as int, width as int, height as int),
            decreases n - i,
        {
            proof {
                let a = width as int;
                let b = height as int;
                let m = n as int;
                let k = i as int;
                assert(a / m * k <= a) by (nonlinear_arith)
                    requires a >= 0, m > 0, 0 <= k < m;
                assert(b / m * k <= b) by (nonlinear_arith)
                    requires b >= 0, m > 0, 0 <= k < m;
                assert(a / m <= a) by (nonlinear_arith)
                    requires a >= 0, m > 0;
                assert(b / m <= b) by (nonlinear_arith)
                    requires b >= 0, m > 0;
            }
            let cell = match self.direction {
                Direction::Vertical => Rectangle {
                    x: 0,
                    y: (h * i as u64) as i32,
                    width: width as u32,
                    height: h as u32,
                },
                Direction::Horizontal => Rectangle {
                    x: (w * i as u64) as i32,
                    y: 0,
                    width: w as u32,
                    height: height as u32,
                },
                _ => Rectangle { x: 0, y: 0, width: width as u32, height: height as u32 },
            };
            out.push(cell);
            i = i + 1;
        }
        out
    }
}

} // verus!
