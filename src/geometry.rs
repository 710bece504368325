use vstd::prelude::*;

verus! {

/// An axis-aligned rectangle on the screen.
#[derive(Debug, Clone, Copy, PartialEq, Eq, Structural)]
pub struct Rectangle {
    pub x: i32,
    pub y: i32,
    pub width: u32,
    pub height: u32,
}

impl Rectangle {
    /// Whether the point lies in the rectangle, borders included.
    pub open spec fn spec_contain(self, x: int, y: int) -> bool {
        &&& self.x <= x <= self.x + self.width
        &&& self.y <= y <= self.y + self.height
    }

    /// Inclusive point containment test, used to route clicks on title bars.
    pub fn contain(&self, x: i32, y: i32) -> (r: bool)
        ensures
            r == self.spec_contain(x as int, y as int),
    {
        let right: i64 = self.x as i64 + self.width as i64;
        let bottom: i64 = self.y as i64 + self.height as i64;
        x >= self.x && (x as i64) <= right && y >= self.y && (y as i64) <= bottom
    }
}

} // verus!
