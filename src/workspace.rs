use vstd::prelude::*;

use crate::geometry::Rectangle;
use crate::layout::Type;
use crate::tiling::{Direction, TilingLayout};

verus! {

/// A flat workspace: an ordered list of windows tiled in equal shares, one of
/// which may hold the focus.
pub struct Workspace {
    pub screen_num: i32,
    pub focus: Option<u64>,
    /// Whether the windows are arranged for the current list.
    pub clean: bool,
    pub visible: bool,
    pub windows: Vec<u64>,
    pub layout: TilingLayout,
}

impl Workspace {
    /// The window list holds no window twice, and the focus, if any, is in it.
    pub open spec fn wf(self) -> bool {
        &&& self.windows@.no_duplicates()
        &&& match self.focus {
            Some(w) => self.windows@.contains(w),
            None => true,
        }
    }

    pub fn new(screen_num: i32) -> (r: Workspace)
        ensures
            r.wf(),
            r.screen_num == screen_num,
            r.windows@.len() == 0,
            r.focus.is_none(),
            r.clean,
            !r.visible,
            r.layout.direction == Direction::Horizontal,
    {
        Workspace {
            screen_num,
            focus: None,
            clean: true,
            visible: false,
            windows: Vec::new(),
            layout: TilingLayout::new(Direction::Horizontal),
        }
    }

    /// Position of `window` in the list.
    pub fn contain(&self, window: u64) -> (r: Option<usize>)
        ensures
            match r {
                Some(i) => i < self.windows@.len() && self.windows@[i as int] == window,
                None => !self.windows@.contains(window),
            },
    {
        let n = self.windows.len();
        let mut i: usize = 0;
        while i < n
            invariant
                n == self.windows@.len(),
                i <= n,
                forall|j: int| 0 <= j < i ==> self.windows@[j] != window,
            decreases n - i,
        {
            if self.windows[i] == window {
                return Some(i);
            }
            i = i + 1;
        }
        None
    }

    /// Appends `window` and focuses it, unless it is the display's root
    /// window `root` or already listed.
    pub fn add(&mut self, window: u64, root: u64) -> (r: bool)
        requires
            old(self).wf(),
        ensures
            final(self).wf(),
            r == (window != root && !old(self).windows@.contains(window)),
            r ==> final(self).windows@ == old(self).windows@.push(window) && final(self).focus == Some(window),
            !r ==> final(self).windows@ == old(self).windows@ && final(self).focus == old(self).focus,
    {
        if window == root {
            return false;
        }
        match self.contain(window) {
            Some(_) => false,
            None => {
                let ghost w0 = self.windows@;
                self.windows.push(window);
                self.focus = Some(window);
                proof {
                    assert(self.windows@ == w0.push(window));
                    assert(self.windows@[w0.len() as int] == window);
                    assert forall|a: int, b: int| 0 <= a < b < self.windows@.len() implies self.windows@[a] != self.windows@[b] by {
                        if b == w0.len() {
                            assert(w0.contains(w0[a]));
                        }
                    }
                }
                true
            },
        }
    }

    /// The window after `window`, wrapping around; `window` itself where it
    /// is not listed.
    pub fn next_window(&self, window: u64) -> (r: u64)
        requires
            self.wf(),
        ensures
            match self.contain_spec(window) {
                Some(i) => r == self.windows@[(i + 1) % self.windows@.len() as int],
                None => r == window,
            },
    {
        match self.contain(window) {
            Some(i) => {
                proof {
                    self.lemma_index_unique(window, i as int);
                    let n = self.windows@.len() as int;
                    let k = i as int;
                    if k + 1 == n {
                        assert((k + 1) % n == 0) by (nonlinear_arith)
                            requires k + 1 == n, n > 0;
                    } else {
                        assert((k + 1) % n == k + 1) by (nonlinear_arith)
                            requires 0 <= k, k + 1 < n;
                    }
                }
                let next: usize = if i == self.windows.len() - 1 { 0 } else { i + 1 };
                self.windows[next]
            },
            None => window,
        }
    }

    /// The window before `window`, wrapping around; `window` itself where it
    /// is not listed.
    pub fn last_window(&self, window: u64) -> (r: u64)
        requires
            self.wf(),
        ensures
            match self.contain_spec(window) {
                Some(i) => r == self.windows@[(i + self.windows@.len() - 1) % self.windows@.len() as int],
                None => r == window,
            },
    {
        match self.contain(window) {
            Some(i) => {
                proof {
                    self.lemma_index_unique(window, i as int);
                    let n = self.windows@.len() as int;
                    let k = i as int;
                    if k == 0 {
                        assert((k + n - 1) % n == n - 1) by (nonlinear_arith)
                            requires k == 0, n > 0;
                    } else {
                        assert((k + n - 1) % n == k - 1) by (nonlinear_arith)
                            requires 0 < k < n;
                    }
                }
                let last: usize = if i == 0 { self.windows.len() - 1 } else { i - 1 };
                self.windows[last]
            },
            None => window,
        }
    }

    /// Position of `window` in the list, if it is there.
    pub open spec fn contain_spec(self, window: u64) -> Option<int> {
        if self.windows@.contains(window) {
            Some(choose|i: int| 0 <= i < self.windows@.len() && self.windows@[i] == window)
        } else {
            None
        }
    }

    /// A listed window has one position.
    pub proof fn lemma_index_unique(self, window: u64, i: int)
        requires
            self.wf(),
            0 <= i < self.windows@.len(),
            self.windows@[i] == window,
        ensures
            self.contain_spec(window) == Some(i),
    {
        assert(self.windows@.contains(window));
        let j = choose|j: int| 0 <= j < self.windows@.len() && self.windows@[j] == window;
        assert(j == i);
    }

    pub fn get(&self, index: usize) -> (r: u64)
        requires
            index < self.windows@.len(),
        ensures
            r == self.windows@[index as int],
    {
        self.windows[index]
    }

    pub fn size(&self) -> (r: usize)
        ensures
            r == self.windows@.len(),
    {
        self.windows.len()
    }

    pub fn get_focus(&self) -> (r: Option<u64>)
        ensures
            r == self.focus,
    {
        self.focus
    }

    /// Focuses `window` where it is listed, or clears the focus for `None`;
    /// returns whether the focus was set. The display moves the input focus
    /// only while the workspace is visible.
    pub fn set_focus(&mut self, window: Option<u64>) -> (r: bool)
        requires
            old(self).wf(),
        ensures
            final(self).wf(),
            final(self).windows@ == old(self).windows@,
            r == match window {
                Some(w) => old(self).windows@.contains(w),
                None => true,
            },
            r ==> final(self).focus == window,
            !r ==> final(self).focus == old(self).focus,
            final(self).visible == old(self).visible,
    {
        match window {
            Some(w) => match self.contain(w) {
                Some(_) => {
                    self.focus = window;
                    true
                },
                None => false,
            },
            None => {
                self.focus = None;
                true
            },
        }
    }

    /// Removes `window`; where it held the focus, the focus passes to the
    /// next window, or is cleared if none is left.
    pub fn remove(&mut self, window: u64) -> (r: bool)
        requires
            old(self).wf(),
        ensures
            final(self).wf(),
            r == old(self).windows@.contains(window),
            r ==> exists|i: int| {
                &&& 0 <= i < old(self).windows@.len()
                &&& #[trigger] old(self).windows@[i] == window
                &&& final(self).windows@ == old(self).windows@.remove(i)
                &&& final(self).focus == if old(self).focus == Some(window) {
                    if old(self).windows@.len() == 1 {
                        None
                    } else {
                        Some(old(self).windows@[(i + 1) % old(self).windows@.len() as int])
                    }
                } else {
                    old(self).focus
                }
            },
            !r ==> final(self).windows@ == old(self).windows@ && final(self).focus == old(self).focus,
    {
        match self.contain(window) {
            Some(i) => {
                let ghost w0 = self.windows@;
                if self.focus == Some(window) {
                    let next = self.next_window(window);
                    proof {
                        self.lemma_index_unique(window, i as int);
                        let n = w0.len() as int;
                        let k = i as int;
                        if n > 1 {
                            assert((k + 1) % n != k) by (nonlinear_arith)
                                requires 0 <= k < n, n > 1;
                            assert(0 <= (k + 1) % n < n) by (nonlinear_arith)
                                requires 0 <= k < n, n > 1;
                        } else {
                            assert((k + 1) % n == k) by (nonlinear_arith)
                                requires k == 0, n == 1;
                        }
                    }
                    if next == window {
                        self.focus = None;
                    } else {
                        self.focus = Some(next);
                    }
                }
                self.windows.remove(i);
                proof {
                    assert(old(self).windows@[i as int] == window);
                    assert forall|a: int, b: int| 0 <= a < b < self.windows@.len() implies self.windows@[a] != self.windows@[b] by {
                        let oa = if a < i { a } else { a + 1 };
                        let ob = if b < i { b } else { b + 1 };
                        assert(self.windows@[a] == w0[oa]);
                        assert(self.windows@[b] == w0[ob]);
                    }
                    match self.focus {
                        Some(f) => {
                            let j = choose|j: int| 0 <= j < w0.len() && w0[j] == f;
                            assert(j != i);
                            let nj = if j < i { j } else { j - 1 };
                            assert(self.windows@[nj] == f);
                        },
                        None => {},
                    }
                }
                true
            },
            None => false,
        }
    }

    /// Marks the workspace hidden; the display unmaps its windows.
    pub fn set_hidden(&mut self)
        ensures
            !final(self).visible,
            final(self).windows@ == old(self).windows@,
            final(self).focus == old(self).focus,
    {
        self.visible = false;
    }

    /// Marks the workspace shown and returns the window the display should
    /// focus: the workspace's focus, or none (the root window).
    pub fn show(&mut self) -> (r: Option<u64>)
        ensures
            final(self).visible,
            r == old(self).focus,
            final(self).windows@ == old(self).windows@,
            final(self).focus == old(self).focus,
    {
        self.visible = true;
        self.focus
    }

    /// Asking for the layout in use flips its split direction; another
    /// layout starts split horizontally.
    pub fn change_layout(&mut self, layout_type: Type)
        ensures
            layout_type == Type::Tiling ==> final(self).layout.direction == match old(self).layout.direction {
                Direction::Vertical => Direction::Horizontal,
                Direction::Horizontal => Direction::Vertical,
                d => d,
            },
            layout_type != Type::Tiling ==> final(self).layout.direction == Direction::Horizontal,
            final(self).windows@ == old(self).windows@,
            final(self).focus == old(self).focus,
    {
        if self.layout.get_type() == layout_type {
            self.layout.toggle();
        } else {
            self.layout = TilingLayout::new(Direction::Horizontal);
        }
    }

    /// Geometry for every window on a `width` by `height` screen, in list
    /// order; the workspace is then clean.
    pub fn config(&mut self, width: i32, height: i32) -> (r: Vec<Rectangle>)
        requires
            width >= 0,
            height >= 0,
        ensures
            final(self).clean,
            r@.len() == old(self).windows@.len(),
            forall|i: int| 0 <= i < r@.len() ==> #[trigger] r@[i] == old(self).layout.cell(i, r@.len() as int, width as int, height as int),
            final(self).windows@ == old(self).windows@,
            final(self).focus == old(self).focus,
    {
        let cells = self.layout.configure(self.windows.len(), width, height);
        self.clean = true;
        cells
    }
}

} // verus!
