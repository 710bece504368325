use vstd::prelude::*;

use crate::geometry::Rectangle;
use crate::layout::{LayoutDirection, Type as LayoutType};

verus! {

/// Fixed-point denominator of a portion: a child whose `portion` equals this
/// constant takes the whole main axis of its parent.
pub const PORTION_SCALE: u64 = 1_000_000;

/// Interaction state of a container.
#[derive(Debug, Clone, Copy, PartialEq, Eq, Structural)]
pub enum Mode {
    Normal,
    Fullscreen,
    /// A border drag is in progress: index of the child right of (or below) the
    /// border, and the pointer position where the drag started.
    Resize(usize, i32, i32),
    Layout,
}

/// What a container stands for.
#[derive(Debug, Clone, Copy, PartialEq, Eq, Structural)]
pub enum Type {
    /// A leaf wrapping a client window.
    App,
    /// An internal split or tab node.
    Container,
    /// The root of a workspace.
    Workspace,
}

/// A node of the window tree. Every node owns one on-screen window, `id`.
pub struct Container {
    pub id: u64,
    pub visible: bool,
    pub titlebar_height: u32,
    pub clients: Vec<Container>,
    pub mode: Mode,
    pub category: Type,
    pub titlebar: Option<Rectangle>,
    /// Share of the parent's main axis, in units of `1 / PORTION_SCALE`.
    pub portion: u64,
    /// Geometry last given to this node's window, relative to its parent.
    pub rect: Rectangle,
    pub layout: LayoutType,
    pub direction: LayoutDirection,
}

/// Sum of the portions of a sequence of siblings.
pub open spec fn portion_sum(s: Seq<Container>) -> int
    decreases s.len(),
{
    if s.len() == 0 {
        0
    } else {
        portion_sum(s.drop_last()) + s.last().portion
    }
}

/// Sum of the portions of the first `k` siblings.
pub open spec fn prefix_sum(s: Seq<Container>, k: int) -> int {
    portion_sum(s.take(k))
}

/// The `j`-th share when the prefix sums of `s` are scaled by `num / den` and
/// rounded down: the shares then add up to the rounded scaled total exactly.
pub open spec fn rescaled(s: Seq<Container>, j: int, num: int, den: int) -> int {
    prefix_sum(s, j + 1) * num / den - prefix_sum(s, j) * num / den
}

/// The `j`-th of `m` even shares of the whole axis.
pub open spec fn even_share(j: int, m: int) -> int {
    (j + 1) * PORTION_SCALE / m - j * PORTION_SCALE / m
}

/// `a` and `b` agree on everything but their portion.
pub open spec fn same_but_portion(a: Container, b: Container) -> bool {
    &&& a.id == b.id
    &&& a.visible == b.visible
    &&& a.titlebar_height == b.titlebar_height
    &&& a.clients == b.clients
    &&& a.mode == b.mode
    &&& a.category == b.category
    &&& a.titlebar == b.titlebar
    &&& a.rect == b.rect
    &&& a.layout == b.layout
    &&& a.direction == b.direction
}

/// `a` and `b` agree on everything but their children.
pub open spec fn same_but_clients(a: Container, b: Container) -> bool {
    &&& a.id == b.id
    &&& a.visible == b.visible
    &&& a.titlebar_height == b.titlebar_height
    &&& a.mode == b.mode
    &&& a.category == b.category
    &&& a.titlebar == b.titlebar
    &&& a.portion == b.portion
    &&& a.rect == b.rect
    &&& a.layout == b.layout
    &&& a.direction == b.direction
}

pub proof fn lemma_prefix_step(s: Seq<Container>, k: int)
    requires
        0 <= k < s.len(),
    ensures
        prefix_sum(s, k + 1) == prefix_sum(s, k) + s[k].portion,
{
    assert(s.take(k + 1).drop_last() =~= s.take(k));
}

pub proof fn lemma_prefix_full(s: Seq<Container>)
    ensures
        prefix_sum(s, s.len() as int) == portion_sum(s),
{
    assert(s.take(s.len() as int) =~= s);
}

pub proof fn lemma_prefix_mono(s: Seq<Container>, j: int, k: int)
    requires
        0 <= j <= k <= s.len(),
    ensures
        prefix_sum(s, j) <= prefix_sum(s, k),
    decreases k - j,
{
    if j < k {
        lemma_prefix_mono(s, j, k - 1);
        lemma_prefix_step(s, k - 1);
    }
}

pub proof fn lemma_sum_concat(a: Seq<Container>, b: Seq<Container>)
    ensures
        portion_sum(a + b) == portion_sum(a) + portion_sum(b),
    decreases b.len(),
{
    if b.len() > 0 {
        lemma_sum_concat(a, b.drop_last());
        assert((a + b).drop_last() =~= a + b.drop_last());
    } else {
        assert(a + b =~= a);
    }
}

pub proof fn lemma_sum_insert(s: Seq<Container>, i: int, x: Container)
    requires
        0 <= i <= s.len(),
    ensures
        portion_sum(s.insert(i, x)) == portion_sum(s) + x.portion,
{
    let a = s.take(i);
    let b = s.skip(i);
    assert(s =~= a + b);
    assert(s.insert(i, x) =~= a + (seq![x] + b));
    lemma_sum_concat(a, b);
    lemma_sum_concat(a, seq![x] + b);
    lemma_sum_concat(seq![x], b);
    assert(seq![x].drop_last() =~= Seq::<Container>::empty());
    assert(seq![x].last() == x);
    assert(portion_sum(Seq::<Container>::empty()) == 0);
    assert(portion_sum(seq![x]) == x.portion);
}

pub proof fn lemma_sum_remove(s: Seq<Container>, i: int)
    requires
        0 <= i < s.len(),
    ensures
        portion_sum(s.remove(i)) == portion_sum(s) - s[i].portion,
{
    assert(s.remove(i).insert(i, s[i]) =~= s);
    lemma_sum_insert(s.remove(i), i, s[i]);
}

pub proof fn lemma_sum_update(s: Seq<Container>, i: int, x: Container)
    requires
        0 <= i < s.len(),
    ensures
        portion_sum(s.update(i, x)) == portion_sum(s) - s[i].portion + x.portion,
{
    assert(s.update(i, x) =~= s.remove(i).insert(i, x));
    lemma_sum_remove(s, i);
    lemma_sum_insert(s.remove(i), i, x);
}

pub proof fn lemma_sum_nonneg(s: Seq<Container>)
    ensures
        portion_sum(s) >= 0,
    decreases s.len(),
{
    if s.len() > 0 {
        lemma_sum_nonneg(s.drop_last());
    }
}

/// No child holds more than the sum of its siblings' portions and its own.
pub proof fn lemma_elem_le_sum(s: Seq<Container>, i: int)
    requires
        0 <= i < s.len(),
    ensures
        s[i].portion <= portion_sum(s),
{
    lemma_sum_remove(s, i);
    lemma_sum_nonneg(s.remove(i));
}

/// Well-formedness depends on the children alone.
pub proof fn lemma_wf_same_clients(a: Container, b: Container)
    requires
        a.clients == b.clients,
        a.wf(),
    ensures
        b.wf(),
{
}

impl Container {
    /// The children's portions fill their parent's main axis exactly.
    pub open spec fn portions_ok(self) -> bool {
        self.clients@.len() > 0 ==> portion_sum(self.clients@) == PORTION_SCALE
    }

    /// Well-formed: the portion invariant holds at every node of the tree.
    pub open spec fn wf(self) -> bool
        decreases self,
    {
        &&& self.portions_ok()
        &&& forall|i: int| #![trigger self.clients@[i]] 0 <= i < self.clients@.len() ==> self.clients@[i].wf()
    }

    /// `after` is `self` with `client` inserted at `index`: the old children
    /// are scaled by `n / (n + 1)` and the new one takes what is left.
    pub open spec fn inserted(self, index: int, client: Container, after: Container) -> bool {
        let n = self.clients@.len() as int;
        &&& same_but_clients(after, self)
        &&& after.clients@.len() == n + 1
        &&& same_but_portion(after.clients@[index], client)
        &&& after.clients@[index].portion == PORTION_SCALE - (PORTION_SCALE as int) * n / (n + 1)
        &&& forall|j: int|
            0 <= j < index ==> {
                &&& same_but_portion(after.clients@[j], #[trigger] self.clients@[j])
                &&& after.clients@[j].portion == rescaled(self.clients@, j, n, n + 1)
            }
        &&& forall|j: int|
            index <= j < n ==> {
                &&& same_but_portion(after.clients@[j + 1], #[trigger] self.clients@[j])
                &&& after.clients@[j + 1].portion == rescaled(self.clients@, j, n, n + 1)
            }
    }

    /// `i` is the first child whose window is `id`.
    pub open spec fn first_child(self, id: u64, i: int) -> bool {
        &&& 0 <= i < self.clients@.len()
        &&& self.clients@[i].id == id
        &&& forall|j: int| 0 <= j < i ==> self.clients@[j].id != id
    }

    /// Whether some direct child has the window `id`.
    pub open spec fn has_child(self, id: u64) -> bool {
        exists|j: int| 0 <= j < self.clients@.len() && self.clients@[j].id == id
    }

    /// `after` is `self` without its child at `index`: the remaining children
    /// are scaled by `1 / (1 - removed portion)`; if the removed child held the
    /// whole axis, the remaining ones share it evenly.
    pub open spec fn removed(self, index: int, after: Container) -> bool {
        let s = self.clients@.remove(index);
        let m = s.len() as int;
        let t = PORTION_SCALE - self.clients@[index].portion;
        &&& same_but_clients(after, self)
        &&& after.clients@.len() == m
        &&& forall|j: int|
            0 <= j < m ==> {
                &&& same_but_portion(after.clients@[j], #[trigger] s[j])
                &&& after.clients@[j].portion == if t > 0 {
                    rescaled(s, j, PORTION_SCALE as int, t)
                } else {
                    even_share(j, m)
                }
            }
    }

    /// Moving `step` of the axis from the child at `neighbor` to the child at
    /// `index` is allowed: both exist, differ, and keep a positive portion.
    pub open spec fn can_shift(self, index: int, neighbor: int, step: int) -> bool {
        &&& 0 <= index < self.clients@.len()
        &&& 0 <= neighbor < self.clients@.len()
        &&& index != neighbor
        &&& self.clients@[index].portion + step > 0
        &&& self.clients@[neighbor].portion - step > 0
    }

    /// `after` is `self` with each child's portion changed by `delta(j)`.
    pub open spec fn shifted(self, delta: spec_fn(int) -> int, after: Container) -> bool {
        &&& same_but_clients(after, self)
        &&& after.clients@.len() == self.clients@.len()
        &&& forall|j: int|
            0 <= j < self.clients@.len() ==> {
                &&& same_but_portion(after.clients@[j], #[trigger] self.clients@[j])
                &&& after.clients@[j].portion == self.clients@[j].portion + delta(j)
            }
    }

    /// A container whose frame window is `id`, with no children.
    pub open spec fn fresh(self, id: u64, category: Type) -> bool {
        &&& self.id == id
        &&& !self.visible
        &&& self.titlebar_height == 0
        &&& self.clients@.len() == 0
        &&& self.mode == Mode::Normal
        &&& self.category == category
        &&& self.titlebar == None::<Rectangle>
        &&& self.portion == PORTION_SCALE
        &&& self.layout == LayoutType::Tiling
        &&& self.direction == LayoutDirection::Horizontal
    }

    /// A new internal node around the frame window `id`, covering `rect`.
    pub fn new(id: u64, rect: Rectangle) -> (r: Container)
        ensures
            r.fresh(id, Type::Container),
            r.rect == rect,
            r.portions_ok(),
    {
        Container {
            id,
            visible: false,
            titlebar_height: 0,
            clients: Vec::new(),
            mode: Mode::Normal,
            category: Type::Container,
            titlebar: None,
            portion: PORTION_SCALE,
            rect,
            layout: LayoutType::Tiling,
            direction: LayoutDirection::Horizontal,
        }
    }

    /// A new leaf for the client window `id`.
    pub fn from_id(id: u64) -> (r: Container)
        ensures
            r.fresh(id, Type::App),
            r.rect == (Rectangle { x: 0, y: 0, width: 0, height: 0 }),
            r.portions_ok(),
    {
        Container {
            id,
            visible: false,
            titlebar_height: 0,
            clients: Vec::new(),
            mode: Mode::Normal,
            category: Type::App,
            titlebar: None,
            portion: PORTION_SCALE,
            rect: Rectangle { x: 0, y: 0, width: 0, height: 0 },
            layout: LayoutType::Tiling,
            direction: LayoutDirection::Horizontal,
        }
    }

    /// The frame window of this node.
    pub fn raw_id(&self) -> (r: u64)
        ensures
            r == self.id,
    {
        self.id
    }

    /// Whether this node's window may be destroyed: only once it has no
    /// children. The display does the destroying.
    pub fn destroy(&self) -> (r: bool)
        ensures
            r == (self.clients@.len() == 0),
    {
        self.clients.len() == 0
    }

    pub fn is_empty(&self) -> (r: bool)
        ensures
            r == (self.clients@.len() == 0),
    {
        self.clients.len() == 0
    }

    pub fn size(&self) -> (r: usize)
        ensures
            r == self.clients@.len(),
    {
        self.clients.len()
    }

    /// Scales the prefix sums of the children's portions by `num / den`,
    /// rounding each prefix sum down and giving each child the difference.
    fn rescale_children(&mut self, num: u128, den: u128)
        requires
            den > 0,
            den <= 0x1_0000_0000_0000_0000,
            num <= den * PORTION_SCALE,
            portion_sum(old(self).clients@) <= PORTION_SCALE,
        ensures
            same_but_clients(*final(self), *old(self)),
            final(self).clients@.len() == old(self).clients@.len(),
            forall|j: int|
                0 <= j < old(self).clients@.len() ==> {
                    &&& same_but_portion(#[trigger] final(self).clients@[j], old(self).clients@[j])
                    &&& final(self).clients@[j].portion == rescaled(old(self).clients@, j, num as int, den as int)
                },
            portion_sum(final(self).clients@) == portion_sum(old(self).clients@) * (num as int) / (den as int),
    {
        let ghost s0 = self.clients@;
        let n = self.clients.len();
        let mut sum: u64 = 0;
        let mut scaled: u64 = 0;
        let mut j: usize = 0;
        proof {
            lemma_prefix_full(s0);
            assert(s0.take(0) =~= Seq::<Container>::empty());
        }
        while j < n
            invariant
                n == s0.len(),
                j <= n,
                same_but_clients(*self, *old(self)),
                s0 == old(self).clients@,
                self.clients@.len() == n,
                den > 0,
                num <= den * PORTION_SCALE,
                den <= 0x1_0000_0000_0000_0000,
                portion_sum(s0) <= PORTION_SCALE,
                sum == prefix_sum(s0, j as int),
                scaled == prefix_sum(s0, j as int) * (num as int) / (den as int),
                prefix_sum(self.clients@, j as int) == scaled,
                forall|k: int| j <= k < n ==> self.clients@[k] == s0[k],
                forall|k: int|
                    0 <= k < j ==> {
                        &&& same_but_portion(#[trigger] self.clients@[k], s0[k])
                        &&& self.clients@[k].portion == rescaled(s0, k, num as int, den as int)
                    },
            decreases n - j,
        {
            proof {
                lemma_prefix_step(s0, j as int);
                lemma_prefix_mono(s0, j as int + 1, n as int);
                lemma_prefix_full(s0);
                lemma_prefix_mono(s0, 0, j as int);
                assert(s0.take(0) =~= Seq::<Container>::empty());
            }
            let next: u64 = sum + self.clients[j].portion;
            proof {
                let p = next as int;
                let q = sum as int;
                let a = num as int;
                let d = den as int;
                let big = PORTION_SCALE as int;
                assert(p <= big);
                assert(q <= p);
                assert(p * a <= big * (d * big)) by (nonlinear_arith)
                    requires p <= big, 0 <= p, 0 <= a <= d * big;
                assert(p * a / d <= big * big) by (nonlinear_arith)
                    requires p * a <= big * (d * big), d > 0, 0 <= p * a;
                assert(q * a / d <= p * a / d) by (nonlinear_arith)
                    requires 0 <= q <= p, 0 <= a, d > 0;
                assert(p * a <= big * (0x1_0000_0000_0000_0000 * big)) by (nonlinear_arith)
                    requires 0 <= p <= big, 0 <= a <= d * big, d <= 0x1_0000_0000_0000_0000;
            }
            let next_scaled: u128 = (next as u128) * num / den;
            let next_scaled: u64 = next_scaled as u64;
            let share: u64 = next_scaled - scaled;
            let ghost before = self.clients@;
            self.clients[j].portion = share;
            proof {
                assert(self.clients@.take(j as int) =~= before.take(j as int));
                lemma_prefix_step(self.clients@, j as int);
            }
            sum = next;
            scaled = next_scaled;
            j = j + 1;
        }
        proof {
            lemma_prefix_full(self.clients@);
            lemma_prefix_full(s0);
        }
    }

    proof fn lemma_inserted_wf(before: Container, index: int, client: Container, after: Container)
        requires
            0 <= index <= before.clients@.len(),
            before.inserted(index, client, after),
            after.portions_ok(),
            before.wf(),
            client.wf(),
        ensures
            after.wf(),
    {
        let s0 = before.clients@;
        assert(forall|i: int| 0 <= i < s0.len() ==> #[trigger] s0[i].wf());
        assert forall|i: int| 0 <= i < after.clients@.len() implies (#[trigger] after.clients@[i]).wf() by {
            if i < index {
                assert(same_but_portion(after.clients@[i], s0[i]));
                lemma_wf_same_clients(s0[i], after.clients@[i]);
            } else if i > index {
                assert(same_but_portion(after.clients@[i], s0[i - 1]));
                lemma_wf_same_clients(s0[i - 1], after.clients@[i]);
            } else {
                lemma_wf_same_clients(client, after.clients@[i]);
            }
        }
    }

    /// Appends `client` as the last child.
    pub fn add(&mut self, client: Container)
        requires
            old(self).portions_ok(),
        ensures
            old(self).inserted(old(self).clients@.len() as int, client, *final(self)),
            final(self).portions_ok(),
            old(self).wf() && client.wf() ==> final(self).wf(),
    {
        let n = self.clients.len();
        self.insert(n, client);
    }

    /// Inserts `client` as the child at `index`.
    #[verifier::rlimit(30)]
    pub fn insert(&mut self, index: usize, client: Container)
        requires
            old(self).portions_ok(),
            index <= old(self).clients@.len(),
        ensures
            old(self).inserted(index as int, client, *final(self)),
            final(self).portions_ok(),
            old(self).wf() && client.wf() ==> final(self).wf(),
    {
        let ghost s0 = self.clients@;
        let n = self.clients.len();
        let mut client = client;
        let ghost c0 = client;
        if n == 0 {
            client.portion = PORTION_SCALE;
            self.clients.insert(index, client);
            proof {
                lemma_sum_insert(s0, index as int, client);
                assert(s0 =~= Seq::<Container>::empty());
                assert(portion_sum(s0) == 0);
            }
        } else {
            let ghost mid = *self;
            self.rescale_children(n as u128, n as u128 + 1);
            proof {
                let big = PORTION_SCALE as int;
                let m = n as int;
                assert(big * m / (m + 1) <= big) by (nonlinear_arith)
                    requires m >= 0, big >= 0;
            }
            let share: u64 = PORTION_SCALE - (((PORTION_SCALE as u128) * (n as u128) / (n as u128 + 1)) as u64);
            client.portion = share;
            let ghost s1 = self.clients@;
            self.clients.insert(index, client);
            proof {
                lemma_sum_insert(s1, index as int, client);
                assert(portion_sum(s0) == PORTION_SCALE);
                assert(portion_sum(s1) == (PORTION_SCALE as int) * (n as int) / (n as int + 1));
                assert(portion_sum(self.clients@) == PORTION_SCALE);
                assert forall|j: int| 0 <= j < index implies self.clients@[j] == #[trigger] s1[j] by {}
                assert forall|j: int| index <= j < n implies self.clients@[j + 1] == #[trigger] s1[j] by {}
            }
        }
        proof {
            if old(self).wf() && c0.wf() {
                Container::lemma_inserted_wf(*old(self), index as int, c0, *self);
            }
        }
    }

    /// Gives the `m` children even shares of the whole axis.
    fn spread_evenly(&mut self)
        ensures
            same_but_clients(*final(self), *old(self)),
            final(self).clients@.len() == old(self).clients@.len(),
            forall|j: int|
                0 <= j < old(self).clients@.len() ==> {
                    &&& same_but_portion(#[trigger] final(self).clients@[j], old(self).clients@[j])
                    &&& final(self).clients@[j].portion == even_share(j, old(self).clients@.len() as int)
                },
            final(self).portions_ok(),
    {
        let ghost s0 = self.clients@;
        let m = self.clients.len();
        if m == 0 {
            return;
        }
        let mut j: usize = 0;
        proof {
            assert(self.clients@.take(0) =~= Seq::<Container>::empty());
            assert(portion_sum(Seq::<Container>::empty()) == 0);
            assert(0 * (PORTION_SCALE as int) / (m as int) == 0);
        }
        while j < m
            invariant
                m == s0.len(),
                m > 0,
                j <= m,
                same_but_clients(*self, *old(self)),
                s0 == old(self).clients@,
                self.clients@.len() == m,
                prefix_sum(self.clients@, j as int) == (j as int) * (PORTION_SCALE as int) / (m as int),
                forall|k: int| j <= k < m ==> self.clients@[k] == s0[k],
                forall|k: int|
                    0 <= k < j ==> {
                        &&& same_but_portion(#[trigger] self.clients@[k], s0[k])
                        &&& self.clients@[k].portion == even_share(k, m as int)
                    },
            decreases m - j,
        {
            proof {
                let a = j as int;
                let mm = m as int;
                let big = PORTION_SCALE as int;
                assert(a * big / mm <= (a + 1) * big / mm) by (nonlinear_arith)
                    requires 0 <= a, mm > 0, big >= 0;
                assert((a + 1) * big / mm <= big) by (nonlinear_arith)
                    requires 0 <= a < mm, big >= 0;
            }
            let share: u64 = (((j as u128 + 1) * (PORTION_SCALE as u128) / (m as u128)) - ((j as u128) * (PORTION_SCALE as u128) / (m as u128))) as u64;
            let ghost before = self.clients@;
            self.clients[j].portion = share;
            proof {
                assert(self.clients@.take(j as int) =~= before.take(j as int));
                lemma_prefix_step(self.clients@, j as int);
            }
            j = j + 1;
        }
        proof {
            lemma_prefix_full(self.clients@);
            if m > 0 {
                let mm = m as int;
                let big = PORTION_SCALE as int;
                assert(mm * big / mm == big) by (nonlinear_arith)
                    requires mm > 0;
            }
        }
    }

    /// Removes the child at `index`, renormalizing the remaining portions.
    /// An index past the end changes nothing.
    pub fn remove_by_index(&mut self, index: usize) -> (r: Option<Container>)
        requires
            old(self).portions_ok(),
        ensures
            final(self).portions_ok(),
            old(self).wf() ==> final(self).wf(),
            index < old(self).clients@.len() ==> {
                &&& r == Some(old(self).clients@[index as int])
                &&& old(self).removed(index as int, *final(self))
            },
            index >= old(self).clients@.len() ==> r.is_none() && *final(self) == *old(self),
    {
        if index >= self.clients.len() {
            return None;
        }
        let ghost s0 = self.clients@;
        proof {
            lemma_sum_remove(s0, index as int);
            lemma_prefix_full(s0);
            lemma_prefix_step(s0, index as int);
            lemma_prefix_mono(s0, index as int + 1, s0.len() as int);
            lemma_prefix_mono(s0, 0, index as int);
            assert(s0.take(0) =~= Seq::<Container>::empty());
        }
        let r = self.clients.remove(index);
        let ghost s1 = self.clients@;
        let rest: u64 = PORTION_SCALE - r.portion;
        if rest > 0 {
            self.rescale_children(PORTION_SCALE as u128, rest as u128);
            proof {
                let t = rest as int;
                let big = PORTION_SCALE as int;
                assert(t * big / t == big) by (nonlinear_arith)
                    requires t > 0;
            }
        } else {
            self.spread_evenly();
        }
        proof {
            if old(self).wf() {
                assert forall|i: int| 0 <= i < self.clients@.len() implies (#[trigger] self.clients@[i]).wf() by {
                    assert(same_but_portion(self.clients@[i], s1[i]));
                    assert(s1[i] == s0[if i < index { i } else { i + 1 }]);
                    lemma_wf_same_clients(s1[i], self.clients@[i]);
                }
            }
        }
        Some(r)
    }

    /// Removes the first direct child whose window is `id`.
    pub fn remove(&mut self, id: u64) -> (r: Option<Container>)
        requires
            old(self).portions_ok(),
        ensures
            final(self).portions_ok(),
            old(self).wf() ==> final(self).wf(),
            match r {
                Some(c) => exists|i: int| {
                    &&& #[trigger] old(self).first_child(id, i)
                    &&& c == old(self).clients@[i]
                    &&& old(self).removed(i, *final(self))
                },
                None => !old(self).has_child(id) && *final(self) == *old(self),
            },
    {
        match self.contain(id) {
            Some(index) => {
                let r = self.remove_by_index(index);
                proof {
                    assert(old(self).first_child(id, index as int));
                }
                r
            },
            None => None,
        }
    }

    /// Moves `step` units of the main axis from the child at `neighbor` to the
    /// child at `index` (a negative step moves them the other way). A shift that
    /// would leave either child with no positive portion is refused whole.
    pub fn resize_children(&mut self, index: usize, neighbor: usize, step: i64) -> (r: bool)
        requires
            old(self).portions_ok(),
        ensures
            r == old(self).can_shift(index as int, neighbor as int, step as int),
            r ==> old(self).shifted(
                |j: int| if j == index { step as int } else if j == neighbor { -step } else { 0 },
                *final(self),
            ),
            !r ==> *final(self) == *old(self),
            final(self).portions_ok(),
            old(self).wf() ==> final(self).wf(),
    {
        let n = self.clients.len();
        if index >= n || neighbor >= n || index == neighbor {
            return false;
        }
        let a: i128 = self.clients[index].portion as i128 + step as i128;
        let b: i128 = self.clients[neighbor].portion as i128 - step as i128;
        if a <= 0 || b <= 0 {
            return false;
        }
        let ghost s0 = self.clients@;
        proof {
            lemma_elem_le_sum(s0, index as int);
            lemma_elem_le_sum(s0, neighbor as int);
        }
        self.clients[index].portion = a as u64;
        let ghost s1 = self.clients@;
        self.clients[neighbor].portion = b as u64;
        proof {
            assert forall|j: int| 0 <= j < n implies {
                &&& same_but_portion(self.clients@[j], #[trigger] s0[j])
                &&& self.clients@[j].portion == s0[j].portion + (if j == index { step as int } else if j == neighbor { -step } else { 0 })
            } by {}
            lemma_sum_update(s0, index as int, s1[index as int]);
            lemma_sum_update(s1, neighbor as int, self.clients@[neighbor as int]);
            assert(s0.update(index as int, s1[index as int]) =~= s1);
            assert(s1.update(neighbor as int, self.clients@[neighbor as int]) =~= self.clients@);
            if old(self).wf() {
                assert forall|i: int| 0 <= i < self.clients@.len() implies (#[trigger] self.clients@[i]).wf() by {
                    lemma_wf_same_clients(s0[i], self.clients@[i]);
                }
            }
        }
        true
    }

    /// Half of `step`, rounded toward zero.
    pub open spec fn half_of(step: int) -> int {
        if step >= 0 {
            step / 2
        } else {
            -((-step) / 2)
        }
    }

    /// Whether the child at `index` can grow by `step` units: an inner child
    /// takes half of the step from each neighbor, an outer child takes all of
    /// it from its one neighbor, and no child may end with no positive portion.
    pub open spec fn can_resize_child(self, index: int, step: int) -> bool {
        let n = self.clients@.len();
        let half = Self::half_of(step);
        &&& 0 <= index < n
        &&& n >= 2
        &&& self.clients@[index].portion + step > 0
        &&& (0 < index < n - 1 ==> {
            &&& self.clients@[index - 1].portion - half > 0
            &&& self.clients@[index + 1].portion - (step - half) > 0
        })
        &&& (index == 0 ==> self.clients@[1].portion - step > 0)
        &&& (index == n - 1 && index > 0 ==> self.clients@[index - 1].portion - step > 0)
    }

    /// How much the portion of child `j` changes when the child at `index`
    /// grows by `step`: inner children take half of the step from each
    /// neighbor, outer ones all of it from their one neighbor.
    pub open spec fn resize_delta(self, index: int, step: int, j: int) -> int {
        let n = self.clients@.len() as int;
        let half = Self::half_of(step);
        if j == index {
            step
        } else if 0 < index < n - 1 && j == index - 1 {
            -half
        } else if 0 < index < n - 1 && j == index + 1 {
            half - step
        } else if index == 0 && j == 1 {
            -step
        } else if index == n - 1 && j == index - 1 {
            -step
        } else {
            0
        }
    }

    /// `after` is `self` with the child at `index` grown by `step` where that
    /// is allowed, and `self` unchanged where it is not.
    pub open spec fn child_resized(self, index: int, step: int, after: Container) -> bool {
        &&& self.can_resize_child(index, step) ==> self.shifted(|j: int| self.resize_delta(index, step, j), after)
        &&& !self.can_resize_child(index, step) ==> after == self
    }

    /// Grows (or, with a negative step, shrinks) the child at `index` by `step`
    /// units of the main axis, taking them from its neighbors; all or nothing.
    #[verifier::rlimit(60)]
    pub fn resize_child(&mut self, index: usize, step: i64) -> (r: bool)
        requires
            old(self).portions_ok(),
            i64::MIN < step,
        ensures
            r == old(self).can_resize_child(index as int, step as int),
            old(self).child_resized(index as int, step as int, *final(self)),
            final(self).portions_ok(),
            old(self).wf() ==> final(self).wf(),
    {
        let n = self.clients.len();
        if index >= n || n < 2 {
            return false;
        }
        let own: i128 = self.clients[index].portion as i128 + step as i128;
        if own <= 0 {
            return false;
        }
        if index > 0 && index < n - 1 {
            let half: i64 = if step >= 0 { step / 2 } else { -((-step) / 2) };
            let rest: i64 = step - half;
            let left: i128 = self.clients[index - 1].portion as i128 - half as i128;
            let right: i128 = self.clients[index + 1].portion as i128 - rest as i128;
            if left <= 0 || right <= 0 {
                return false;
            }
            let ghost s0 = self.clients@;
            proof {
                lemma_elem_le_sum(s0, index as int);
                lemma_elem_le_sum(s0, index - 1);
                lemma_elem_le_sum(s0, index + 1);
            }
            self.clients[index].portion = own as u64;
            let ghost s1 = self.clients@;
            self.clients[index - 1].portion = left as u64;
            let ghost s2 = self.clients@;
            self.clients[index + 1].portion = right as u64;
            proof {
                lemma_sum_update(s0, index as int, s1[index as int]);
                lemma_sum_update(s1, index - 1, s2[index - 1]);
                lemma_sum_update(s2, index + 1, self.clients@[index + 1]);
                assert(s0.update(index as int, s1[index as int]) =~= s1);
                assert(s1.update(index - 1, s2[index - 1]) =~= s2);
                assert(s2.update(index + 1, self.clients@[index + 1]) =~= self.clients@);
                let half = Self::half_of(step as int);
                assert forall|j: int| 0 <= j < n implies {
                    &&& same_but_portion(self.clients@[j], #[trigger] s0[j])
                    &&& self.clients@[j].portion == s0[j].portion + (if j == index { step as int } else if j == index - 1 { -half } else if j == index + 1 { half - step } else { 0 })
                } by {}
                if old(self).wf() {
                    assert forall|i: int| 0 <= i < self.clients@.len() implies (#[trigger] self.clients@[i]).wf() by {
                        lemma_wf_same_clients(s0[i], self.clients@[i]);
                    }
                }
            }
            true
        } else {
            let other: usize = if index == 0 { 1 } else { index - 1 };
            self.resize_children(index, other, step)
        }
    }

    /// Index of the first direct child whose window is `id`.
    pub fn contain(&self, id: u64) -> (r: Option<usize>)
        ensures
            match r {
                Some(i) => {
                    &&& i < self.clients@.len()
                    &&& self.clients@[i as int].id == id
                    &&& forall|j: int| 0 <= j < i ==> self.clients@[j].id != id
                },
                None => forall|j: int| 0 <= j < self.clients@.len() ==> self.clients@[j].id != id,
            },
    {
        let mut i: usize = 0;
        while i < self.clients.len()
            invariant
                i <= self.clients@.len(),
                forall|j: int| 0 <= j < i ==> self.clients@[j].id != id,
            decreases self.clients@.len() - i,
        {
            if self.clients[i].id == id {
                return Some(i);
            }
            i = i + 1;
        }
        None
    }
}

} // verus!
