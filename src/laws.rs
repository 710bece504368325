use vstd::prelude::*;

use crate::container::{
    Container, PORTION_SCALE, prefix_sum, rescaled, same_but_clients, same_but_portion,
    lemma_prefix_full, lemma_prefix_mono, lemma_prefix_step, lemma_sum_nonneg,
};

verus! {

/// Scaling a prefix sum `p` by `n / (n + 1)` and then by `S / q`, with
/// `q = S n / (n + 1)` and each step rounded down, lands within two units of
/// `p`.
proof fn lemma_round_trip_bound(p: int, n: int)
    requires
        0 <= p <= PORTION_SCALE,
        n >= 1,
    ensures
        ({
            let big = PORTION_SCALE as int;
            let q = big * n / (n + 1);
            let h = (p * n / (n + 1)) * big / q;
            &&& q > 0
            &&& p - 2 <= h <= p + 2
        }),
{
    let big = PORTION_SCALE as int;
    let m = n + 1;
    let a = p * n / m;
    let q = big * n / m;
    assert(m * a <= p * n && p * n < m * (a + 1)) by (nonlinear_arith)
        requires m > 0, a == p * n / m;
    assert(m * q <= big * n && big * n < m * (q + 1)) by (nonlinear_arith)
        requires m > 0, q == big * n / m;
    assert(q > 0) by (nonlinear_arith)
        requires big * n < m * (q + 1), m == n + 1, n >= 1, big == PORTION_SCALE;
    assert(a >= 0) by (nonlinear_arith)
        requires a == p * n / m, p >= 0, n >= 1, m > 0;
    let h = a * big / q;
    assert(q * h <= a * big && a * big < q * (h + 1)) by (nonlinear_arith)
        requires q > 0, h == a * big / q;
    if h >= p + 3 {
        assert(q * (p + 3) <= a * big) by (nonlinear_arith)
            requires q * h <= a * big, h >= p + 3, q > 0;
        assert(m * (q * (p + 3)) <= p * n * big) by (nonlinear_arith)
            requires q * (p + 3) <= a * big, m * a <= p * n, m > 0, big > 0;
        assert((big * n - m) * (p + 3) < m * (q * (p + 3))) by (nonlinear_arith)
            requires big * n < m * (q + 1), p + 3 > 0;
        assert(3 * big * n < m * (p + 3)) by (nonlinear_arith)
            requires (big * n - m) * (p + 3) < p * n * big;
        assert(m * (p + 3) <= m * (big + 3)) by (nonlinear_arith)
            requires p <= big, m > 0;
        assert(false) by (nonlinear_arith)
            requires 3 * big * n < m * (big + 3), m == n + 1, n >= 1, big == PORTION_SCALE;
    }
    if h <= p - 3 {
        assert(a * big < q * (p - 2)) by (nonlinear_arith)
            requires a * big < q * (h + 1), h + 1 <= p - 2, q > 0;
        assert(m * (a * big) < big * n * (p - 2)) by (nonlinear_arith)
            requires a * big < q * (p - 2), m * q <= big * n, m > 0, p - 2 >= 0, q > 0;
        assert((p * n - m) * big < m * (a * big)) by (nonlinear_arith)
            requires p * n < m * (a + 1), big > 0;
        assert(false) by (nonlinear_arith)
            requires (p * n - m) * big < big * n * (p - 2), m == n + 1, n >= 1, big > 0;
    }
}

/// The prefix sums of the children after an append are the old prefix sums
/// scaled by `n / (n + 1)`, rounded down.
proof fn lemma_prefix_after_add(c0: Container, x: Container, c1: Container, j: int)
    requires
        c0.inserted(c0.clients@.len() as int, x, c1),
        0 <= j <= c0.clients@.len(),
    ensures
        ({
            let n = c0.clients@.len() as int;
            prefix_sum(c1.clients@, j) == prefix_sum(c0.clients@, j) * n / (n + 1)
        }),
    decreases j,
{
    let n = c0.clients@.len() as int;
    if j == 0 {
        assert(c1.clients@.take(0) =~= Seq::<Container>::empty());
        assert(c0.clients@.take(0) =~= Seq::<Container>::empty());
    } else {
        lemma_prefix_after_add(c0, x, c1, j - 1);
        lemma_prefix_step(c1.clients@, j - 1);
        assert(c1.clients@[j - 1].portion == rescaled(c0.clients@, j - 1, n, n + 1));
    }
}

/// Removing the last child after an append: the shares of what remains are
/// rounded rescalings of its own prefix sums.
proof fn lemma_prefix_remove_last(s: Seq<Container>, j: int)
    requires
        0 <= j <= s.len() - 1,
    ensures
        prefix_sum(s.remove(s.len() - 1), j) == prefix_sum(s, j),
{
    assert(s.remove(s.len() - 1).take(j) =~= s.take(j));
}

/// Adding a child and then removing it again gives every other child back its
/// former portion, up to four units of rounding, and changes nothing else.
pub proof fn lemma_add_remove_inverse(c0: Container, x: Container, c1: Container, c2: Container)
    requires
        c0.portions_ok(),
        c0.inserted(c0.clients@.len() as int, x, c1),
        c1.removed(c0.clients@.len() as int, c2),
    ensures
        same_but_clients(c2, c0),
        c2.clients@.len() == c0.clients@.len(),
        forall|j: int|
            0 <= j < c0.clients@.len() ==> {
                &&& same_but_portion(#[trigger] c2.clients@[j], c0.clients@[j])
                &&& c0.clients@[j].portion - 4 <= c2.clients@[j].portion <= c0.clients@[j].portion + 4
            },
{
    let n = c0.clients@.len() as int;
    let big = PORTION_SCALE as int;
    let s0 = c0.clients@;
    let s1 = c1.clients@;
    let s = s1.remove(n);
    if n == 0 {
        return;
    }
    lemma_prefix_full(s0);
    let q = big * n / (n + 1);
    lemma_round_trip_bound(0, n);
    assert(s1[n].portion == big - q);
    assert(PORTION_SCALE - s1[n].portion == q);
    assert forall|j: int| 0 <= j < n implies {
        &&& same_but_portion(#[trigger] c2.clients@[j], s0[j])
        &&& s0[j].portion - 4 <= c2.clients@[j].portion <= s0[j].portion + 4
    } by {
        assert(s[j] == s1[j]);
        lemma_prefix_after_add(c0, x, c1, j);
        lemma_prefix_after_add(c0, x, c1, j + 1);
        lemma_prefix_remove_last(s1, j);
        lemma_prefix_remove_last(s1, j + 1);
        lemma_prefix_step(s0, j);
        lemma_prefix_mono(s0, j + 1, n);
        lemma_sum_nonneg(s0.take(j));
        let upto = prefix_sum(s0, j);
        let through = prefix_sum(s0, j + 1);
        lemma_round_trip_bound(upto, n);
        lemma_round_trip_bound(through, n);
        assert(prefix_sum(s, j) == upto * n / (n + 1));
        assert(prefix_sum(s, j + 1) == through * n / (n + 1));
        assert(c2.clients@[j].portion == rescaled(s, j, big, q));
    }
}

} // verus!
