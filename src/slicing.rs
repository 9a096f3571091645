//! Which slices of a volume are taken along an axis.
use vstd::arithmetic::div_mod::lemma_fundamental_div_mod_converse;
use vstd::prelude::*;

verus! {

/// Denominator of the fractions of an [`IndexWindow`]: they are thousandths.
pub const WINDOW_SCALE: u32 = 1000;

/// The part of an axis from which slices are taken, as the fractions
/// `min_permille / 1000` and `max_permille / 1000` of the axis' width.
#[derive(Clone, Copy, Debug, PartialEq, Eq, Structural)]
pub struct IndexWindow {
    pub min_permille: u32,
    pub max_permille: u32,
}

/// A window is usable when it is not empty and stays inside the axis.
pub open spec fn window_valid(w: IndexWindow) -> bool {
    w.min_permille < w.max_permille && w.max_permille <= WINDOW_SCALE
}

/// `n / m` rounded to the nearest integer, halves rounded up.
pub open spec fn round_div(n: int, m: int) -> int {
    (2 * n + m) / (2 * m)
}

/// Width, in thousandths of voxels, of the window on an axis `width` voxels wide.
pub open spec fn window_span(width: nat, w: IndexWindow) -> int {
    width * (w.max_permille - w.min_permille)
}

/// Whether `nb` slices spread over the window lie at least one voxel apart.
pub open spec fn step_at_least_one(width: nat, nb: nat, w: IndexWindow) -> bool {
    window_span(width, w) >= WINDOW_SCALE * (nb - 1)
}

/// How many slices are kept when the requested ones would lie closer than
/// one voxel: the count that a step of exactly one voxel allows.
pub open spec fn reduced_count(width: nat, nb: nat, w: IndexWindow) -> int {
    ((nb + 1) * window_span(width, w)) / (WINDOW_SCALE * (nb - 1))
}

/// Indices of the slices taken from an axis `width` voxels wide: the middle
/// of the window for one slice; otherwise `nb` indices evenly spread from
/// the start of the window to its end, or, where those would lie closer than
/// one voxel, consecutive indices from the start of the window.
pub open spec fn slice_indices(width: nat, nb: nat, w: IndexWindow) -> Seq<int> {
    let p = w.min_permille as int;
    let q = w.max_permille as int;
    let d = WINDOW_SCALE as int;
    if nb == 1 {
        seq![round_div(width * (p + q), 2 * d)]
    } else if step_at_least_one(width, nb, w) {
        Seq::new(nb, |i: int| round_div(i * window_span(width, w) + width * p * (nb - 1), d * (nb - 1)))
    } else {
        Seq::new(reduced_count(width, nb, w) as nat, |i: int| i + round_div(width * p, d))
    }
}

proof fn lemma_round_div_bound(n: int, m: int, k: int)
    requires
        0 <= n <= k * m,
        m > 0,
        k >= 0,
    ensures
        0 <= round_div(n, m) <= k,
{
    assert(2 * n + m <= k * (2 * m) + m) by (nonlinear_arith)
        requires n <= k * m;
    lemma_fundamental_div_mod_converse(k * (2 * m) + m, 2 * m, k, m);
    vstd::arithmetic::div_mod::lemma_div_is_ordered(2 * n + m, k * (2 * m) + m, 2 * m);
    vstd::arithmetic::div_mod::lemma_div_pos_is_pos(2 * n + m, 2 * m);
}

/// Indices of the `nb` slices taken from an axis `width` voxels wide.
pub fn build_indices(width: u16, nb: usize, w: IndexWindow) -> (r: Vec<usize>)
    requires
        nb >= 1,
        window_valid(w),
    ensures
        r@.len() == slice_indices(width as nat, nb as nat, w).len(),
        forall|i: int| 0 <= i < r@.len() ==> r@[i] as int == #[trigger] slice_indices(width as nat, nb as nat, w)[i],
{
    let ghost spec_r = slice_indices(width as nat, nb as nat, w);
    let p: u128 = w.min_permille as u128;
    let q: u128 = w.max_permille as u128;
    let d: u128 = WINDOW_SCALE as u128;
    let wd: u128 = width as u128;
    let mut out: Vec<usize> = Vec::new();
    proof {
        assert(wd * (p + q) <= 0xffff * 2000) by (nonlinear_arith)
            requires wd <= 0xffff, p + q <= 2000;
        assert(wd * (q - p) <= 0xffff * 1000) by (nonlinear_arith)
            requires wd <= 0xffff, p < q <= 1000;
        assert(wd * p <= 0xffff * 1000) by (nonlinear_arith)
            requires wd <= 0xffff, p <= 1000;
    }
    if nb == 1 {
        let n: u128 = wd * (p + q);
        let m: u128 = 2 * d;
        proof {
            assert(n <= wd * (2 * d)) by (nonlinear_arith) requires n == wd * (p + q), p + q <= 2 * d;
            lemma_round_div_bound(n as int, m as int, wd as int);
        }
        let v: u128 = (2 * n + m) / (2 * m);
        out.push(v as usize);
        assert(out@ =~= seq![v as usize]);
        return out;
    }
    let span: u128 = wd * (q - p);
    let den: u128 = d * (nb as u128 - 1);
    assert(span == window_span(width as nat, w));
    if span >= den {
        let mut i: usize = 0;
        proof {
            assert(nb - 1 <= wd) by (nonlinear_arith)
                requires span >= d * (nb - 1), span == wd * (q - p), q - p <= d, d == 1000;
        }
        while i < nb
            invariant
                i <= nb,
                nb >= 2,
                nb - 1 <= wd <= 0xffff,
                span == wd * (q - p),
                den == d * (nb - 1),
                d == 1000,
                p < q <= d,
                p == w.min_permille,
                q == w.max_permille,
                wd == width,
                wd * p <= 0xffff * 1000,
                spec_r == slice_indices(width as nat, nb as nat, w),
                step_at_least_one(width as nat, nb as nat, w),
                spec_r.len() == nb,
                out@.len() == i,
                forall|k: int| 0 <= k < i ==> out@[k] as int == #[trigger] spec_r[k],
            decreases nb - i,
        {
            let ghost gi = i as int;
            proof {
                assert(gi * span <= 0xffff * 0xffff * 1000) by (nonlinear_arith)
                    requires gi < nb, nb - 1 <= wd <= 0xffff, span == wd * (q - p), q - p <= 1000, p < q, gi >= 0;
                assert(wd * p * (nb - 1) <= 0xffff * 1000 * 0xffff) by (nonlinear_arith)
                    requires nb - 1 <= wd <= 0xffff, p <= 1000, nb >= 2;
            }
            let n: u128 = i as u128 * span + wd * p * (nb as u128 - 1);
            proof {
                assert(n <= wd * den) by (nonlinear_arith)
                    requires n == gi * span + wd * p * (nb - 1), gi <= nb - 1, span == wd * (q - p),
                        den == d * (nb - 1), q <= d, p < q, wd >= 0, nb >= 2;
                lemma_round_div_bound(n as int, den as int, wd as int);
            }
            let v: u128 = (2 * n + den) / (2 * den);
            out.push(v as usize);
            i += 1;
        }
        out
    } else {
        proof {
            assert((nb + 1) * span <= 0x1_0000_0000_0000_0000 * (0xffff * 1000)) by (nonlinear_arith)
                requires nb + 1 <= 0x1_0000_0000_0000_0000, span <= 0xffff * 1000, span >= 0;
        }
        let count: u128 = ((nb as u128 + 1) * span) / den;
        proof {
            assert(nb + 1 <= 3 * (nb - 1));
            assert(count * den <= (nb + 1) * span) by (nonlinear_arith)
                requires count == ((nb + 1) * span) as int / den as int, den > 0;
            assert(count * 1000 <= 3 * span) by (nonlinear_arith)
                requires count * den <= (nb + 1) * span, den == 1000 * (nb - 1), nb + 1 <= 3 * (nb - 1), nb >= 2,
                    span >= 0;
            assert(span <= 0xffff * 1000) by (nonlinear_arith)
                requires span == wd * (q - p), wd <= 0xffff, q - p <= 1000, p < q;
            assert(wd * p <= wd * 1000) by (nonlinear_arith) requires p <= 1000, wd >= 0;
            lemma_round_div_bound((wd * p) as int, 1000, wd as int);
        }
        let base: u128 = (2 * (wd * p) + d) / (2 * d);
        let count: usize = count as usize;
        let base: usize = base as usize;
        let mut i: usize = 0;
        while i < count
            invariant
                i <= count,
                count <= 3 * 0xffff,
                base <= 0xffff,
                base as int == round_div(width * w.min_permille, 1000),
                count as int == reduced_count(width as nat, nb as nat, w),
                spec_r == slice_indices(width as nat, nb as nat, w),
                nb >= 2,
                !step_at_least_one(width as nat, nb as nat, w),
                out@.len() == i,
                forall|k: int| 0 <= k < i ==> out@[k] as int == #[trigger] spec_r[k],
            decreases count - i,
        {
            out.push(i + base);
            i += 1;
        }
        out
    }
}

proof fn lemma_round_div_gap(n1: int, n2: int, m: int)
    requires
        m > 0,
        n1 >= 0,
        n2 - n1 >= m,
    ensures
        round_div(n2, m) >= round_div(n1, m) + 1,
{
    let a = 2 * n1 + m;
    let b = 2 * n2 + m;
    assert(b >= a + 2 * m);
    vstd::arithmetic::div_mod::lemma_div_is_ordered(a + 2 * m, b, 2 * m);
    vstd::arithmetic::div_mod::lemma_fundamental_div_mod(a, 2 * m);
    vstd::arithmetic::div_mod::lemma_mod_pos_bound(a, 2 * m);
    let qa = a / (2 * m);
    let ra = a % (2 * m);
    assert(a + 2 * m == (qa + 1) * (2 * m) + ra) by (nonlinear_arith)
        requires a == (2 * m) * qa + ra;
    lemma_fundamental_div_mod_converse(a + 2 * m, 2 * m, qa + 1, ra);
}

proof fn lemma_round_div_bracket(n: int, m: int)
    requires
        m > 0,
        n >= 0,
    ensures
        m * (2 * round_div(n, m) - 1) <= 2 * n < m * (2 * round_div(n, m) + 1),
{
    let q = round_div(n, m);
    vstd::arithmetic::div_mod::lemma_fundamental_div_mod(2 * n + m, 2 * m);
    vstd::arithmetic::div_mod::lemma_mod_pos_bound(2 * n + m, 2 * m);
    assert(m * (2 * q - 1) == (2 * m) * q - m) by (nonlinear_arith);
    assert(m * (2 * q + 1) == (2 * m) * q + m) by (nonlinear_arith);
}

proof fn lemma_round_div_monotonic(n1: int, n2: int, m: int)
    requires
        m > 0,
        0 <= n1 <= n2,
    ensures
        round_div(n1, m) <= round_div(n2, m),
{
    vstd::arithmetic::div_mod::lemma_div_is_ordered(2 * n1 + m, 2 * n2 + m, 2 * m);
}

/// With the window from three to seven tenths of the axis, a single slice
/// is the middle of the axis: `round(width / 2)`.
pub proof fn lemma_single_slice_is_middle(width: nat)
    ensures
        slice_indices(width, 1, IndexWindow { min_permille: 300, max_permille: 700 })
            == seq![round_div(width as int, 2)],
{
    let wi = width as int;
    let k = (wi + 1) / 2;
    let r = (wi + 1) % 2;
    vstd::arithmetic::div_mod::lemma_fundamental_div_mod(wi + 1, 2);
    lemma_fundamental_div_mod_converse(2 * (wi * 1000) + 2000, 4000, k, 2000 * r);
    lemma_fundamental_div_mod_converse(2 * wi + 2, 4, k, 2 * r);
}

/// Where the requested slices lie at least one voxel apart, the indices
/// rise strictly, each is the rounded position `i * step + min` along the
/// window, and they run from the rounded start of the window to its
/// rounded end.
pub proof fn lemma_spread_indices(width: nat, nb: nat, w: IndexWindow)
    requires
        nb > 1,
        window_valid(w),
        step_at_least_one(width, nb, w),
    ensures
        ({
            let s = slice_indices(width, nb, w);
            let d = WINDOW_SCALE as int;
            &&& s.len() == nb
            &&& forall|i: int| 0 <= i < nb ==> #[trigger] s[i] == round_div(
                i * window_span(width, w) + width * w.min_permille * (nb - 1),
                d * (nb - 1),
            )
            &&& forall|i: int, j: int| 0 <= i < j < nb ==> s[i] < s[j]
            &&& s[0] == round_div(width * w.min_permille, d)
            &&& s[nb - 1] == round_div(width * w.max_permille, d)
            &&& forall|i: int| 0 <= i < nb ==> round_div(width * w.min_permille, d) <= #[trigger] s[i]
                <= round_div(width * w.max_permille, d)
            &&& forall|i: int| 0 <= i < nb - 1 ==> {
                let gap = #[trigger] s[i + 1] - s[i];
                (gap - 1) * (d * (nb - 1)) < window_span(width, w) < (gap + 1) * (d * (nb - 1))
            }
        }),
{
    let s = slice_indices(width, nb, w);
    let d = WINDOW_SCALE as int;
    let p = w.min_permille as int;
    let q = w.max_permille as int;
    let span = window_span(width, w);
    let m = d * (nb - 1);
    let base = width * p * (nb - 1);
    let num = |i: int| i * span + base;
    assert(span >= 0) by (nonlinear_arith) requires span == width * (q - p), p < q;
    assert(base >= 0) by (nonlinear_arith) requires base == width * p * (nb - 1), p >= 0, nb > 1;
    assert forall|i: int, j: int| 0 <= i < j < nb implies s[i] < s[j] by {
        assert(num(i) >= 0) by (nonlinear_arith) requires num(i) == i * span + base, i >= 0, span >= 0, base >= 0;
        assert(num(i) == i * span + base);
        assert(num(j) == j * span + base);
        assert(num(j) - num(i) == (j - i) * span) by (nonlinear_arith)
            requires num(j) == j * span + base, num(i) == i * span + base;
        assert(num(j) - num(i) >= span) by (nonlinear_arith)
            requires num(j) - num(i) == (j - i) * span, j - i >= 1, span >= 0;
        lemma_round_div_gap(num(i), num(j), m);
    }
    // The ends of the window, with numerator and denominator scaled by `nb - 1`.
    assert(round_div(base, m) == round_div(width * p, d)) by {
        vstd::arithmetic::div_mod::lemma_fundamental_div_mod(2 * (width * p) + d, 2 * d);
        let qq = (2 * (width * p) + d) / (2 * d);
        let rr = (2 * (width * p) + d) % (2 * d);
        assert(2 * base + m == qq * (2 * m) + rr * (nb - 1)) by (nonlinear_arith)
            requires 2 * (width * p) + d == qq * (2 * d) + rr, base == width * p * (nb - 1), m == d * (nb - 1);
        assert(rr * (nb - 1) < 2 * m) by (nonlinear_arith) requires rr < 2 * d, m == d * (nb - 1), nb > 1, rr >= 0;
        assert(rr * (nb - 1) >= 0) by (nonlinear_arith) requires rr >= 0, nb > 1;
        lemma_fundamental_div_mod_converse(2 * base + m, 2 * m, qq, rr * (nb - 1));
    }
    let last = (nb - 1) as int;
    assert(num(last) == width * q * (nb - 1)) by (nonlinear_arith)
        requires num(last) == last * span + base, last == nb - 1, span == width * (q - p), base == width * p * (nb - 1);
    assert(round_div(width * q * (nb - 1), m) == round_div(width * q, d)) by {
        vstd::arithmetic::div_mod::lemma_fundamental_div_mod(2 * (width * q) + d, 2 * d);
        let qq = (2 * (width * q) + d) / (2 * d);
        let rr = (2 * (width * q) + d) % (2 * d);
        assert(2 * (width * q * (nb - 1)) + m == qq * (2 * m) + rr * (nb - 1)) by (nonlinear_arith)
            requires 2 * (width * q) + d == qq * (2 * d) + rr, m == d * (nb - 1);
        assert(rr * (nb - 1) < 2 * m) by (nonlinear_arith) requires rr < 2 * d, m == d * (nb - 1), nb > 1, rr >= 0;
        assert(rr * (nb - 1) >= 0) by (nonlinear_arith) requires rr >= 0, nb > 1;
        lemma_fundamental_div_mod_converse(2 * (width * q * (nb - 1)) + m, 2 * m, qq, rr * (nb - 1));
    }
    assert(s[0] == round_div(num(0), m));
    assert(num(0) == base);
    assert forall|i: int| 0 <= i < nb implies round_div(width * p, d) <= #[trigger] s[i]
        <= round_div(width * q, d) by {
        assert(num(i) == i * span + base);
        assert(base <= num(i) <= num(last)) by (nonlinear_arith)
            requires num(i) == i * span + base, num(last) == last * span + base, 0 <= i <= last, span >= 0;
        lemma_round_div_monotonic(base, num(i), m);
        lemma_round_div_monotonic(num(i), num(last), m);
    }
    // Neighbouring indices lie `step = span / m` apart, give or take less than one.
    assert forall|i: int| 0 <= i < nb - 1 implies {
        let gap = #[trigger] s[i + 1] - s[i];
        (gap - 1) * m < span < (gap + 1) * m
    } by {
        assert(num(i) == i * span + base);
        assert(num(i + 1) == (i + 1) * span + base);
        assert(num(i + 1) - num(i) == span) by (nonlinear_arith)
            requires num(i + 1) == (i + 1) * span + base, num(i) == i * span + base;
        assert(num(i) >= 0) by (nonlinear_arith) requires num(i) == i * span + base, i >= 0, span >= 0, base >= 0;
        lemma_round_div_bracket(num(i), m);
        lemma_round_div_bracket(num(i + 1), m);
        let a = s[i];
        let b = s[i + 1];
        assert(s[i] == round_div(num(i), m));
        assert(s[i + 1] == round_div(num(i + 1), m));
        assert((b - a - 1) * m < span < (b - a + 1) * m) by (nonlinear_arith)
            requires
                m * (2 * a - 1) <= 2 * num(i) < m * (2 * a + 1),
                m * (2 * b - 1) <= 2 * num(i + 1) < m * (2 * b + 1),
                num(i + 1) - num(i) == span;
    }
}

/// Where the requested slices would lie closer than one voxel, as many are
/// kept as a step of exactly one voxel allows, never more than requested,
/// and each index is one past the one before, so none repeats.
pub proof fn lemma_reduced_indices(width: nat, nb: nat, w: IndexWindow)
    requires
        nb > 1,
        window_valid(w),
        !step_at_least_one(width, nb, w),
    ensures
        ({
            let s = slice_indices(width, nb, w);
            &&& s.len() == reduced_count(width, nb, w)
            &&& s.len() <= nb
            &&& forall|i: int| 0 < i < s.len() ==> #[trigger] s[i] == s[i - 1] + 1
            &&& forall|i: int, j: int| 0 <= i < j < s.len() ==> s[i] < s[j]
        }),
{
    let span = window_span(width, w);
    let den = WINDOW_SCALE * (nb - 1);
    let c = reduced_count(width, nb, w);
    assert(span >= 0) by (nonlinear_arith)
        requires span == width * (w.max_permille - w.min_permille), w.min_permille < w.max_permille;
    assert((nb + 1) * span >= 0) by (nonlinear_arith) requires span >= 0, nb > 1;
    vstd::arithmetic::div_mod::lemma_fundamental_div_mod((nb + 1) * span, den);
    assert(c * den <= (nb + 1) * span);
    assert(c <= nb) by (nonlinear_arith)
        requires c * den <= (nb + 1) * span, span < den, den > 0, nb > 1;
    vstd::arithmetic::div_mod::lemma_div_pos_is_pos((nb + 1) * span, den);
}

} // verus!
