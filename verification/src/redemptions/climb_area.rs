//! Area that a climbing fee leaves below its ceiling.

use crate::arithmetic::{surplus, DIV};
use crate::redemptions::fee_laws::{
    fraction_at, half_headroom, lemma_capped_mean_is_near, lemma_fraction, mean_at,
};
use vstd::prelude::*;

verus! {

/// Twice the area between a ceiling and a climb towards it, over a distance `z`, for a climb that
/// starts `x` below the ceiling and rises by one per unit of distance.
pub open spec fn lost(x: int, z: int) -> int {
    if z >= x {
        x * x
    } else {
        2 * x * z - z * z
    }
}

/// A climb can be cut in two.
pub(crate) proof fn lemma_lost_adds_up(x: int, first: int, second: int)
    requires
        0 <= x,
        0 <= first,
        0 <= second,
    ensures
        lost(x, first + second) == lost(x, first) + lost(surplus(x, first), second),
{
    if x > first {
        let y = x - first;
        assert(2 * x * first - first * first + y * y == x * x) by (nonlinear_arith)
            requires
                y == x - first,
        ;
        assert(2 * x * first - first * first + (2 * y * second - second * second) == 2 * x * (first
            + second) - (first + second) * (first + second)) by (nonlinear_arith)
            requires
                y == x - first,
        ;
        if y == second {
            assert(2 * y * second - second * second == y * y) by (nonlinear_arith)
                requires
                    y == second,
            ;
        }
    } else {
        assert(0 * 0 == 0);
    }
}

/// A lower start loses more, by at most the distance on both sides.
pub(crate) proof fn lemma_lost_by_start(x: int, y: int, z: int)
    requires
        0 <= x <= y,
        0 <= z,
    ensures
        lost(x, z) <= lost(y, z) <= lost(x, z) + 2 * (y - x) * z,
{
    if z >= y {
        assert(x * x <= y * y && y * y <= x * x + 2 * (y - x) * z) by (nonlinear_arith)
            requires
                0 <= x <= y <= z,
        ;
    } else if z >= x {
        assert(x * x <= 2 * y * z - z * z && 2 * y * z - z * z <= x * x + 2 * (y - x) * z)
            by (nonlinear_arith)
            requires
                0 <= x <= z < y,
        ;
    } else {
        assert(2 * x * z - z * z <= 2 * y * z - z * z && 2 * y * z == 2 * x * z + 2 * (y - x) * z)
            by (nonlinear_arith)
            requires
                0 <= x <= y,
                0 <= z,
        ;
    }
}

/// A slower climb loses more.
pub(crate) proof fn lemma_lost_by_pace(slow: int, fast: int, h: int, z: int)
    requires
        0 < fast <= slow,
        0 <= h,
        0 <= z,
    ensures
        slow * lost(fast * h, z) <= fast * lost(slow * h, z),
{
    let u = fast * h;
    let w = slow * h;
    assert(0 <= u <= w) by (nonlinear_arith)
        requires
            u == fast * h,
            w == slow * h,
            0 < fast <= slow,
            0 <= h,
    ;
    assert(slow * u == fast * w) by (nonlinear_arith)
        requires
            u == fast * h,
            w == slow * h,
    ;
    if z >= w {
        assert(slow * (u * u) <= fast * (w * w)) by (nonlinear_arith)
            requires
                slow * u == fast * w,
                0 <= u <= w,
                0 < fast <= slow,
        ;
    } else if z >= u {
        assert(slow * (u * u) <= fast * (2 * w * z - z * z)) by (nonlinear_arith)
            requires
                slow * u == fast * w,
                0 <= u <= z < w,
                0 < fast,
        ;
    } else {
        assert(slow * (2 * u * z - z * z) <= fast * (2 * w * z - z * z)) by (nonlinear_arith)
            requires
                slow * u == fast * w,
                0 <= z,
                0 < fast <= slow,
        ;
    }
}

/// Over a longer distance the mean loss falls, by at most half of what the distance grows by.
pub(crate) proof fn lemma_lost_by_distance(x: int, c: int, z: int)
    requires
        0 <= x,
        0 <= c <= z,
    ensures
        c * lost(x, z) <= z * lost(x, c) <= c * lost(x, z) + (z - c) * (c * z),
{
    if x <= c {
        assert(c * (x * x) <= z * (x * x) && z * (x * x) <= c * (x * x) + (z - c) * (c * z))
            by (nonlinear_arith)
            requires
                0 <= x <= c <= z,
        ;
    } else if x <= z {
        assert(c * (x * x) <= z * (2 * x * c - c * c)) by (nonlinear_arith)
            requires
                0 <= c < x <= z,
        ;
        assert(z * (2 * x * c - c * c) <= c * (x * x) + (z - c) * (c * z)) by (nonlinear_arith)
            requires
                0 <= c < x <= z,
        ;
    } else {
        assert(c * (2 * x * z - z * z) <= z * (2 * x * c - c * c) && z * (2 * x * c - c * c) <= c * (2
            * x * z - z * z) + (z - c) * (c * z)) by (nonlinear_arith)
            requires
                0 <= c <= z < x,
        ;
    }
}

/// What a scaled climb loses.
pub(crate) proof fn lemma_lost_scales(factor: int, x: int, z: int)
    requires
        0 < factor,
    ensures
        lost(factor * x, factor * z) == (factor * factor) * lost(x, z),
{
    assert((factor * z >= factor * x) == (z >= x)) by (nonlinear_arith)
        requires
            0 < factor,
    ;
    assert((factor * x) * (factor * x) == (factor * factor) * (x * x)) by (nonlinear_arith);
    assert(2 * (factor * x) * (factor * z) - (factor * z) * (factor * z) == (factor * factor) * (2 * x
        * z - z * z)) by (nonlinear_arith);
}

/// No climb loses more than its start over the whole distance.
pub(crate) proof fn lemma_lost_is_bounded(x: int, z: int)
    requires
        0 <= x,
        0 <= z,
    ensures
        0 <= lost(x, z) <= 2 * x * z,
        x <= z ==> 2 * x * z <= lost(x, z) + 2 * x * z,
        x > z ==> 2 * x * z == lost(x, z) + z * z,
{
    if z >= x {
        assert(0 <= x * x && x * x <= 2 * x * z) by (nonlinear_arith)
            requires
                0 <= x <= z,
        ;
    } else {
        assert(0 <= 2 * x * z - z * z && 0 <= z * z) by (nonlinear_arith)
            requires
                0 <= z < x,
        ;
    }
}

/// The mean fee of a redemption is its cap less half of what the climb loses per unit of rise, but
/// for the rounding of the mean.
pub(crate) proof fn lemma_mean_is_near(d: int, cap: int, rise: int)
    requires
        0 <= d,
        0 <= cap <= DIV,
        0 <= rise,
    ensures
        ({
            let h = surplus(cap, d);
            let short = cap - mean_at(d, cap, rise);
            &&& lost(h, rise) - rise <= 2 * rise * short <= lost(h, rise) + 5 * rise
            &&& rise == 0 ==> short == h
        }),
{
    let h = surplus(cap, d);
    let short = cap - mean_at(d, cap, rise);
    if d >= cap {
        assert(lost(0, rise) == 0);
        assert(2 * rise * 0 == 0);
    } else if d + rise <= cap {
        assert(2 * h - rise <= 2 * short <= 2 * h - rise + 1);
        assert(2 * h * rise - rise * rise <= 2 * rise * short && 2 * rise * short <= 2 * h * rise
            - rise * rise + rise) by (nonlinear_arith)
            requires
                2 * h - rise <= 2 * short <= 2 * h - rise + 1,
                0 <= rise,
        ;
        if rise == h {
            assert(2 * h * rise - rise * rise == h * h) by (nonlinear_arith)
                requires
                    rise == h,
            ;
        }
    } else {
        let f = fraction_at(d, cap, rise);
        let k = half_headroom(d, cap);
        lemma_fraction(d, cap, rise);
        lemma_capped_mean_is_near(f, d, cap);
        assert(h <= 2 * k <= h + 1);
        assert(DIV * short >= f * k);
        assert(DIV * short < f * k + 2 * DIV);
        assert(DIV * (2 * rise * short) >= DIV * (h * h - rise)) by (nonlinear_arith)
            requires
                DIV * short >= f * k,
                h <= 2 * k,
                h * DIV < (f + 1) * rise,
                0 < h <= DIV,
                0 <= f,
                0 < rise,
        ;
        assert(2 * rise * short >= h * h - rise) by (nonlinear_arith)
            requires
                DIV * (2 * rise * short) >= DIV * (h * h - rise),
                DIV > 0,
        ;
        assert(DIV * (2 * rise * short) <= DIV * (h * h + 5 * rise)) by (nonlinear_arith)
            requires
                DIV * short < f * k + 2 * DIV,
                2 * k <= h + 1,
                f * rise <= h * DIV,
                0 < h < rise,
                0 <= f,
                0 <= k,
                DIV > 0,
        ;
        assert(2 * rise * short <= h * h + 5 * rise) by (nonlinear_arith)
            requires
                DIV * (2 * rise * short) <= DIV * (h * h + 5 * rise),
                DIV > 0,
        ;
    }
}

/// Cancels the climb from a bound on the shortfall.
pub(crate) proof fn lemma_shortfall_step(p: int, c: int, z: int, e: int, a: int, b: int, short: int)
    requires
        0 < p,
        0 < c,
        0 <= z <= p * (c + e),
        0 <= e,
        a - c <= 2 * c * short <= a + 5 * c,
        (p * c) * b <= z * ((p * p) * a) <= (p * c) * b + (z - p * c) * ((p * c) * z),
    ensures
        b - p * z <= 2 * (p * z) * short <= b + (e + 5) * (p * z),
{
    assert(c * b <= z * (p * a)) by (nonlinear_arith)
        requires
            (p * c) * b <= z * ((p * p) * a),
            0 < p,
    ;
    assert(z * (p * a) <= c * b + (z - p * c) * (c * z)) by (nonlinear_arith)
        requires
            z * ((p * p) * a) <= (p * c) * b + (z - p * c) * ((p * c) * z),
            0 < p,
    ;
    assert((z - p * c) * (c * z) <= (p * e) * (c * z)) by (nonlinear_arith)
        requires
            z <= p * (c + e),
            0 < c,
            0 <= z,
    ;
    let pz = p * z;
    assert(0 <= pz) by (nonlinear_arith)
        requires
            pz == p * z,
            0 < p,
            0 <= z,
    ;
    assert(z * (p * a) == pz * a && (p * e) * (c * z) == c * (e * pz)) by (nonlinear_arith)
        requires
            pz == p * z,
    ;
    assert(c * (2 * pz * short) >= c * (b - pz)) by (nonlinear_arith)
        requires
            c * b <= pz * a,
            a - c <= 2 * c * short,
            0 <= pz,
    ;
    assert(c * (2 * pz * short) <= c * (b + (e + 5) * pz)) by (nonlinear_arith)
        requires
            pz * a <= c * b + c * (e * pz),
            2 * c * short <= a + 5 * c,
            0 <= pz,
    ;
    assert(2 * pz * short >= b - pz) by (nonlinear_arith)
        requires
            c * (2 * pz * short) >= c * (b - pz),
            0 < c,
    ;
    assert(2 * pz * short <= b + (e + 5) * pz) by (nonlinear_arith)
        requires
            c * (2 * pz * short) <= c * (b + (e + 5) * pz),
            0 < c,
    ;
}

/// Brings the bound on the rest of the tranches to the pace of the whole.
pub(crate) proof fn lemma_rest_step(
    p: int,
    q: int,
    yb: int,
    slack: int,
    extra: int,
    at_q: int,
    at_x: int,
)
    requires
        0 < q <= p,
        q * yb <= at_q + q * slack,
        p * at_q <= q * (at_x + p * extra),
    ensures
        p * yb <= at_x + p * (slack + extra),
{
    assert(p * (q * yb) <= p * (at_q + q * slack)) by (nonlinear_arith)
        requires
            q * yb <= at_q + q * slack,
            0 < p,
    ;
    assert(p * (at_q + q * slack) == p * at_q + q * (p * slack)) by (nonlinear_arith);
    assert(p * (q * yb) == q * (p * yb)) by (nonlinear_arith);
    assert(q * (at_x + p * (slack + extra)) == q * (at_x + p * extra) + q * (p * slack))
        by (nonlinear_arith);
    assert(p * yb <= at_x + p * (slack + extra)) by (nonlinear_arith)
        requires
            q * (p * yb) <= q * (at_x + p * (slack + extra)),
            0 < q,
    ;
}

/// A climb that is so much faster that a later start of `e` units hardly matters: the square that
/// decides between the two.
proof fn lemma_pace_outweighs(p: int, q: int, e: int, w: int, z: int)
    requires
        0 < q < p,
        (e * e) * (p * q) <= (p - q) * z,
    ensures
        q * (w * w) <= p * ((w - p * e) * (w - p * e)) + (p * p) * z,
{
    let d = p - q;
    let side = p * ((w - p * e) * (w - p * e)) + (p * p) * z - q * (w * w);
    let root = d * w - p * p * e;
    let pe = p * e;
    let m = p * pe;
    let ww = w * w;
    let pw = pe * w;
    let square = pe * pe;
    let far = (p * p) * z;
    let k = (e * e) * (p * q);
    assert((w - pe) * (w - pe) == ww - 2 * pw + square) by (nonlinear_arith)
        requires
            ww == w * w,
            pw == pe * w,
            square == pe * pe,
    ;
    assert(p * (ww - 2 * pw + square) == p * ww - 2 * (p * pw) + p * square) by (nonlinear_arith);
    assert(d * ww == p * ww - q * ww) by (nonlinear_arith)
        requires
            d == p - q,
    ;
    assert(d * side == d * (d * ww) - 2 * (d * (p * pw)) + d * (p * square) + d * far)
        by (nonlinear_arith)
        requires
            side == d * ww - 2 * (p * pw) + p * square + far,
    ;
    assert(root == d * w - m) by (nonlinear_arith)
        requires
            root == d * w - p * p * e,
            m == p * (p * e),
    ;
    assert(root * root == (d * w) * (d * w) - 2 * ((d * w) * m) + m * m) by (nonlinear_arith)
        requires
            root == d * w - m,
    ;
    assert((d * w) * (d * w) == d * (d * ww)) by (nonlinear_arith)
        requires
            ww == w * w,
    ;
    assert((d * w) * m == d * (p * pw)) by (nonlinear_arith)
        requires
            m == p * pe,
            pw == pe * w,
    ;
    assert(m * m == p * (p * square)) by (nonlinear_arith)
        requires
            m == p * pe,
            square == pe * pe,
    ;
    assert(d * (p * square) == p * (p * square) - q * (p * square)) by (nonlinear_arith)
        requires
            d == p - q,
    ;
    assert(q * (p * square) == (p * p) * k) by (nonlinear_arith)
        requires
            square == (p * e) * (p * e),
            k == (e * e) * (p * q),
    ;
    assert(d * far == (p * p) * (d * z)) by (nonlinear_arith)
        requires
            far == (p * p) * z,
    ;
    assert((p * p) * (d * z - k) == (p * p) * (d * z) - (p * p) * k) by (nonlinear_arith);
    assert(0 <= root * root) by (nonlinear_arith);
    assert(0 <= (p * p) * (d * z - k)) by (nonlinear_arith)
        requires
            0 <= d * z - k,
    ;
    assert(0 <= side) by (nonlinear_arith)
        requires
            0 <= d * side,
            0 < d,
    ;
}

/// Where the pace gains the square of what the start loses, the climb at the faster pace from the
/// later start loses no more than that at the slower pace from the earlier one, and half a unit.
#[verifier::spinoff_prover]
pub(crate) proof fn lemma_faster_pace_pays_off(p: int, q: int, e: int, h: int, x: int, z: int)
    requires
        0 < q <= p,
        1 <= e,
        0 <= h,
        0 <= x,
        0 <= z,
        p * h <= x + p * e,
        (e * e) * (p * q) <= (p - q) * z,
    ensures
        p * lost(q * h, z) <= q * (lost(x, z) + p * z),
{
    let u = q * h;
    let w = p * h;
    let pe = p * e;
    assert(q < p) by (nonlinear_arith)
        requires
            (e * e) * (p * q) <= (p - q) * z,
            0 < q <= p,
            1 <= e,
    ;
    assert(0 <= u <= w && p * u == q * w && 0 < pe) by (nonlinear_arith)
        requires
            u == q * h,
            w == p * h,
            pe == p * e,
            0 < q <= p,
            0 <= h,
            1 <= e,
    ;
    if w <= pe {
        lemma_late_start_is_free(p, q, e, u, w, x, z);
    } else {
        let later = w - pe;
        lemma_lost_by_start(later, x, z);
        lemma_pace_outweighs(p, q, e, w, z);
        lemma_late_start(p, q, e, u, w, z);
        assert(q * (lost(later, z) + p * z) <= q * (lost(x, z) + p * z)) by (nonlinear_arith)
            requires
                lost(later, z) <= lost(x, z),
                0 < q,
        ;
    }
}

/// A start that loses all the headroom there is.
proof fn lemma_late_start_is_free(p: int, q: int, e: int, u: int, w: int, x: int, z: int)
    requires
        0 < q < p,
        0 <= u <= w,
        p * u == q * w,
        w <= p * e,
        0 <= x,
        0 <= z,
        (e * e) * (p * q) <= (p - q) * z,
    ensures
        p * lost(u, z) <= q * (lost(x, z) + p * z),
{
    lemma_lost_is_bounded(x, z);
    assert(lost(u, z) <= u * u) by {
        assert(2 * u * z - z * z <= u * u) by (nonlinear_arith);
    }
    assert(p * (p * (u * u)) == (q * q) * (w * w)) by (nonlinear_arith)
        requires
            p * u == q * w,
    ;
    assert(w * w <= (p * e) * (p * e)) by (nonlinear_arith)
        requires
            0 <= w <= p * e,
    ;
    assert((q * q) * (w * w) <= (q * q) * ((p * e) * (p * e))) by (nonlinear_arith)
        requires
            w * w <= (p * e) * (p * e),
    ;
    assert((q * q) * ((p * e) * (p * e)) == (p * q) * ((e * e) * (p * q))) by (nonlinear_arith);
    assert((p * q) * ((e * e) * (p * q)) <= (p * q) * ((p - q) * z)) by (nonlinear_arith)
        requires
            (e * e) * (p * q) <= (p - q) * z,
            0 < q < p,
    ;
    assert((p * q) * ((p - q) * z) <= p * (q * (p * z))) by (nonlinear_arith)
        requires
            0 < q < p,
            0 <= z,
    ;
    assert(p * (u * u) <= q * (p * z)) by (nonlinear_arith)
        requires
            p * (p * (u * u)) <= p * (q * (p * z)),
            0 < p,
    ;
    assert(p * lost(u, z) <= p * (u * u)) by (nonlinear_arith)
        requires
            lost(u, z) <= u * u,
            0 < p,
    ;
    assert(q * (p * z) <= q * (lost(x, z) + p * z)) by (nonlinear_arith)
        requires
            0 <= lost(x, z),
            0 < q,
    ;
}

/// A start that loses a part of the headroom.
#[verifier::spinoff_prover]
proof fn lemma_late_start(p: int, q: int, e: int, u: int, w: int, z: int)
    requires
        0 < q < p,
        1 <= e,
        0 <= u <= w,
        p * u == q * w,
        p * e <= w,
        0 <= z,
        (e * e) * (p * q) <= (p - q) * z,
        q * (w * w) <= p * ((w - p * e) * (w - p * e)) + (p * p) * z,
    ensures
        p * lost(u, z) <= q * (lost(w - p * e, z) + p * z),
{
    let later = w - p * e;
    let gained = (p - q) * z;
    let pq = p * q;
    assert(0 < pq) by (nonlinear_arith)
        requires
            pq == p * q,
            0 < q < p,
    ;
    if u > z {
        // Neither climb reaches the cap.
        assert(2 * later * z - z * z <= lost(later, z)) by {
            assert(2 * later * z - z * z <= later * later) by (nonlinear_arith);
        }
        assert((2 * e - 1) * pq <= gained) by (nonlinear_arith)
            requires
                (e * e) * pq <= gained,
                0 < pq,
        {
            assert(2 * e - 1 <= e * e);
        }
        assert(p * (2 * u * z - z * z) == 2 * ((q * w) * z) - p * (z * z)) by (nonlinear_arith)
            requires
                p * u == q * w,
        ;
        assert(q * (2 * later * z - z * z + p * z) == 2 * ((q * w) * z) - 2 * (e * (pq * z)) - q * (z
            * z) + pq * z) by (nonlinear_arith)
            requires
                later == w - p * e,
                pq == p * q,
        ;
        assert(((2 * e - 1) * pq) * z <= gained * z) by (nonlinear_arith)
            requires
                (2 * e - 1) * pq <= gained,
                0 <= z,
        ;
        assert(((2 * e - 1) * pq) * z == 2 * (e * (pq * z)) - pq * z) by (nonlinear_arith);
        assert(gained * z == p * (z * z) - q * (z * z)) by (nonlinear_arith)
            requires
                gained == (p - q) * z,
        ;
        assert(q * (2 * later * z - z * z + p * z) <= q * (lost(later, z) + p * z))
            by (nonlinear_arith)
            requires
                2 * later * z - z * z <= lost(later, z),
                0 < q,
        ;
    } else {
        // The faster climb reaches the cap.
        assert(p * (p * (u * u)) == q * (q * (w * w))) by (nonlinear_arith)
            requires
                p * u == q * w,
        ;
        assert(q * (w * w) <= p * lost(later, z) + (p * p) * z) by {
            if later > z {
                lemma_late_start_short_of_the_cap(p, q, e, u, w, z);
            }
        }
        assert(p * (p * (u * u)) <= p * (q * (lost(later, z) + p * z))) by (nonlinear_arith)
            requires
                p * (p * (u * u)) == q * (q * (w * w)),
                q * (w * w) <= p * lost(later, z) + (p * p) * z,
                0 < q,
        ;
        assert(p * (u * u) <= q * (lost(later, z) + p * z)) by (nonlinear_arith)
            requires
                p * (p * (u * u)) <= p * (q * (lost(later, z) + p * z)),
                0 < p,
        ;
    }
}

/// The faster climb reaches the cap, and the slower one does not.
#[verifier::spinoff_prover]
proof fn lemma_late_start_short_of_the_cap(p: int, q: int, e: int, u: int, w: int, z: int)
    requires
        0 < q < p,
        1 <= e,
        0 <= u <= z,
        p * u == q * w,
        z < w - p * e,
        0 <= z,
        (e * e) * (p * q) <= (p - q) * z,
    ensures
        q * (w * w) <= p * (2 * (w - p * e) * z - z * z) + (p * p) * z,
{
    let a = z + p * e;
    let c = (p - q) * z - (p * q) * e;
    lemma_pace_outweighs(p, q, e, a, z);
    assert((p * q) * e <= (e * e) * (p * q)) by (nonlinear_arith)
        requires
            1 <= e,
            0 < q < p,
    ;
    assert(q * w <= p * z) by (nonlinear_arith)
        requires
            p * u == q * w,
            u <= z,
            0 < p,
    ;
    assert(0 <= (w - a) * (p * z - q * w)) by (nonlinear_arith)
        requires
            a <= w,
            q * w <= p * z,
    ;
    assert(a * c <= w * c) by (nonlinear_arith)
        requires
            a <= w,
            0 <= c,
    ;
    let pe = p * e;
    let pz = p * z;
    let qw = q * w;
    let wz = w * z;
    let ez = pe * z;
    assert(2 * (w - pe) * z == 2 * wz - 2 * ez) by (nonlinear_arith)
        requires
            wz == w * z,
            ez == pe * z,
    ;
    assert(p * (2 * wz - 2 * ez - z * z) == 2 * (p * wz) - 2 * (p * ez) - p * (z * z))
        by (nonlinear_arith);
    assert((w - a) * (pz - qw) == w * pz - w * qw - z * pz - pe * pz + z * qw + pe * qw)
        by (nonlinear_arith)
        requires
            a == z + pe,
    ;
    assert(w * pz == p * wz && w * qw == q * (w * w) && z * pz == p * (z * z) && pe * pz == p * ez && z
        * qw == q * wz) by (nonlinear_arith)
        requires
            pz == p * z,
            qw == q * w,
            wz == w * z,
            ez == pe * z,
    ;
    let qz = q * z;
    let qe = q * pe;
    assert((p - q) * z == pz - qz && (p * q) * e == qe) by (nonlinear_arith)
        requires
            pz == p * z,
            qz == q * z,
            qe == q * (p * e),
    ;
    assert(w * (pz - qz - qe) == w * pz - w * qz - w * qe) by (nonlinear_arith);
    assert(w * qz == q * wz && w * qe == pe * qw) by (nonlinear_arith)
        requires
            qz == q * z,
            wz == w * z,
            qe == q * pe,
            qw == q * w,
    ;
    assert((p * p) * (e * z) == p * ez) by (nonlinear_arith)
        requires
            ez == (p * e) * z,
    ;
    let az = a * z;
    let aa = a * a;
    assert(a * (pz - qz - qe) == a * pz - a * qz - a * qe) by (nonlinear_arith);
    assert(a * pz == p * az && a * qz == q * az && a * qe == q * (a * pe)) by (nonlinear_arith)
        requires
            pz == p * z,
            qz == q * z,
            qe == q * pe,
            az == a * z,
    ;
    assert(q * aa == q * az + q * (a * pe)) by (nonlinear_arith)
        requires
            aa == a * a,
            a == z + pe,
            az == a * z,
    ;
    assert(p * az == p * (z * z) + p * ez) by (nonlinear_arith)
        requires
            az == a * z,
            a == z + pe,
            ez == pe * z,
    ;
    assert((a - p * e) * (a - p * e) == z * z);
}

/// A faster climb loses less, by at most half of what it climbs more on either side.
pub(crate) proof fn lemma_lost_by_faster_pace(p: int, q: int, h: int, z: int)
    requires
        0 < q <= p,
        0 <= h,
        0 <= z,
    ensures
        q * lost(p * h, z) <= p * lost(q * h, z) + (p - q) * (z * z),
{
    if z > 0 {
        let x = p * (q * h);
        let a = lost(p * h, z);
        let b = lost(q * h, z);
        assert(q * (p * h) == x) by (nonlinear_arith)
            requires
                x == p * (q * h),
        ;
        assert(0 <= x && 0 <= q * z <= p * z) by (nonlinear_arith)
            requires
                x == p * (q * h),
                0 < q <= p,
                0 <= h,
                0 < z,
        ;
        lemma_lost_scales(q, p * h, z);
        lemma_lost_scales(p, q * h, z);
        lemma_lost_by_distance(x, q * z, p * z);
        assert((p * z) * ((q * q) * a) <= (q * z) * ((p * p) * b) + (p * z - q * z) * ((q * z) * (p
            * z)));
        let unit = (p * q) * z;
        assert((p * z) * ((q * q) * a) == unit * (q * a)) by (nonlinear_arith)
            requires
                unit == (p * q) * z,
        ;
        assert((q * z) * ((p * p) * b) == unit * (p * b)) by (nonlinear_arith)
            requires
                unit == (p * q) * z,
        ;
        assert((p * z - q * z) * ((q * z) * (p * z)) == unit * ((p - q) * (z * z)))
            by (nonlinear_arith)
            requires
                unit == (p * q) * z,
        ;
        assert(unit * (p * b + (p - q) * (z * z)) == unit * (p * b) + unit * ((p - q) * (z * z)))
            by (nonlinear_arith);
        assert(0 < unit) by (nonlinear_arith)
            requires
                unit == (p * q) * z,
                0 < p,
                0 < q,
                0 < z,
        ;
        assert(q * a <= p * b + (p - q) * (z * z)) by (nonlinear_arith)
            requires
                unit * (q * a) <= unit * (p * b + (p - q) * (z * z)),
                0 < unit,
        ;
    } else {
        assert(0 <= p * h && 0 <= q * h) by (nonlinear_arith)
            requires
                0 < q <= p,
                0 <= h,
        ;
        lemma_lost_is_bounded(p * h, 0);
        lemma_lost_is_bounded(q * h, 0);
        assert(q * 0 == 0 && p * 0 == 0 && (p - q) * (0 * 0) == 0) by (nonlinear_arith);
    }
}

} // verus!
