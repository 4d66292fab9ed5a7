//! Rounding to binary64.
//!
//! The magnitude of a binary64 number is its pattern without the sign bit.
//! Every magnitude up to that of infinity stands for a quantity, a whole
//! number of units of 2^-1074, and the quantities grow with the magnitudes.
//! Rounding an exact ratio picks the magnitude whose quantity is nearest to
//! it; of two that are equally near, the even one.

use vstd::prelude::*;
use vstd::arithmetic::power2::{
    lemma2_to64, lemma2_to64_rest, lemma_pow2_adds, lemma_pow2_pos,
    lemma_pow2_strictly_increases, lemma_pow2_unfold, pow2,
};
use vstd::arithmetic::div_mod::{lemma_fundamental_div_mod, lemma_mod_bound};
use crate::binary64::INFINITY_BITS;

verus! {

/// 2^52: the weight of the bit above the fraction.
pub const HIDDEN_BIT: u64 = 0x10_0000_0000_0000;

/// 2^53: the first significand that no longer fits.
pub const SIGNIFICAND_LIMIT: u64 = 0x20_0000_0000_0000;

/// The eleven exponent bits of a magnitude.
pub open spec fn exponent_field(magnitude: u64) -> nat {
    (magnitude / HIDDEN_BIT) as nat
}

/// The fifty-two fraction bits of a magnitude.
pub open spec fn fraction_field(magnitude: u64) -> nat {
    (magnitude % HIDDEN_BIT) as nat
}

/// The significand: the fraction, with the hidden bit on top unless the
/// exponent bits are all zero.
pub open spec fn significand(magnitude: u64) -> nat {
    if exponent_field(magnitude) == 0 {
        fraction_field(magnitude)
    } else {
        (HIDDEN_BIT + fraction_field(magnitude)) as nat
    }
}

/// The power of two, in units of 2^-1074, that the significand counts.
pub open spec fn scale(magnitude: u64) -> nat {
    if exponent_field(magnitude) == 0 {
        0
    } else {
        (exponent_field(magnitude) - 1) as nat
    }
}

/// What a magnitude stands for, in units of 2^-1074. The magnitude of
/// infinity stands for 2^1024, the first power of two that is out of range.
pub open spec fn quantity(magnitude: u64) -> nat {
    significand(magnitude) * pow2(scale(magnitude))
}

/// Whether `r` is the magnitude nearest to `num / den` units: the ratio lies
/// between the midpoints to the neighbours of `r`, and where it lies on a
/// midpoint, `r` is even. A ratio past the midpoint between the largest
/// finite magnitude and 2^1024 goes to the magnitude of infinity.
pub open spec fn is_nearest(num: nat, den: nat, r: u64) -> bool {
    &&& r <= INFINITY_BITS
    &&& r > 0 ==> {
        let twice_midpoint = (quantity((r - 1) as u64) + quantity(r)) * den;
        2 * num > twice_midpoint || (2 * num == twice_midpoint && r % 2 == 0)
    }
    &&& r < INFINITY_BITS ==> {
        let twice_midpoint = (quantity(r) + quantity((r + 1) as u64)) * den;
        2 * num < twice_midpoint || (2 * num == twice_midpoint && r % 2 == 0)
    }
}

/// The magnitude nearest to `num / den` units.
pub open spec fn nearest(num: nat, den: nat) -> u64 {
    choose|r: u64| is_nearest(num, den, r)
}

/// The magnitude built from scale `sh` and significand `n` stands for
/// `n * 2^sh`. A significand of 2^53 carries into the next scale.
pub proof fn lemma_quantity_of(sh: nat, n: nat)
    requires
        sh <= 2045,
        n <= SIGNIFICAND_LIMIT,
        sh > 0 ==> n >= HIDDEN_BIT,
    ensures
        sh * HIDDEN_BIT + n <= INFINITY_BITS,
        quantity((sh * HIDDEN_BIT + n) as u64) == n * pow2(sh),
{
    lemma2_to64();
    let u = (sh * HIDDEN_BIT + n) as u64;
    assert(sh * HIDDEN_BIT + n <= INFINITY_BITS) by (nonlinear_arith)
        requires
            sh <= 2045,
            n <= SIGNIFICAND_LIMIT,
            HIDDEN_BIT == 0x10_0000_0000_0000,
            SIGNIFICAND_LIMIT == 0x20_0000_0000_0000,
            INFINITY_BITS == 0x7ff0_0000_0000_0000,
    ;
    if n < HIDDEN_BIT {
        assert(sh == 0);
        assert(u == n);
        assert(exponent_field(u) == 0);
        assert(fraction_field(u) == n);
    } else if n < SIGNIFICAND_LIMIT {
        let f = (n - HIDDEN_BIT) as nat;
        assert(u == (sh + 1) * HIDDEN_BIT + f) by (nonlinear_arith)
            requires
                u == sh * HIDDEN_BIT + n,
                f == n - HIDDEN_BIT,
        ;
        lemma_div_mod_of(u as int, HIDDEN_BIT as int, (sh + 1) as int, f as int);
        assert(exponent_field(u) == sh + 1);
        assert(fraction_field(u) == f);
    } else {
        assert(u == (sh + 2) * HIDDEN_BIT + 0) by (nonlinear_arith)
            requires
                u == sh * HIDDEN_BIT + n,
                n == 2 * HIDDEN_BIT,
        ;
        lemma_div_mod_of(u as int, HIDDEN_BIT as int, (sh + 2) as int, 0);
        assert(exponent_field(u) == sh + 2);
        assert(fraction_field(u) == 0);
        lemma_pow2_unfold(sh + 1);
        assert(HIDDEN_BIT * (2 * pow2(sh)) == n * pow2(sh)) by (nonlinear_arith)
            requires
                n == 2 * HIDDEN_BIT,
        ;
    }
}

/// Quotient and remainder are what the division identity says.
pub proof fn lemma_div_mod_of(x: int, d: int, q: int, r: int)
    requires
        d > 0,
        0 <= r < d,
        x == q * d + r,
    ensures
        x / d == q,
        x % d == r,
{
    lemma_fundamental_div_mod(x, d);
    lemma_mod_bound(x, d);
    let q2 = x / d;
    let r2 = x % d;
    assert(q2 == q) by (nonlinear_arith)
        requires
            d > 0,
            0 <= r < d,
            0 <= r2 < d,
            q * d + r == d * q2 + r2,
    ;
    assert(r2 == r) by (nonlinear_arith)
        requires
            q2 == q,
            q * d + r == d * q2 + r2,
    ;
}

/// The scale and significand from which a magnitude is built.
pub proof fn lemma_parts(u: u64)
    requires
        u <= INFINITY_BITS,
    ensures
        u == scale(u) * HIDDEN_BIT + significand(u),
        scale(u) <= 2046,
        significand(u) < SIGNIFICAND_LIMIT,
        scale(u) > 0 ==> significand(u) >= HIDDEN_BIT,
        u < INFINITY_BITS ==> scale(u) <= 2045,
{
    lemma_fundamental_div_mod(u as int, HIDDEN_BIT as int);
    let e = exponent_field(u);
    let f = fraction_field(u);
    assert(u == HIDDEN_BIT * e + f);
    assert(e <= 2047);
    if e != 0 {
        assert(scale(u) * HIDDEN_BIT + significand(u) == HIDDEN_BIT * e + f) by (nonlinear_arith)
            requires
                scale(u) == e - 1,
                significand(u) == HIDDEN_BIT + f,
        ;
    }
    if u < INFINITY_BITS {
        assert(e <= 2046);
    }
}

/// From one magnitude to the next the quantity grows by one step of the
/// smaller one's scale.
pub proof fn lemma_successor(u: u64)
    requires
        u < INFINITY_BITS,
    ensures
        quantity((u + 1) as u64) == quantity(u) + pow2(scale(u)),
        quantity(u) < quantity((u + 1) as u64),
{
    lemma_parts(u);
    let sh = scale(u);
    let n = significand(u);
    lemma_quantity_of(sh, n);
    lemma_quantity_of(sh, n + 1);
    lemma_pow2_pos(sh);
    assert((n + 1) * pow2(sh) == n * pow2(sh) + pow2(sh)) by (nonlinear_arith);
}

/// Quantities grow with magnitudes.
pub proof fn lemma_quantity_increases(u: u64, v: u64)
    requires
        u <= v <= INFINITY_BITS,
    ensures
        quantity(u) <= quantity(v),
        u < v ==> quantity(u) < quantity(v),
    decreases v - u,
{
    if u < v {
        lemma_quantity_increases(u, (v - 1) as u64);
        lemma_successor((v - 1) as u64);
    }
}

proof fn lemma_no_second_nearest(num: nat, den: nat, r1: u64, r2: u64)
    requires
        den > 0,
        r1 < r2,
        is_nearest(num, den, r1),
    ensures
        !is_nearest(num, den, r2),
{
    if is_nearest(num, den, r2) {
        let a = quantity(r1) + quantity((r1 + 1) as u64);
        let b = quantity((r2 - 1) as u64) + quantity(r2);
        lemma_quantity_increases(r1, (r2 - 1) as u64);
        lemma_quantity_increases((r1 + 1) as u64, r2);
        assert(a <= b);
        assert(a * den <= b * den) by (nonlinear_arith)
            requires
                a <= b,
                den > 0,
        ;
        assert(a * den == b * den);
        assert(a == b) by (nonlinear_arith)
            requires
                a * den == b * den,
                den > 0,
        ;
        assert(r1 % 2 == 0 && r2 % 2 == 0);
        assert(r1 + 1 == r2);
        assert(false);
    }
}

/// At most one magnitude is nearest to a ratio.
pub proof fn lemma_nearest_unique(num: nat, den: nat, r1: u64, r2: u64)
    requires
        den > 0,
        is_nearest(num, den, r1),
        is_nearest(num, den, r2),
    ensures
        r1 == r2,
{
    if r1 < r2 {
        lemma_no_second_nearest(num, den, r1, r2);
    } else if r2 < r1 {
        lemma_no_second_nearest(num, den, r2, r1);
    }
}

/// A magnitude that is nearest to a ratio is the one that `nearest` names.
pub proof fn lemma_nearest_is(num: nat, den: nat, r: u64)
    requires
        den > 0,
        is_nearest(num, den, r),
    ensures
        nearest(num, den) == r,
{
    lemma_nearest_unique(num, den, nearest(num, den), r);
}

/// Powers of two grow with their exponents.
pub proof fn lemma_pow2_increases(e1: nat, e2: nat)
    requires
        e1 <= e2,
    ensures
        pow2(e1) <= pow2(e2),
{
    if e1 < e2 {
        lemma_pow2_strictly_increases(e1, e2);
    }
}

/// 2^k.
pub(crate) fn two_to(k: u32) -> (r: u128)
    requires
        k <= 64,
    ensures
        r == pow2(k as nat),
{
    proof {
        lemma2_to64();
    }
    let mut r: u128 = 1;
    let mut i: u32 = 0;
    while i < k
        invariant
            i <= k <= 64,
            r == pow2(i as nat),
            pow2(64) == 0x1_0000_0000_0000_0000,
        decreases k - i,
    {
        proof {
            lemma_pow2_unfold((i + 1) as nat);
            lemma_pow2_increases((i + 1) as nat, 64);
        }
        r = r * 2;
        i = i + 1;
    }
    r
}

/// `m` shifted left until its top bit is set, and the number of places.
fn normalize(m: u64) -> (r: (u64, u32))
    requires
        m > 0,
    ensures
        r.0 == m * pow2(r.1 as nat),
        r.0 >= 0x8000_0000_0000_0000,
        r.1 <= 63,
{
    proof {
        lemma2_to64();
    }
    let mut x: u64 = m;
    let mut l: u32 = 0;
    while x < 0x8000_0000_0000_0000
        invariant
            m > 0,
            x > 0,
            l <= 63,
            x == m * pow2(l as nat),
            pow2(64) == 0x1_0000_0000_0000_0000,
        decreases 64 - l,
    {
        proof {
            lemma_pow2_unfold((l + 1) as nat);
            assert(m * pow2((l + 1) as nat) == 2 * x) by (nonlinear_arith)
                requires
                    x == m * pow2(l as nat),
                    pow2((l + 1) as nat) == 2 * pow2(l as nat),
            ;
            if l + 1 >= 64 {
                lemma_pow2_increases(64, (l + 1) as nat);
                assert(m * pow2((l + 1) as nat) >= pow2((l + 1) as nat)) by (nonlinear_arith)
                    requires
                        m >= 1,
                ;
            }
        }
        x = x * 2;
        l = l + 1;
    }
    (x, l)
}

proof fn lemma_cross(m1: int, m2: int, pe1: int, pe2: int, pl1: int, pl2: int)
    ensures
        (m1 * pe1) * (m2 * pl2) * (pe2 * pl1) == (m2 * pe2) * (m1 * pl1) * (pe1 * pl2),
{
    assert((m1 * pe1) * (m2 * pl2) * (pe2 * pl1) == (m2 * pe2) * (m1 * pl1) * (pe1 * pl2))
        by (nonlinear_arith);
}

/// With `u / w = (a / b) * 2^t`, as `u * b * 2^y == w * a * 2^x` and
/// `x == y + t` say it: `u * b == w * a * 2^t`.
proof fn lemma_ratio_up(u: int, w: int, a: int, b: int, x: nat, y: nat, t: nat)
    requires
        u * b * pow2(y) == w * a * pow2(x),
        x == y + t,
    ensures
        u * b == w * a * pow2(t),
{
    lemma_pow2_adds(y, t);
    lemma_pow2_pos(y);
    let py = pow2(y) as int;
    let pt = pow2(t) as int;
    assert(u * b * py == (w * a * pt) * py) by (nonlinear_arith)
        requires
            u * b * py == w * a * (py * pt),
    ;
    assert(u * b == w * a * pt) by (nonlinear_arith)
        requires
            (u * b) * py == (w * a * pt) * py,
            py > 0,
    ;
}

/// With `u / w = (a / b) / 2^t`: `u * b * 2^t == w * a`.
proof fn lemma_ratio_down(u: int, w: int, a: int, b: int, x: nat, y: nat, t: nat)
    requires
        u * b * pow2(y) == w * a * pow2(x),
        y == x + t,
    ensures
        u * b * pow2(t) == w * a,
{
    lemma_pow2_adds(x, t);
    lemma_pow2_pos(x);
    let px = pow2(x) as int;
    let pt = pow2(t) as int;
    assert((u * b * pt) * px == (w * a) * px) by (nonlinear_arith)
        requires
            u * b * (px * pt) == w * a * px,
    ;
    assert(u * b * pt == w * a) by (nonlinear_arith)
        requires
            (u * b * pt) * px == (w * a) * px,
            px > 0,
    ;
}

/// Where `num / den` is `u / w` in steps of `p`, twice the one compares to
/// `k` as twice the other to `k * p`.
proof fn lemma_compare_scaled(num: int, den: int, u: int, w: int, p: int, k: int)
    requires
        den > 0,
        w > 0,
        p > 0,
        num * w * p == u * den,
    ensures
        2 * num < k * den ==> 2 * u < k * p * w,
        2 * num == k * den ==> 2 * u == k * p * w,
        2 * num > k * den ==> 2 * u > k * p * w,
{
    let s = w * p;
    assert(s > 0) by (nonlinear_arith)
        requires
            s == w * p,
            w > 0,
            p > 0,
    ;
    assert((2 * u) * den == (2 * num) * s) by (nonlinear_arith)
        requires
            num * w * p == u * den,
            s == w * p,
    ;
    assert((k * p * w) * den == (k * den) * s) by (nonlinear_arith)
        requires
            s == w * p,
    ;
    let lhs = 2 * u;
    let rhs = k * p * w;
    let x = 2 * num;
    let y = k * den;
    assert(x < y ==> lhs < rhs) by (nonlinear_arith)
        requires
            lhs * den == x * s,
            rhs * den == y * s,
            den > 0,
            s > 0,
    ;
    assert(x == y ==> lhs == rhs) by (nonlinear_arith)
        requires
            lhs * den == x * s,
            rhs * den == y * s,
            den > 0,
            s > 0,
    ;
    assert(x > y ==> lhs > rhs) by (nonlinear_arith)
        requires
            lhs * den == x * s,
            rhs * den == y * s,
            den > 0,
            s > 0,
    ;
}

/// The magnitudes 0 and 1 stand for 0 and 1 unit.
proof fn lemma_first_quantities()
    ensures
        quantity(0) == 0,
        quantity(1) == 1,
{
    lemma2_to64();
    lemma_quantity_of(0, 0);
    lemma_quantity_of(0, 1);
}

/// The magnitude of infinity stands for 2^2098 units.
proof fn lemma_last_quantity()
    ensures
        quantity(INFINITY_BITS) == pow2(2098),
{
    lemma2_to64();
    lemma2_to64_rest();
    lemma_quantity_of(2045, SIGNIFICAND_LIMIT as nat);
    lemma_pow2_adds(53, 2045);
    assert(2045 * HIDDEN_BIT + SIGNIFICAND_LIMIT == INFINITY_BITS);
}

/// A ratio of at least 2^2098 units goes to infinity.
proof fn lemma_nearest_overflow(u: nat, w: nat)
    requires
        w > 0,
        u >= w * pow2(2098),
    ensures
        is_nearest(u, w, INFINITY_BITS),
{
    lemma_last_quantity();
    lemma_successor((INFINITY_BITS - 1) as u64);
    let top = quantity(INFINITY_BITS) as int;
    let below = quantity((INFINITY_BITS - 1) as u64) as int;
    assert((below + top) * w <= 2 * u) by (nonlinear_arith)
        requires
            below < top,
            w > 0,
            u >= w * top,
    ;
}

/// A ratio below half a unit goes to zero.
proof fn lemma_nearest_underflow(u: nat, w: nat)
    requires
        2 * u < w,
    ensures
        is_nearest(u, w, 0),
{
    lemma_first_quantities();
    assert((quantity(0) + quantity(1)) * w == w) by (nonlinear_arith)
        requires
            quantity(0) == 0,
            quantity(1) == 1,
    ;
}

/// The magnitude built from scale `sh` and the rounded quotient of `num` by
/// `den` is nearest to `u / w`, where `num / den` is `u / w` in steps of
/// `2^sh`.
proof fn lemma_nearest_rounded(u: nat, w: nat, num: nat, den: nat, sh: nat, n0: nat, rem: nat, up: bool)
    requires
        w > 0,
        den > 0,
        sh <= 2045,
        num * w * pow2(sh) == u * den,
        num == den * n0 + rem,
        rem < den,
        n0 < SIGNIFICAND_LIMIT,
        sh > 0 ==> n0 >= HIDDEN_BIT,
        up == (2 * rem > den || (2 * rem == den && n0 % 2 == 1)),
    ensures
        sh * HIDDEN_BIT + n0 + 1 <= INFINITY_BITS,
        is_nearest(u, w, (sh * HIDDEN_BIT + n0 + if up { 1nat } else { 0nat }) as u64),
{
    let p = pow2(sh) as int;
    lemma_pow2_pos(sh);
    lemma_quantity_of(sh, n0);
    lemma_quantity_of(sh, n0 + 1);
    let low = (sh * HIDDEN_BIT + n0) as u64;
    let high = (low + 1) as u64;
    assert(quantity(low) == n0 * p);
    assert(quantity(high) == (n0 + 1) * p);
    assert(low % 2 == n0 % 2) by (nonlinear_arith)
        requires
            low == sh * HIDDEN_BIT + n0,
            HIDDEN_BIT == 0x10_0000_0000_0000,
    ;
    let k = 2 * n0 + 1;
    lemma_compare_scaled(num as int, den as int, u as int, w as int, p, k as int);
    lemma_compare_scaled(num as int, den as int, u as int, w as int, p, (2 * n0) as int);
    lemma_compare_scaled(num as int, den as int, u as int, w as int, p, (2 * n0 + 2) as int);
    assert(k * den == 2 * (den * n0) + den) by (nonlinear_arith)
        requires
            k == 2 * n0 + 1,
    ;
    assert((2 * n0) * den == 2 * (den * n0)) by (nonlinear_arith);
    assert((2 * n0 + 2) * den == 2 * (den * n0) + 2 * den) by (nonlinear_arith);
    assert((quantity(low) + quantity(high)) * w == k * p * w) by (nonlinear_arith)
        requires
            quantity(low) == n0 * p,
            quantity(high) == (n0 + 1) * p,
            k == 2 * n0 + 1,
    ;
    if up {
        let r = high;
        // Below: the midpoint between `low` and `high`.
        assert(2 * u > k * p * w || (2 * u == k * p * w && r % 2 == 0));
        // Above: the ratio is below `high` itself.
        if r < INFINITY_BITS {
            lemma_successor(r);
            let next = quantity((r + 1) as u64) as int;
            let here = quantity(r) as int;
            assert(2 * u < (2 * n0 + 2) * p * w);
            assert((here + next) * w > (2 * n0 + 2) * p * w) by (nonlinear_arith)
                requires
                    here == (n0 + 1) * p,
                    next > here,
                    w > 0,
            ;
        }
    } else {
        let r = low;
        assert(2 * u < k * p * w || (2 * u == k * p * w && r % 2 == 0));
        if r > 0 {
            lemma_successor((r - 1) as u64);
            let before = quantity((r - 1) as u64) as int;
            let here = quantity(r) as int;
            assert(2 * u >= (2 * n0) * p * w);
            assert((before + here) * w < (2 * n0) * p * w) by (nonlinear_arith)
                requires
                    here == n0 * p,
                    before < here,
                    w > 0,
            ;
        }
    }
}

/// The magnitude nearest to `(m1 * 2^e1) / (m2 * 2^e2)` units.
pub(crate) fn nearest_ratio(m1: u64, e1: u32, m2: u64, e2: u32) -> (r: u64)
    requires
        m2 > 0,
        e1 <= 4096,
        e2 <= 4096,
    ensures
        r == nearest((m1 * pow2(e1 as nat)) as nat, (m2 * pow2(e2 as nat)) as nat),
        is_nearest((m1 * pow2(e1 as nat)) as nat, (m2 * pow2(e2 as nat)) as nat, r),
{
    let ghost u: nat = (m1 * pow2(e1 as nat)) as nat;
    let ghost w: nat = (m2 * pow2(e2 as nat)) as nat;
    proof {
        lemma2_to64();
        lemma2_to64_rest();
        lemma_pow2_pos(e1 as nat);
        lemma_pow2_pos(e2 as nat);
        assert(w > 0) by (nonlinear_arith)
            requires
                w == m2 * pow2(e2 as nat),
                m2 > 0,
                pow2(e2 as nat) > 0,
        ;
    }
    if m1 == 0 {
        proof {
            assert(u == 0) by (nonlinear_arith)
                requires
                    u == m1 * pow2(e1 as nat),
                    m1 == 0,
            ;
            lemma_nearest_underflow(u, w);
            lemma_nearest_is(u, w, 0);
        }
        return 0;
    }
    let (a, l1) = normalize(m1);
    let (b, l2) = normalize(m2);
    let ghost x: nat = (e1 + l2) as nat;
    let ghost y: nat = (e2 + l1) as nat;
    proof {
        lemma_pow2_adds(e1 as nat, l2 as nat);
        lemma_pow2_adds(e2 as nat, l1 as nat);
        lemma_cross(
            m1 as int,
            m2 as int,
            pow2(e1 as nat) as int,
            pow2(e2 as nat) as int,
            pow2(l1 as nat) as int,
            pow2(l2 as nat) as int,
        );
        assert(u * b * pow2(y) == w * a * pow2(x));
    }
    let t: i64 = e1 as i64 + l2 as i64 - l1 as i64 - e2 as i64;
    let g: i64 = if a >= b {
        t
    } else {
        t - 1
    };
    let sh: i64 = if g > 52 {
        g - 52
    } else {
        0
    };
    if sh > 2045 {
        proof {
            lemma_ratio_up(u as int, w as int, a as int, b as int, x, y, t as nat);
            let pt = pow2(t as nat) as int;
            let pg = pow2(g as nat) as int;
            lemma_pow2_increases(2098, g as nat);
            lemma_pow2_pos(g as nat);
            if a < b {
                lemma_pow2_unfold(t as nat);
            }
            assert(u * b >= (w * pg) * b) by (nonlinear_arith)
                requires
                    u * b == w * a * pt,
                    a >= b && pt == pg || 2 * a >= b && pt == 2 * pg,
                    w > 0,
                    pg > 0,
                    b > 0,
                    a > 0,
            ;
            assert(u >= w * pg) by (nonlinear_arith)
                requires
                    u * b >= (w * pg) * b,
                    b > 0,
            ;
            assert(w * pg >= w * pow2(2098)) by (nonlinear_arith)
                requires
                    pg >= pow2(2098),
                    w > 0,
            ;
            lemma_nearest_overflow(u, w);
            lemma_nearest_is(u, w, INFINITY_BITS);
        }
        return INFINITY_BITS;
    }
    let d: i64 = t - sh;
    if d < -1 {
        proof {
            let back = (-t) as nat;
            lemma_ratio_down(u as int, w as int, a as int, b as int, x, y, back);
            lemma_pow2_increases(2, back);
            let pb = pow2(back) as int;
            assert(4 * (u * b) <= w * a) by (nonlinear_arith)
                requires
                    u * b * pb == w * a,
                    pb >= 4,
                    u * b >= 0,
            ;
            assert(u * b >= 0) by (nonlinear_arith)
                requires
                    u >= 0,
                    b >= 0,
            ;
            assert(w * a < w * (2 * b)) by (nonlinear_arith)
                requires
                    a < 2 * b,
                    w > 0,
            ;
            assert(2 * u < w) by (nonlinear_arith)
                requires
                    4 * (u * b) < w * (2 * b),
                    b > 0,
            ;
            lemma_nearest_underflow(u, w);
            lemma_nearest_is(u, w, 0);
        }
        return 0;
    }
    let dp: u32 = if d > 0 {
        d as u32
    } else {
        0
    };
    let dn: u32 = if d < 0 {
        1
    } else {
        0
    };
    let pp: u128 = two_to(dp);
    let pn: u128 = two_to(dn);
    proof {
        lemma_pow2_increases(dp as nat, 53);
        assert(a * pp <= 0xffff_ffff_ffff_ffff * 0x20_0000_0000_0000) by (nonlinear_arith)
            requires
                a <= 0xffff_ffff_ffff_ffff,
                pp <= 0x20_0000_0000_0000,
        ;
        assert(b * pn <= 0xffff_ffff_ffff_ffff * 2) by (nonlinear_arith)
            requires
                b <= 0xffff_ffff_ffff_ffff,
                pn <= 2,
        ;
    }
    let num: u128 = (a as u128) * pp;
    let den: u128 = (b as u128) * pn;
    let n0: u128 = num / den;
    let rem: u128 = num % den;
    proof {
        lemma_fundamental_div_mod(num as int, den as int);
        lemma_mod_bound(num as int, den as int);
        // The exact relation between the two ratios.
        if t >= 0 {
            lemma_ratio_up(u as int, w as int, a as int, b as int, x, y, t as nat);
            lemma_pow2_adds(dp as nat, sh as nat);
            assert(num * w * pow2(sh as nat) == u * den) by (nonlinear_arith)
                requires
                    u * b == w * a * pow2(t as nat),
                    pow2(t as nat) == pp * pow2(sh as nat),
                    num == a * pp,
                    den == b,
            ;
        } else {
            lemma_ratio_down(u as int, w as int, a as int, b as int, x, y, 1);
            assert(num == a && den == b * 2) by (nonlinear_arith)
                requires
                    num == a * pp,
                    den == b * pn,
                    pp == 1,
                    pn == 2,
            ;
            assert(num * w * pow2(sh as nat) == u * den) by (nonlinear_arith)
                requires
                    u * b * 2 == w * a,
                    pow2(sh as nat) == 1,
                    num == a,
                    den == b * 2,
            ;
        }
        // The quotient has at most 53 bits, and exactly 53 above scale 0.
        assert(num < SIGNIFICAND_LIMIT * den) by (nonlinear_arith)
            requires
                num == a * pp,
                den == b * pn,
                pn >= 1,
                a < 2 * b,
                b > 0,
                a >= b && pp <= HIDDEN_BIT || a < b && pp <= SIGNIFICAND_LIMIT,
                SIGNIFICAND_LIMIT == 2 * HIDDEN_BIT,
        ;
        assert(n0 < SIGNIFICAND_LIMIT) by (nonlinear_arith)
            requires
                num == den * n0 + rem,
                rem >= 0,
                den > 0,
                num < SIGNIFICAND_LIMIT * den,
        ;
        if sh > 0 {
            assert(num >= HIDDEN_BIT * den) by (nonlinear_arith)
                requires
                    num == a * pp,
                    den == b,
                    a >= b && pp == HIDDEN_BIT || 2 * a >= b && pp == 2 * HIDDEN_BIT,
                    b > 0,
                    a > 0,
            ;
            assert(n0 >= HIDDEN_BIT) by (nonlinear_arith)
                requires
                    num == den * n0 + rem,
                    rem < den,
                    den > 0,
                    num >= HIDDEN_BIT * den,
            ;
        }
    }
    let up: bool = rem * 2 > den || (rem * 2 == den && n0 % 2 == 1);
    let n: u64 = n0 as u64 + if up {
        1
    } else {
        0
    };
    proof {
        lemma_nearest_rounded(u, w, num as nat, den as nat, sh as nat, n0 as nat, rem as nat, up);
    }
    let r: u64 = sh as u64 * HIDDEN_BIT + n;
    proof {
        lemma_nearest_is(u, w, r);
    }
    r
}

} // verus!
