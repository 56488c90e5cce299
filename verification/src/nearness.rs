//! How near single precision keeps to what it stands for.

use crate::single::{
    denominator, floor, is_nearest, law_rounding_is_unique, lemma_rounds, numerator, product, quotient, rounded,
    source_index, Single,
};
use vstd::arithmetic::div_mod::lemma_fundamental_div_mod;
use vstd::arithmetic::power2::{lemma2_to64, lemma_pow2_pos, lemma_pow2_unfold, pow2};
use vstd::prelude::*;

verus! {

/// `2^k`.
pub open spec fn two_to(k: int) -> real {
    if k >= 0 { pow2(k as nat) as real } else { (1 as real) / (pow2((-k) as nat) as real) }
}

/// The number that `s` stands for.
pub open spec fn value(s: Single) -> real {
    (s.m as real) * two_to(s.e as int)
}

/// Powers of two are positive.
proof fn lemma_two_to_positive(k: int)
    ensures
        two_to(k) > 0 as real,
{
    if k >= 0 {
        lemma_pow2_pos(k as nat);
    } else {
        lemma_pow2_pos((-k) as nat);
        let p = pow2((-k) as nat) as real;
        assert((1 as real) / p > 0 as real) by (nonlinear_arith)
            requires
                p > 0 as real,
        ;
    }
}

/// The product of whole numbers, as a real number.
proof fn lemma_real_product(x: int, y: int)
    requires
        x >= 0,
    ensures
        (x * y) as real == (x as real) * (y as real),
    decreases x,
{
    let yr = y as real;
    if x == 0 {
        assert(x * y == 0) by (nonlinear_arith)
            requires
                x == 0,
        ;
        assert((0 as real) * yr == 0 as real) by (nonlinear_arith);
    } else {
        lemma_real_product(x - 1, y);
        assert(x * y == (x - 1) * y + y) by (nonlinear_arith);
        let (a, b) = (x as real, (x - 1) as real);
        assert(a * yr == b * yr + yr) by (nonlinear_arith)
            requires
                a == b + (1 as real),
        ;
    }
}

/// Factors that are not negative keep the order.
proof fn lemma_keeps_order(x: real, y: real, z: real)
    requires
        x <= y,
        z >= 0 as real,
    ensures
        x * z <= y * z,
{
    assert(x * z <= y * z) by (nonlinear_arith)
        requires
            x <= y,
            z >= 0 as real,
    ;
}

/// The next power of two is twice the last.
proof fn lemma_two_to_step(k: int)
    ensures
        two_to(k + 1) == (2 as real) * two_to(k),
{
    assert(pow2(0) == 1) by {
        lemma2_to64();
    }
    if k >= 0 {
        lemma_pow2_unfold((k + 1) as nat);
        lemma_real_product(2, pow2(k as nat) as int);
    } else {
        lemma_pow2_unfold((-k) as nat);
        lemma_pow2_pos((-k - 1) as nat);
        let (p, q) = (pow2((-k) as nat), pow2((-k - 1) as nat));
        lemma_real_product(2, q as int);
        let (pr, qr) = (p as real, q as real);
        lemma_halves(pr, qr);
        assert(k + 1 == 0 || two_to(k + 1) == (1 as real) / qr);
        assert(k + 1 == 0 ==> qr == 1 as real);
    }
}

/// One part in `q` is two parts in `2 q`.
proof fn lemma_halves(p: real, q: real)
    requires
        p == (2 as real) * q,
        q > 0 as real,
    ensures
        (1 as real) / q == (2 as real) * ((1 as real) / p),
{
    let (a, b) = ((1 as real) / q, (1 as real) / p);
    assert(a * q == 1 as real && b * p == 1 as real) by (nonlinear_arith)
        requires
            a == (1 as real) / q,
            b == (1 as real) / p,
            p > 0 as real,
            q > 0 as real,
    ;
    assert(a == (2 as real) * b) by (nonlinear_arith)
        requires
            a * q == 1 as real,
            b * p == 1 as real,
            p == (2 as real) * q,
            q > 0 as real,
    ;
}

/// Powers of two multiply by adding what they are raised to.
proof fn lemma_two_to_sum(j: int, k: int)
    ensures
        two_to(j + k) == two_to(j) * two_to(k),
    decreases if k >= 0 { k } else { -k },
{
    let (a, b) = (two_to(j), two_to(k));
    if k > 0 {
        lemma_two_to_sum(j, k - 1);
        lemma_two_to_step(j + k - 1);
        lemma_two_to_step(k - 1);
        let c = two_to(k - 1);
        assert((2 as real) * (a * c) == a * ((2 as real) * c)) by (nonlinear_arith);
    } else if k < 0 {
        lemma_two_to_sum(j, k + 1);
        lemma_two_to_step(j + k);
        lemma_two_to_step(k);
        assert(a * ((2 as real) * b) == (2 as real) * (a * b)) by (nonlinear_arith);
    } else {
        assert(pow2(0) == 1) by {
            lemma2_to64();
        }
        assert(b == 1 as real);
        assert(a * b == a) by (nonlinear_arith)
            requires
                b == 1 as real,
        ;
    }
}

/// A number in single precision is off by no more than one part in 2^24.
proof fn lemma_value_is_near(a: nat, b: nat, s: Single)
    requires
        is_nearest(a, b, s),
        1 <= b,
    ensures
        (0x100_0000 as real) * (value(s) * (b as real) - (a as real)) <= a as real,
        (0x100_0000 as real) * ((a as real) - value(s) * (b as real)) <= a as real,
{
    let e = s.e as int;
    let (n, d) = (numerator(a, e), denominator(b, e));
    assert(d > 0) by {
        if e > 0 {
            lemma_pow2_pos(e as nat);
            assert(b * pow2(e as nat) > 0) by (nonlinear_arith)
                requires
                    b >= 1,
                    pow2(e as nat) >= 1,
            ;
        }
    }
    let (q, r) = (n / d, n % d);
    lemma_fundamental_div_mod(n as int, d as int);
    let m = s.m as int;
    assert(m == q || m == q + 1);
    assert(d * (q + 1) == d * q + d) by (nonlinear_arith);
    let off = m * d - n;
    assert(m * d == d * m) by (nonlinear_arith);
    assert(2 * off <= d && -2 * off <= d);
    assert(0x100_0000 * off <= n && -0x100_0000 * off <= n);
    let (ar, br, mr, offr) = (a as real, b as real, m as real, off as real);
    let p = if e >= 0 { pow2(e as nat) } else { pow2((-e) as nat) };
    let pr = p as real;
    lemma_real_product(m, p as int);
    lemma_real_product(m * p, b as int);
    lemma_real_product(m, b as int);
    lemma_real_product(a as int, p as int);
    if e >= 0 {
        assert(pow2(0) == 1) by {
            lemma2_to64();
        }
        assert(d == b * p) by {
            if e == 0 {
                assert(b * 1 == b);
            }
        }
        assert(m * (b * p) == (m * p) * b) by (nonlinear_arith);
        assert(offr == value(s) * br - ar);
    } else {
        lemma_pow2_pos((-e) as nat);
        assert(off == m * b - a * p);
        assert(offr == mr * br - ar * pr);
        lemma_over_the_line(ar, br, mr, pr);
    }
}

/// A fraction that is off by a part in 2^24, over a common factor.
proof fn lemma_over_the_line(a: real, b: real, m: real, p: real)
    requires
        p > 0 as real,
        (0x100_0000 as real) * (m * b - a * p) <= a * p,
        (0x100_0000 as real) * (a * p - m * b) <= a * p,
    ensures
        (0x100_0000 as real) * ((m * ((1 as real) / p)) * b - a) <= a,
        (0x100_0000 as real) * (a - (m * ((1 as real) / p)) * b) <= a,
{
    let z = (1 as real) / p;
    assert(z * p == 1 as real && z > 0 as real) by (nonlinear_arith)
        requires
            z == (1 as real) / p,
            p > 0 as real,
    ;
    let (mb, ap) = (m * b, a * p);
    assert((m * z) * b == mb * z) by (nonlinear_arith)
        requires
            mb == m * b,
    ;
    assert(ap * z == a) by (nonlinear_arith)
        requires
            ap == a * p,
            z * p == 1 as real,
    ;
    lemma_keeps_order((0x100_0000 as real) * mb, (0x100_0001 as real) * ap, z);
    lemma_keeps_order((0xff_ffff as real) * ap, (0x100_0000 as real) * mb, z);
    lemma_moved(0x100_0000 as real, mb, z);
    lemma_moved(0x100_0001 as real, ap, z);
    lemma_moved(0xff_ffff as real, ap, z);
}

/// Products of three can be taken in any order.
proof fn lemma_moved(c: real, x: real, z: real)
    ensures
        (c * x) * z == c * (x * z),
{
    assert((c * x) * z == c * (x * z)) by (nonlinear_arith);
}

/// The value of a quotient is off by no more than one part in 2^24.
proof fn lemma_quotient_is_near(x: Single, y: Single)
    requires
        x.usual(),
        y.usual(),
    ensures
        ({
            let off = value(quotient(x, y)) * value(y) - value(x);
            &&& (0x100_0000 as real) * off <= value(x)
            &&& (0x100_0000 as real) * ((0 as real) - off) <= value(x)
            &&& value(quotient(x, y)) > 0 as real
            &&& 0x80_0000 <= quotient(x, y).m <= 0x100_0000
            &&& x.e - y.e - 48 <= quotient(x, y).e <= x.e - y.e + 41
        }),
{
    lemma_rounds(x.m as nat, y.m as nat);
    let s = rounded(x.m as nat, y.m as nat);
    lemma_value_is_near(x.m as nat, y.m as nat, s);
    let z = quotient(x, y);
    assert(z.e == s.e + (x.e - y.e));
    lemma_two_to_sum(s.e as int, x.e - y.e);
    lemma_two_to_sum(x.e - y.e, y.e as int);
    lemma_two_to_positive(x.e as int);
    lemma_two_to_positive(z.e as int);
    let (a, b, c) = (two_to(s.e as int), two_to(x.e - y.e), two_to(y.e as int));
    let (zm, ym, xm, top) = (s.m as real, y.m as real, x.m as real, two_to(x.e as int));
    let zy = zm * a * ym;
    assert(value(z) == zm * (a * b));
    assert((zm * (a * b)) * (ym * c) == zy * top) by (nonlinear_arith)
        requires
            top == b * c,
            zy == zm * a * ym,
    ;
    assert(value(z) * value(y) == zy * top);
    lemma_keeps_order((0x100_0000 as real) * zy, (0x100_0001 as real) * xm, top);
    lemma_keeps_order((0xff_ffff as real) * xm, (0x100_0000 as real) * zy, top);
    lemma_moved(0x100_0000 as real, zy, top);
    lemma_moved(0x100_0001 as real, xm, top);
    lemma_moved(0xff_ffff as real, xm, top);
    let e = two_to(z.e as int);
    assert(zm * e > 0 as real) by (nonlinear_arith)
        requires
            zm > 0 as real,
            e > 0 as real,
    ;
}

/// The value of a product is off by no more than one part in 2^24.
proof fn lemma_product_is_near(x: Single, y: Single)
    requires
        x.usual(),
        y.usual(),
    ensures
        ({
            let off = value(product(x, y)) - value(x) * value(y);
            &&& (0x100_0000 as real) * off <= value(x) * value(y)
            &&& (0x100_0000 as real) * ((0 as real) - off) <= value(x) * value(y)
        }),
{
    let a = (x.m * y.m) as nat;
    assert(1 <= a <= 0x1_0000_0000_0000) by (nonlinear_arith)
        requires
            0x80_0000 <= x.m <= 0x100_0000,
            0x80_0000 <= y.m <= 0x100_0000,
            a == x.m * y.m,
    ;
    lemma_rounds(a, 1);
    let s = rounded(a, 1);
    lemma_value_is_near(a, 1, s);
    let z = product(x, y);
    assert(z.e == s.e + (x.e + y.e));
    lemma_two_to_sum(s.e as int, x.e + y.e);
    lemma_two_to_sum(x.e as int, y.e as int);
    lemma_two_to_positive(x.e + y.e);
    let (b, c, top) = (two_to(x.e as int), two_to(y.e as int), two_to(x.e + y.e));
    let (sv, xm, ym, ar) = (value(s), x.m as real, y.m as real, a as real);
    lemma_real_product(x.m as int, y.m as int);
    assert(sv * (1 as real) == sv) by (nonlinear_arith);
    let (sm, se) = (s.m as real, two_to(s.e as int));
    assert(value(z) == sm * (se * top));
    assert((xm * b) * (ym * c) == ar * top) by (nonlinear_arith)
        requires
            ar == xm * ym,
            top == b * c,
    ;
    lemma_moved(sm, se, top);
    assert(value(z) == sv * top);
    lemma_keeps_order((0x100_0000 as real) * sv, (0x100_0001 as real) * ar, top);
    lemma_keeps_order((0xff_ffff as real) * ar, (0x100_0000 as real) * sv, top);
    lemma_moved(0x100_0000 as real, sv, top);
    lemma_moved(0x100_0001 as real, ar, top);
    lemma_moved(0xff_ffff as real, ar, top);
}

/// The whole part of a number is below it by less than 1.
proof fn lemma_floor_is_below(s: Single)
    ensures
        floor(s) as real <= value(s) < (floor(s) + 1) as real,
{
    let m = s.m as int;
    if s.e >= 0 {
        let p = pow2(s.e as nat);
        lemma_real_product(m, p as int);
    } else {
        let p = pow2((-s.e) as nat);
        lemma_pow2_pos((-s.e) as nat);
        lemma_fundamental_div_mod(m, p as int);
        let q = m / p as int;
        let (mr, pr, qr) = (m as real, p as real, q as real);
        lemma_real_product(p as int, q);
        assert(p * (q + 1) == p * q + p) by (nonlinear_arith);
        assert(pr * qr <= mr && mr < pr * qr + pr);
        let z = (1 as real) / pr;
        let v = mr * z;
        assert(v == value(s));
        assert(v * pr == mr) by (nonlinear_arith)
            requires
                v == mr * z,
                z == (1 as real) / pr,
                pr > 0 as real,
        ;
        assert(qr <= v) by (nonlinear_arith)
            requires
                pr * qr <= mr,
                v * pr == mr,
                pr > 0 as real,
        ;
        assert(v < qr + (1 as real)) by (nonlinear_arith)
            requires
                mr < pr * qr + pr,
                v * pr == mr,
                pr > 0 as real,
        ;
        assert((q + 1) as real == qr + (1 as real));
    }
}

/// A whole number in single precision is off by no more than one part in 2^24.
proof fn lemma_whole_is_near(a: nat)
    requires
        1 <= a <= u64::MAX,
    ensures
        rounded(a, 1).usual(),
        (0x100_0000 as real) * (value(rounded(a, 1)) - (a as real)) <= a as real,
        (0x100_0000 as real) * ((a as real) - value(rounded(a, 1))) <= a as real,
        -48 <= rounded(a, 1).e <= 41,
{
    lemma_rounds(a, 1);
    lemma_value_is_near(a, 1, rounded(a, 1));
    let v = value(rounded(a, 1));
    assert(v * (1 as real) == v) by (nonlinear_arith);
}

/// What roundings that are each off by a part in 2^24 come to together.
proof fn lemma_roundings_together(t: real, n: real, i: real, a: real, b: real, c: real, q: real, p: real)
    requires
        t > 0 as real,
        n > 0 as real,
        i > 0 as real,
        q > 0 as real,
        (0xff_ffff as real) * t <= (0x100_0000 as real) * a,
        (0x100_0000 as real) * a <= (0x100_0001 as real) * t,
        (0xff_ffff as real) * n <= (0x100_0000 as real) * b,
        (0x100_0000 as real) * b <= (0x100_0001 as real) * n,
        (0xff_ffff as real) * i <= (0x100_0000 as real) * c,
        (0x100_0000 as real) * c <= (0x100_0001 as real) * i,
        (0xff_ffff as real) * a <= (0x100_0000 as real) * (q * b),
        (0x100_0000 as real) * (q * b) <= (0x100_0001 as real) * a,
        (0xff_ffff as real) * (c * q) <= (0x100_0000 as real) * p,
        (0x100_0000 as real) * p <= (0x100_0001 as real) * (c * q),
    ensures
        (0x20_0000 as real) * (p * n) <= (0x20_0001 as real) * (i * t),
        (0x20_0000 as real) * (p * n) >= (0x1f_ffff as real) * (i * t),
{
    let (bq, nq, cq, iq, pn) = (b * q, n * q, c * q, i * q, p * n);
    lemma_scaled_bounds(n, b, q);
    lemma_scaled_bounds(i, c, q);
    assert(q * b == bq) by (nonlinear_arith)
        requires
            bq == b * q,
    ;
    let cqn = cq * n;
    lemma_scaled_bounds(cq, p, n);
    let iqn = iq * n;
    lemma_scaled_bounds(iq, cq, n);
    let nqi = nq * i;
    assert(nqi == iqn) by (nonlinear_arith)
        requires
            nqi == nq * i,
            nq == n * q,
            iqn == iq * n,
            iq == i * q,
    ;
    let ti = t * i;
    assert(i * t == ti) by (nonlinear_arith)
        requires
            ti == t * i,
    ;
    let (ai, bqi) = (a * i, bq * i);
    lemma_scaled_bounds(t, a, i);
    lemma_scaled_bounds(a, bq, i);
    lemma_scaled_bounds(nq, bq, i);
    assert(ti > 0 as real) by (nonlinear_arith)
        requires
            ti == t * i,
            t > 0 as real,
            i > 0 as real,
    ;
    lemma_parts_together(ti, ai, bqi, iqn, cqn, pn);
}

/// Bounds within a part in 2^24, times a factor.
proof fn lemma_scaled_bounds(x: real, y: real, z: real)
    requires
        z >= 0 as real,
        (0xff_ffff as real) * x <= (0x100_0000 as real) * y,
        (0x100_0000 as real) * y <= (0x100_0001 as real) * x,
    ensures
        (0xff_ffff as real) * (x * z) <= (0x100_0000 as real) * (y * z),
        (0x100_0000 as real) * (y * z) <= (0x100_0001 as real) * (x * z),
{
    lemma_keeps_order((0xff_ffff as real) * x, (0x100_0000 as real) * y, z);
    lemma_keeps_order((0x100_0000 as real) * y, (0x100_0001 as real) * x, z);
    lemma_moved(0xff_ffff as real, x, z);
    lemma_moved(0x100_0000 as real, y, z);
    lemma_moved(0x100_0001 as real, x, z);
}

/// Five steps of a part in 2^24 stay within a part in 2^21.
proof fn lemma_parts_together(ti: real, ai: real, bqi: real, iqn: real, cqn: real, pn: real)
    requires
        ti > 0 as real,
        (0xff_ffff as real) * ti <= (0x100_0000 as real) * ai,
        (0x100_0000 as real) * ai <= (0x100_0001 as real) * ti,
        (0xff_ffff as real) * ai <= (0x100_0000 as real) * bqi,
        (0x100_0000 as real) * bqi <= (0x100_0001 as real) * ai,
        (0xff_ffff as real) * iqn <= (0x100_0000 as real) * bqi,
        (0x100_0000 as real) * bqi <= (0x100_0001 as real) * iqn,
        (0xff_ffff as real) * iqn <= (0x100_0000 as real) * cqn,
        (0x100_0000 as real) * cqn <= (0x100_0001 as real) * iqn,
        (0xff_ffff as real) * cqn <= (0x100_0000 as real) * pn,
        (0x100_0000 as real) * pn <= (0x100_0001 as real) * cqn,
    ensures
        (0x20_0000 as real) * pn <= (0x20_0001 as real) * ti,
        (0x20_0000 as real) * pn >= (0x1f_ffff as real) * ti,
{
}

/// Whole numbers compare as the real numbers do.
proof fn lemma_compares(x: nat, y: nat, a: nat, b: nat)
    requires
        (a as real) * (x as real) <= (b as real) * (y as real),
    ensures
        a * x <= b * y,
{
    lemma_real_product(a as int, x as int);
    lemma_real_product(b as int, y as int);
}

/// Whole numbers compare as the real numbers do.
proof fn lemma_compares_strictly(x: nat, y: nat, a: nat, b: nat)
    requires
        (a as real) * (x as real) < (b as real) * (y as real),
    ensures
        a * x < b * y,
{
    lemma_real_product(a as int, x as int);
    lemma_real_product(b as int, y as int);
}

/// The source frame of an output frame is the whole part of `i t / n`, but for what single precision
/// makes of it: the number whose whole part is taken is off by no more than one part in 2^21.
pub proof fn law_source_index_is_the_scaled_index(i: nat, t: nat, n: nat)
    requires
        i < n <= u64::MAX,
        1 <= t <= u64::MAX,
    ensures
        source_index(i, t, n) < t,
        0x20_0000 * (source_index(i, t, n) * n) <= 0x20_0001 * (i * t),
        0x20_0000 * ((source_index(i, t, n) + 1) * n) > 0x1f_ffff * (i * t),
{
    let x = source_index(i, t, n);
    if i == 0 {
        assert(x * n == 0 && i * t == 0) by (nonlinear_arith)
            requires
                x == 0,
                i == 0,
        ;
        assert((x + 1) * n == n) by (nonlinear_arith)
            requires
                x == 0,
        ;
    } else {
        let (a, b, c) = (rounded(t, 1), rounded(n, 1), rounded(i, 1));
        lemma_whole_is_near(t);
        lemma_whole_is_near(n);
        lemma_whole_is_near(i);
        lemma_quotient_is_near(a, b);
        let q = quotient(a, b);
        lemma_product_is_near(c, q);
        let p = product(c, q);
        lemma_floor_is_below(p);
        let (tr, nr, ir) = (t as real, n as real, i as real);
        lemma_two_to_positive(c.e as int);
        let (cm, ce) = (c.m as real, two_to(c.e as int));
        assert(cm * ce > 0 as real) by (nonlinear_arith)
            requires
                cm > 0 as real,
                ce > 0 as real,
        ;
        assert((1 as real) * value(c) == value(c));
        lemma_roundings_together(tr, nr, ir, value(a), value(b), value(c), value(q), value(p));
        let at = floor(p);
        let (atr, pv) = (at as real, value(p));
        lemma_keeps_order(atr, pv, nr);
        lemma_keeps_order(pv, atr + (1 as real), nr);
        assert(pv * nr < (atr + (1 as real)) * nr) by (nonlinear_arith)
            requires
                pv < atr + (1 as real),
                nr > 0 as real,
        ;
        lemma_real_product(at as int, n as int);
        lemma_real_product((at + 1) as int, n as int);
        lemma_real_product(i as int, t as int);
        assert((at + 1) as real == atr + (1 as real));
        lemma_compares(at * n, i * t, 0x20_0000, 0x20_0001);
        lemma_compares_strictly(i * t, (at + 1) * n, 0x1f_ffff, 0x20_0000);
        if x != at {
            assert(x == t - 1 && x <= at);
            assert(x * n <= at * n) by (nonlinear_arith)
                requires
                    x <= at,
                    n > 0,
            ;
            assert((x + 1) * n > i * t) by (nonlinear_arith)
                requires
                    x + 1 == t,
                    t > 0,
                    n > i,
            ;
        }
    }
}

/// Rounding takes the power of two that leaves 24 binary digits, and of the whole numbers the nearest to what
/// is left, the even one of two.
pub proof fn law_rounding_is_to_the_nearest(a: nat, b: nat, s: Single)
    requires
        is_nearest(a, b, s),
        1 <= b,
    ensures
        ({
            let n = if s.e < 0 { a * pow2((-s.e) as nat) } else { a };
            let d = if s.e > 0 { b * pow2(s.e as nat) } else { b };
            let off = s.m * d - n;
            &&& 0x80_0000 * d <= n < 0x100_0000 * d
            &&& -d <= 2 * off <= d
            &&& 2 * off == d || 2 * off == -d ==> s.m % 2 == 0
        }),
{
    let e = s.e as int;
    let (n, d) = (numerator(a, e), denominator(b, e));
    assert(d > 0) by {
        if e > 0 {
            lemma_pow2_pos(e as nat);
            assert(b * pow2(e as nat) > 0) by (nonlinear_arith)
                requires
                    b >= 1,
                    pow2(e as nat) >= 1,
            ;
        }
    }
    let (q, r) = ((n / d) as int, (n % d) as int);
    lemma_fundamental_div_mod(n as int, d as int);
    let m = s.m as int;
    assert(m == q || m == q + 1);
    assert((q + 1) * d == q * d + d) by (nonlinear_arith);
    assert(d * q == q * d) by (nonlinear_arith);
    assert(n == q * d + r);
}

/// The source frame of an output frame is what single precision makes of `i (t / n)`: both lengths and the
/// number of the frame are rounded, then the ratio, then the product, and the whole part of that is taken,
/// but no more than the last frame.
pub proof fn law_source_index_is_computed_in_single_precision(
    i: nat,
    t: nat,
    n: nat,
    x: Single,
    y: Single,
    z: Single,
    q: Single,
    p: Single,
    v: nat,
)
    requires
        1 <= i <= u64::MAX,
        1 <= t <= u64::MAX,
        1 <= n <= u64::MAX,
        is_nearest(t, 1, x),
        is_nearest(n, 1, y),
        is_nearest(i, 1, z),
        is_nearest(x.m as nat, y.m as nat, q),
        is_nearest((z.m * q.m) as nat, 1, p),
        v as real <= (p.m as real) * two_to(p.e + z.e + q.e + x.e - y.e),
        (p.m as real) * two_to(p.e + z.e + q.e + x.e - y.e) < (v + 1) as real,
    ensures
        source_index(i, t, n) == if v < t { v } else { (t - 1) as nat },
{
    law_rounding_is_unique(t, 1, x);
    law_rounding_is_unique(n, 1, y);
    law_rounding_is_unique(i, 1, z);
    law_rounding_is_unique(x.m as nat, y.m as nat, q);
    lemma_rounds(t, 1);
    lemma_rounds(n, 1);
    lemma_rounds(i, 1);
    lemma_rounds(x.m as nat, y.m as nat);
    let scale = quotient(x, y);
    assert(scale.m == q.m && scale.e == q.e + (x.e - y.e));
    let a = (z.m * q.m) as nat;
    assert(1 <= a <= 0x1_0000_0000_0000) by (nonlinear_arith)
        requires
            0x80_0000 <= z.m <= 0x100_0000,
            0x80_0000 <= q.m <= 0x100_0000,
            a == z.m * q.m,
    ;
    law_rounding_is_unique(a, 1, p);
    lemma_rounds(a, 1);
    let at = product(z, scale);
    assert(at.m == p.m && at.e == p.e + (z.e + scale.e));
    lemma_floor_is_below(at);
    assert(value(at) == (p.m as real) * two_to(p.e + z.e + q.e + x.e - y.e));
    let w = floor(at);
    assert(w == v) by {
        if w < v {
            assert((w + 1) as real <= v as real);
        }
        if v < w {
            assert((v + 1) as real <= w as real);
        }
    }
}

} // verus!
