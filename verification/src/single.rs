//! Rounding to single precision, in integers.
//!
//! A positive number in single precision is `m * 2^e` with 24 binary digits in `m`. The functions
//! here round positive numbers to the nearest such number, ties to the even one, as IEEE 754 does
//! where neither overflow nor underflow is near.

use vstd::arithmetic::div_mod::{
    lemma_div_denominator, lemma_div_is_ordered, lemma_div_is_ordered_by_denominator, lemma_div_nonincreasing,
    lemma_fundamental_div_mod, lemma_fundamental_div_mod_converse,
};
use vstd::arithmetic::power2::{
    lemma2_to64, lemma2_to64_rest, lemma_pow2_pos, lemma_pow2_strictly_increases, lemma_pow2_unfold, pow2,
};
use vstd::prelude::*;

verus! {

/// The number `m * 2^e`.
#[derive(Debug, Clone, Copy, PartialEq, Eq, Structural)]
pub struct Single {
    pub m: u64,
    pub e: i64,
}

/// What is over the line when `a / b` is divided by `2^e`.
pub open spec fn numerator(a: nat, e: int) -> nat {
    if e < 0 { a * pow2((-e) as nat) } else { a }
}

/// What is under the line when `a / b` is divided by `2^e`.
pub open spec fn denominator(b: nat, e: int) -> nat {
    if e > 0 { b * pow2(e as nat) } else { b }
}

/// Whether `a / b`, divided by `2^e`, has 24 binary digits before the point.
pub open spec fn has_24_digits(a: nat, b: nat, e: int) -> bool {
    0x80_0000 * denominator(b, e) <= numerator(a, e) < 0x100_0000 * denominator(b, e)
}

/// The integer nearest to `n / d`, the even one of two.
pub open spec fn nearest_even(n: nat, d: nat) -> nat {
    let q = n / d;
    let r = n % d;
    if 2 * r < d || (2 * r == d && q % 2 == 0) { q } else { q + 1 }
}

/// Whether `s` is `a / b` in single precision.
pub open spec fn is_nearest(a: nat, b: nat, s: Single) -> bool {
    &&& has_24_digits(a, b, s.e as int)
    &&& s.m == nearest_even(numerator(a, s.e as int), denominator(b, s.e as int))
}

/// `a / b` in single precision.
pub open spec fn rounded(a: nat, b: nat) -> Single {
    choose|s: Single| is_nearest(a, b, s)
}

/// `s * 2^k`.
pub open spec fn shifted(s: Single, k: int) -> Single {
    Single { m: s.m, e: (s.e + k) as i64 }
}

/// `x / y` in single precision.
pub open spec fn quotient(x: Single, y: Single) -> Single {
    shifted(rounded(x.m as nat, y.m as nat), x.e - y.e)
}

/// `x * y` in single precision.
pub open spec fn product(x: Single, y: Single) -> Single {
    shifted(rounded((x.m * y.m) as nat, 1), x.e + y.e)
}

/// The whole part of a number.
pub open spec fn floor(s: Single) -> nat {
    if s.e >= 0 { (s.m * pow2(s.e as nat)) as nat } else { s.m as nat / pow2((-s.e) as nat) }
}

/// One more factor of two.
proof fn lemma_step(a: nat, b: nat, e: int)
    ensures
        e >= 0 ==> numerator(a, e + 1) == numerator(a, e) && denominator(b, e + 1) == 2 * denominator(b, e),
        e < 0 ==> numerator(a, e) == 2 * numerator(a, e + 1) && denominator(b, e + 1) == denominator(b, e),
{
    if e >= 0 {
        lemma_pow2_unfold((e + 1) as nat);
        assert(pow2(0) == 1) by {
            lemma2_to64();
        }
        assert(b * (2 * pow2(e as nat)) == 2 * (b * pow2(e as nat))) by (nonlinear_arith);
        assert(b * 1 == b);
    } else {
        let k = (-e) as nat;
        lemma_pow2_unfold(k);
        assert(pow2(0) == 1) by {
            lemma2_to64();
        }
        assert(a * (2 * pow2((k - 1) as nat)) == 2 * (a * pow2((k - 1) as nat))) by (nonlinear_arith);
        assert(a * 1 == a);
    }
}

/// Beyond 24 digits, fewer than 24 remain.
proof fn lemma_fewer_digits(a: nat, b: nat, e: int, f: int)
    requires
        numerator(a, e) < 0x100_0000 * denominator(b, e),
        e < f,
    ensures
        numerator(a, f) < 0x80_0000 * denominator(b, f),
    decreases f - e,
{
    lemma_step(a, b, e);
    if e + 1 < f {
        lemma_fewer_digits(a, b, e + 1, f);
    }
}

/// There is only one number that `a / b` is rounded to.
pub proof fn law_rounding_is_unique(a: nat, b: nat, s: Single)
    requires
        is_nearest(a, b, s),
    ensures
        s == rounded(a, b),
{
    let t = rounded(a, b);
    assert(is_nearest(a, b, t));
    if s.e < t.e {
        lemma_fewer_digits(a, b, s.e as int, t.e as int);
    }
    if t.e < s.e {
        lemma_fewer_digits(a, b, t.e as int, s.e as int);
    }
}

/// `a / b` in single precision.
fn round(a: u64, b: u64) -> (s: Single)
    requires
        1 <= a,
        1 <= b <= 0x100_0000,
    ensures
        is_nearest(a as nat, b as nat, s),
        s == rounded(a as nat, b as nat),
        -48 <= s.e <= 41,
        0x80_0000 <= s.m <= 0x100_0000,
{
    let mut n: u128 = a as u128;
    let mut d: u128 = b as u128;
    let mut e: i64 = 0;
    proof {
        lemma2_to64();
        lemma2_to64_rest();
    }
    while n >= 0x100_0000 * d
        invariant
            n == a,
            0 < d,
            d <= 0x2000_0000_0000,
            0 <= e <= 41,
            d >= pow2(e as nat),
            n == numerator(a as nat, e as int),
            d == denominator(b as nat, e as int),
            e > 0 ==> n >= 0x80_0000 * d,
        decreases 0x2000_0000_0000 - d,
    {
        proof {
            lemma_step(a as nat, b as nat, e as int);
            lemma_pow2_unfold((e + 1) as nat);
            lemma2_to64_rest();
            if e > 40 {
                lemma_pow2_strictly_increases(40, e as nat);
            }
        }
        d = d * 2;
        e = e + 1;
    }
    while n < 0x80_0000 * d
        invariant
            0 < n,
            0 < d,
            n < 0x100_0000 * d,
            d <= 0x100_0000 || n >= 0x80_0000 * d,
            d <= 0x2000_0000_0000,
            -48 <= e <= 41,
            e > 0 ==> n >= 0x80_0000 * d,
            e <= 0 ==> n >= pow2((-e) as nat),
            n == numerator(a as nat, e as int),
            d == denominator(b as nat, e as int),
        decreases 0x100_0000 * d - n,
    {
        proof {
            lemma_step(a as nat, b as nat, e - 1);
            lemma_pow2_unfold((1 - e) as nat);
            lemma2_to64_rest();
            if e < -47 {
                lemma_pow2_strictly_increases(47, (-e) as nat);
            }
        }
        n = n * 2;
        e = e - 1;
    }
    let q = n / d;
    let r = n % d;
    proof {
        lemma_fundamental_div_mod(n as int, d as int);
        assert(0x80_0000 <= q < 0x100_0000) by (nonlinear_arith)
            requires
                n == d * q + r,
                0 <= r < d,
                0x80_0000 * d <= n < 0x100_0000 * d,
        ;
    }
    let m = if 2 * r < d || (2 * r == d && q % 2 == 0) { q } else { q + 1 };
    let s = Single { m: m as u64, e };
    proof {
        law_rounding_is_unique(a as nat, b as nat, s);
    }
    s
}

impl Single {
    /// Whether the number is one that [`whole`](Single::whole), [`over`](Single::over) and
    /// [`times`](Single::times) give for sizes that a machine counts.
    pub open spec fn usual(self) -> bool {
        0x80_0000 <= self.m <= 0x100_0000 && -1000 <= self.e <= 1000
    }

    /// `n` in single precision.
    pub fn whole(n: u64) -> (s: Single)
        requires
            1 <= n,
        ensures
            s == rounded(n as nat, 1),
            0x80_0000 <= s.m <= 0x100_0000,
            -48 <= s.e <= 41,
    {
        round(n, 1)
    }

    /// `self / y` in single precision.
    pub fn over(self, y: Single) -> (s: Single)
        requires
            self.usual(),
            y.usual(),
        ensures
            s == quotient(self, y),
            0x80_0000 <= s.m <= 0x100_0000,
            self.e - y.e - 48 <= s.e <= self.e - y.e + 41,
    {
        let r = round(self.m, y.m);
        Single { m: r.m, e: r.e + (self.e - y.e) }
    }

    /// `self * y` in single precision.
    pub fn times(self, y: Single) -> (s: Single)
        requires
            self.usual(),
            y.usual(),
        ensures
            s == product(self, y),
            0x80_0000 <= s.m <= 0x100_0000,
            self.e + y.e - 48 <= s.e <= self.e + y.e + 41,
    {
        assert(1 <= self.m * y.m <= 0x1_0000_0000_0000) by (nonlinear_arith)
            requires
                0x80_0000 <= self.m <= 0x100_0000,
                0x80_0000 <= y.m <= 0x100_0000,
        ;
        let r = round(self.m * y.m, 1);
        Single { m: r.m, e: r.e + (self.e + y.e) }
    }

    /// The whole part of the number, but no more than `cap`.
    pub fn floor_capped(self, cap: u64) -> (r: u64)
        requires
            self.usual(),
        ensures
            r == (if floor(self) < cap { floor(self) } else { cap as nat }),
    {
        let mut v: u128 = self.m as u128;
        proof {
            lemma2_to64();
        }
        if self.e >= 0 {
            let mut k: i64 = self.e;
            while k > 0 && v < cap as u128
                invariant
                    0 <= k <= self.e,
                    v <= 2 * u64::MAX,
                    v * pow2(k as nat) == self.m * pow2(self.e as nat),
                decreases k,
            {
                proof {
                    lemma_pow2_unfold(k as nat);
                    assert(v * (2 * pow2((k - 1) as nat)) == (v * 2) * pow2((k - 1) as nat)) by (nonlinear_arith);
                }
                v = v * 2;
                k = k - 1;
            }
            proof {
                lemma2_to64();
                lemma_pow2_pos(k as nat);
                assert(v * pow2(k as nat) >= v) by (nonlinear_arith)
                    requires
                        pow2(k as nat) >= 1,
                ;
                assert(k == 0 ==> v * pow2(0) == v) by {
                    assert(v * 1 == v);
                }
            }
        } else {
            let mut k: i64 = 0;
            assert(self.m as nat / pow2(0) == self.m) by (nonlinear_arith)
                requires
                    pow2(0) == 1,
            ;
            while k < -self.e
                invariant
                    self.usual(),
                    0 <= k <= -self.e,
                    v == self.m as nat / pow2(k as nat),
                decreases -self.e - k,
            {
                proof {
                    lemma_pow2_pos(k as nat);
                    lemma_pow2_unfold((k + 1) as nat);
                    lemma_div_denominator(self.m as int, pow2(k as nat) as int, 2);
                    assert(pow2(k as nat) * 2 == 2 * pow2(k as nat));
                }
                v = v / 2;
                k = k + 1;
            }
        }
        if v < cap as u128 {
            v as u64
        } else {
            cap
        }
    }
}

/// The index of the source frame that output frame `i` takes when `t` frames are stretched or
/// shrunk to `n`: the whole part of `i` times the ratio of the lengths, both in single precision,
/// but no more than the last index.
pub open spec fn source_index(i: nat, t: nat, n: nat) -> nat {
    if i == 0 {
        0
    } else {
        let scale = quotient(rounded(t, 1), rounded(n, 1));
        let at = floor(product(rounded(i, 1), scale));
        if at < t - 1 { at } else { (t - 1) as nat }
    }
}

/// The source frame of every one of `n` output frames when `t` frames are stretched or shrunk to
/// `n`.
pub fn source_indices(t: usize, n: usize) -> (idx: Vec<u32>)
    requires
        1 <= t,
        t - 1 <= u32::MAX,
        1 <= n,
    ensures
        idx@ == Seq::new(n as nat, |i: int| source_index(i as nat, t as nat, n as nat) as u32),
        forall|i: int| 0 <= i < n ==> #[trigger] idx@[i] < t,
{
    let scale = Single::whole(t as u64).over(Single::whole(n as u64));
    let mut idx: Vec<u32> = Vec::new();
    idx.push(0);
    let mut i: usize = 1;
    while i < n
        invariant
            1 <= t,
            t - 1 <= u32::MAX,
            scale == quotient(rounded(t as nat, 1), rounded(n as nat, 1)),
            0x80_0000 <= scale.m <= 0x100_0000,
            -200 <= scale.e <= 200,
            1 <= i <= n,
            idx@ == Seq::new(i as nat, |i: int| source_index(i as nat, t as nat, n as nat) as u32),
            forall|i: int| 0 <= i < idx@.len() ==> #[trigger] idx@[i] < t,
        decreases n - i,
    {
        let at = Single::whole(i as u64).times(scale).floor_capped((t - 1) as u64);
        assert(at == source_index(i as nat, t as nat, n as nat));
        idx.push(at as u32);
        i += 1;
        assert(idx@ == Seq::new(i as nat, |i: int| source_index(i as nat, t as nat, n as nat) as u32));
    }
    idx
}

/// Some power of two brings `a / b` to 24 digits.
proof fn lemma_24_digits_exist(a: nat, b: nat, e: int) -> (f: int)
    requires
        1 <= a,
        1 <= b <= 0x100_0000,
        numerator(a, e) < 0x100_0000 * denominator(b, e),
        -48 <= e <= 41,
    ensures
        has_24_digits(a, b, f),
        -48 <= f <= 41,
    decreases e + 48,
{
    if 0x80_0000 * denominator(b, e) <= numerator(a, e) {
        e
    } else {
        if e == -48 {
            lemma2_to64_rest();
            assert(a * pow2(48) >= pow2(48)) by (nonlinear_arith)
                requires
                    a >= 1,
            ;
        }
        lemma_step(a, b, e - 1);
        lemma_24_digits_exist(a, b, e - 1)
    }
}

/// Sizes that a machine counts, and ratios of 24-digit numbers, can be rounded.
pub(crate) proof fn lemma_rounds(a: nat, b: nat)
    requires
        1 <= a <= u64::MAX,
        1 <= b <= 0x100_0000,
    ensures
        is_nearest(a, b, rounded(a, b)),
        -48 <= rounded(a, b).e <= 41,
        0x80_0000 <= rounded(a, b).m <= 0x100_0000,
{
    lemma2_to64_rest();
    assert(0x100_0000 * (b * pow2(41)) > u64::MAX) by (nonlinear_arith)
        requires
            b >= 1,
            pow2(41) == 0x200_0000_0000,
    ;
    let f = lemma_24_digits_exist(a, b, 41);
    let n = numerator(a, f);
    let d = denominator(b, f);
    assert(d > 0) by {
        if f > 0 {
            lemma_pow2_pos(f as nat);
            assert(b * pow2(f as nat) > 0) by (nonlinear_arith)
                requires
                    b >= 1,
                    pow2(f as nat) >= 1,
            ;
        }
    }
    lemma_fundamental_div_mod(n as int, d as int);
    assert(0x80_0000 <= n / d < 0x100_0000) by (nonlinear_arith)
        requires
            n == d * (n / d) + n % d,
            0 <= n % d < d,
            0x80_0000 * d <= n < 0x100_0000 * d,
    ;
    let s = Single { m: nearest_even(n, d) as u64, e: f as i64 };
    assert(is_nearest(a, b, s));
    law_rounding_is_unique(a, b, s);
}

/// Stretching to the same length takes every frame once, in order, up to 2^24 frames.
pub proof fn law_same_length_is_identity(i: nat, t: nat)
    requires
        i < t <= 0x100_0000,
    ensures
        source_index(i, t, t) == i,
{
    if i > 0 {
        let whole = rounded(t, 1);
        lemma_rounds(t, 1);
        let m = whole.m as nat;
        let one = Single { m: 0x80_0000, e: (-23) as i64 };
        lemma2_to64();
        lemma_divides(0x80_0000, m);
        assert(m * pow2(23) == 0x80_0000 * m) by (nonlinear_arith)
            requires
                pow2(23) == 0x80_0000,
        ;
        assert(is_nearest(m, m, one));
        law_rounding_is_unique(m, m, one);
        let scale = quotient(whole, whole);
        assert(scale == one);
        let at = rounded(i, 1);
        lemma_rounds(i, 1);
        if at.e > 0 {
            lemma_pow2_unfold(at.e as nat);
            lemma_pow2_pos((at.e - 1) as nat);
            assert(1 * pow2(at.e as nat) >= 2);
        }
        assert(at.e <= 0);
        let k = (-at.e) as nat;
        assert(i * pow2(0) == i) by (nonlinear_arith)
            requires
                pow2(0) == 1,
        ;
        assert(numerator(i, at.e as int) == i * pow2(k));
        lemma_divides(at.m as nat, 1);
        assert(at.m == i * pow2(k)) by {
            lemma_divides(i * pow2(k), 1);
        }
        let again = Single { m: at.m, e: 23 };
        lemma_divides(at.m as nat, 0x80_0000);
        assert(is_nearest((at.m * 0x80_0000) as nat, 1, again));
        law_rounding_is_unique((at.m * 0x80_0000) as nat, 1, again);
        assert(product(at, scale) == at);
        lemma_pow2_pos(k);
        lemma_divides(i, pow2(k));
        assert(floor(at) == i);
    }
}

/// A whole number is nearest to itself.
proof fn lemma_divides(q: nat, d: nat)
    requires
        d > 0,
    ensures
        (q * d) / d == q,
        nearest_even(q * d, d) == q,
{
    lemma_fundamental_div_mod_converse((q * d) as int, d as int, q as int, 0);
}

/// Whether 24-digit numbers are in order.
spec fn in_order(x: Single, y: Single) -> bool {
    x.e < y.e || (x.e == y.e && x.m <= y.m)
}

/// Rounding keeps the order of whole numbers.
proof fn lemma_rounding_keeps_order(a: nat, b: nat)
    requires
        1 <= a <= b <= u64::MAX,
    ensures
        in_order(rounded(a, 1), rounded(b, 1)),
{
    lemma_rounds(a, 1);
    lemma_rounds(b, 1);
    let x = rounded(a, 1);
    let y = rounded(b, 1);
    assert(numerator(a, x.e as int) <= numerator(b, x.e as int)) by (nonlinear_arith)
        requires
            a <= b,
            x.e < 0 ==> numerator(a, x.e as int) == a * pow2((-x.e) as nat) && numerator(b, x.e as int) == b * pow2(
                (-x.e) as nat,
            ),
            x.e >= 0 ==> numerator(a, x.e as int) == a && numerator(b, x.e as int) == b,
    ;
    if y.e < x.e {
        lemma_fewer_digits(b, 1, y.e as int, x.e as int);
    }
    if x.e == y.e {
        let d = denominator(1, x.e as int);
        if x.e > 0 {
            lemma_pow2_pos(x.e as nat);
        }
        lemma_nearest_keeps_order(numerator(a, x.e as int), numerator(b, x.e as int), d);
    }
}

proof fn lemma_nearest_keeps_order(n: nat, k: nat, d: nat)
    requires
        n <= k,
        d > 0,
    ensures
        nearest_even(n, d) <= nearest_even(k, d),
{
    lemma_fundamental_div_mod(n as int, d as int);
    lemma_fundamental_div_mod(k as int, d as int);
    lemma_div_is_ordered(n as int, k as int, d as int);
    if n / d == k / d {
        assert(n % d <= k % d);
    }
}

/// Twice the number is rounded to twice the rounded number.
proof fn lemma_rounding_of_twice(a: nat)
    requires
        1 <= a,
        2 * a <= u64::MAX,
    ensures
        rounded(2 * a, 1) == shifted(rounded(a, 1), 1),
{
    lemma_rounds(a, 1);
    let s = rounded(a, 1);
    let t = shifted(s, 1);
    let e = s.e as int;
    lemma_step(a, 1, e);
    lemma_step(2 * a, 1, e);
    if e >= 0 {
        let n = numerator(a, e);
        let d = denominator(1, e);
        assert(d > 0) by {
            if e > 0 {
                lemma_pow2_pos(e as nat);
            }
        }
        lemma_fundamental_div_mod(n as int, d as int);
        let q = (n / d) as int;
        let r = (n % d) as int;
        assert(2 * n == (2 * d) * q + 2 * r) by (nonlinear_arith)
            requires
                n == d * q + r,
        ;
        lemma_fundamental_div_mod_converse((2 * n) as int, (2 * d) as int, q, 2 * r);
    } else {
        assert((2 * a) * pow2((-e) as nat) == 2 * (a * pow2((-e) as nat))) by (nonlinear_arith);
    }
    assert(is_nearest(2 * a, 1, t));
    law_rounding_is_unique(2 * a, 1, t);
}

/// The whole parts of numbers in order are in order.
proof fn lemma_floor_keeps_order(x: Single, y: Single)
    requires
        in_order(x, y),
        x.usual(),
        y.usual(),
    ensures
        floor(x) <= floor(y),
{
    if x.e == y.e {
        if x.e >= 0 {
            assert(x.m * pow2(x.e as nat) <= y.m * pow2(x.e as nat)) by (nonlinear_arith)
                requires
                    x.m <= y.m,
            ;
        } else {
            lemma_pow2_pos((-x.e) as nat);
            lemma_div_is_ordered(x.m as int, y.m as int, pow2((-x.e) as nat) as int);
        }
    } else if x.e >= 0 {
        let p = pow2(x.e as nat);
        let q = pow2(y.e as nat);
        lemma_pow2_unfold((x.e + 1) as nat);
        if x.e + 1 < y.e {
            lemma_pow2_strictly_increases((x.e + 1) as nat, y.e as nat);
        }
        assert(x.m * p <= y.m * q) by (nonlinear_arith)
            requires
                x.m <= 0x100_0000,
                0x80_0000 <= y.m,
                2 * p <= q,
        ;
    } else {
        let k = (-x.e) as nat;
        lemma_pow2_unfold(k);
        lemma_pow2_pos((k - 1) as nat);
        let p = pow2((k - 1) as nat);
        lemma_div_denominator(x.m as int, 2, p as int);
        assert(floor(x) == (x.m / 2) as nat / p);
        lemma_div_is_ordered((x.m / 2) as int, 0x80_0000, p as int);
        if y.e >= 0 {
            lemma_pow2_pos(y.e as nat);
            assert(y.m * pow2(y.e as nat) >= 0x80_0000) by (nonlinear_arith)
                requires
                    y.m >= 0x80_0000,
                    pow2(y.e as nat) >= 1,
            ;
            lemma_div_nonincreasing(0x80_0000, p as int);
        } else {
            let j = (-y.e) as nat;
            let q = pow2(j);
            lemma_pow2_pos(j);
            if j < k - 1 {
                lemma_pow2_strictly_increases(j, (k - 1) as nat);
            }
            lemma_div_is_ordered_by_denominator(0x80_0000, q as int, p as int);
            lemma_div_is_ordered(0x80_0000, y.m as int, q as int);
        }
    }
}

/// Later output frames take no earlier source frames.
pub proof fn law_source_indices_keep_order(i: nat, j: nat, t: nat, n: nat)
    requires
        i <= j < n,
        1 <= t <= u64::MAX,
        n <= u64::MAX,
    ensures
        source_index(i, t, n) <= source_index(j, t, n),
{
    if i > 0 {
        lemma_rounds(t, 1);
        lemma_rounds(n, 1);
        lemma_rounds(i, 1);
        lemma_rounds(j, 1);
        lemma_rounding_keeps_order(i, j);
        let top = rounded(t, 1);
        let bottom = rounded(n, 1);
        lemma_rounds(top.m as nat, bottom.m as nat);
        let scale = quotient(top, bottom);
        let x = rounded(i, 1);
        let y = rounded(j, 1);
        let a = (x.m * scale.m) as nat;
        let b = (y.m * scale.m) as nat;
        let half = (0x80_0000 * scale.m) as nat;
        assert(1 <= a <= 2 * half) by (nonlinear_arith)
            requires
                0x80_0000 <= x.m <= 0x100_0000,
                1 <= scale.m,
                a == x.m * scale.m,
                half == 0x80_0000 * scale.m,
        ;
        assert(half <= b <= 2 * half) by (nonlinear_arith)
            requires
                0x80_0000 <= y.m <= 0x100_0000,
                1 <= scale.m,
                b == y.m * scale.m,
                half == 0x80_0000 * scale.m,
        ;
        lemma_rounds(a, 1);
        lemma_rounds(b, 1);
        if x.e == y.e {
            assert(a <= b) by (nonlinear_arith)
                requires
                    x.m <= y.m,
                    a == x.m * scale.m,
                    b == y.m * scale.m,
            ;
            lemma_rounding_keeps_order(a, b);
        } else {
            lemma_rounds(half, 1);
            lemma_rounding_keeps_order(a, 2 * half);
            lemma_rounding_of_twice(half);
            lemma_rounding_keeps_order(half, b);
        }
        lemma_floor_keeps_order(product(x, scale), product(y, scale));
    }
}

} // verus!
