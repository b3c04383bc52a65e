//! Single-precision (IEEE 754 binary32) arithmetic on nonnegative values,
//! modelled exactly with integers.
//!
//! A value is `mant * 2^exp`. Each operation takes the exact result and
//! rounds it to 24 significant bits, to nearest with ties to even, as the
//! hardware does; the exponent is not bounded here, which agrees with the
//! hardware for every value in the normal range (every value that the
//! library computes this way is zero or lies between `2^-40` and `2^70`).

use vstd::prelude::*;
use vstd::arithmetic::power2::{
    pow2,
    lemma2_to64,
    lemma_pow2_adds,
    lemma_pow2_pos,
    lemma_pow2_strictly_increases,
    lemma_pow2_unfold,
};
use crate::render::saturated;

verus! {

/// Smallest significand of a normalized value, `2^23`.
pub const SIG_LOW: u128 = 0x80_0000;

/// One past the largest significand of a normalized value, `2^24`.
pub const SIG_HIGH: u128 = 0x100_0000;

/// A nonnegative single-precision value, `mant * 2^exp`.
#[derive(Clone, Copy, Debug)]
pub struct Binary32 {
    pub mant: u32,
    pub exp: i32,
}

impl View for Binary32 {
    type V = (int, int);

    /// The pair `(mant, exp)`.
    open spec fn view(&self) -> (int, int) {
        (self.mant as int, self.exp as int)
    }
}

/// `a / b * 2^e` rescaled by powers of two, its value kept, until the
/// quotient `a / b` lies in `[2^23, 2^24)` (for `a, b > 0`).
pub open spec fn normalized(a: int, b: int, e: int) -> (int, int, int)
    decreases
            (if a < SIG_LOW * b { 1int } else { 0int }),
            (if a < SIG_LOW * b { SIG_LOW * b - a } else { a - b }),
{
    if a <= 0 || b <= 0 {
        (a, b, e)
    } else if a < SIG_LOW * b {
        normalized(2 * a, b, e - 1)
    } else if a >= SIG_HIGH * b {
        normalized(a, 2 * b, e + 1)
    } else {
        (a, b, e)
    }
}

/// `n / d * 2^e` rounded to single precision: 24 significant bits, to
/// nearest, ties to even, as `(mant, exp)`. Zero (or a zero divisor, which
/// no caller passes) gives `(0, 0)`.
pub open spec fn rounded(n: int, d: int, e: int) -> (int, int) {
    if n <= 0 || d <= 0 {
        (0, 0)
    } else {
        let t = normalized(n, d, e);
        let q = t.0 / t.1;
        let r = t.0 % t.1;
        let up = 2 * r > t.1 || (2 * r == t.1 && q % 2 == 1);
        (if up { q + 1 } else { q }, t.2)
    }
}

/// A `u32` converted to single precision.
pub open spec fn from_u32_value(v: int) -> (int, int) {
    rounded(v, 1, 0)
}

/// Single-precision product of `x` and `y`.
pub open spec fn product(x: (int, int), y: (int, int)) -> (int, int) {
    rounded(x.0 * y.0, 1, x.1 + y.1)
}

/// Single-precision quotient of `x` by `y`.
pub open spec fn quotient(x: (int, int), y: (int, int)) -> (int, int) {
    rounded(x.0, y.0, x.1 - y.1)
}

/// `x` rounded to the nearest integer, halves away from zero.
pub open spec fn nearest_integer(x: (int, int)) -> int {
    if x.1 >= 0 {
        x.0 * pow2(x.1 as nat)
    } else {
        (2 * x.0 + pow2((-x.1) as nat)) / (2 * pow2((-x.1) as nat) as int)
    }
}

/// `x` rounded toward zero.
pub open spec fn truncated(x: (int, int)) -> int {
    if x.1 >= 0 {
        x.0 * pow2(x.1 as nat)
    } else {
        x.0 / (pow2((-x.1) as nat) as int)
    }
}

/// An integer `v >= 0` rounded to single precision, as an integer (the
/// rounding of an integer is one).
pub open spec fn integer_rounded(v: int) -> int {
    truncated(rounded(v, 1, 0))
}

/// `x < y` as numbers.
pub open spec fn value_less(x: (int, int), y: (int, int)) -> bool {
    let e = if x.1 < y.1 { x.1 } else { y.1 };
    x.0 * pow2((x.1 - e) as nat) < y.0 * pow2((y.1 - e) as nat)
}

proof fn lemma_pow2_values()
    ensures
        pow2(0) == 1,
        pow2(25) == 0x200_0000,
        pow2(26) == 0x400_0000,
        pow2(32) == 0x1_0000_0000,
        pow2(64) == 0x1_0000_0000_0000_0000,
        pow2(124) == 0x1000_0000_0000_0000_0000_0000_0000_0000,
{
    lemma2_to64();
    lemma_pow2_adds(64, 32);
    lemma_pow2_adds(96, 28);
}

/// `2^j <= a < 2^k` forces `j < k`.
proof fn lemma_exponent_below(j: nat, k: nat, a: int)
    requires
        pow2(j) <= a,
        a < pow2(k),
    ensures
        j < k,
{
    if j > k {
        lemma_pow2_strictly_increases(k, j);
    }
}

/// `normalized` of a quotient below `2^24` only doubles the numerator.
proof fn lemma_normalized_up(a: int, b: int, e: int) -> (k: nat)
    requires
        0 < a < SIG_HIGH * b,
    ensures
        normalized(a, b, e) == (a * pow2(k), b, e - k),
        SIG_LOW * b <= a * pow2(k) < SIG_HIGH * b,
    decreases SIG_HIGH * b - a,
{
    if a < SIG_LOW * b {
        let k = lemma_normalized_up(2 * a, b, e - 1);
        lemma_pow2_unfold(k + 1);
        assert(a * pow2(k + 1) == (2 * a) * pow2(k)) by (nonlinear_arith)
            requires
                pow2(k + 1) == 2 * pow2(k),
        ;
        k + 1
    } else {
        lemma_pow2_values();
        0
    }
}

/// `normalized` of a quotient at least `2^23` only doubles the divisor.
proof fn lemma_normalized_down(a: int, b: int, e: int) -> (k: nat)
    requires
        b > 0,
        a >= SIG_LOW * b,
    ensures
        normalized(a, b, e) == (a, b * pow2(k), e + k),
        SIG_LOW * (b * pow2(k)) <= a < SIG_HIGH * (b * pow2(k)),
    decreases a - b,
{
    if a >= SIG_HIGH * b {
        let k = lemma_normalized_down(a, 2 * b, e + 1);
        lemma_pow2_unfold(k + 1);
        assert(b * pow2(k + 1) == (2 * b) * pow2(k)) by (nonlinear_arith)
            requires
                pow2(k + 1) == 2 * pow2(k),
        ;
        k + 1
    } else {
        lemma_pow2_values();
        0
    }
}

/// A positive integer below `2^64` rounded to single precision: kept
/// exactly below `2^24`; in general an exponent of at most 40 and a value
/// of at most twice the integer.
pub proof fn lemma_rounded_integer(v: int)
    requires
        1 <= v < 0x1_0000_0000_0000_0000,
    ensures
        v < SIG_HIGH ==> integer_rounded(v) == v,
        rounded(v, 1, 0).1 <= 40,
        v < 0x1_0000_0000 ==> rounded(v, 1, 0).1 <= 9,
        1 <= integer_rounded(v) <= 2 * v,
        rounded(v, 1, 0).1 <= 0 ==> rounded(v, 1, 0).0 == v * pow2((-rounded(v, 1, 0).1) as nat),
        rounded(v, 1, 0).1 >= 0 ==> rounded(v, 1, 0).0 * pow2(rounded(v, 1, 0).1 as nat) <= 2 * v,
{
    lemma_pow2_values();
    if v < SIG_HIGH {
        let k = lemma_normalized_up(v, 1, 0);
        let a = v * pow2(k);
        assert(a / 1 == a && a % 1 == 0) by (nonlinear_arith);
        assert(rounded(v, 1, 0) == (a, -k));
        if k > 0 {
            lemma_pow2_pos(k);
            let p = pow2(k) as int;
            vstd::arithmetic::div_mod::lemma_div_by_multiple(v, p);
            assert(a == v * p);
            assert(integer_rounded(v) == (v * p) / p);
        } else {
            assert(a == v * 1) by (nonlinear_arith)
                requires
                    a == v * pow2(k),
                    pow2(k) == 1,
            ;
            assert(integer_rounded(v) == a * 1);
        }
        assert(integer_rounded(v) == v);
    } else {
        let k = lemma_normalized_down(v, 1, 0);
        let p = pow2(k) as int;
        lemma_pow2_pos(k);
        lemma_pow2_adds(23, k);
        assert(pow2(23) == SIG_LOW) by {
            lemma2_to64();
        }
        lemma_exponent_below(23 + k, 64, v);
        let q = v / p;
        vstd::arithmetic::div_mod::lemma_fundamental_div_mod(v, p);
        vstd::arithmetic::div_mod::lemma_mod_bound(v, p);
        vstd::arithmetic::div_mod::lemma_div_pos_is_pos(v, p);
        assert(p * q <= v < p * q + p);
        assert(SIG_LOW * p <= v);
        assert((q + 1) * p <= 2 * v) by (nonlinear_arith)
            requires
                p * q <= v,
                SIG_LOW * p <= v,
                p > 0,
        ;
        assert(q * p <= (q + 1) * p) by (nonlinear_arith)
            requires
                p > 0,
                q >= 0,
        ;
        assert(q >= 1) by (nonlinear_arith)
            requires
                SIG_LOW * p <= v,
                v < p * q + p,
                p > 0,
        ;
        assert(q * p >= 1) by (nonlinear_arith)
            requires
                q >= 1,
                p >= 1,
        ;
        if v < 0x1_0000_0000 {
            lemma_exponent_below(23 + k, 32, v);
        }
        if k == 0 {
            assert(p == 1);
            assert(q == v && v % p == 0) by (nonlinear_arith)
                requires
                    p == 1,
                    q == v / p,
            ;
        }
    }
}

/// Rounding `n * 2^e` (with `e < 0`) to single precision at most doubles
/// it: the result, rounded toward zero and multiplied by `2^-e`, is at most
/// `2n`.
proof fn lemma_rounded_at_most_double(n: int, e: int)
    requires
        1 <= n,
        e < 0,
    ensures
        truncated(rounded(n, 1, e)) * pow2((-e) as nat) <= 2 * n,
{
    lemma_pow2_values();
    let y = rounded(n, 1, e);
    let t = truncated(y);
    let pe = pow2((-e) as nat) as int;
    lemma_pow2_pos((-e) as nat);
    if n < SIG_HIGH {
        let j = lemma_normalized_up(n, 1, e);
        let pj = pow2(j) as int;
        lemma_pow2_pos(j);
        let a = n * pj;
        assert(a / 1 == a && a % 1 == 0) by (nonlinear_arith);
        assert(y == (a, e - j));
        lemma_pow2_adds(j, (-e) as nat);
        assert((-(e - j)) as nat == j + (-e) as nat);
        let d = pj * pe;
        assert(d > 0) by (nonlinear_arith)
            requires
                pj > 0,
                pe > 0,
                d == pj * pe,
        ;
        assert(t == a / d);
        vstd::arithmetic::div_mod::lemma_fundamental_div_mod(a, d);
        vstd::arithmetic::div_mod::lemma_mod_bound(a, d);
        assert(d * t <= a);
        assert(t * pe <= n) by (nonlinear_arith)
            requires
                pj * pe * t <= n * pj,
                pj > 0,
        ;
    } else {
        let j = lemma_normalized_down(n, 1, e);
        let p = pow2(j) as int;
        lemma_pow2_pos(j);
        let q = n / p;
        vstd::arithmetic::div_mod::lemma_fundamental_div_mod(n, p);
        vstd::arithmetic::div_mod::lemma_mod_bound(n, p);
        assert(p * q <= n < p * q + p);
        assert(q >= 1) by (nonlinear_arith)
            requires
                SIG_LOW * p <= n,
                n < p * q + p,
                p > 0,
        ;
        let m = y.0;
        assert(q <= m <= q + 1);
        assert(y.1 == e + j);
        assert(m * p <= 2 * n) by (nonlinear_arith)
            requires
                m <= q + 1,
                q >= 1,
                p * q <= n,
                p > 0,
        ;
        if e + j >= 0 {
            let pk = pow2((e + j) as nat) as int;
            lemma_pow2_adds((e + j) as nat, (-e) as nat);
            assert(((e + j) as nat + (-e) as nat) as nat == j);
            assert(pk * pe == p);
            assert(t == m * pk);
            assert(t * pe <= 2 * n) by (nonlinear_arith)
                requires
                    t == m * pk,
                    pk * pe == p,
                    m * p <= 2 * n,
            ;
        } else {
            let pk = pow2((-(e + j)) as nat) as int;
            lemma_pow2_pos((-(e + j)) as nat);
            lemma_pow2_adds((-(e + j)) as nat, j);
            assert(((-(e + j)) as nat + j) as nat == (-e) as nat);
            assert(pk * p == pe);
            assert(t == m / pk);
            vstd::arithmetic::div_mod::lemma_fundamental_div_mod(m, pk);
            vstd::arithmetic::div_mod::lemma_mod_bound(m, pk);
            assert(pk * t <= m);
            assert(t * pe <= 2 * n) by (nonlinear_arith)
                requires
                    pk * t <= m,
                    pk * p == pe,
                    m * p <= 2 * n,
                    p > 0,
            ;
        }
    }
}

/// A `u32` value `v` in single precision times the constant `m * 2^-s`
/// (`10 <= s`), in single precision and rounded toward zero: at most
/// `4 * v * m / 2^s`.
pub proof fn lemma_scaled_by_fraction(v: int, m: int, s: int)
    requires
        0 <= v < 0x1_0000_0000,
        1 <= m,
        10 <= s <= 64,
    ensures
        truncated(product(from_u32_value(v), (m, -s))) * pow2(s as nat) <= 4 * v * m,
{
    lemma_pow2_values();
    lemma_pow2_pos(s as nat);
    if v == 0 {
        assert(from_u32_value(0) == (0int, 0int));
        assert(0int * m == 0);
        assert(product((0int, 0int), (m, -s)) == (0int, 0int));
        assert(truncated((0int, 0int)) == 0 * pow2(0));
        assert(truncated(product(from_u32_value(v), (m, -s))) == 0);
        assert(0 * pow2(s as nat) == 0);
        assert(4 * v * m == 0);
        return;
    }
    lemma_rounded_integer(v);
    let x = from_u32_value(v);
    let k = x.1;
    assert(x.0 >= 1) by {
        if k <= 0 {
            lemma_pow2_pos((-k) as nat);
            assert(x.0 == v * pow2((-k) as nat));
            assert(v * pow2((-k) as nat) >= 1) by (nonlinear_arith)
                requires
                    v >= 1,
                    pow2((-k) as nat) >= 1,
            ;
        } else {
            assert(integer_rounded(v) == x.0 * pow2(k as nat));
            lemma_pow2_pos(k as nat);
            if x.0 < 1 {
                assert(x.0 * pow2(k as nat) <= 0) by (nonlinear_arith)
                    requires
                        x.0 <= 0,
                        pow2(k as nat) > 0,
                ;
            }
        }
    }
    let n = x.0 * m;
    let e = k - s;
    assert(n >= 1) by (nonlinear_arith)
        requires
            x.0 >= 1,
            m >= 1,
            n == x.0 * m,
    ;
    lemma_rounded_at_most_double(n, e);
    let t = truncated(product(x, (m, -s)));
    assert(product(x, (m, -s)) == rounded(n, 1, e));
    if k <= 0 {
        let pk = pow2((-k) as nat) as int;
        lemma_pow2_pos((-k) as nat);
        lemma_pow2_adds(s as nat, (-k) as nat);
        assert((s as nat + (-k) as nat) as nat == (-e) as nat);
        assert(x.0 == v * pk);
        assert(t * pow2(s as nat) <= 4 * v * m) by (nonlinear_arith)
            requires
                t * (pow2(s as nat) * pk) <= 2 * n,
                n == x.0 * m,
                x.0 == v * pk,
                pk > 0,
                v >= 0,
                m >= 1,
        ;
    } else {
        let pk = pow2(k as nat) as int;
        lemma_pow2_pos(k as nat);
        lemma_pow2_adds((-e) as nat, k as nat);
        assert(((-e) as nat + k as nat) as nat == s as nat);
        assert(x.0 * pk <= 2 * v);
        assert(t * pow2(s as nat) <= 4 * v * m) by (nonlinear_arith)
            requires
                t * pow2((-e) as nat) <= 2 * n,
                pow2(s as nat) == pow2((-e) as nat) * pk,
                n == x.0 * m,
                x.0 * pk <= 2 * v,
                pk > 0,
                m >= 1,
        ;
    }
}

/// Single-precision rounding never makes a value negative.
pub proof fn lemma_rounded_nonnegative(n: int, d: int, e: int)
    ensures
        rounded(n, d, e).0 >= 0,
{
    if n > 0 && d > 0 {
        if n < SIG_HIGH * d {
            lemma_normalized_up(n, d, e);
        } else {
            lemma_normalized_down(n, d, e);
        }
        let t = normalized(n, d, e);
        vstd::arithmetic::div_mod::lemma_div_pos_is_pos(t.0, t.1);
    }
}

/// A nonnegative value rounded toward zero is nonnegative.
pub proof fn lemma_truncated_nonnegative(x: (int, int))
    requires
        x.0 >= 0,
    ensures
        truncated(x) >= 0,
{
    if x.1 >= 0 {
        lemma_pow2_pos(x.1 as nat);
        assert(x.0 * pow2(x.1 as nat) >= 0) by (nonlinear_arith)
            requires
                x.0 >= 0,
                pow2(x.1 as nat) > 0,
        ;
    } else {
        lemma_pow2_pos((-x.1) as nat);
        vstd::arithmetic::div_mod::lemma_div_pos_is_pos(x.0, pow2((-x.1) as nat) as int);
    }
}

/// A `u32` value in single precision times a nonnegative constant, in
/// single precision and rounded toward zero, is nonnegative.
pub proof fn lemma_scaled_nonnegative(v: int, c: (int, int))
    requires
        c.0 >= 0,
    ensures
        truncated(product(from_u32_value(v), c)) >= 0,
{
    lemma_rounded_nonnegative(v, 1, 0);
    let x = from_u32_value(v);
    assert(x.0 * c.0 >= 0) by (nonlinear_arith)
        requires
            x.0 >= 0,
            c.0 >= 0,
    ;
    lemma_rounded_nonnegative(x.0 * c.0, 1, x.1 + c.1);
    lemma_truncated_nonnegative(product(x, c));
}

/// `2^k` for `k < 64`.
fn pow2_u128(k: u32) -> (p: u128)
    requires
        k < 64,
    ensures
        p == pow2(k as nat),
{
    proof {
        lemma_pow2_values();
    }
    let mut p: u128 = 1;
    let mut i: u32 = 0;
    while i < k
        invariant
            i <= k < 64,
            p == pow2(i as nat),
            pow2(64) == 0x1_0000_0000_0000_0000,
        decreases k - i,
    {
        proof {
            lemma_pow2_strictly_increases(i as nat, 64);
            lemma_pow2_unfold((i + 1) as nat);
        }
        p = 2 * p;
        i = i + 1;
    }
    p
}

/// Rounds `n / d * 2^e` to single precision (see `rounded`).
pub fn round_ratio(n: u128, d: u128, e: i32) -> (r: Binary32)
    requires
        n < 0x10_0000_0000_0000_0000_0000_0000,
        0 < d < 0x10_0000_0000_0000_0000_0000_0000,
        -0x10_0000 <= e <= 0x10_0000,
    ensures
        r@ == rounded(n as int, d as int, e as int),
        r.mant <= SIG_HIGH,
        n > 0 ==> SIG_LOW <= r.mant,
        n > 0 ==> e - 124 <= r.exp <= e + 124,
        n == 0 ==> r.exp == 0,
{
    if n == 0 {
        return Binary32 { mant: 0, exp: 0 };
    }
    proof {
        lemma_pow2_values();
    }
    let mut a: u128 = n;
    let mut b: u128 = d;
    let mut x: i32 = e;
    let ghost mut j: nat = 0;
    while a < SIG_LOW * b
        invariant
            0 < a < 0x1000_0000_0000_0000_0000_0000_0000_0000,
            b == d,
            0 < d < 0x10_0000_0000_0000_0000_0000_0000,
            pow2(j) <= a,
            x == e - j,
            j <= 124,
            -0x10_0000 <= e <= 0x10_0000,
            normalized(a as int, b as int, x as int) == normalized(n as int, d as int, e as int),
            pow2(124) == 0x1000_0000_0000_0000_0000_0000_0000_0000,
        decreases SIG_HIGH * b - a,
    {
        proof {
            lemma_exponent_below(j, 124, a as int);
            lemma_pow2_unfold(j + 1);
        }
        a = 2 * a;
        x = x - 1;
        proof {
            j = j + 1;
        }
    }
    let ghost x1: int = x as int;
    let ghost mut k: nat = 0;
    while a >= SIG_HIGH * b
        invariant
            0 < a < 0x1000_0000_0000_0000_0000_0000_0000_0000,
            0 < b < 0x20_0000_0000_0000_0000_0000_0000,
            a >= SIG_LOW * b,
            pow2(k) <= b,
            x == x1 + k,
            e - 124 <= x1 <= e,
            k <= 124,
            -0x10_0000 <= e <= 0x10_0000,
            normalized(a as int, b as int, x as int) == normalized(n as int, d as int, e as int),
            pow2(124) == 0x1000_0000_0000_0000_0000_0000_0000_0000,
        decreases a - b,
    {
        proof {
            lemma_exponent_below(k, 124, b as int);
            lemma_pow2_unfold(k + 1);
        }
        b = 2 * b;
        x = x + 1;
        proof {
            k = k + 1;
        }
    }
    let q = a / b;
    let rem = a % b;
    assert(SIG_LOW <= q < SIG_HIGH) by (nonlinear_arith)
        requires
            q == a / b,
            b > 0,
            SIG_LOW * b <= a < SIG_HIGH * b,
    {
        assert(b * q <= a < b * q + b) by {
            vstd::arithmetic::div_mod::lemma_fundamental_div_mod(a as int, b as int);
            vstd::arithmetic::div_mod::lemma_mod_bound(a as int, b as int);
        }
    }
    let up = 2 * rem > b || (2 * rem == b && q % 2 == 1);
    let mant = if up {
        q + 1
    } else {
        q
    };
    Binary32 { mant: mant as u32, exp: x }
}

/// `v` converted to single precision.
pub fn from_u32(v: u32) -> (r: Binary32)
    ensures
        r@ == from_u32_value(v as int),
        r.mant <= SIG_HIGH,
        v > 0 ==> SIG_LOW <= r.mant,
        -124 <= r.exp <= 124,
{
    round_ratio(v as u128, 1, 0)
}

/// Single-precision product of `x` and `y`.
pub fn multiply(x: Binary32, y: Binary32) -> (r: Binary32)
    requires
        x.mant <= SIG_HIGH,
        y.mant <= SIG_HIGH,
        -0x8_0000 <= x.exp <= 0x8_0000,
        -0x8_0000 <= y.exp <= 0x8_0000,
    ensures
        r@ == product(x@, y@),
        r.mant <= SIG_HIGH,
        r.exp == 0 || x.exp + y.exp - 124 <= r.exp <= x.exp + y.exp + 124,
        x.mant > 0 && y.mant > 0 ==> SIG_LOW <= r.mant,
{
    assert(x.mant * y.mant <= SIG_HIGH * SIG_HIGH) by (nonlinear_arith)
        requires
            x.mant <= SIG_HIGH,
            y.mant <= SIG_HIGH,
    ;
    assert(x.mant as u128 * y.mant as u128 > 0 <== x.mant > 0 && y.mant > 0) by (nonlinear_arith);
    round_ratio(x.mant as u128 * y.mant as u128, 1, x.exp + y.exp)
}

/// Single-precision quotient of `x` by a nonzero `y`.
pub fn divide(x: Binary32, y: Binary32) -> (r: Binary32)
    requires
        x.mant <= SIG_HIGH,
        0 < y.mant <= SIG_HIGH,
        -0x8_0000 <= x.exp <= 0x8_0000,
        -0x8_0000 <= y.exp <= 0x8_0000,
    ensures
        r@ == quotient(x@, y@),
        r.mant <= SIG_HIGH,
        r.exp == 0 || x.exp - y.exp - 124 <= r.exp <= x.exp - y.exp + 124,
        x.mant > 0 ==> SIG_LOW <= r.mant,
{
    round_ratio(x.mant as u128, y.mant as u128, x.exp - y.exp)
}

fn saturate(v: u128) -> (r: u32)
    ensures
        r == saturated(v as int),
{
    if v > u32::MAX as u128 {
        u32::MAX
    } else {
        v as u32
    }
}

/// `x` rounded to the nearest integer (halves away from zero) and
/// converted to `u32`, saturating at `u32::MAX`.
pub fn round_to_u32(x: Binary32) -> (r: u32)
    requires
        x.mant <= SIG_HIGH,
        -0x10_0000 <= x.exp <= 0x10_0000,
    ensures
        r == saturated(nearest_integer(x@)),
{
    proof {
        lemma_pow2_values();
    }
    let m = x.mant as u128;
    if x.exp >= 0 {
        if x.exp >= 32 {
            if m == 0 {
                return 0;
            }
            proof {
                if x.exp > 32 {
                    lemma_pow2_strictly_increases(32, x.exp as nat);
                }
                let p = pow2(x.exp as nat);
                assert(m * p >= p) by (nonlinear_arith)
                    requires
                        m >= 1,
                        p >= 0,
                ;
            }
            u32::MAX
        } else {
            let p = pow2_u128(x.exp as u32);
            proof {
                lemma_pow2_strictly_increases(x.exp as nat, 32);
                assert(m * p <= SIG_HIGH * 0x1_0000_0000) by (nonlinear_arith)
                    requires
                        m <= SIG_HIGH,
                        p <= 0x1_0000_0000,
                ;
            }
            saturate(m * p)
        }
    } else {
        let k = -x.exp;
        proof {
            lemma_pow2_pos(k as nat);
        }
        if k >= 26 {
            proof {
                if k > 26 {
                    lemma_pow2_strictly_increases(26, k as nat);
                }
                let p = pow2(k as nat) as int;
                vstd::arithmetic::div_mod::lemma_basic_div(2 * m + p, 2 * p);
            }
            0
        } else {
            let p = pow2_u128(k as u32);
            proof {
                lemma_pow2_strictly_increases(k as nat, 26);
                vstd::arithmetic::div_mod::lemma_div_pos_is_pos((2 * m + p) as int, (2 * p) as int);
                assert((2 * m + p) / (2 * p) <= 2 * m + p) by (nonlinear_arith)
                    requires
                        p >= 1,
                        m >= 0,
                ;
            }
            ((2 * m + p) / (2 * p)) as u32
        }
    }
}

/// `x` rounded toward zero and converted to `u32`, saturating at
/// `u32::MAX`.
pub fn trunc_to_u32(x: Binary32) -> (r: u32)
    requires
        x.mant <= SIG_HIGH,
        -0x10_0000 <= x.exp <= 0x10_0000,
    ensures
        r == saturated(truncated(x@)),
{
    proof {
        lemma_pow2_values();
    }
    let m = x.mant as u128;
    if x.exp >= 0 {
        if x.exp >= 32 {
            if m == 0 {
                return 0;
            }
            proof {
                if x.exp > 32 {
                    lemma_pow2_strictly_increases(32, x.exp as nat);
                }
                let p = pow2(x.exp as nat);
                assert(m * p >= p) by (nonlinear_arith)
                    requires
                        m >= 1,
                        p >= 0,
                ;
            }
            u32::MAX
        } else {
            let p = pow2_u128(x.exp as u32);
            proof {
                lemma_pow2_strictly_increases(x.exp as nat, 32);
                assert(m * p <= SIG_HIGH * 0x1_0000_0000) by (nonlinear_arith)
                    requires
                        m <= SIG_HIGH,
                        p <= 0x1_0000_0000,
                ;
            }
            saturate(m * p)
        }
    } else {
        let k = -x.exp;
        proof {
            lemma_pow2_pos(k as nat);
        }
        if k >= 25 {
            proof {
                if k > 25 {
                    lemma_pow2_strictly_increases(25, k as nat);
                }
                vstd::arithmetic::div_mod::lemma_basic_div(m as int, pow2(k as nat) as int);
            }
            0
        } else {
            let p = pow2_u128(k as u32);
            proof {
                lemma_pow2_strictly_increases(k as nat, 25);
                vstd::arithmetic::div_mod::lemma_div_pos_is_pos(m as int, p as int);
                assert(m / p <= m) by (nonlinear_arith)
                    requires
                        p >= 1,
                        m >= 0,
                ;
            }
            (m / p) as u32
        }
    }
}

/// The value of `x` rounded toward zero, for an exponent of at most 40.
fn truncated_value(x: Binary32) -> (r: u128)
    requires
        x.mant <= SIG_HIGH,
        -0x10_0000 <= x.exp <= 40,
    ensures
        r == truncated(x@),
{
    proof {
        lemma_pow2_values();
    }
    let m = x.mant as u128;
    if x.exp >= 0 {
        let p = pow2_u128(x.exp as u32);
        proof {
            lemma_pow2_strictly_increases(x.exp as nat, 64);
            assert(m * p <= SIG_HIGH * 0x1_0000_0000_0000_0000) by (nonlinear_arith)
                requires
                    m <= SIG_HIGH,
                    p <= 0x1_0000_0000_0000_0000,
            ;
        }
        m * p
    } else {
        let k = -x.exp;
        proof {
            lemma_pow2_pos(k as nat);
        }
        if k >= 25 {
            proof {
                if k > 25 {
                    lemma_pow2_strictly_increases(25, k as nat);
                }
                vstd::arithmetic::div_mod::lemma_basic_div(m as int, pow2(k as nat) as int);
            }
            0
        } else {
            let p = pow2_u128(k as u32);
            m / p
        }
    }
}

/// An integer rounded to single precision (see `integer_rounded`).
pub fn round_integer(v: u64) -> (r: u64)
    requires
        v < 0x8000_0000_0000_0000,
    ensures
        r == integer_rounded(v as int),
{
    if v == 0 {
        proof {
            lemma_pow2_values();
            assert(rounded(0, 1, 0) == (0int, 0int));
            assert(truncated((0int, 0int)) == 0 * pow2(0));
        }
        return 0;
    }
    proof {
        lemma_rounded_integer(v as int);
    }
    let x = round_ratio(v as u128, 1, 0);
    truncated_value(x) as u64
}

/// `x < y` as numbers.
pub fn less(x: Binary32, y: Binary32) -> (r: bool)
    requires
        x.mant <= SIG_HIGH,
        y.mant <= SIG_HIGH,
        -0x10_0000 <= x.exp <= 0x10_0000,
        -0x10_0000 <= y.exp <= 0x10_0000,
    ensures
        r == value_less(x@, y@),
{
    proof {
        lemma_pow2_values();
    }
    let xm = x.mant as u128;
    let ym = y.mant as u128;
    if x.exp >= y.exp {
        let d = (x.exp - y.exp) as u32;
        proof {
            lemma_pow2_pos(d as nat);
            assert(value_less(x@, y@) == (xm * pow2(d as nat) < ym * pow2(0)));
            assert(ym * pow2(0) == ym);
        }
        if xm == 0 {
            assert(xm * pow2(d as nat) == 0) by (nonlinear_arith)
                requires
                    xm == 0,
            ;
            return ym > 0;
        }
        if d >= 25 {
            proof {
                if d > 25 {
                    lemma_pow2_strictly_increases(25, d as nat);
                }
                assert(xm * pow2(d as nat) >= pow2(d as nat)) by (nonlinear_arith)
                    requires
                        xm >= 1,
                ;
            }
            return false;
        }
        let p = pow2_u128(d);
        proof {
            lemma_pow2_strictly_increases(d as nat, 25);
            assert(xm * p <= SIG_HIGH * 0x200_0000) by (nonlinear_arith)
                requires
                    xm <= SIG_HIGH,
                    p <= 0x200_0000,
            ;
        }
        xm * p < ym
    } else {
        let d = (y.exp - x.exp) as u32;
        proof {
            lemma_pow2_pos(d as nat);
            assert(value_less(x@, y@) == (xm * pow2(0) < ym * pow2(d as nat)));
            assert(xm * pow2(0) == xm);
        }
        if ym == 0 {
            assert(ym * pow2(d as nat) == 0) by (nonlinear_arith)
                requires
                    ym == 0,
            ;
            return false;
        }
        if d >= 25 {
            proof {
                if d > 25 {
                    lemma_pow2_strictly_increases(25, d as nat);
                }
                assert(ym * pow2(d as nat) >= pow2(d as nat)) by (nonlinear_arith)
                    requires
                        ym >= 1,
                ;
            }
            return true;
        }
        let p = pow2_u128(d);
        proof {
            lemma_pow2_strictly_increases(d as nat, 25);
            assert(ym * p <= SIG_HIGH * 0x200_0000) by (nonlinear_arith)
                requires
                    ym <= SIG_HIGH,
                    p <= 0x200_0000,
            ;
        }
        xm < ym * p
    }
}

} // verus!
