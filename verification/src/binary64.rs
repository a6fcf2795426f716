//! IEEE-754 binary64 numbers, carried by their bit pattern.
//!
//! Prices, R multiples and account balances are binary64 values. A [`Float`] holds the 64 bits
//! of one, and every operation below is specified over the number that the bits stand for:
//! comparisons are those of the numbers, and arithmetic gives the binary64 number nearest to
//! the exact result, ties going to the even neighbour.
//!
//! All finite binary64 numbers are whole multiples of 2^-1074. [`Float::units`] is that
//! multiple, so exact results are integers or ratios of integers.
use vstd::prelude::*;
use vstd::arithmetic::power2::*;

verus! {

/// The least significand of a normal number, 2^52: the implicit leading bit.
pub const HIDDEN: u64 = 0x10_0000_0000_0000;

/// The bit pattern of positive infinity.
pub const INFINITY_BITS: u64 = 0x7ff0_0000_0000_0000;

/// The weight of the sign bit.
pub const SIGN: u64 = 0x8000_0000_0000_0000;

/// The bit pattern of the quiet NaN that arithmetic hands back.
pub const NAN_BITS: u64 = 0x7ff8_0000_0000_0000;

/// A binary64 number by its bit pattern. `==` compares patterns; use [`Float::same`] to compare
/// the numbers.
#[derive(Clone, Copy, Debug, PartialEq, Eq, Structural)]
pub struct Float {
    pub bits: u64,
}

/// The number of 2^-1074 units in the magnitude that the low 63 bits `mag` encode. The pattern
/// of infinity stands for 2^2098 units here, beyond every finite number.
#[verifier::opaque]
pub open spec fn magnitude_units(mag: nat) -> nat {
    let exponent = mag / HIDDEN as nat;
    let fraction = mag % HIDDEN as nat;
    if exponent == 0 {
        fraction
    } else {
        (HIDDEN as nat + fraction) * pow2((exponent - 1) as nat)
    }
}

impl Float {
    /// The sign bit is set.
    pub open spec fn negative(self) -> bool {
        self.bits >= SIGN
    }

    /// The pattern without its sign bit.
    pub open spec fn mag(self) -> nat {
        (self.bits % SIGN) as nat
    }

    pub open spec fn nan(self) -> bool {
        self.mag() > INFINITY_BITS
    }

    pub open spec fn infinite(self) -> bool {
        self.mag() == INFINITY_BITS
    }

    pub open spec fn finite(self) -> bool {
        self.mag() < INFINITY_BITS
    }

    /// The number in units of 2^-1074, with the sign.
    pub open spec fn units(self) -> int {
        if self.negative() {
            -(magnitude_units(self.mag()) as int)
        } else {
            magnitude_units(self.mag()) as int
        }
    }

    /// `self < other`, false where either is not a number.
    pub open spec fn less(self, other: Float) -> bool {
        !self.nan() && !other.nan() && self.units() < other.units()
    }

    /// `self <= other`, false where either is not a number.
    pub open spec fn at_most(self, other: Float) -> bool {
        !self.nan() && !other.nan() && self.units() <= other.units()
    }

    /// `self == other` as numbers, false where either is not a number.
    pub open spec fn same(self, other: Float) -> bool {
        !self.nan() && !other.nan() && self.units() == other.units()
    }
}

/// A larger magnitude pattern stands for a larger magnitude.
pub proof fn magnitudes_are_ordered(a: nat, b: nat)
    requires
        a < b,
    ensures
        magnitude_units(a) < magnitude_units(b),
{
    reveal(magnitude_units);
    let h = HIDDEN as nat;
    let (ea, fa) = (a / h, a % h);
    let (eb, fb) = (b / h, b % h);
    assert(a == ea * h + fa && b == eb * h + fb);
    assert(ea <= eb) by (nonlinear_arith)
        requires a < b, a == ea * h + fa, b == eb * h + fb, 0 <= fa < h, 0 <= fb < h;
    if ea == eb {
        assert(fa < fb);
        if ea > 0 {
            let p = pow2((ea - 1) as nat);
            lemma_pow2_pos((ea - 1) as nat);
            assert((h + fa) * p < (h + fb) * p) by (nonlinear_arith)
                requires fa < fb, p > 0;
        }
    } else {
        let q = pow2((eb - 1) as nat);
        lemma_pow2_pos((eb - 1) as nat);
        assert((h + fb) * q >= h * q) by (nonlinear_arith) requires q > 0;
        if ea == 0 {
            assert(h * q >= h) by (nonlinear_arith) requires q > 0;
        } else {
            let p = pow2((ea - 1) as nat);
            lemma_pow2_pos((ea - 1) as nat);
            lemma_pow2_unfold(ea);
            if ea < eb - 1 {
                lemma_pow2_strictly_increases(ea, (eb - 1) as nat);
            }
            assert(2 * p <= q);
            assert((h + fa) * p < (2 * h) * p) by (nonlinear_arith)
                requires fa < h, p > 0;
            assert((2 * h) * p <= h * q) by (nonlinear_arith) requires 2 * p <= q;
        }
    }
}

/// The pattern of zero stands for no units.
pub proof fn zero_units()
    ensures
        magnitude_units(0) == 0,
        (Float { bits: 0 }).units() == 0,
{
    reveal(magnitude_units);
}

/// Patterns compare as the signed numbers that they stand for.
proof fn keys_are_ordered(x: Float, y: Float)
    ensures
        ({
            let kx = if x.negative() { -(x.mag() as int) } else { x.mag() as int };
            let ky = if y.negative() { -(y.mag() as int) } else { y.mag() as int };
            &&& kx < ky <==> x.units() < y.units()
            &&& kx == ky <==> x.units() == y.units()
        }),
{
    let (a, b) = (x.mag(), y.mag());
    zero_units();
    if a < b {
        magnitudes_are_ordered(a, b);
    }
    if b < a {
        magnitudes_are_ordered(b, a);
    }
    if a > 0 {
        magnitudes_are_ordered(0, a);
    }
    if b > 0 {
        magnitudes_are_ordered(0, b);
    }
}

impl Float {
    /// The pattern as an integer that orders numbers.
    fn key(self) -> (k: i128)
        ensures
            k == if self.negative() { -(self.mag() as int) } else { self.mag() as int },
    {
        let mag: u64 = self.bits % SIGN;
        if self.bits >= SIGN {
            -(mag as i128)
        } else {
            mag as i128
        }
    }

    /// Whether this is not a number.
    pub fn is_nan(self) -> (b: bool)
        ensures
            b == self.nan(),
    {
        self.bits % SIGN > INFINITY_BITS
    }

    /// Whether this is neither infinite nor NaN.
    pub fn is_finite(self) -> (b: bool)
        ensures
            b == self.finite(),
    {
        self.bits % SIGN < INFINITY_BITS
    }

    /// `self < other`.
    pub fn lt(self, other: Float) -> (b: bool)
        ensures
            b == self.less(other),
    {
        proof {
            keys_are_ordered(self, other);
        }
        !self.is_nan() && !other.is_nan() && self.key() < other.key()
    }

    /// `self <= other`.
    pub fn le(self, other: Float) -> (b: bool)
        ensures
            b == self.at_most(other),
    {
        proof {
            keys_are_ordered(self, other);
        }
        !self.is_nan() && !other.is_nan() && self.key() <= other.key()
    }

    /// `self == other` as numbers.
    pub fn eq_value(self, other: Float) -> (b: bool)
        ensures
            b == self.same(other),
    {
        proof {
            keys_are_ordered(self, other);
        }
        !self.is_nan() && !other.is_nan() && self.key() == other.key()
    }

    /// The magnitude: the sign bit cleared.
    pub fn abs(self) -> (r: Float)
        ensures
            r.mag() == self.mag(),
            !r.negative(),
    {
        Float { bits: self.bits % SIGN }
    }

    /// The opposite sign.
    pub fn neg(self) -> (r: Float)
        ensures
            r.mag() == self.mag(),
            r.negative() == !self.negative(),
            r.units() == -self.units(),
    {
        if self.bits >= SIGN {
            Float { bits: self.bits - SIGN }
        } else {
            Float { bits: self.bits + SIGN }
        }
    }
}

/// How many times `whole` is halved before it fits in a 53-bit significand.
pub open spec fn excess(whole: nat) -> nat
    decreases whole,
{
    if whole < 2 * HIDDEN {
        0
    } else {
        1 + excess(whole / 2)
    }
}

/// The magnitude pattern of the binary64 number nearest to `num / den` units, ties going to the
/// even pattern, and infinity from half a step past the greatest finite number on.
pub open spec fn nearest(num: nat, den: nat) -> nat {
    let k = excess(num / den);
    let step = den * pow2(k);
    let q = num / step;
    let r = num % step;
    let up: nat = if 2 * r > step || (2 * r == step && q % 2 == 1) { 1 } else { 0 };
    let mag = k * HIDDEN as nat + q + up;
    if mag > INFINITY_BITS { INFINITY_BITS as nat } else { mag }
}

/// `k` is the number of halvings exactly when `whole` has 53 + `k` bits, or fewer with `k` zero.
proof fn excess_by_bounds(whole: nat, k: nat)
    requires
        whole < 2 * HIDDEN * pow2(k),
        k == 0 || HIDDEN * pow2(k) <= whole,
    ensures
        excess(whole) == k,
    decreases k,
{
    lemma2_to64();
    if k == 0 {
        assert(2 * HIDDEN * pow2(k) == 2 * HIDDEN) by (nonlinear_arith) requires pow2(k) == 1;
    } else {
        let p = pow2((k - 1) as nat);
        lemma_pow2_pos((k - 1) as nat);
        lemma_pow2_unfold(k);
        let h = HIDDEN as nat;
        assert(h * pow2(k) == 2 * (h * p)) by (nonlinear_arith)
            requires pow2(k) == 2 * p;
        assert(2 * h * pow2(k) == 2 * (2 * h * p)) by (nonlinear_arith)
            requires pow2(k) == 2 * p;
        assert(h * p >= h) by (nonlinear_arith) requires p > 0;
        assert(whole / 2 < 2 * h * p && (k == 1 || h * p <= whole / 2));
        excess_by_bounds(whole / 2, (k - 1) as nat);
    }
}

/// 2^`t` as a machine integer.
pub(crate) fn power_of_two(t: u32) -> (p: u128)
    requires
        t < 128,
    ensures
        p == pow2(t as nat),
{
    let mut p: u128 = 1;
    let mut i: u32 = 0;
    proof {
        lemma2_to64();
        pow2_127_fits();
    }
    while i < t
        invariant
            i <= t < 128,
            p == pow2(i as nat),
            pow2(127) <= u128::MAX,
        decreases t - i,
    {
        proof {
            lemma_pow2_unfold((i + 1) as nat);
            if i + 1 < 127 {
                lemma_pow2_strictly_increases((i + 1) as nat, 127);
            }
        }
        p = p * 2;
        i = i + 1;
    }
    p
}

proof fn pow2_127_fits()
    ensures
        pow2(127) == 0x8000_0000_0000_0000_0000_0000_0000_0000,
        pow2(128) == 0x1_0000_0000_0000_0000_0000_0000_0000_0000,
{
    lemma2_to64();
    lemma2_to64_rest();
    lemma_pow2_adds(64, 63);
    lemma_pow2_adds(64, 64);
}

/// The number of bits that `n` takes.
fn bit_length(n: u128) -> (len: u32)
    requires
        n > 0,
    ensures
        1 <= len <= 128,
        pow2((len - 1) as nat) <= n < pow2(len as nat),
{
    let mut len: u32 = 1;
    let mut rest: u128 = n / 2;
    proof {
        lemma2_to64();
        pow2_127_fits();
    }
    while rest > 0
        invariant
            1 <= len <= 128,
            rest == 0 ==> n < pow2(len as nat),
            pow2((len - 1) as nat) <= n,
            rest * pow2(len as nat) <= n < (rest + 1) * pow2(len as nat),
            n < pow2(128),
        decreases rest,
    {
        proof {
            let p = pow2(len as nat);
            lemma_pow2_pos(len as nat);
            lemma_pow2_unfold((len + 1) as nat);
            let half = (rest / 2) as nat;
            assert(p <= rest * p) by (nonlinear_arith) requires rest >= 1, p > 0;
            if len >= 128 {
                assert(len == 128);
                assert(false);
            }
            assert(half * (2 * p) <= rest * p) by (nonlinear_arith) requires 2 * half <= rest, p > 0;
            assert((rest + 1) * p <= (half + 1) * (2 * p)) by (nonlinear_arith)
                requires rest + 1 <= 2 * half + 2, p > 0;
            assert(half == 0 ==> (half + 1) * (2 * p) == 2 * p) by (nonlinear_arith);
        }
        rest = rest / 2;
        len = len + 1;
    }
    len
}

/// The pattern for a scaling `k`, a quotient `q` and whether it is rounded up.
spec fn assembled(k: nat, q: nat, up: bool) -> nat {
    let mag = k * HIDDEN as nat + q + if up { 1nat } else { 0nat };
    if mag > INFINITY_BITS { INFINITY_BITS as nat } else { mag }
}

/// A quotient that fits the significand fixes the scaling and the remainder.
proof fn nearest_from_quotient(num: nat, den: nat, k: nat, q: nat)
    requires
        den > 0,
        q * (den * pow2(k)) <= num < (q + 1) * (den * pow2(k)),
        q < 2 * HIDDEN,
        k == 0 || HIDDEN <= q,
    ensures
        ({
            let step = den * pow2(k);
            let r = num - q * step;
            nearest(num, den) == assembled(k, q, 2 * r > step || (2 * r == step && q % 2 == 1))
        }),
{
    let p = pow2(k);
    let h = HIDDEN as nat;
    lemma_pow2_pos(k);
    let step = den * p;
    assert(step > 0) by (nonlinear_arith) requires den > 0, p > 0, step == den * p;
    let whole = num / den;
    assert(whole * den <= num < (whole + 1) * den) by (nonlinear_arith)
        requires den > 0, whole == num / den;
    assert(whole < 2 * h * p) by (nonlinear_arith)
        requires whole * den <= num, num < (q + 1) * (den * p), q + 1 <= 2 * h, den > 0, p > 0;
    if k > 0 {
        assert(h * p < whole + 1) by (nonlinear_arith)
            requires num < (whole + 1) * den, q * (den * p) <= num, h <= q, den > 0, p > 0;
    }
    excess_by_bounds(whole, k);
    assert((q + 1) * step == q * step + step) by (nonlinear_arith);
    assert(step * q == q * step) by (nonlinear_arith);
    vstd::arithmetic::div_mod::lemma_fundamental_div_mod_converse(
        num as int,
        step as int,
        q as int,
        num - q * step,
    );
}

/// `num / den` is `n * 2^sh` exactly, or (`sticky`) between that and the next multiple of 2^`sh`.
spec fn scaled(n: nat, sh: int, sticky: bool, num: nat, den: nat) -> bool {
    let p = if sh >= 0 { pow2(sh as nat) } else { 1 };
    let q = if sh >= 0 { 1 } else { pow2((-sh) as nat) };
    &&& n * (p * den) <= num * q < (n + 1) * (p * den)
    &&& num * q == n * (p * den) <==> !sticky
}

/// Dropping `t` low bits of `n` leaves the quotient and decides the rounding.
proof fn drop_low_bits(n: nat, sh: int, sticky: bool, num: nat, den: nat, k: nat, t: nat)
    requires
        den > 0,
        t > 0,
        k == sh + t,
        scaled(n, sh, sticky, num, den),
    ensures
        ({
            let q = n / pow2(t);
            let low = n % pow2(t);
            let half = pow2((t - 1) as nat);
            let step = den * pow2(k);
            let r = num - q * step;
            &&& q * step <= num < (q + 1) * step
            &&& (2 * r > step || (2 * r == step && q % 2 == 1)) == (low > half || (low == half && (
            sticky || q % 2 == 1)))
        }),
{
    let p: nat = if sh >= 0 { pow2(sh as nat) } else { 1 };
    let c: nat = if sh >= 0 { 1 } else { pow2((-sh) as nat) };
    let tt = pow2(t);
    let half = pow2((t - 1) as nat);
    let w = p * den;
    let kk = pow2(k);
    let step = den * kk;
    lemma_pow2_pos(t);
    lemma_pow2_pos(k);
    lemma_pow2_unfold(t);
    if sh >= 0 {
        lemma_pow2_pos(sh as nat);
        lemma_pow2_adds(sh as nat, t);
        assert(kk * c == p * tt);
    } else {
        lemma_pow2_pos((-sh) as nat);
        lemma_pow2_adds((-sh) as nat, k);
        assert(kk * c == tt) by (nonlinear_arith) requires tt == c * kk;
        assert(kk * c == p * tt);
    }
    let q = n / tt;
    let low = n % tt;
    let top = num * c;
    assert(n == q * tt + low && 0 <= low < tt) by (nonlinear_arith)
        requires tt > 0, q == n / tt, low == n % tt;
    assert(w > 0) by (nonlinear_arith) requires w == p * den, p > 0, den > 0;
    assert(step * c == tt * w) by (nonlinear_arith)
        requires step == den * kk, kk * c == p * tt, w == p * den;
    let x = top - n * w;
    assert(0 <= x < w) by (nonlinear_arith) requires n * w <= top, top < (n + 1) * w, x == top - n * w;
    let qs = q * step;
    assert(qs * c == q * (tt * w)) by (nonlinear_arith) requires qs == q * step, step * c == tt * w;
    assert(n * w == q * (tt * w) + low * w) by (nonlinear_arith) requires n == q * tt + low;
    assert(low * w + x < tt * w) by (nonlinear_arith) requires low + 1 <= tt, x < w, w > 0;
    assert(low * w >= 0) by (nonlinear_arith) requires low >= 0, w > 0;
    // The remainder, times `c`, is `low` steps of `w` and the sticky part.
    let r = num - qs;
    assert(r * c == low * w + x) by (nonlinear_arith)
        requires r == num - qs, top == num * c, x == top - n * w, n * w == q * (tt * w) + low * w,
            qs * c == q * (tt * w);
    assert(0 <= r) by (nonlinear_arith) requires r * c == low * w + x, low * w >= 0, x >= 0, c > 0;
    assert(r < step) by (nonlinear_arith)
        requires r * c == low * w + x, low * w + x < tt * w, step * c == tt * w, c > 0;
    assert((q + 1) * step == qs + step) by (nonlinear_arith) requires qs == q * step;
    // Doubled, it stands to the step as `low` stands to the half.
    assert((2 * r) * c == 2 * (low * w + x)) by (nonlinear_arith) requires r * c == low * w + x;
    assert(tt * w == 2 * (half * w)) by (nonlinear_arith) requires tt == 2 * half;
    if low > half {
        assert(low * w > half * w) by (nonlinear_arith) requires low > half, w > 0;
        assert(2 * r > step) by (nonlinear_arith)
            requires (2 * r) * c > step * c, c > 0;
    } else if low < half {
        assert(low * w + x < half * w) by (nonlinear_arith) requires low + 1 <= half, x < w, w > 0;
        assert(2 * r < step) by (nonlinear_arith)
            requires (2 * r) * c < step * c, c > 0;
    } else if x > 0 {
        assert(2 * r > step) by (nonlinear_arith)
            requires (2 * r) * c > step * c, c > 0;
    } else {
        assert(2 * r == step) by (nonlinear_arith)
            requires (2 * r) * c == step * c, c > 0;
    }
}

/// With no bit to drop, the quotient is exact.
proof fn keep_all_bits(n: nat, sh: int, num: nat, den: nat, k: nat, up: nat)
    requires
        den > 0,
        sh == k + up,
        scaled(n, sh, false, num, den),
    ensures
        num == (n * pow2(up)) * (den * pow2(k)),
        den * pow2(k) > 0,
        (n * pow2(up) + 1) * (den * pow2(k)) == num + den * pow2(k),
{
    lemma_pow2_adds(k, up);
    lemma_pow2_pos(k);
    let (a, b) = (pow2(up), pow2(k));
    assert(num == n * (pow2(sh as nat) * den));
    assert((n * a) * (den * b) == n * ((b * a) * den)) by (nonlinear_arith);
    assert(den * b > 0) by (nonlinear_arith) requires den > 0, b > 0;
    assert((n * a + 1) * (den * b) == (n * a) * (den * b) + den * b) by (nonlinear_arith);
}

/// The magnitude pattern nearest to `n * 2^sh` units, or (`sticky`) to a number a little above.
fn round_scaled(
    n: u128,
    sh: i32,
    sticky: bool,
    Ghost(num): Ghost<nat>,
    Ghost(den): Ghost<nat>,
) -> (mag: u64)
    requires
        0 < n < pow2(127),
        -4000 <= sh <= 3900,
        den > 0,
        scaled(n as nat, sh as int, sticky, num, den),
        sticky ==> n >= pow2(54),
    ensures
        mag == nearest(num, den),
        mag <= INFINITY_BITS,
{
    let len: i32 = bit_length(n) as i32;
    let k: i32 = if len + sh > 53 { len + sh - 53 } else { 0 };
    let t: i32 = k - sh;
    proof {
        lemma2_to64();
        lemma2_to64_rest();
        pow2_127_fits();
        if len > 127 {
            assert(len == 128);
            assert(false);
        }
        if sticky && len < 55 {
            if len < 54 {
                lemma_pow2_strictly_increases(len as nat, 54);
            }
            assert(false);
        }
    }
    if t <= 0 {
        let up: u32 = (-t) as u32;
        assert(!sticky);
        proof {
            keep_all_bits(n as nat, sh as int, num, den, k as nat, up as nat);
            let (a, b) = (pow2(len as nat), pow2(up as nat));
            lemma_pow2_pos(up as nat);
            lemma_pow2_adds(len as nat, up as nat);
            if len + up < 53 {
                lemma_pow2_strictly_increases((len + up) as nat, 53);
            }
            assert(n * b < a * b) by (nonlinear_arith) requires n < a, b > 0;
            if k > 0 {
                lemma_pow2_adds((len - 1) as nat, up as nat);
                let c = pow2((len - 1) as nat);
                assert(n * b >= c * b) by (nonlinear_arith) requires n >= c, b > 0;
            }
            nearest_from_quotient(num, den, k as nat, (n * b) as nat);
        }
        let q: u128 = n * power_of_two(up);
        let mag: u64 = k as u64 * HIDDEN + q as u64;
        if mag > INFINITY_BITS {
            INFINITY_BITS
        } else {
            mag
        }
    } else if t > len {
        proof {
            drop_low_bits(n as nat, sh as int, sticky, num, den, k as nat, t as nat);
            if len < t - 1 {
                lemma_pow2_strictly_increases(len as nat, (t - 1) as nat);
            }
            lemma_pow2_strictly_increases(len as nat, t as nat);
            vstd::arithmetic::div_mod::lemma_fundamental_div_mod_converse(
                n as int,
                pow2(t as nat) as int,
                0,
                n as int,
            );
            nearest_from_quotient(num, den, 0, 0);
        }
        0
    } else {
        let tt: u128 = power_of_two(t as u32);
        let half: u128 = power_of_two((t - 1) as u32);
        proof {
            lemma_pow2_pos(t as nat);
        }
        let q: u128 = n / tt;
        let low: u128 = n % tt;
        let up: bool = low > half || (low == half && (sticky || q % 2 == 1));
        proof {
            drop_low_bits(n as nat, sh as int, sticky, num, den, k as nat, t as nat);
            lemma_pow2_adds((len - t) as nat, t as nat);
            let a = pow2((len - t) as nat);
            assert(q < a) by (nonlinear_arith)
                requires n < a * tt, q == n / tt, tt > 0;
            if len - t < 53 {
                lemma_pow2_strictly_increases((len - t) as nat, 53);
            }
            if k > 0 {
                lemma_pow2_adds((len - 1 - t) as nat, t as nat);
                let b = pow2((len - 1 - t) as nat);
                assert(q >= b) by (nonlinear_arith)
                    requires n >= b * tt, q == n / tt, tt > 0;
            }
            nearest_from_quotient(num, den, k as nat, q as nat);
        }
        let mag: u64 = k as u64 * HIDDEN + q as u64 + if up { 1 } else { 0 };
        if mag > INFINITY_BITS {
            INFINITY_BITS
        } else {
            mag
        }
    }
}

/// The number nearest to `num / den` units, with the sign.
pub open spec fn rounded(negative: bool, num: nat, den: nat) -> Float {
    Float { bits: (nearest(num, den) + if negative { SIGN as nat } else { 0 }) as u64 }
}

/// Infinity with a sign.
pub open spec fn signed_infinity(negative: bool) -> Float {
    Float { bits: if negative { (SIGN + INFINITY_BITS) as u64 } else { INFINITY_BITS } }
}

/// Zero with a sign.
pub open spec fn signed_zero(negative: bool) -> Float {
    Float { bits: if negative { SIGN } else { 0 } }
}

/// Not a number.
pub open spec fn not_a_number() -> Float {
    Float { bits: NAN_BITS }
}

/// `x + y`, rounded to nearest.
#[verifier::opaque]
pub open spec fn sum(x: Float, y: Float) -> Float {
    if x.nan() || y.nan() || (x.infinite() && y.infinite() && x.negative() != y.negative()) {
        not_a_number()
    } else if x.infinite() {
        x
    } else if y.infinite() {
        y
    } else {
        let exact = x.units() + y.units();
        if exact == 0 {
            signed_zero(x.negative() && y.negative())
        } else if exact < 0 {
            rounded(true, (-exact) as nat, 1)
        } else {
            rounded(false, exact as nat, 1)
        }
    }
}

/// `x` with its sign flipped.
pub open spec fn opposite(x: Float) -> Float {
    Float { bits: if x.negative() { (x.bits - SIGN) as u64 } else { (x.bits + SIGN) as u64 } }
}

/// `x - y`, rounded to nearest.
pub open spec fn difference(x: Float, y: Float) -> Float {
    sum(x, opposite(y))
}

/// `x * y`, rounded to nearest.
#[verifier::opaque]
pub open spec fn product(x: Float, y: Float) -> Float {
    let negative = x.negative() != y.negative();
    if x.nan() || y.nan() || (x.infinite() && y.mag() == 0) || (y.infinite() && x.mag() == 0) {
        not_a_number()
    } else if x.infinite() || y.infinite() {
        signed_infinity(negative)
    } else {
        rounded(negative, magnitude_units(x.mag()) * magnitude_units(y.mag()), pow2(1074))
    }
}

/// `x / y`, rounded to nearest.
#[verifier::opaque]
pub open spec fn quotient(x: Float, y: Float) -> Float {
    let negative = x.negative() != y.negative();
    if x.nan() || y.nan() || (x.infinite() && y.infinite()) || (x.mag() == 0 && y.mag() == 0) {
        not_a_number()
    } else if x.infinite() || y.mag() == 0 {
        signed_infinity(negative)
    } else if y.infinite() {
        signed_zero(negative)
    } else {
        rounded(negative, magnitude_units(x.mag()) * pow2(1074), magnitude_units(y.mag()))
    }
}

/// The number nearest to an integer.
#[verifier::opaque]
pub open spec fn from_integer(i: int) -> Float {
    if i < 0 {
        rounded(true, ((-i) * pow2(1074)) as nat, 1)
    } else {
        rounded(false, (i * pow2(1074)) as nat, 1)
    }
}

/// Zero units round to the pattern of zero.
proof fn nearest_of_zero(den: nat)
    requires
        den > 0,
    ensures
        nearest(0, den) == 0,
{
    lemma2_to64();
    assert(0int / (den as int) == 0) by (nonlinear_arith) requires den > 0;
    assert(den * pow2(0) == den) by (nonlinear_arith) requires pow2(0) == 1;
    vstd::arithmetic::div_mod::lemma_fundamental_div_mod_converse(0, den as int, 0, 0);
}

/// Only the zero pattern stands for zero units.
proof fn nonzero_units(mag: nat)
    ensures
        magnitude_units(mag) == 0 <==> mag == 0,
{
    zero_units();
    if mag > 0 {
        magnitudes_are_ordered(0, mag);
    }
}

fn with_sign(negative: bool, mag: u64) -> (r: Float)
    requires
        mag <= INFINITY_BITS,
    ensures
        r.bits == mag + if negative { SIGN as int } else { 0 },
{
    Float { bits: if negative { SIGN + mag } else { mag } }
}

impl Float {
    /// The significand and the power of two that make up the magnitude.
    pub(crate) fn parts(self) -> (r: (u64, u32))
        requires
            self.finite(),
        ensures
            magnitude_units(self.mag()) == r.0 * pow2(r.1 as nat),
            r.0 < 2 * HIDDEN,
            r.1 <= 2045,
            r.1 > 0 ==> r.0 >= HIDDEN,
            r.0 == 0 <==> self.mag() == 0,
    {
        let mag: u64 = self.bits % SIGN;
        let exponent: u64 = mag / HIDDEN;
        let fraction: u64 = mag % HIDDEN;
        proof {
            lemma2_to64();
            nonzero_units(self.mag());
            reveal(magnitude_units);
        }
        if exponent == 0 {
            assert(fraction * pow2(0) == fraction) by (nonlinear_arith) requires pow2(0) == 1;
            (fraction, 0)
        } else {
            (HIDDEN + fraction, (exponent - 1) as u32)
        }
    }
}

/// The magnitude nearest to `a * 2^i + b * 2^j` (or their difference where the signs differ).
#[verifier::rlimit(40)]
#[verifier::spinoff_prover]
fn add_parts(negative_a: bool, a: u64, i: u32, negative_b: bool, b: u64, j: u32) -> (r: Float)
    requires
        a < 2 * HIDDEN,
        b < 2 * HIDDEN,
        j <= i <= 2045,
        i > 0 ==> a >= HIDDEN,
    ensures
        ({
            let ua = if negative_a { -(a * pow2(i as nat)) } else { a * pow2(i as nat) };
            let ub = if negative_b { -(b * pow2(j as nat)) } else { b * pow2(j as nat) };
            let exact = ua + ub;
            r == if exact == 0 {
                signed_zero(negative_a && negative_b)
            } else if exact < 0 {
                rounded(true, (-exact) as nat, 1)
            } else {
                rounded(false, exact as nat, 1)
            }
        }),
{
    let d: u32 = i - j;
    let ghost (pi, pj) = (pow2(i as nat), pow2(j as nat));
    let ghost (ma, mb) = (a * pi, b * pj);
    proof {
        lemma2_to64();
        lemma2_to64_rest();
        pow2_127_fits();
        lemma_pow2_pos(i as nat);
        lemma_pow2_pos(j as nat);
        assert(ma >= 0) by (nonlinear_arith) requires ma == a * pi, a >= 0, pi > 0;
        assert(mb >= 0) by (nonlinear_arith) requires mb == b * pj, b >= 0, pj > 0;
    }
    if d <= 73 {
        let pd: u128 = power_of_two(d);
        proof {
            lemma_pow2_adds(d as nat, j as nat);
            lemma_pow2_adds(73, 53);
            lemma_pow2_pos(d as nat);
            if d < 73 {
                lemma_pow2_strictly_increases(d as nat, 73);
            }
            lemma_pow2_strictly_increases(126, 127);
            assert(a * pd <= pow2(53) * pow2(73)) by (nonlinear_arith)
                requires a <= pow2(53), pd <= pow2(73), a >= 0, pd >= 0;
            assert(pow2(53) * pow2(73) == pow2(126)) by (nonlinear_arith)
                requires pow2(73 + 53) == pow2(73) * pow2(53), pow2(126) == pow2(73 + 53);
            assert(a * pd >= 0) by (nonlinear_arith) requires a >= 0, pd >= 0;
            lemma_pow2_unfold(127);
            lemma_pow2_strictly_increases(54, 126);
        }
        let wide: u128 = a as u128 * pd;
        let narrow: u128 = b as u128;
        assert(wide * pj == ma) by (nonlinear_arith)
            requires wide == a * pd, ma == a * pi, pi == pd * pj;
        assert(narrow * pj == mb);
        if negative_a == negative_b {
            let n: u128 = wide + narrow;
            assert(n * pj == ma + mb) by (nonlinear_arith)
                requires n == wide + narrow, wide * pj == ma, narrow * pj == mb;
            if n == 0 {
                assert(n * pj == 0) by (nonlinear_arith) requires n == 0;
                return with_sign(negative_a, 0);
            }
            assert(n * pj > 0) by (nonlinear_arith) requires n > 0, pj > 0;
            proof {
                exactly_scaled(n as nat, j as nat, (ma + mb) as nat);
            }
            let mag: u64 = round_scaled(n, j as i32, false, Ghost((ma + mb) as nat), Ghost(1));
            with_sign(negative_a, mag)
        } else if wide == narrow {
            assert(ma == mb);
            Float { bits: 0 }
        } else if wide > narrow {
            let n: u128 = wide - narrow;
            assert(n * pj == ma - mb) by (nonlinear_arith)
                requires n == wide - narrow, wide * pj == ma, narrow * pj == mb;
            assert(n * pj > 0) by (nonlinear_arith) requires n > 0, pj > 0;
            proof {
                exactly_scaled(n as nat, j as nat, (ma - mb) as nat);
            }
            let mag: u64 = round_scaled(n, j as i32, false, Ghost((ma - mb) as nat), Ghost(1));
            with_sign(negative_a, mag)
        } else {
            let n: u128 = narrow - wide;
            assert(n * pj == mb - ma) by (nonlinear_arith)
                requires n == narrow - wide, wide * pj == ma, narrow * pj == mb;
            assert(n * pj > 0) by (nonlinear_arith) requires n > 0, pj > 0;
            proof {
                exactly_scaled(n as nat, j as nat, (mb - ma) as nat);
            }
            let mag: u64 = round_scaled(n, j as i32, false, Ghost((mb - ma) as nat), Ghost(1));
            with_sign(negative_b, mag)
        }
    } else {
        // `b * 2^j` is below one step of 2^(i - 20), so only whether it is zero matters.
        let p20: u128 = 0x10_0000;
        let low: i32 = i as i32 - 20;
        let n: u128 = a as u128 * p20;
        let ghost pl = pow2(low as nat);
        proof {
            lemma_pow2_pos(low as nat);
            lemma_pow2_adds(20, low as nat);
            lemma_pow2_adds(53, j as nat);
            lemma_pow2_strictly_increases(54, 127);
            if 53 + j < low {
                lemma_pow2_strictly_increases((53 + j) as nat, low as nat);
            }
            assert(mb < pl) by (nonlinear_arith)
                requires mb == b * pj, b < pow2(53), pow2(53) * pj <= pl, pj > 0;
            assert(n * pl == ma) by (nonlinear_arith)
                requires n == a * p20, ma == a * pi, pi == p20 * pl;
            assert((n + 1) * pl == n * pl + pl) by (nonlinear_arith);
            assert((n - 1) * pl == n * pl - pl) by (nonlinear_arith);
            assert(pl * 1 == pl);
            assert(mb == 0 <==> b == 0) by (nonlinear_arith) requires mb == b * pj, pj > 0;
            assert(ma > mb) by (nonlinear_arith) requires n * pl == ma, n >= 1, mb < pl, pl > 0;
        }
        if negative_a == negative_b {
            let mag: u64 = round_scaled(n, low, b != 0, Ghost((ma + mb) as nat), Ghost(1));
            with_sign(negative_a, mag)
        } else if b == 0 {
            let mag: u64 = round_scaled(n, low, false, Ghost((ma - mb) as nat), Ghost(1));
            with_sign(negative_a, mag)
        } else {
            let mag: u64 = round_scaled(n - 1, low, true, Ghost((ma - mb) as nat), Ghost(1));
            with_sign(negative_a, mag)
        }
    }
}

/// An exact multiple is scaled without a sticky part.
proof fn exactly_scaled(n: nat, sh: nat, num: nat)
    requires
        n * pow2(sh) == num,
    ensures
        scaled(n, sh as int, false, num, 1),
{
    let p = pow2(sh);
    lemma_pow2_pos(sh);
    assert(p * 1 == p);
    assert((n + 1) * p == n * p + p) by (nonlinear_arith);
}

/// The magnitude nearest to `(a * 2^i) * (b * 2^j)`, in numbers.
fn multiply_parts(a: u64, i: u32, b: u64, j: u32) -> (mag: u64)
    requires
        0 < a < 2 * HIDDEN,
        0 < b < 2 * HIDDEN,
        i <= 2045,
        j <= 2045,
    ensures
        mag == nearest(
            ((a * pow2(i as nat)) * (b * pow2(j as nat))) as nat,
            pow2(1074),
        ),
        mag <= INFINITY_BITS,
{
    let n: u128 = {
        assert(0 < a * b < 0x20_0000_0000_0000 * 0x20_0000_0000_0000) by (nonlinear_arith)
            requires 0 < a < 0x20_0000_0000_0000, 0 < b < 0x20_0000_0000_0000;
        a as u128 * b as u128
    };
    let sh: i32 = i as i32 + j as i32 - 1074;
    let ghost (pi, pj, den) = (pow2(i as nat), pow2(j as nat), pow2(1074));
    let ghost num = ((a * pi) * (b * pj)) as nat;
    proof {
        pow2_127_fits();
        lemma_pow2_pos(1074);
        lemma_pow2_pos(i as nat);
        lemma_pow2_pos(j as nat);
        lemma_pow2_adds(i as nat, j as nat);
        let both = pow2((i + j) as nat);
        assert((a * pi) * (b * pj) == n * both) by (nonlinear_arith)
            requires n == a * b, both == pi * pj;
        assert(n * both >= 0) by (nonlinear_arith) requires n > 0, both >= 0;
        if sh >= 0 {
            let p = pow2(sh as nat);
            lemma_pow2_pos(sh as nat);
            lemma_pow2_adds(sh as nat, 1074);
            let w = p * den;
            assert(w > 0) by (nonlinear_arith) requires w == p * den, p > 0, den > 0;
            assert((n + 1) * w == n * w + w) by (nonlinear_arith);
            assert(num * 1 == num);
        } else {
            let c = pow2((-sh) as nat);
            lemma_pow2_adds((i + j) as nat, (-sh) as nat);
            assert(num * c == n * den) by (nonlinear_arith)
                requires num == n * both, den == both * c;
            assert(1 * den == den);
            assert((n + 1) * den == n * den + den) by (nonlinear_arith);
        }
        assert(scaled(n as nat, sh as int, false, num, den));
    }
    round_scaled(n, sh, false, Ghost(num), Ghost(den))
}

/// The magnitude nearest to `(a * 2^i) / (b * 2^j)`, in numbers.
fn divide_parts(a: u64, i: u32, b: u64, j: u32) -> (mag: u64)
    requires
        0 < a < 2 * HIDDEN,
        0 < b < 2 * HIDDEN,
        i <= 2045,
        j <= 2045,
    ensures
        mag == nearest(
            ((a * pow2(i as nat)) * pow2(1074)) as nat,
            (b * pow2(j as nat)) as nat,
        ),
        mag <= INFINITY_BITS,
{
    // Bring the dividend to 53 bits.
    let mut top: u64 = a;
    let mut up: u32 = 0;
    proof {
        lemma2_to64();
        lemma2_to64_rest();
        assert(a * pow2(0) == a) by (nonlinear_arith) requires pow2(0) == 1;
    }
    while top < HIDDEN
        invariant
            0 < top < 2 * HIDDEN,
            top == a * pow2(up as nat),
            up <= 52,
            a > 0,
            HIDDEN == pow2(52),
        decreases 2 * HIDDEN - top,
    {
        proof {
            lemma_pow2_unfold((up + 1) as nat);
            let q = pow2(up as nat);
            assert(a * (2 * q) == 2 * (a * q)) by (nonlinear_arith);
            if up == 52 {
                assert(a * q >= q) by (nonlinear_arith) requires a > 0, q >= 0;
                assert(false);
            }
        }
        top = top * 2;
        up = up + 1;
    }
    let wide: u128 = top as u128 * 0x1_0000_0000_0000_0000;
    let n: u128 = wide / b as u128;
    let rem: u128 = wide % b as u128;
    let sh: i32 = i as i32 - up as i32 - j as i32 + 1010;
    let ghost (pi, pj, pu) = (pow2(i as nat), pow2(j as nat), pow2(up as nat));
    let ghost den = (b * pj) as nat;
    let ghost num = ((a * pi) * pow2(1074)) as nat;
    proof {
        pow2_127_fits();
        lemma2_to64_rest();
        lemma_pow2_pos(i as nat);
        lemma_pow2_pos(j as nat);
        lemma_pow2_pos(up as nat);
        lemma_pow2_pos(1074);
        assert(den > 0) by (nonlinear_arith) requires den == b * pj, b > 0, pj > 0;
        assert(wide == n * b + rem && 0 <= rem < b) by (nonlinear_arith)
            requires n == wide / b as u128, rem == wide % b as u128, b > 0;
        lemma_pow2_strictly_increases(54, 63);
        assert(n >= 0x4000_0000_0000_0000) by (nonlinear_arith)
            requires wide == n * b + rem, rem < b, b < 0x20_0000_0000_0000,
                wide >= 0x10_0000_0000_0000 * 0x1_0000_0000_0000_0000;
        assert(n <= wide) by (nonlinear_arith) requires wide == n * b + rem, b > 0, rem >= 0, n >= 0;
        // The dividend in units is `wide` times 2^(i - up + 1010).
        let e = (i + 1010 - up) as nat;
        let pe = pow2(e);
        lemma_pow2_pos(e);
        lemma_pow2_adds(e, up as nat);
        lemma_pow2_adds(i as nat, 1010);
        lemma_pow2_adds(1010, 64);
        let big = pow2(1010);
        assert(num == wide * pe) by (nonlinear_arith)
            requires num == (a * pi) * pow2(1074), pow2(1074) == big * 0x1_0000_0000_0000_0000,
                pi * big == pe * pu, wide == top * 0x1_0000_0000_0000_0000, top == a * pu;
        let nb = n * b;
        assert((n + 1) * b == nb + b) by (nonlinear_arith) requires nb == n * b;
        if sh >= 0 {
            let p = pow2(sh as nat);
            lemma_pow2_adds(sh as nat, j as nat);
            assert(p * den == b * pe) by (nonlinear_arith)
                requires den == b * pj, pe == p * pj;
            assert(n * (b * pe) == nb * pe) by (nonlinear_arith) requires nb == n * b;
            assert((n + 1) * (b * pe) == (nb + b) * pe) by (nonlinear_arith) requires nb == n * b;
            assert(nb * pe <= wide * pe < (nb + b) * pe) by (nonlinear_arith)
                requires nb <= wide, wide < nb + b, pe > 0;
            assert(nb * pe == wide * pe <==> nb == wide) by (nonlinear_arith) requires pe > 0;
            assert(num * 1 == num);
        } else {
            let c = pow2((-sh) as nat);
            lemma_pow2_adds(e, (-sh) as nat);
            assert(num * c == wide * pj) by (nonlinear_arith)
                requires num == wide * pe, pj == pe * c;
            assert(1 * den == den);
            assert(n * den == nb * pj) by (nonlinear_arith) requires nb == n * b, den == b * pj;
            assert((n + 1) * den == (nb + b) * pj) by (nonlinear_arith)
                requires nb == n * b, den == b * pj;
            assert(nb * pj <= wide * pj < (nb + b) * pj) by (nonlinear_arith)
                requires nb <= wide, wide < nb + b, pj > 0;
            assert(nb * pj == wide * pj <==> nb == wide) by (nonlinear_arith) requires pj > 0;
        }
        assert(scaled(n as nat, sh as int, rem != 0, num, den));
    }
    round_scaled(n, sh, rem != 0, Ghost(num), Ghost(den))
}

impl Float {
    /// `self + other`.
    pub fn plus(self, other: Float) -> (r: Float)
        ensures
            r == sum(self, other),
    {
        proof {
            reveal(sum);
        }
        if self.is_nan() || other.is_nan() {
            Float { bits: NAN_BITS }
        } else if !self.is_finite() {
            if !other.is_finite() && (self.bits >= SIGN) != (other.bits >= SIGN) {
                Float { bits: NAN_BITS }
            } else {
                self
            }
        } else if !other.is_finite() {
            other
        } else {
            let (a, i) = self.parts();
            let (b, j) = other.parts();
            let (na, nb): (bool, bool) = (self.bits >= SIGN, other.bits >= SIGN);
            if j <= i {
                add_parts(na, a, i, nb, b, j)
            } else {
                add_parts(nb, b, j, na, a, i)
            }
        }
    }

    /// `self - other`.
    pub fn minus(self, other: Float) -> (r: Float)
        ensures
            r == difference(self, other),
    {
        self.plus(other.neg())
    }

    /// `self * other`.
    pub fn times(self, other: Float) -> (r: Float)
        ensures
            r == product(self, other),
    {
        proof {
            reveal(product);
        }
        let negative: bool = (self.bits >= SIGN) != (other.bits >= SIGN);
        let (zero_x, zero_y): (bool, bool) = (self.bits % SIGN == 0, other.bits % SIGN == 0);
        if self.is_nan() || other.is_nan() || (!self.is_finite() && zero_y) || (!other.is_finite()
            && zero_x) {
            return Float { bits: NAN_BITS };
        }
        if !self.is_finite() || !other.is_finite() {
            return with_sign(negative, INFINITY_BITS);
        }
        proof {
            nonzero_units(self.mag());
            nonzero_units(other.mag());
        }
        if zero_x || zero_y {
            proof {
                lemma_pow2_pos(1074);
                nearest_of_zero(pow2(1074));
                let (x, y) = (magnitude_units(self.mag()), magnitude_units(other.mag()));
                assert(x * y == 0) by (nonlinear_arith) requires x == 0 || y == 0;
            }
            return with_sign(negative, 0);
        }
        let (a, i) = self.parts();
        let (b, j) = other.parts();
        with_sign(negative, multiply_parts(a, i, b, j))
    }

    /// `self / other`.
    pub fn over(self, other: Float) -> (r: Float)
        ensures
            r == quotient(self, other),
    {
        proof {
            reveal(quotient);
        }
        let negative: bool = (self.bits >= SIGN) != (other.bits >= SIGN);
        let (zero_x, zero_y): (bool, bool) = (self.bits % SIGN == 0, other.bits % SIGN == 0);
        if self.is_nan() || other.is_nan() || (!self.is_finite() && !other.is_finite()) || (zero_x
            && zero_y) {
            return Float { bits: NAN_BITS };
        }
        if !self.is_finite() || zero_y {
            return with_sign(negative, INFINITY_BITS);
        }
        if !other.is_finite() {
            return with_sign(negative, 0);
        }
        proof {
            nonzero_units(self.mag());
            nonzero_units(other.mag());
        }
        if zero_x {
            proof {
                nearest_of_zero(magnitude_units(other.mag()));
                assert(0 * pow2(1074) == 0) by (nonlinear_arith);
            }
            return with_sign(negative, 0);
        }
        let (a, i) = self.parts();
        let (b, j) = other.parts();
        with_sign(negative, divide_parts(a, i, b, j))
    }

    /// The number nearest to an integer.
    pub fn from_i128(i: i128) -> (r: Float)
        requires
            -0x8000_0000_0000_0000_0000_0000 <= i <= 0x8000_0000_0000_0000_0000_0000,
        ensures
            r == from_integer(i as int),
    {
        proof {
            reveal(from_integer);
        }
        proof {
            lemma_pow2_pos(1074);
            pow2_127_fits();
            nearest_of_zero(1);
            assert(0 * pow2(1074) == 0) by (nonlinear_arith);
        }
        if i == 0 {
            return Float { bits: 0 };
        }
        let n: u128 = if i < 0 {
            (-i) as u128
        } else {
            i as u128
        };
        let ghost num = (n * pow2(1074)) as nat;
        proof {
            assert(n * pow2(1074) >= 0) by (nonlinear_arith) requires n > 0, pow2(1074) > 0;
            exactly_scaled(n as nat, 1074, num);
        }
        with_sign(i < 0, round_scaled(n, 1074, false, Ghost(num), Ghost(1)))
    }

    /// The number nearest to an integer.
    pub fn from_i64(i: i64) -> (r: Float)
        ensures
            r == from_integer(i as int),
    {
        Float::from_i128(i as i128)
    }

    /// The number nearest to a count.
    pub fn from_u64(n: u64) -> (r: Float)
        ensures
            r == from_integer(n as int),
    {
        Float::from_i128(n as i128)
    }
}

impl Float {
    /// The whole part of the magnitude, capped at 2^64, and whether a fraction is left below it.
    fn whole(self) -> (r: (u128, bool))
        requires
            self.finite(),
        ensures
            ({
                let u = magnitude_units(self.mag());
                let one = pow2(1074);
                if u / one < 0x1_0000_0000_0000_0000 {
                    r.0 == u / one && r.1 == (u % one != 0)
                } else {
                    r.0 == 0x1_0000_0000_0000_0000
                }
            }),
    {
        let (a, i) = self.parts();
        let ghost u = magnitude_units(self.mag());
        let ghost one = pow2(1074);
        proof {
            lemma2_to64();
            lemma2_to64_rest();
            lemma_pow2_pos(1074);
            lemma_pow2_pos(i as nat);
        }
        if i >= 1086 {
            proof {
                lemma_pow2_adds(1074, (i - 1074) as nat);
                let p = pow2((i - 1074) as nat);
                if i > 1086 {
                    lemma_pow2_strictly_increases(12, (i - 1074) as nat);
                }
                assert(u >= one * 0x1_0000_0000_0000_0000) by (nonlinear_arith)
                    requires u == a * (one * p), a >= 0x10_0000_0000_0000, p >= 4096, one > 0;
                assert(u / one >= 0x1_0000_0000_0000_0000) by (nonlinear_arith)
                    requires u >= one * 0x1_0000_0000_0000_0000, one > 0;
            }
            (0x1_0000_0000_0000_0000, false)
        } else if i >= 1074 {
            let p: u128 = power_of_two(i - 1074);
            proof {
                lemma_pow2_adds(1074, (i - 1074) as nat);
                if i < 1085 {
                    lemma_pow2_strictly_increases((i - 1074) as nat, 11);
                }
                assert(0 <= a * p <= 0x20_0000_0000_0000 * 2048) by (nonlinear_arith)
                    requires 0 <= a < 0x20_0000_0000_0000, 0 <= p <= 2048;
                assert(u == (a * p) * one + 0) by (nonlinear_arith) requires u == a * (one * p);
                assert(one * (a * p) == (a * p) * one) by (nonlinear_arith);
                vstd::arithmetic::div_mod::lemma_fundamental_div_mod_converse(
                    u as int,
                    one as int,
                    a * p,
                    0,
                );
            }
            let w: u128 = a as u128 * p;
            (if w >= 0x1_0000_0000_0000_0000 { 0x1_0000_0000_0000_0000 } else { w }, false)
        } else {
            let t: u32 = 1074 - i;
            if t > 53 {
                proof {
                    lemma_pow2_adds(53, i as nat);
                    if 53 + i < 1074 {
                        lemma_pow2_strictly_increases((53 + i) as nat, 1074);
                    }
                    let p = pow2(i as nat);
                    assert(a * p < pow2(53) * p) by (nonlinear_arith) requires a < pow2(53), p > 0;
                    vstd::arithmetic::div_mod::lemma_fundamental_div_mod_converse(
                        u as int,
                        one as int,
                        0,
                        u as int,
                    );
                    nonzero_units(self.mag());
                }
                (0, a != 0)
            } else {
                let d: u128 = power_of_two(t);
                proof {
                    lemma_pow2_pos(t as nat);
                    lemma_pow2_adds(t as nat, i as nat);
                }
                let w: u128 = a as u128 / d;
                let rest: u128 = a as u128 % d;
                proof {
                    let p = pow2(i as nat);
                    assert(a == w * d + rest && 0 <= rest < d) by (nonlinear_arith)
                        requires w == a as u128 / d, rest == a as u128 % d, d > 0;
                    assert(w <= a) by (nonlinear_arith)
                        requires a == w * d + rest, rest >= 0, d > 0, w >= 0;
                    let r = rest * p;
                    assert(u == w * one + r) by (nonlinear_arith)
                        requires u == a * p, a == w * d + rest, one == d * p, r == rest * p;
                    assert(0 <= r < one) by (nonlinear_arith)
                        requires r == rest * p, 0 <= rest < d, one == d * p, p > 0;
                    assert(r == 0 <==> rest == 0) by (nonlinear_arith) requires r == rest * p, p > 0;
                    assert(one * w == w * one) by (nonlinear_arith);
                    vstd::arithmetic::div_mod::lemma_fundamental_div_mod_converse(
                        u as int,
                        one as int,
                        w as int,
                        r as int,
                    );
                }
                (w, rest != 0)
            }
        }
    }

    /// The least integer not below the number.
    pub open spec fn ceiling(self) -> int {
        let u = magnitude_units(self.mag());
        let one = pow2(1074);
        let w = (u / one) as int;
        if self.negative() {
            -w
        } else if u % one != 0 {
            w + 1
        } else {
            w
        }
    }

    /// The number rounded up to an integer, held to the range of `i64`; zero for NaN.
    pub fn ceil_i64(self) -> (r: i64)
        ensures
            r as int == if self.nan() {
                0
            } else if self.infinite() {
                if self.negative() { i64::MIN as int } else { i64::MAX as int }
            } else if self.ceiling() > i64::MAX {
                i64::MAX as int
            } else if self.ceiling() < i64::MIN {
                i64::MIN as int
            } else {
                self.ceiling()
            },
    {
        if self.is_nan() {
            return 0;
        }
        let negative: bool = self.bits >= SIGN;
        if !self.is_finite() {
            return if negative { i64::MIN } else { i64::MAX };
        }
        let (w, part) = self.whole();
        if negative {
            if w > 0x8000_0000_0000_0000 {
                i64::MIN
            } else {
                (-(w as i128)) as i64
            }
        } else if w >= 0x7fff_ffff_ffff_ffff {
            i64::MAX
        } else if part {
            (w + 1) as i64
        } else {
            w as i64
        }
    }

    /// The number rounded down to an integer, held to the range of `u32`; zero for NaN.
    pub fn floor_u32(self) -> (r: u32)
        ensures
            r as nat == if self.nan() || self.negative() {
                0
            } else if self.infinite() || magnitude_units(self.mag()) / pow2(1074) > u32::MAX {
                u32::MAX as nat
            } else {
                magnitude_units(self.mag()) / pow2(1074)
            },
    {
        if self.is_nan() || self.bits >= SIGN {
            return 0;
        }
        if !self.is_finite() {
            return u32::MAX;
        }
        let (w, _part) = self.whole();
        if w > u32::MAX as u128 {
            u32::MAX
        } else {
            w as u32
        }
    }
}

impl Float {
    /// The greater of two numbers; where one is NaN, the other.
    pub open spec fn greater(self, other: Float) -> Float {
        if self.nan() || self.less(other) {
            other
        } else {
            self
        }
    }

    /// The greater of two numbers; where one is NaN, the other.
    pub fn max(self, other: Float) -> (r: Float)
        ensures
            r == self.greater(other),
    {
        if self.is_nan() || self.lt(other) {
            other
        } else {
            self
        }
    }

    /// The sign bit cleared.
    pub open spec fn magnitude(self) -> Float {
        Float { bits: self.bits % SIGN }
    }
}

/// Swapping the operands of a difference that is not zero flips its sign and nothing else.
pub proof fn a_swapped_difference_is_opposite(x: Float, y: Float)
    requires
        x.finite(),
        y.finite(),
        x.units() != y.units(),
    ensures
        difference(y, x) == opposite(difference(x, y)),
        difference(x, y).mag() <= INFINITY_BITS,
{
    reveal(sum);
    let exact = x.units() - y.units();
    assert(opposite(y).units() == -y.units());
    assert(opposite(x).units() == -x.units());
    nearest_is_no_nan(if exact < 0 { (-exact) as nat } else { exact as nat }, 1);
}

/// Rounding gives a finite number or infinity.
pub proof fn nearest_is_no_nan(num: nat, den: nat)
    ensures
        nearest(num, den) <= INFINITY_BITS,
{
}

/// A number over its opposite is exactly minus one.
pub proof fn a_number_over_its_opposite_is_minus_one(x: Float)
    requires
        x.finite(),
        x.mag() > 0,
    ensures
        quotient(opposite(x), x) == (Float { bits: 0xbff0_0000_0000_0000 }),
{
    reveal(quotient);
    let u = magnitude_units(x.mag());
    nonzero_units(x.mag());
    lemma2_to64();
    lemma2_to64_rest();
    lemma_pow2_adds(1022, 52);
    lemma_pow2_pos(1022);
    let p = pow2(1022);
    let h = HIDDEN as nat;
    assert(u * pow2(1074) == h * (u * p)) by (nonlinear_arith) requires pow2(1074) == p * h;
    assert(u * p > 0) by (nonlinear_arith) requires u > 0, p > 0;
    assert((h + 1) * (u * p) == h * (u * p) + u * p) by (nonlinear_arith);
    nearest_from_quotient((u * pow2(1074)) as nat, u, 1022, h);
    assert(opposite(x).mag() == x.mag());
}

} // verus!
