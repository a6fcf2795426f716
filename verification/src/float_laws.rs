//! What rounding and printing of numbers mean.
use vstd::prelude::*;
use vstd::arithmetic::div_mod::{
    lemma_div_denominator, lemma_fundamental_div_mod, lemma_mod_pos_bound,
};
use vstd::arithmetic::power2::*;
use crate::binary64::{
    excess, from_integer, magnitude_units, magnitudes_are_ordered, nearest, product, quotient, sum,
    zero_units, Float, HIDDEN, INFINITY_BITS, SIGN,
};
use crate::decimal::{decimal, digit_char, fixed, half_even, low_digits, ten_to};

verus! {

/// How far two integers lie apart.
pub open spec fn apart(a: int, b: int) -> int {
    if a < b {
        b - a
    } else {
        a - b
    }
}

/// A significand below 2^54 at a scale is a pattern.
proof fn units_of_a_pattern(k: nat, q: nat)
    requires
        q <= 2 * HIDDEN,
        k == 0 || HIDDEN <= q,
    ensures
        magnitude_units((k * HIDDEN + q) as nat) == q * pow2(k),
{
    reveal(magnitude_units);
    lemma2_to64();
    let h = HIDDEN as nat;
    let mag = k * h + q;
    if q < h {
        assert(mag == q && mag / h == 0 && mag % h == q);
        assert(q * pow2(0) == q) by (nonlinear_arith) requires pow2(0) == 1;
    } else if q < 2 * h {
        let f = (q - h) as nat;
        vstd::arithmetic::div_mod::lemma_fundamental_div_mod_converse(
            mag as int,
            h as int,
            (k + 1) as int,
            f as int,
        );
    } else {
        vstd::arithmetic::div_mod::lemma_fundamental_div_mod_converse(
            mag as int,
            h as int,
            (k + 2) as int,
            0,
        );
        lemma_pow2_unfold((k + 1) as nat);
        assert((h + 0) * pow2((k + 1) as nat) == q * pow2(k)) by (nonlinear_arith)
            requires pow2((k + 1) as nat) == 2 * pow2(k), q == 2 * h;
    }
}

/// The number of halvings is such that what is left has 53 bits, or fewer with none.
proof fn halvings_leave_53_bits(whole: nat)
    ensures
        whole / pow2(excess(whole)) < 2 * HIDDEN,
        excess(whole) > 0 ==> HIDDEN <= whole / pow2(excess(whole)),
    decreases whole,
{
    lemma2_to64();
    if whole >= 2 * HIDDEN {
        let half = whole / 2;
        halvings_leave_53_bits(half);
        let k = excess(half);
        lemma_pow2_pos(k);
        lemma_pow2_unfold((k + 1) as nat);
        lemma_div_denominator(whole as int, 2, pow2(k) as int);
        assert(whole / pow2((k + 1) as nat) == half / pow2(k));
    }
}

/// Two neighbouring patterns stand around the exact number: it is not below the lower one and is
/// below the upper one, and the rounded pattern is one of them.
proof fn neighbours_stand_around(num: nat, den: nat) -> (low: nat)
    requires
        den > 0,
    ensures
        den * magnitude_units(low) <= num < den * magnitude_units(low + 1),
        ({
            let below = num - den * magnitude_units(low);
            let above = den * magnitude_units(low + 1) - num;
            let up = below > above || (below == above && low % 2 == 1);
            nearest(num, den) == if low + (if up { 1nat } else { 0nat }) > INFINITY_BITS {
                INFINITY_BITS as nat
            } else {
                low + (if up { 1nat } else { 0nat })
            }
        }),
{
    let k = excess(num / den);
    let p = pow2(k);
    lemma_pow2_pos(k);
    let step = den * p;
    assert(step > 0) by (nonlinear_arith) requires den > 0, p > 0, step == den * p;
    let q = num / step;
    let r = num % step;
    halvings_leave_53_bits(num / den);
    lemma_div_denominator(num as int, den as int, p as int);
    assert(q == (num / den) / p);
    lemma_fundamental_div_mod(num as int, step as int);
    lemma_mod_pos_bound(num as int, step as int);
    let low = k * HIDDEN as nat + q;
    units_of_a_pattern(k, q);
    units_of_a_pattern(k, (q + 1) as nat);
    assert(magnitude_units(low) == q * p);
    assert(low + 1 == k * HIDDEN as nat + (q + 1));
    assert(magnitude_units(low + 1) == (q + 1) * p);
    assert(den * (q * p) == step * q) by (nonlinear_arith) requires step == den * p;
    assert(den * ((q + 1) * p) == step * q + step) by (nonlinear_arith) requires step == den * p;
    assert(low % 2 == q % 2) by {
        assert(HIDDEN as nat == 2 * 0x8_0000_0000_0000);
        assert(k * HIDDEN as nat == 2 * (k * 0x8_0000_0000_0000)) by (nonlinear_arith)
            requires HIDDEN as nat == 2 * 0x8_0000_0000_0000nat;
    }
    low
}

/// Rounding is to the nearest: no finite number lies nearer to the exact one than the rounded one,
/// and where another lies as near, the rounded one has the even pattern.
pub proof fn rounding_is_to_the_nearest(num: nat, den: nat, m: nat)
    requires
        den > 0,
        m <= INFINITY_BITS,
        nearest(num, den) < INFINITY_BITS,
    ensures
        ({
            let n = nearest(num, den);
            let near = apart(num as int, (den * magnitude_units(n)) as int);
            let other = apart(num as int, (den * magnitude_units(m)) as int);
            near <= other && (near == other && m != n ==> n % 2 == 0)
        }),
{
    let low = neighbours_stand_around(num, den);
    let n = nearest(num, den);
    let (a, b) = (den * magnitude_units(low), den * magnitude_units(low + 1));
    if m < low {
        magnitudes_are_ordered(m, low);
        let (x, y) = (magnitude_units(m), magnitude_units(low));
        assert(den * x < den * y) by (nonlinear_arith) requires x < y, den > 0;
    }
    if m > low + 1 {
        magnitudes_are_ordered(low + 1, m);
        let (x, y) = (magnitude_units(low + 1), magnitude_units(m));
        assert(den * x < den * y) by (nonlinear_arith) requires x < y, den > 0;
    }
    assert(n == low || n == low + 1);
}

/// A number rounds to infinity exactly from half a step past the greatest finite one on.
pub proof fn rounding_overflows_from_half_a_step(num: nat, den: nat)
    requires
        den > 0,
    ensures
        nearest(num, den) <= INFINITY_BITS,
        nearest(num, den) == INFINITY_BITS <==> 2 * num >= den * (magnitude_units(
            (INFINITY_BITS - 1) as nat,
        ) + magnitude_units(INFINITY_BITS as nat)),
{
    let low = neighbours_stand_around(num, den);
    let top = (INFINITY_BITS - 1) as nat;
    let inf = INFINITY_BITS as nat;
    let (t, i) = (magnitude_units(top), magnitude_units(inf));
    assert(den * (t + i) == den * t + den * i) by (nonlinear_arith);
    magnitudes_are_ordered(top, inf);
    assert(den * t < den * i) by (nonlinear_arith) requires t < i, den > 0;
    if low < top {
        if low + 1 < top {
            magnitudes_are_ordered(low + 1, top);
        }
        let y = magnitude_units(low + 1);
        assert(den * y <= den * t) by (nonlinear_arith) requires y <= t;
    }
    if low >= inf {
        if low > inf {
            magnitudes_are_ordered(inf, low);
        }
        let x = magnitude_units(low);
        assert(den * i <= den * x) by (nonlinear_arith) requires i <= x;
    }
}

/// A number that is a finite one exactly rounds to that one.
pub proof fn a_number_rounds_to_itself(m: nat, den: nat)
    requires
        den > 0,
        m < INFINITY_BITS,
    ensures
        nearest((den * magnitude_units(m)) as nat, den) == m,
{
    let u = magnitude_units(m);
    let num = (den * u) as nat;
    rounding_overflows_from_half_a_step(num, den);
    let top = (INFINITY_BITS - 1) as nat;
    let inf = INFINITY_BITS as nat;
    magnitudes_are_ordered(top, inf);
    if m < top {
        magnitudes_are_ordered(m, top);
    }
    let (t, i) = (magnitude_units(top), magnitude_units(inf));
    assert(2 * (den * u) < den * (t + i)) by (nonlinear_arith) requires u <= t, t < i, den > 0;
    let n = nearest(num, den);
    rounding_is_to_the_nearest(num, den, m);
    assert(den * magnitude_units(n) == den * u);
    if n < m {
        magnitudes_are_ordered(n, m);
        let x = magnitude_units(n);
        assert(den * x < den * u) by (nonlinear_arith) requires x < u, den > 0;
    }
    if m < n {
        magnitudes_are_ordered(m, n);
        let x = magnitude_units(n);
        assert(den * u < den * x) by (nonlinear_arith) requires u < x, den > 0;
    }
}

/// The sum of two finite numbers is their exact sum, rounded: its sign is that of the sum, and it is
/// zero only where the exact sum is. The order of the two does not matter.
pub proof fn a_sum_is_the_exact_one_rounded(x: Float, y: Float)
    requires
        x.finite(),
        y.finite(),
    ensures
        ({
            let (exact, s) = (x.units() + y.units(), sum(x, y));
            &&& s.mag() == nearest(apart(exact, 0) as nat, 1)
            &&& exact != 0 ==> s.negative() == (exact < 0)
            &&& exact == 0 ==> s.negative() == (x.negative() && y.negative())
            &&& s == sum(y, x)
        }),
{
    reveal(sum);
    let exact = x.units() + y.units();
    rounding_overflows_from_half_a_step(apart(exact, 0) as nat, 1);
    zero_units();
    a_number_rounds_to_itself(0, 1);
}

/// The product of two finite numbers is their exact product, rounded.
pub proof fn a_product_is_the_exact_one_rounded(x: Float, y: Float)
    requires
        x.finite(),
        y.finite(),
    ensures
        product(x, y).mag() == nearest(
            magnitude_units(x.mag()) * magnitude_units(y.mag()),
            pow2(1074),
        ),
        product(x, y).negative() == (x.negative() != y.negative()),
{
    reveal(product);
    lemma_pow2_pos(1074);
    rounding_overflows_from_half_a_step(
        magnitude_units(x.mag()) * magnitude_units(y.mag()),
        pow2(1074),
    );
}

/// The quotient of two finite numbers, the second not zero, is their exact quotient, rounded.
pub proof fn a_quotient_is_the_exact_one_rounded(x: Float, y: Float)
    requires
        x.finite(),
        y.finite(),
        y.mag() != 0,
    ensures
        quotient(x, y).mag() == nearest(
            magnitude_units(x.mag()) * pow2(1074),
            magnitude_units(y.mag()),
        ),
        quotient(x, y).negative() == (x.negative() != y.negative()),
{
    reveal(quotient);
    zero_units();
    magnitudes_are_ordered(0, y.mag());
    rounding_overflows_from_half_a_step(
        magnitude_units(x.mag()) * pow2(1074),
        magnitude_units(y.mag()),
    );
}

/// What is not a number stays so, infinities keep their sign or cancel, and a number over zero is
/// infinite.
pub proof fn special_numbers_add_and_multiply(x: Float, y: Float)
    ensures
        x.nan() || y.nan() ==> sum(x, y).nan() && product(x, y).nan() && quotient(x, y).nan(),
        x.infinite() && y.finite() ==> sum(x, y) == x && quotient(x, y).infinite(),
        x.finite() && y.infinite() ==> sum(x, y) == y && quotient(x, y).mag() == 0,
        x.infinite() && y.infinite() ==> quotient(x, y).nan() && product(x, y).infinite(),
        x.infinite() && y.infinite() && x.negative() == y.negative() ==> sum(x, y) == x,
        x.infinite() && y.infinite() && x.negative() != y.negative() ==> sum(x, y).nan(),
        x.finite() && x.mag() > 0 && y.mag() == 0 ==> quotient(x, y).infinite(),
        x.mag() == 0 && y.mag() == 0 ==> quotient(x, y).nan(),
        x.infinite() && y.mag() == 0 ==> product(x, y).nan(),
        x.mag() == 0 && y.infinite() ==> product(x, y).nan(),
{
    reveal(sum);
    reveal(product);
    reveal(quotient);
}

/// A fraction is rounded to a whole number that is no further than a half from it, and from a half
/// to the even one.
pub proof fn half_even_is_the_nearest(num: nat, den: nat)
    requires
        den > 0,
    ensures
        ({
            let n = half_even(num, den);
            &&& 2 * apart(num as int, (n * den) as int) <= den
            &&& 2 * apart(num as int, (n * den) as int) == den ==> n % 2 == 0
        }),
{
    lemma_fundamental_div_mod(num as int, den as int);
    lemma_mod_pos_bound(num as int, den as int);
    let q = num / den;
    assert((q + 1) * den == q * den + den) by (nonlinear_arith);
    assert(den * q == q * den) by (nonlinear_arith);
}

/// The number that decimal digits spell, the highest first.
pub open spec fn spelled(text: Seq<char>) -> nat
    decreases text.len(),
{
    if text.len() == 0 {
        0
    } else {
        (10 * spelled(text.drop_last()) + (text.last() as u32 as int - 48)) as nat
    }
}

/// Only decimal digits.
pub open spec fn digits_only(text: Seq<char>) -> bool {
    forall|i: int| 0 <= i < text.len() ==> '0' <= #[trigger] text[i] <= '9'
}

/// A whole number in print is digits alone, spells the number, and starts with a zero only where it
/// is zero.
pub proof fn a_printed_count_spells_it(n: nat)
    ensures
        digits_only(decimal(n)),
        spelled(decimal(n)) == n,
        decimal(n).len() > 0,
        n > 0 ==> decimal(n)[0] != '0',
    decreases n,
{
    let text = decimal(n);
    if n < 10 {
        assert(text.drop_last() =~= Seq::<char>::empty());
        assert(text.last() == digit_char(n));
        assert(spelled(Seq::<char>::empty()) == 0);
    } else {
        a_printed_count_spells_it(n / 10);
        assert(text.drop_last() =~= decimal(n / 10));
        assert(text.last() == digit_char(n % 10));
        assert forall|i: int| 0 <= i < text.len() implies '0' <= #[trigger] text[i] <= '9' by {
            if i < text.len() - 1 {
                assert(text[i] == decimal(n / 10)[i]);
            }
        }
        assert(text[0] == decimal(n / 10)[0]);
    }
}

/// The low digits of a number are as many as asked for and spell the rest that they are.
pub proof fn low_digits_spell_the_rest(n: nat, width: nat)
    ensures
        low_digits(n, width).len() == width,
        digits_only(low_digits(n, width)),
        spelled(low_digits(n, width)) == n % ten_to(width),
    decreases width,
{
    let text = low_digits(n, width);
    if width == 0 {
        assert(n % 1 == 0);
    } else {
        let w = (width - 1) as nat;
        let t = ten_to(w);
        crate::decimal::ten_to_positive(w);
        low_digits_spell_the_rest(n / 10, w);
        assert(text.drop_last() =~= low_digits(n / 10, w));
        assert(text.last() == digit_char(n % 10));
        assert forall|i: int| 0 <= i < text.len() implies '0' <= #[trigger] text[i] <= '9' by {
            if i < text.len() - 1 {
                assert(text[i] == low_digits(n / 10, w)[i]);
            }
        }
        vstd::arithmetic::div_mod::lemma_breakdown(n as int, 10, t as int);
        assert(n % (10 * t) == 10 * ((n / 10) % t) + n % 10);
    }
}

/// A finite number in print is its sign, then what is nearest to its magnitude in units of the last
/// place: the whole part, and behind a point the digits asked for. A minus stands where the sign bit
/// is set, a plus only where it is asked for.
pub proof fn a_printed_number_is_the_nearest(x: Float, places: nat, plus: bool)
    requires
        x.finite(),
    ensures
        ({
            let n = half_even(magnitude_units(x.mag()) * ten_to(places), pow2(1074));
            let sign = if x.bits >= SIGN {
                seq!['-']
            } else if plus {
                seq!['+']
            } else {
                Seq::empty()
            };
            let whole = decimal(n / ten_to(places));
            &&& places == 0 ==> fixed(x, places, plus) == sign + decimal(n)
            &&& places > 0 ==> fixed(x, places, plus) == sign + whole + seq!['.'] + low_digits(
                n,
                places,
            )
            &&& 2 * apart(
                (magnitude_units(x.mag()) * ten_to(places)) as int,
                (n * pow2(1074)) as int,
            ) <= pow2(1074)
        }),
{
    reveal(fixed);
    lemma_pow2_pos(1074);
    let n = half_even(magnitude_units(x.mag()) * ten_to(places), pow2(1074));
    half_even_is_the_nearest(magnitude_units(x.mag()) * ten_to(places), pow2(1074));
    if places > 0 {
        let whole = decimal(n / ten_to(places));
        let sign = if x.bits >= SIGN {
            seq!['-']
        } else if plus {
            seq!['+']
        } else {
            Seq::empty()
        };
        assert(sign + (whole.push('.') + low_digits(n, places)) =~= sign + whole + seq!['.']
            + low_digits(n, places));
    }
}

/// A small integer is scaled up to 53 bits.
proof fn scaled_to_53_bits(i: nat) -> (e: nat)
    requires
        0 < i < 2 * HIDDEN,
    ensures
        e <= 52,
        HIDDEN <= i * pow2(e) < 2 * HIDDEN,
    decreases 2 * HIDDEN - i,
{
    lemma2_to64();
    let e = if i >= HIDDEN {
        assert(i * pow2(0) == i) by (nonlinear_arith) requires pow2(0) == 1;
        0
    } else {
        let d = scaled_to_53_bits(2 * i);
        lemma_pow2_unfold((d + 1) as nat);
        assert(i * pow2((d + 1) as nat) == (2 * i) * pow2(d)) by (nonlinear_arith)
            requires pow2((d + 1) as nat) == 2 * pow2(d);
        d + 1
    };
    if e > 52 {
        assert(pow2(53) == 2 * HIDDEN) by {
            lemma_pow2_adds(32, 21);
        }
        if e > 53 {
            lemma_pow2_strictly_increases(53, e);
        }
        assert(i * pow2(e) >= pow2(e)) by (nonlinear_arith) requires i >= 1;
    }
    e
}

/// An integer below 2^53 is a number exactly.
pub proof fn a_small_integer_is_exact(i: nat)
    requires
        i < 2 * HIDDEN,
    ensures
        from_integer(i as int).finite(),
        !from_integer(i as int).negative(),
        magnitude_units(from_integer(i as int).mag()) == i * pow2(1074),
        from_integer(i as int).units() == i * pow2(1074),
        from_integer(i as int).mag() == 0 <==> i == 0,
{
    reveal(from_integer);
    let one = pow2(1074);
    lemma_pow2_pos(1074);
    zero_units();
    let m = if i == 0 {
        assert(i * one == 0) by (nonlinear_arith) requires i == 0;
        0nat
    } else {
        let e = scaled_to_53_bits(i);
        let q = i * pow2(e);
        let k = (1074 - e) as nat;
        units_of_a_pattern(k, q);
        lemma_pow2_adds(e, k);
        assert(q * pow2(k) == i * one) by (nonlinear_arith)
            requires q == i * pow2(e), one == pow2(e) * pow2(k);
        (k * HIDDEN + q) as nat
    };
    assert(magnitude_units(m) == i * one);
    assert(m < INFINITY_BITS) by {
        if i > 0 {
            assert(1074 * HIDDEN + 2 * HIDDEN < INFINITY_BITS);
            let e = scaled_to_53_bits(i);
            assert((1074 - e) * HIDDEN <= 1074 * HIDDEN) by (nonlinear_arith) requires e >= 0;
        }
    }
    a_number_rounds_to_itself(m, 1);
    assert(1 * magnitude_units(m) == i * one);
    if i > 0 {
        assert(i * one > 0) by (nonlinear_arith) requires i > 0, one > 0;
    }
}

/// A number rounded up is the least integer that is not below it.
pub proof fn a_ceiling_is_the_least_integer_above(x: Float)
    requires
        x.finite(),
    ensures
        x.units() <= x.ceiling() * pow2(1074),
        x.units() > (x.ceiling() - 1) * pow2(1074),
{
    let one = pow2(1074) as int;
    lemma_pow2_pos(1074);
    let u = magnitude_units(x.mag()) as int;
    lemma_fundamental_div_mod(u, one);
    lemma_mod_pos_bound(u, one);
    let w = u / one;
    assert(one * w == w * one) by (nonlinear_arith);
    assert((w + 1) * one == w * one + one) by (nonlinear_arith);
    assert((-w - 1) * one == -(w * one) - one) by (nonlinear_arith);
    assert((-w) * one == -(w * one)) by (nonlinear_arith);
    assert((w - 1) * one == w * one - one) by (nonlinear_arith);
}

/// Small integers divide and multiply exactly.
pub proof fn small_integers_divide_and_multiply(a: nat, b: nat)
    requires
        a * b < 2 * HIDDEN,
        a < 2 * HIDDEN,
        b < 2 * HIDDEN,
    ensures
        product(from_integer(a as int), from_integer(b as int)) == from_integer((a * b) as int),
        b > 0 ==> quotient(from_integer((a * b) as int), from_integer(b as int)) == from_integer(
            a as int,
        ),
{
    let (x, y, z) = (from_integer(a as int), from_integer(b as int), from_integer((a * b) as int));
    let one = pow2(1074);
    lemma_pow2_pos(1074);
    a_small_integer_is_exact(a);
    a_small_integer_is_exact(b);
    a_small_integer_is_exact(a * b);
    a_product_is_the_exact_one_rounded(x, y);
    assert((a * one) * (b * one) == one * ((a * b) * one)) by (nonlinear_arith);
    a_number_rounds_to_itself(z.mag(), one);
    assert(product(x, y).bits == z.bits);
    if b > 0 {
        let den = b * one;
        assert(den > 0) by (nonlinear_arith) requires b > 0, one > 0, den == b * one;
        a_quotient_is_the_exact_one_rounded(z, y);
        assert(((a * b) * one) * one == den * (a * one)) by (nonlinear_arith)
            requires den == b * one;
        a_number_rounds_to_itself(x.mag(), den);
        assert(quotient(z, y).bits == x.bits);
    }
}

/// Numbers compare by what they are worth: what is not a number compares with nothing, the two zeros
/// are the same, a negative number is below a positive one, and among positive ones the larger
/// pattern is the larger number, among negative ones the smaller.
pub proof fn numbers_compare_by_worth(x: Float, y: Float)
    ensures
        x.nan() || y.nan() ==> !x.less(y) && !x.at_most(y) && !x.same(y),
        !x.nan() && !y.nan() ==> x.at_most(y) == (x.less(y) || x.same(y)) && x.less(y)
            == !y.at_most(x),
        x.mag() == 0 && y.mag() == 0 ==> x.same(y),
        !x.nan() && !y.nan() && x.bits < SIGN && y.bits < SIGN ==> x.less(y) == (x.bits < y.bits),
        !x.nan() && !y.nan() && x.bits >= SIGN && y.bits >= SIGN ==> x.less(y) == (x.bits > y.bits),
        !x.nan() && !y.nan() && x.bits >= SIGN && y.bits < SIGN && (x.mag() != 0 || y.mag() != 0)
            ==> x.less(y),
{
    zero_units();
    let (a, b) = (x.mag(), y.mag());
    if a < b {
        magnitudes_are_ordered(a, b);
    }
    if b < a {
        magnitudes_are_ordered(b, a);
    }
    if a > 0 {
        magnitudes_are_ordered(0, a);
    }
    if b > 0 {
        magnitudes_are_ordered(0, b);
    }
}

/// The greater of two numbers is one of them and not below the other; what is not a number gives way.
pub proof fn the_greater_is_not_below_the_other(x: Float, y: Float)
    ensures
        x.greater(y) == x || x.greater(y) == y,
        !x.nan() && !y.nan() ==> x.at_most(x.greater(y)) && y.at_most(x.greater(y)),
        x.nan() ==> x.greater(y) == y,
        y.nan() && !x.nan() ==> x.greater(y) == x,
{
}

/// Adding zero keeps a number's worth and makes a negative zero positive.
pub proof fn adding_zero_keeps_the_worth(x: Float)
    requires
        x.finite(),
    ensures
        crate::batch::without_minus_zero(x).units() == x.units(),
        x.mag() == 0 ==> crate::batch::without_minus_zero(x).bits == 0,
        x.mag() != 0 ==> crate::batch::without_minus_zero(x) == x,
{
    let zero = Float { bits: 0 };
    zero_units();
    a_sum_is_the_exact_one_rounded(x, zero);
    a_number_rounds_to_itself(x.mag(), 1);
    if x.mag() > 0 {
        magnitudes_are_ordered(0, x.mag());
    }
    assert(apart(x.units() + zero.units(), 0) == magnitude_units(x.mag()));
    assert(1 * magnitude_units(x.mag()) == magnitude_units(x.mag()));
}

} // verus!
