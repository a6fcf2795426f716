//! Decimal text of whole numbers and of binary64 numbers.
use vstd::prelude::*;
use vstd::arithmetic::power2::*;
use vstd::string::*;
use crate::binary64::{magnitude_units, power_of_two, Float, SIGN};

verus! {

/// The character of a decimal digit.
pub open spec fn digit_char(d: nat) -> char {
    (48 + d) as u8 as char
}

/// A whole number in decimal, without leading zeros.
pub open spec fn decimal(n: nat) -> Seq<char>
    decreases n,
{
    if n < 10 {
        seq![digit_char(n)]
    } else {
        decimal(n / 10).push(digit_char(n % 10))
    }
}

/// The `width` low decimal digits of `n`.
pub open spec fn low_digits(n: nat, width: nat) -> Seq<char>
    decreases width,
{
    if width == 0 {
        Seq::empty()
    } else {
        low_digits(n / 10, (width - 1) as nat).push(digit_char(n % 10))
    }
}

/// 10 to the power of `places`.
pub open spec fn ten_to(places: nat) -> nat
    decreases places,
{
    if places == 0 {
        1
    } else {
        10 * ten_to((places - 1) as nat)
    }
}

/// `n` units of 10^-`places` with a decimal point.
pub open spec fn pointed(n: nat, places: nat) -> Seq<char> {
    if places == 0 {
        decimal(n)
    } else {
        decimal(n / ten_to(places)).push('.') + low_digits(n, places)
    }
}

/// `num / den` rounded to a whole number, ties to the even one.
pub open spec fn half_even(num: nat, den: nat) -> nat {
    let q = num / den;
    let r = num % den;
    if 2 * r > den || (2 * r == den && q % 2 == 1) {
        q + 1
    } else {
        q
    }
}

/// The text of a number with `places` digits after the point, as `{:.places}` writes it; with
/// `plus`, as `{:+.places}` does.
#[verifier::opaque]
pub open spec fn fixed(x: Float, places: nat, plus: bool) -> Seq<char> {
    let sign = if x.negative() { seq!['-'] } else if plus { seq!['+'] } else { Seq::empty() };
    if x.nan() {
        seq!['N', 'a', 'N']
    } else if x.infinite() {
        sign + seq!['i', 'n', 'f']
    } else {
        sign + pointed(half_even(magnitude_units(x.mag()) * ten_to(places), pow2(1074)), places)
    }
}

/// The number that decimal digits stand for, the lowest first.
spec fn number(digits: Seq<u8>) -> nat
    decreases digits.len(),
{
    if digits.len() == 0 {
        0
    } else {
        digits[0] as nat + 10 * number(digits.drop_first())
    }
}

spec fn all_digits(digits: Seq<u8>) -> bool {
    forall|i: int| 0 <= i < digits.len() ==> #[trigger] digits[i] < 10
}

/// Pushing a digit adds it at the weight of its place.
proof fn number_of_push(digits: Seq<u8>, d: u8)
    ensures
        number(digits.push(d)) == number(digits) + d * ten_to(digits.len()),
    decreases digits.len(),
{
    let more = digits.push(d);
    if digits.len() == 0 {
        assert(more.drop_first() =~= Seq::<u8>::empty());
        assert(number(Seq::<u8>::empty()) == 0);
        assert(d * ten_to(0) == d) by (nonlinear_arith) requires ten_to(0) == 1;
    } else {
        number_of_push(digits.drop_first(), d);
        assert(more.drop_first() =~= digits.drop_first().push(d));
        let t = ten_to((digits.len() - 1) as nat);
        assert(10 * (d * t) == d * (10 * t)) by (nonlinear_arith);
    }
}

/// Digits of `n` by repeated division.
fn digits_of(n: u128) -> (digits: Vec<u8>)
    ensures
        number(digits@) == n,
        all_digits(digits@),
        digits@.len() >= 1,
        digits@.len() > 1 ==> digits@.last() != 0,
{
    let mut digits: Vec<u8> = Vec::new();
    let mut rest: u128 = n;
    proof {
        assert(n == number(digits@) + rest * ten_to(0)) by (nonlinear_arith)
            requires number(digits@) == 0, rest == n, ten_to(0) == 1;
    }
    while rest >= 10
        invariant
            n == number(digits@) + rest * ten_to(digits@.len()),
            all_digits(digits@),
            rest > 0 || digits@.len() == 0,
        decreases rest,
    {
        let d: u8 = (rest % 10) as u8;
        proof {
            number_of_push(digits@, d);
            let t = ten_to(digits@.len());
            assert(ten_to((digits@.len() + 1) as nat) == 10 * t);
            let q = rest / 10;
            assert(rest * t == d * t + q * (10 * t)) by (nonlinear_arith)
                requires rest == 10 * q + d;
        }
        digits.push(d);
        rest = rest / 10;
    }
    proof {
        number_of_push(digits@, rest as u8);
    }
    digits.push(rest as u8);
    digits
}

/// The digits of twice the number.
fn doubled(digits: &Vec<u8>) -> (twice: Vec<u8>)
    requires
        all_digits(digits@),
        digits@.len() >= 1,
        digits@.len() > 1 ==> digits@.last() != 0,
    ensures
        number(twice@) == 2 * number(digits@),
        all_digits(twice@),
        twice@.len() >= 1,
        twice@.len() > 1 ==> twice@.last() != 0,
{
    let mut twice: Vec<u8> = Vec::new();
    let mut carry: u8 = 0;
    let mut i: usize = 0;
    assert(digits@.take(0) =~= Seq::<u8>::empty());
    while i < digits.len()
        invariant
            i <= digits@.len(),
            twice@.len() == i,
            carry <= 1,
            all_digits(digits@),
            all_digits(twice@),
            number(twice@) + carry * ten_to(i as nat) == 2 * number(digits@.take(i as int)),
            i > 0 && digits@[i - 1] != 0 ==> twice@[i - 1] != 0 || carry != 0,
        decreases digits@.len() - i,
    {
        let v: u8 = digits[i] * 2 + carry;
        let d: u8 = v % 10;
        proof {
            number_of_push(twice@, d);
            number_of_push(digits@.take(i as int), digits@[i as int]);
            assert(digits@.take(i + 1) =~= digits@.take(i as int).push(digits@[i as int]));
            let t = ten_to(i as nat);
            let (x, c, c2) = (digits@[i as int] as int, carry as int, (v / 10) as int);
            assert(ten_to((i + 1) as nat) == 10 * t);
            assert(d * t + c2 * (10 * t) == 2 * (x * t) + c * t) by (nonlinear_arith)
                requires 2 * x + c == 10 * c2 + d;
        }
        twice.push(d);
        carry = v / 10;
        i = i + 1;
    }
    assert(digits@.take(i as int) =~= digits@);
    if carry > 0 {
        proof {
            number_of_push(twice@, carry);
        }
        twice.push(carry);
    } else {
        assert(carry * ten_to(i as nat) == 0) by (nonlinear_arith) requires carry == 0;
    }
    twice
}

/// Without a leading zero, the digits from the highest down are the decimal text.
proof fn decimal_of_number(digits: Seq<u8>)
    requires
        all_digits(digits),
        digits.len() >= 1,
        digits.len() > 1 ==> digits.last() != 0,
    ensures
        decimal(number(digits)) == Seq::new(
            digits.len(),
            |i: int| digit_char(digits[digits.len() - 1 - i] as nat),
        ),
        digits.len() > 1 ==> number(digits) >= 10,
    decreases digits.len(),
{
    let n = number(digits);
    if digits.len() == 1 {
        assert(digits.drop_first() =~= Seq::<u8>::empty());
        assert(number(digits.drop_first()) == 0);
        assert(decimal(n) =~= Seq::new(1, |i: int| digit_char(digits[0] as nat)));
        assert(Seq::new(1, |i: int| digit_char(digits[0] as nat)) =~= Seq::new(
            digits.len(),
            |i: int| digit_char(digits[digits.len() - 1 - i] as nat),
        ));
    } else {
        let rest = digits.drop_first();
        assert(rest.last() == digits.last());
        decimal_of_number(rest);
        if rest.len() == 1 {
            assert(rest.drop_first() =~= Seq::<u8>::empty());
            assert(number(Seq::<u8>::empty()) == 0);
            assert(number(rest) == rest[0]);
        }
        assert(number(rest) >= 1);
        assert(n == digits[0] + 10 * number(rest));
        assert(n / 10 == number(rest) && n % 10 == digits[0]);
        assert(decimal(n) =~= Seq::new(
            digits.len(),
            |i: int| digit_char(digits[digits.len() - 1 - i] as nat),
        ));
    }
}

/// The low digits are those of the text.
proof fn low_digits_of_number(digits: Seq<u8>, width: nat)
    requires
        all_digits(digits),
        width <= digits.len(),
    ensures
        low_digits(number(digits), width) == Seq::new(
            width,
            |i: int| digit_char(digits[width - 1 - i] as nat),
        ),
        number(digits) / ten_to(width) == number(digits.skip(width as int)),
    decreases width,
{
    if width == 0 {
        assert(digits.skip(0) =~= digits);
        assert(number(digits) as int / 1int == number(digits));
        assert(low_digits(number(digits), 0) =~= Seq::new(
            width,
            |i: int| digit_char(digits[width - 1 - i] as nat),
        ));
    } else {
        let rest = digits.drop_first();
        let n = number(digits);
        low_digits_of_number(rest, (width - 1) as nat);
        assert(n / 10 == number(rest) && n % 10 == digits[0]);
        assert(rest.skip(width - 1) =~= digits.skip(width as int));
        let t = ten_to((width - 1) as nat);
        ten_to_positive((width - 1) as nat);
        vstd::arithmetic::div_mod::lemma_div_denominator(n as int, 10, t as int);
        assert(low_digits(n, width) =~= Seq::new(
            width,
            |i: int| digit_char(digits[width - 1 - i] as nat),
        ));
    }
}

pub proof fn ten_to_positive(places: nat)
    ensures
        ten_to(places) > 0,
    decreases places,
{
    if places > 0 {
        ten_to_positive((places - 1) as nat);
    }
}

/// Appends the digits `from..to` of a number, the highest first.
fn push_digits(text: &mut String, digits: &Vec<u8>, from: usize, to: usize)
    requires
        from <= to <= digits@.len(),
        all_digits(digits@),
    ensures
        final(text)@ == old(text)@ + Seq::new(
            (to - from) as nat,
            |i: int| digit_char(digits@[to - 1 - i] as nat),
        ),
{
    let mut i: usize = to;
    let ghost whole = Seq::new(
        (to - from) as nat,
        |i: int| digit_char(digits@[to - 1 - i] as nat),
    );
    assert(whole.take(0) =~= Seq::<char>::empty());
    while i > from
        invariant
            from <= i <= to <= digits@.len(),
            all_digits(digits@),
            whole == Seq::new((to - from) as nat, |i: int| digit_char(digits@[to - 1 - i] as nat)),
            text@ == old(text)@ + whole.take(to - i),
        decreases i,
    {
        i = i - 1;
        text.push((48 + digits[i]) as char);
        assert(whole.take(to - i) =~= whole.take(to - i - 1).push(whole[to - i - 1]));
    }
    assert(whole.take(to - from) =~= whole);
}

/// A count in decimal.
pub fn count_text(n: u64) -> (text: String)
    ensures
        text@ == decimal(n as nat),
{
    let digits: Vec<u8> = digits_of(n as u128);
    let mut text: String = String::new();
    push_digits(&mut text, &digits, 0, digits.len());
    proof {
        decimal_of_number(digits@);
    }
    text
}

/// A whole number and its half-even rounding agree.
proof fn half_even_of_multiple(n: nat, den: nat)
    requires
        den > 0,
    ensures
        half_even(n * den, den) == n,
{
    assert(den * n == n * den) by (nonlinear_arith);
    vstd::arithmetic::div_mod::lemma_fundamental_div_mod_converse(
        (n * den) as int,
        den as int,
        n as int,
        0,
    );
}

/// The digits of `a * 2^up`.
fn shifted_digits(a: u128, up: u32) -> (digits: Vec<u8>)
    ensures
        number(digits@) == a * pow2(up as nat),
        all_digits(digits@),
        digits@.len() >= 1,
        digits@.len() > 1 ==> digits@.last() != 0,
{
    let mut digits: Vec<u8> = digits_of(a);
    let mut i: u32 = 0;
    proof {
        lemma2_to64();
        assert(a * pow2(0) == a) by (nonlinear_arith) requires pow2(0) == 1;
    }
    while i < up
        invariant
            i <= up,
            number(digits@) == a * pow2(i as nat),
            all_digits(digits@),
            digits@.len() >= 1,
            digits@.len() > 1 ==> digits@.last() != 0,
        decreases up - i,
    {
        digits = doubled(&digits);
        proof {
            lemma_pow2_unfold((i + 1) as nat);
            let p = pow2(i as nat);
            assert(a * (2 * p) == 2 * (a * p)) by (nonlinear_arith);
        }
        i = i + 1;
    }
    digits
}

/// Rounding does not change where both sides are scaled alike.
proof fn half_even_scales(num: nat, den: nat, p: nat)
    requires
        den > 0,
        p > 0,
    ensures
        half_even(num * p, den * p) == half_even(num, den),
{
    let q = num / den;
    let r = num % den;
    assert(num == q * den + r && 0 <= r < den) by (nonlinear_arith)
        requires den > 0, q == num / den, r == num % den;
    assert(num * p == (den * p) * q + r * p) by (nonlinear_arith) requires num == q * den + r;
    assert(0 <= r * p < den * p) by (nonlinear_arith) requires 0 <= r < den, p > 0;
    vstd::arithmetic::div_mod::lemma_fundamental_div_mod_converse(
        (num * p) as int,
        (den * p) as int,
        q as int,
        (r * p) as int,
    );
    assert(2 * (r * p) > den * p <==> 2 * r > den) by (nonlinear_arith) requires p > 0;
    assert(2 * (r * p) == den * p <==> 2 * r == den) by (nonlinear_arith) requires p > 0;
}

/// `top * 2^i` units rounded to a whole number.
fn half_even_scaled(top: u128, i: u32) -> (n: u128)
    requires
        i < 1074,
        top < 0x2000_0000_0000_0000,
    ensures
        n == half_even((top * pow2(i as nat)) as nat, pow2(1074)),
{
    let t: u32 = 1074 - i;
    proof {
        lemma_pow2_adds(t as nat, i as nat);
        lemma_pow2_pos(t as nat);
        lemma_pow2_pos(i as nat);
        half_even_scales(top as nat, pow2(t as nat), pow2(i as nat));
        lemma2_to64_rest();
    }
    if t >= 64 {
        proof {
            if t > 64 {
                lemma_pow2_strictly_increases(64, t as nat);
            }
            vstd::arithmetic::div_mod::lemma_fundamental_div_mod_converse(
                top as int,
                pow2(t as nat) as int,
                0,
                top as int,
            );
        }
        return 0;
    }
    let den: u128 = power_of_two(t);
    let q: u128 = top / den;
    let r: u128 = top % den;
    proof {
        lemma_pow2_strictly_increases(t as nat, 64);
    }
    if 2 * r > den || (2 * r == den && q % 2 == 1) {
        q + 1
    } else {
        q
    }
}

/// The text of a number with `places` digits after the point: `{:.places}`, or with `plus`
/// `{:+.places}`.
pub fn fixed_text(x: Float, places: u32, plus: bool) -> (text: String)
    requires
        places <= 2,
    ensures
        text@ == fixed(x, places as nat, plus),
{
    proof {
        reveal(fixed);
    }
    let mut text: String = String::new();
    if x.is_nan() {
        text.push('N');
        text.push('a');
        text.push('N');
        return text;
    }
    if x.bits >= SIGN {
        text.push('-');
    } else if plus {
        text.push('+');
    }
    let ghost sign = text@;
    if !x.is_finite() {
        text.push('i');
        text.push('n');
        text.push('f');
        assert(text@ =~= sign + seq!['i', 'n', 'f']);
        return text;
    }
    let (a, i) = x.parts();
    let scale: u128 = if places == 0 {
        1
    } else if places == 1 {
        10
    } else {
        100
    };
    let ghost n = half_even(magnitude_units(x.mag()) * ten_to(places as nat), pow2(1074));
    proof {
        reveal_with_fuel(ten_to, 3);
        assert(scale == ten_to(places as nat));
        assert(0 <= a * scale <= 0x20_0000_0000_0000 * 100) by (nonlinear_arith)
            requires 0 <= a < 0x20_0000_0000_0000, 0 <= scale <= 100;
    }
    let top: u128 = a as u128 * scale;
    let mut digits: Vec<u8> = if i >= 1074 {
        proof {
            lemma_pow2_adds((i - 1074) as nat, 1074);
            lemma_pow2_pos(1074);
            let (p, one) = (pow2((i - 1074) as nat), pow2(1074));
            assert((a * (p * one)) * scale == (top * p) * one) by (nonlinear_arith)
                requires top == a * scale;
            assert(top * p >= 0) by (nonlinear_arith) requires top >= 0, p >= 0;
            half_even_of_multiple((top * p) as nat, one);
        }
        shifted_digits(top, i - 1074)
    } else {
        proof {
            let p = pow2(i as nat);
            assert((a * p) * scale == top * p) by (nonlinear_arith) requires top == a * scale;
        }
        digits_of(half_even_scaled(top, i))
    };
    assert(number(digits@) == n);
    while digits.len() < places as usize + 1
        invariant
            number(digits@) == n,
            all_digits(digits@),
            digits@.len() >= 1,
            places <= 2,
            digits@.len() > places + 1 ==> digits@.last() != 0,
        decreases places + 1 - digits@.len(),
    {
        proof {
            number_of_push(digits@, 0);
        }
        digits.push(0);
    }
    let p: usize = places as usize;
    let len: usize = digits.len();
    proof {
        low_digits_of_number(digits@, p as nat);
        let high = digits@.skip(p as int);
        if high.len() > 1 {
            assert(high.last() == digits@.last());
        }
        decimal_of_number(high);
        assert(Seq::new((len - p) as nat, |i: int| digit_char(digits@[len - 1 - i] as nat))
            =~= Seq::new(high.len(), |i: int| digit_char(high[high.len() - 1 - i] as nat)));
    }
    push_digits(&mut text, &digits, p, len);
    if p > 0 {
        text.push('.');
        push_digits(&mut text, &digits, 0, p);
        assert(text@ =~= sign + pointed(n, places as nat));
    } else {
        assert(n / ten_to(0) == n);
        assert(text@ =~= sign + pointed(n, places as nat));
    }
    text
}

} // verus!
