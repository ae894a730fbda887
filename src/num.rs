use vstd::prelude::*;
use vstd::arithmetic::power2::{pow2, lemma2_to64, lemma2_to64_rest, lemma_pow2_adds};
use vstd::arithmetic::power::{self, lemma_pow_increases};
use vstd::arithmetic::logarithm::log;
use crate::bit::Bit;
use crate::bits::{bits, bits_msb, leading_ones, leading_run, leading_zeros, reverse_bits, reversed_pattern, trailing_ones, trailing_zeros, Bits};
use crate::digits::{decimal_digits, digits, log_u128, Digits};

verus! {

/// The value of a magnitude with a sign.
pub open spec fn signed(negative: bool, m: int) -> int {
    if negative { -m } else { m }
}

/// Absolute value.
pub open spec fn abs(v: int) -> int {
    if v < 0 { -v } else { v }
}

/// The raw two's-complement pattern of `v` in `w` bits, read as an unsigned number.
pub open spec fn pattern(v: int, w: nat) -> int {
    if v >= 0 { v } else { v + pow2(w) }
}

/// The powers of two at 64 and 128.
pub proof fn lemma_pow2_128()
    ensures
        pow2(64) == 0x1_0000_0000_0000_0000,
        pow2(128) == 0x1_0000_0000_0000_0000_0000_0000_0000_0000,
{
    lemma2_to64();
    lemma2_to64_rest();
    lemma_pow2_adds(64, 64);
}

/// `d` is a positive divisor of both `a` and `b`.
pub open spec fn common_divisor(d: int, a: int, b: int) -> bool {
    d > 0 && a % d == 0 && b % d == 0
}

/// The greatest `d` in `2..=k` that divides both `a` and `b`, or 1 when there is none.
pub open spec fn greatest_divisor_upto(a: int, b: int, k: int) -> int
    decreases k,
{
    if k <= 1 {
        1
    } else if a % k == 0 && b % k == 0 {
        k
    } else {
        greatest_divisor_upto(a, b, k - 1)
    }
}

/// Greatest common divisor of the magnitudes, found among `1..=min(|a|, |b|)`;
/// 1 when either is zero.
pub open spec fn gcd_spec(a: int, b: int) -> int {
    greatest_divisor_upto(abs(a), abs(b), if abs(a) < abs(b) { abs(a) } else { abs(b) })
}

/// Least common multiple: `|a * b| / gcd(a, b)`.
pub open spec fn lcm_spec(a: int, b: int) -> int {
    abs(a * b) / gcd_spec(a, b)
}

proof fn lemma_greatest_divisor_upto(a: int, b: int, k: int)
    ensures
        common_divisor(greatest_divisor_upto(a, b, k), a, b),
        1 <= greatest_divisor_upto(a, b, k),
        k >= 1 ==> greatest_divisor_upto(a, b, k) <= k,
        forall|d: int| greatest_divisor_upto(a, b, k) < d <= k ==> !common_divisor(d, a, b),
    decreases k,
{
    if k > 1 && !(a % k == 0 && b % k == 0) {
        lemma_greatest_divisor_upto(a, b, k - 1);
    }
}

/// The gcd of two positive numbers divides both, and every common divisor is at most it.
pub proof fn lemma_gcd_is_greatest(a: int, b: int)
    requires
        a > 0,
        b > 0,
    ensures
        common_divisor(gcd_spec(a, b), a, b),
        forall|d: int| common_divisor(d, a, b) ==> d <= gcd_spec(a, b),
{
    let k = if a < b { a } else { b };
    lemma_greatest_divisor_upto(a, b, k);
    assert forall|d: int| common_divisor(d, a, b) implies d <= gcd_spec(a, b) by {
        if d > k {
            if a < b {
                assert(a % d == a) by { vstd::arithmetic::div_mod::lemma_small_mod(a as nat, d as nat); }
            } else {
                assert(b % d == b) by { vstd::arithmetic::div_mod::lemma_small_mod(b as nat, d as nat); }
            }
        }
    }
}

/// For positive numbers, the lcm times the gcd is the product.
pub proof fn lemma_lcm_times_gcd(a: int, b: int)
    requires
        a > 0,
        b > 0,
    ensures
        lcm_spec(a, b) * gcd_spec(a, b) == a * b,
{
    let g = gcd_spec(a, b);
    lemma_gcd_is_greatest(a, b);
    vstd::arithmetic::div_mod::lemma_fundamental_div_mod(a, g);
    let q = a / g;
    assert(a * b == g * (q * b)) by (nonlinear_arith)
        requires a == g * q + 0;
    assert(a * b > 0) by (nonlinear_arith)
        requires a > 0, b > 0;
    vstd::arithmetic::div_mod::lemma_div_multiples_vanish(q * b, g);
    assert((a * b) / g * g == a * b) by (nonlinear_arith)
        requires (a * b) / g == q * b, a * b == g * (q * b);
}

/// Quotient rounded toward zero, as integer division does.
pub open spec fn trunc_div(a: int, b: int) -> int {
    signed((a < 0) != (b < 0), abs(a) / abs(b))
}

/// Remainder of the division rounded toward zero; it takes the sign of `a`.
pub open spec fn trunc_rem(a: int, b: int) -> int {
    signed(a < 0, abs(a) % abs(b))
}

/// A primitive numeric representation of a fixed width.
///
/// Each implementing type supplies the representation-specific primitives
/// (its range, its width, conversions to and from a wide unsigned domain);
/// the operations built on them are written once, for every type.
pub trait Number: Sized + Copy {
    /// The mathematical value.
    spec fn value(self) -> int;

    /// Width of the representation in bits.
    spec fn spec_width() -> nat;

    /// Least representable value.
    spec fn spec_min() -> int;

    /// Greatest representable value.
    spec fn spec_max() -> int;

    proof fn lemma_range(x: Self)
        ensures
            Self::spec_min() <= x.value() <= Self::spec_max(),
    ;

    proof fn lemma_bounds()
        ensures
            8 <= Self::spec_width() <= 128,
            Self::spec_max() < pow2(Self::spec_width()),
            0x7f <= Self::spec_max() <= u128::MAX,
            -Self::spec_min() <= 0x8000_0000_0000_0000_0000_0000_0000_0000,
            Self::spec_min() == 0 || (Self::spec_min() == -pow2((Self::spec_width() - 1) as nat)
                && Self::spec_max() == pow2((Self::spec_width() - 1) as nat) - 1),
            Self::spec_min() == 0 ==> Self::spec_max() == pow2(Self::spec_width()) - 1,
    ;

    proof fn lemma_value_injective(a: Self, b: Self)
        requires
            a.value() == b.value(),
        ensures
            a == b,
    ;

    /// Least representable value.
    fn minimum() -> (r: Self)
        ensures
            r.value() == Self::spec_min(),
    ;

    /// Greatest representable value.
    fn maximum() -> (r: Self)
        ensures
            r.value() == Self::spec_max(),
    ;

    /// Width of the representation in bits.
    fn bit_width() -> (r: u32)
        ensures
            r == Self::spec_width(),
    ;

    /// The absolute value, widened.
    fn magnitude(self) -> (r: u128)
        ensures
            r == abs(self.value()),
    ;

    /// The value with the given sign and magnitude.
    fn from_magnitude(negative: bool, m: u128) -> (r: Self)
        requires
            Self::spec_min() <= signed(negative, m as int) <= Self::spec_max(),
        ensures
            r.value() == signed(negative, m as int),
    ;

    /// The raw bit pattern, widened with zeros.
    fn to_raw(self) -> (r: u128)
        ensures
            r == pattern(self.value(), Self::spec_width()),
    ;

    /// The value whose raw bit pattern is `r`.
    fn from_raw(r: u128) -> (s: Self)
        requires
            r < pow2(Self::spec_width()),
        ensures
            pattern(s.value(), Self::spec_width()) == r,
    ;

    fn less_than(self, other: Self) -> (r: bool)
        ensures
            r == (self.value() < other.value()),
    ;

    fn plus(self, other: Self) -> (r: Self)
        requires
            Self::spec_min() <= self.value() + other.value() <= Self::spec_max(),
        ensures
            r.value() == self.value() + other.value(),
    ;

    fn minus(self, other: Self) -> (r: Self)
        requires
            Self::spec_min() <= self.value() - other.value() <= Self::spec_max(),
        ensures
            r.value() == self.value() - other.value(),
    ;

    fn times(self, other: Self) -> (r: Self)
        requires
            Self::spec_min() <= self.value() * other.value() <= Self::spec_max(),
        ensures
            r.value() == self.value() * other.value(),
    ;

}

/// Zero.
pub fn zero<T: Number>() -> (r: T)
    ensures
        r.value() == 0,
{
    proof { T::lemma_bounds(); }
    T::from_magnitude(false, 0)
}

/// One.
pub fn one<T: Number>() -> (r: T)
    ensures
        r.value() == 1,
{
    proof { T::lemma_bounds(); }
    T::from_magnitude(false, 1)
}

/// `x < 0`.
pub fn is_negative<T: Number>(x: T) -> (r: bool)
    ensures
        r == (x.value() < 0),
{
    x.less_than(zero::<T>())
}

/// Absolute value; the least value of a signed type has none.
pub fn module<T: Number>(x: T) -> (r: T)
    requires
        x.value() != T::spec_min() || T::spec_min() == 0,
    ensures
        r.value() == abs(x.value()),
        r.value() >= 0,
        x.value() >= 0 ==> r.value() == x.value(),
{
    proof { T::lemma_bounds(); T::lemma_range(x); }
    if zero::<T>().less_than(x) {
        x
    } else {
        T::from_magnitude(false, x.magnitude())
    }
}

/// Greatest common divisor of the magnitudes, searched among `1..=min(|x|, |y|)`;
/// 1 when either is zero.
pub fn gcd<T: Number>(x: T, y: T) -> (r: T)
    requires
        x.value() != T::spec_min() || y.value() != T::spec_min() || T::spec_min() == 0,
    ensures
        r.value() == gcd_spec(x.value(), y.value()),
{
    proof { T::lemma_bounds(); T::lemma_range(x); T::lemma_range(y); }
    let sm = x.magnitude();
    let om = y.magnitude();
    let min = if sm > om { om } else { sm };
    let mut k: u128 = min;
    while k > 1 && !(sm % k == 0 && om % k == 0)
        invariant
            k <= min,
            greatest_divisor_upto(sm as int, om as int, k as int)
                == greatest_divisor_upto(sm as int, om as int, min as int),
        decreases k,
    {
        k = k - 1;
    }
    let d: u128 = if k <= 1 { 1 } else { k };
    assert(d <= T::spec_max()) by {
        if x.value() != T::spec_min() {
            assert(sm <= T::spec_max());
        } else {
            assert(om <= T::spec_max());
        }
    }
    proof { lemma_greatest_divisor_upto(sm as int, om as int, min as int); }
    T::from_magnitude(false, d)
}


/// Least common multiple: `|x * y / gcd(x, y)|`.
pub fn lcm<T: Number>(x: T, y: T) -> (r: T)
    requires
        x.value() != T::spec_min() || y.value() != T::spec_min() || T::spec_min() == 0,
        T::spec_min() <= x.value() * y.value() <= T::spec_max(),
        lcm_spec(x.value(), y.value()) <= T::spec_max(),
    ensures
        r.value() == lcm_spec(x.value(), y.value()),
{
    proof { T::lemma_bounds(); T::lemma_range(x); T::lemma_range(y); }
    let g = gcd(x, y);
    let sm = x.magnitude();
    let om = y.magnitude();
    proof {
        let (a, b) = (x.value(), y.value());
        assert(abs(a * b) == abs(a) * abs(b)) by (nonlinear_arith);
        lemma_greatest_divisor_upto(abs(a), abs(b), if abs(a) < abs(b) { abs(a) } else { abs(b) });
    }
    let p = sm * om;
    let gm = g.magnitude();
    proof { vstd::arithmetic::div_mod::lemma_div_is_ordered_by_denominator(p as int, 1, gm as int); }
    T::from_magnitude(false, p / gm)
}

/// `x / y`, rounded toward zero.
pub fn quotient<T: Number>(x: T, y: T) -> (r: T)
    requires
        y.value() != 0,
        trunc_div(x.value(), y.value()) <= T::spec_max(),
    ensures
        r.value() == trunc_div(x.value(), y.value()),
{
    proof {
        T::lemma_bounds();
        T::lemma_range(x);
        T::lemma_range(y);
        vstd::arithmetic::div_mod::lemma_div_is_ordered_by_denominator(abs(x.value()), 1, abs(y.value()));
        assert(abs(x.value()) / 1 == abs(x.value()));
        assert(abs(x.value()) / abs(y.value()) >= 0) by {
            vstd::arithmetic::div_mod::lemma_div_pos_is_pos(abs(x.value()), abs(y.value()));
        }
    }
    let q = x.magnitude() / y.magnitude();
    T::from_magnitude(is_negative(x) != is_negative(y), q)
}

/// `x % y`: the remainder of the division rounded toward zero, with the sign of `x`.
pub fn remainder<T: Number>(x: T, y: T) -> (r: T)
    requires
        y.value() != 0,
    ensures
        r.value() == trunc_rem(x.value(), y.value()),
{
    proof {
        T::lemma_bounds();
        T::lemma_range(x);
        T::lemma_range(y);
        vstd::arithmetic::div_mod::lemma_mod_decreases(abs(x.value()) as nat, abs(y.value()) as nat);
    }
    let m = x.magnitude() % y.magnitude();
    T::from_magnitude(is_negative(x), m)
}

/// `v` widened to 128 bits, as a sign-extending conversion to `u128` does.
pub open spec fn wide(v: int) -> int {
    pattern(v, 128)
}

/// The value widened to 128 bits, sign-extended.
pub fn widen<T: Number>(x: T) -> (r: u128)
    ensures
        r == wide(x.value()),
{
    proof { T::lemma_bounds(); T::lemma_range(x); lemma_pow2_128(); }
    if is_negative(x) {
        (0xffff_ffff_ffff_ffff_ffff_ffff_ffff_ffff - x.magnitude()) + 1
    } else {
        x.magnitude()
    }
}

/// Integer logarithm of the widened value to the widened base; 0 for a value of 0.
pub fn ilog<T: Number>(x: T, base: T) -> (r: u32)
    requires
        wide(base.value()) >= 2,
    ensures
        r == log(wide(base.value()), wide(x.value())),
{
    log_u128(widen(x), widen(base))
}

/// Base-2 logarithm of the widened value; 0 for a value of 0.
pub fn ilog2<T: Number>(x: T) -> (r: u32)
    ensures
        r == log(2, wide(x.value())),
{
    log_u128(widen(x), 2)
}

/// Base-10 logarithm of the widened value; 0 for a value of 0.
pub fn ilog10<T: Number>(x: T) -> (r: u32)
    ensures
        r == log(10, wide(x.value())),
{
    log_u128(widen(x), 10)
}

proof fn lemma_pow_sign(v: int, e: nat)
    ensures
        power::pow(v, e) == signed(v < 0 && e % 2 == 1, power::pow(abs(v), e)),
    decreases e,
{
    reveal(power::pow);
    if e > 0 {
        lemma_pow_sign(v, (e - 1) as nat);
        let p = power::pow(abs(v), (e - 1) as nat);
        if v < 0 {
            assert(v * signed(v < 0 && (e - 1) as nat % 2 == 1, p) == signed(v < 0 && e % 2 == 1, abs(v) * p))
                by (nonlinear_arith)
                requires v < 0, e >= 1;
        }
    }
}

/// `x` raised to the power `exp`.
pub fn pow<T: Number>(x: T, exp: u32) -> (r: T)
    requires
        T::spec_min() <= power::pow(x.value(), exp as nat) <= T::spec_max(),
    ensures
        r.value() == power::pow(x.value(), exp as nat),
{
    proof {
        T::lemma_bounds();
        lemma_pow_sign(x.value(), exp as nat);
    }
    let m = x.magnitude();
    proof {
        if m > 0 {
            vstd::arithmetic::power::lemma_pow_positive(m as int, exp as nat);
        } else if exp > 0 {
            reveal(power::pow);
            assert(power::pow(m as int, exp as nat) == m * power::pow(m as int, (exp - 1) as nat));
        } else {
            reveal(power::pow);
        }
    }
    let mut acc: u128 = 1;
    let mut i: u32 = 0;
    proof { reveal(power::pow); }
    while i < exp
        invariant
            i <= exp,
            acc == power::pow(m as int, i as nat),
            power::pow(m as int, exp as nat) <= u128::MAX,
        decreases exp - i,
    {
        proof {
            reveal(power::pow);
            assert(power::pow(m as int, (i + 1) as nat) == m * power::pow(m as int, i as nat));
            if m > 0 {
                lemma_pow_increases(m as nat, (i + 1) as nat, exp as nat);
            } else {
                assert(m * power::pow(m as int, i as nat) == 0);
            }
            assert((acc as int) * (m as int) == power::pow(m as int, (i + 1) as nat)) by (nonlinear_arith)
                requires
                    acc == power::pow(m as int, i as nat),
                    power::pow(m as int, (i + 1) as nat) == m * power::pow(m as int, i as nat);
        }
        acc = acc * m;
        i = i + 1;
    }
    let negative = is_negative(x) && exp % 2 == 1;
    T::from_magnitude(negative, acc)
}

impl Number for u8 {
    open spec fn value(self) -> int { self as int }
    open spec fn spec_width() -> nat { 8 }
    open spec fn spec_min() -> int { 0 }
    open spec fn spec_max() -> int { 0xff }

    proof fn lemma_range(x: u8) {}
    proof fn lemma_bounds() { lemma2_to64(); }
    proof fn lemma_value_injective(a: u8, b: u8) {}

    fn minimum() -> (r: u8) { 0 }
    fn maximum() -> (r: u8) { 0xff }
    fn bit_width() -> (r: u32) { 8 }
    fn magnitude(self) -> (r: u128) { self as u128 }
    fn from_magnitude(negative: bool, m: u128) -> (r: u8) { m as u8 }
    fn to_raw(self) -> (r: u128) { self as u128 }
    fn from_raw(r: u128) -> (s: u8) { proof { lemma2_to64(); } r as u8 }
    fn less_than(self, other: u8) -> (r: bool) { self < other }
    fn plus(self, other: u8) -> (r: u8) { self + other }
    fn minus(self, other: u8) -> (r: u8) { self - other }
    fn times(self, other: u8) -> (r: u8) { self * other }
}

impl Number for i8 {
    open spec fn value(self) -> int { self as int }
    open spec fn spec_width() -> nat { 8 }
    open spec fn spec_min() -> int { -0x80 }
    open spec fn spec_max() -> int { 0x7f }

    proof fn lemma_range(x: i8) {}
    proof fn lemma_bounds() { lemma2_to64(); }
    proof fn lemma_value_injective(a: i8, b: i8) {}

    fn minimum() -> (r: i8) { -0x80 }
    fn maximum() -> (r: i8) { 0x7f }
    fn bit_width() -> (r: u32) { 8 }

    fn magnitude(self) -> (r: u128) {
        if self >= 0 { self as u128 } else { (-(self + 1)) as u128 + 1 }
    }

    fn from_magnitude(negative: bool, m: u128) -> (r: i8) {
        if negative && m > 0 { -(((m - 1) as i8)) - 1 } else { m as i8 }
    }

    fn to_raw(self) -> (r: u128) {
        proof { lemma2_to64(); }
        if self >= 0 { self as u128 } else { 0x100 - self.magnitude() }
    }

    fn from_raw(r: u128) -> (s: i8) {
        proof { lemma2_to64(); }
        if r < 0x80 { r as i8 } else { i8::from_magnitude(true, 0x100 - r) }
    }

    fn less_than(self, other: i8) -> (r: bool) { self < other }
    fn plus(self, other: i8) -> (r: i8) { self + other }
    fn minus(self, other: i8) -> (r: i8) { self - other }
    fn times(self, other: i8) -> (r: i8) { self * other }
}

impl Number for u16 {
    open spec fn value(self) -> int { self as int }
    open spec fn spec_width() -> nat { 16 }
    open spec fn spec_min() -> int { 0 }
    open spec fn spec_max() -> int { 0xffff }

    proof fn lemma_range(x: u16) {}
    proof fn lemma_bounds() { lemma2_to64(); }
    proof fn lemma_value_injective(a: u16, b: u16) {}

    fn minimum() -> (r: u16) { 0 }
    fn maximum() -> (r: u16) { 0xffff }
    fn bit_width() -> (r: u32) { 16 }
    fn magnitude(self) -> (r: u128) { self as u128 }
    fn from_magnitude(negative: bool, m: u128) -> (r: u16) { m as u16 }
    fn to_raw(self) -> (r: u128) { self as u128 }
    fn from_raw(r: u128) -> (s: u16) { proof { lemma2_to64(); } r as u16 }
    fn less_than(self, other: u16) -> (r: bool) { self < other }
    fn plus(self, other: u16) -> (r: u16) { self + other }
    fn minus(self, other: u16) -> (r: u16) { self - other }
    fn times(self, other: u16) -> (r: u16) { self * other }
}

impl Number for i16 {
    open spec fn value(self) -> int { self as int }
    open spec fn spec_width() -> nat { 16 }
    open spec fn spec_min() -> int { -0x8000 }
    open spec fn spec_max() -> int { 0x7fff }

    proof fn lemma_range(x: i16) {}
    proof fn lemma_bounds() { lemma2_to64(); }
    proof fn lemma_value_injective(a: i16, b: i16) {}

    fn minimum() -> (r: i16) { -0x8000 }
    fn maximum() -> (r: i16) { 0x7fff }
    fn bit_width() -> (r: u32) { 16 }

    fn magnitude(self) -> (r: u128) {
        if self >= 0 { self as u128 } else { (-(self + 1)) as u128 + 1 }
    }

    fn from_magnitude(negative: bool, m: u128) -> (r: i16) {
        if negative && m > 0 { -(((m - 1) as i16)) - 1 } else { m as i16 }
    }

    fn to_raw(self) -> (r: u128) {
        proof { lemma2_to64(); }
        if self >= 0 { self as u128 } else { 0x1_0000 - self.magnitude() }
    }

    fn from_raw(r: u128) -> (s: i16) {
        proof { lemma2_to64(); }
        if r < 0x8000 { r as i16 } else { i16::from_magnitude(true, 0x1_0000 - r) }
    }

    fn less_than(self, other: i16) -> (r: bool) { self < other }
    fn plus(self, other: i16) -> (r: i16) { self + other }
    fn minus(self, other: i16) -> (r: i16) { self - other }
    fn times(self, other: i16) -> (r: i16) { self * other }
}

impl Number for u32 {
    open spec fn value(self) -> int { self as int }
    open spec fn spec_width() -> nat { 32 }
    open spec fn spec_min() -> int { 0 }
    open spec fn spec_max() -> int { 0xffff_ffff }

    proof fn lemma_range(x: u32) {}
    proof fn lemma_bounds() { lemma2_to64(); }
    proof fn lemma_value_injective(a: u32, b: u32) {}

    fn minimum() -> (r: u32) { 0 }
    fn maximum() -> (r: u32) { 0xffff_ffff }
    fn bit_width() -> (r: u32) { 32 }
    fn magnitude(self) -> (r: u128) { self as u128 }
    fn from_magnitude(negative: bool, m: u128) -> (r: u32) { m as u32 }
    fn to_raw(self) -> (r: u128) { self as u128 }
    fn from_raw(r: u128) -> (s: u32) { proof { lemma2_to64(); } r as u32 }
    fn less_than(self, other: u32) -> (r: bool) { self < other }
    fn plus(self, other: u32) -> (r: u32) { self + other }
    fn minus(self, other: u32) -> (r: u32) { self - other }
    fn times(self, other: u32) -> (r: u32) { self * other }
}

impl Number for i32 {
    open spec fn value(self) -> int { self as int }
    open spec fn spec_width() -> nat { 32 }
    open spec fn spec_min() -> int { -0x8000_0000 }
    open spec fn spec_max() -> int { 0x7fff_ffff }

    proof fn lemma_range(x: i32) {}
    proof fn lemma_bounds() { lemma2_to64(); }
    proof fn lemma_value_injective(a: i32, b: i32) {}

    fn minimum() -> (r: i32) { -0x8000_0000 }
    fn maximum() -> (r: i32) { 0x7fff_ffff }
    fn bit_width() -> (r: u32) { 32 }

    fn magnitude(self) -> (r: u128) {
        if self >= 0 { self as u128 } else { (-(self + 1)) as u128 + 1 }
    }

    fn from_magnitude(negative: bool, m: u128) -> (r: i32) {
        if negative && m > 0 { -(((m - 1) as i32)) - 1 } else { m as i32 }
    }

    fn to_raw(self) -> (r: u128) {
        proof { lemma2_to64(); }
        if self >= 0 { self as u128 } else { 0x1_0000_0000 - self.magnitude() }
    }

    fn from_raw(r: u128) -> (s: i32) {
        proof { lemma2_to64(); }
        if r < 0x8000_0000 { r as i32 } else { i32::from_magnitude(true, 0x1_0000_0000 - r) }
    }

    fn less_than(self, other: i32) -> (r: bool) { self < other }
    fn plus(self, other: i32) -> (r: i32) { self + other }
    fn minus(self, other: i32) -> (r: i32) { self - other }
    fn times(self, other: i32) -> (r: i32) { self * other }
}

impl Number for u64 {
    open spec fn value(self) -> int { self as int }
    open spec fn spec_width() -> nat { 64 }
    open spec fn spec_min() -> int { 0 }
    open spec fn spec_max() -> int { 0xffff_ffff_ffff_ffff }

    proof fn lemma_range(x: u64) {}
    proof fn lemma_bounds() { lemma2_to64(); lemma2_to64_rest(); }
    proof fn lemma_value_injective(a: u64, b: u64) {}

    fn minimum() -> (r: u64) { 0 }
    fn maximum() -> (r: u64) { 0xffff_ffff_ffff_ffff }
    fn bit_width() -> (r: u32) { 64 }
    fn magnitude(self) -> (r: u128) { self as u128 }
    fn from_magnitude(negative: bool, m: u128) -> (r: u64) { m as u64 }
    fn to_raw(self) -> (r: u128) { self as u128 }
    fn from_raw(r: u128) -> (s: u64) { proof { lemma2_to64(); } r as u64 }
    fn less_than(self, other: u64) -> (r: bool) { self < other }
    fn plus(self, other: u64) -> (r: u64) { self + other }
    fn minus(self, other: u64) -> (r: u64) { self - other }
    fn times(self, other: u64) -> (r: u64) { self * other }
}

impl Number for i64 {
    open spec fn value(self) -> int { self as int }
    open spec fn spec_width() -> nat { 64 }
    open spec fn spec_min() -> int { -0x8000_0000_0000_0000 }
    open spec fn spec_max() -> int { 0x7fff_ffff_ffff_ffff }

    proof fn lemma_range(x: i64) {}
    proof fn lemma_bounds() { lemma2_to64(); lemma2_to64_rest(); }
    proof fn lemma_value_injective(a: i64, b: i64) {}

    fn minimum() -> (r: i64) { -0x8000_0000_0000_0000 }
    fn maximum() -> (r: i64) { 0x7fff_ffff_ffff_ffff }
    fn bit_width() -> (r: u32) { 64 }

    fn magnitude(self) -> (r: u128) {
        if self >= 0 { self as u128 } else { (-(self + 1)) as u128 + 1 }
    }

    fn from_magnitude(negative: bool, m: u128) -> (r: i64) {
        if negative && m > 0 { -(((m - 1) as i64)) - 1 } else { m as i64 }
    }

    fn to_raw(self) -> (r: u128) {
        proof { lemma2_to64(); }
        if self >= 0 { self as u128 } else { 0x1_0000_0000_0000_0000 - self.magnitude() }
    }

    fn from_raw(r: u128) -> (s: i64) {
        proof { lemma2_to64(); }
        if r < 0x8000_0000_0000_0000 { r as i64 } else { i64::from_magnitude(true, 0x1_0000_0000_0000_0000 - r) }
    }

    fn less_than(self, other: i64) -> (r: bool) { self < other }
    fn plus(self, other: i64) -> (r: i64) { self + other }
    fn minus(self, other: i64) -> (r: i64) { self - other }
    fn times(self, other: i64) -> (r: i64) { self * other }
}

impl Number for usize {
    open spec fn value(self) -> int { self as int }
    open spec fn spec_width() -> nat { usize::BITS as nat }
    open spec fn spec_min() -> int { 0 }
    open spec fn spec_max() -> int { usize::MAX as int }

    proof fn lemma_range(x: usize) {}
    proof fn lemma_bounds() {
        lemma2_to64();
        lemma2_to64_rest();
        assert(usize::BITS == 32 ==> usize::MAX == 0xffff_ffff);
        assert(usize::BITS == 64 ==> usize::MAX == 0xffff_ffff_ffff_ffff);
    }
    proof fn lemma_value_injective(a: usize, b: usize) {}

    fn minimum() -> (r: usize) { 0 }
    fn maximum() -> (r: usize) { usize::MAX }
    fn bit_width() -> (r: u32) { usize::BITS }
    fn magnitude(self) -> (r: u128) { self as u128 }
    fn from_magnitude(negative: bool, m: u128) -> (r: usize) { m as usize }
    fn to_raw(self) -> (r: u128) { self as u128 }

    fn from_raw(r: u128) -> (s: usize) {
        proof { usize::lemma_bounds(); }
        r as usize
    }

    fn less_than(self, other: usize) -> (r: bool) { self < other }
    fn plus(self, other: usize) -> (r: usize) { self + other }
    fn minus(self, other: usize) -> (r: usize) { self - other }
    fn times(self, other: usize) -> (r: usize) { self * other }
}

impl Number for isize {
    open spec fn value(self) -> int { self as int }
    open spec fn spec_width() -> nat { usize::BITS as nat }
    open spec fn spec_min() -> int { isize::MIN as int }
    open spec fn spec_max() -> int { isize::MAX as int }

    proof fn lemma_range(x: isize) {}
    proof fn lemma_bounds() {
        lemma2_to64();
        lemma2_to64_rest();
        assert(usize::BITS == 32 ==> isize::MAX == 0x7fff_ffff && isize::MIN == -0x8000_0000);
        assert(usize::BITS == 64 ==> isize::MAX == 0x7fff_ffff_ffff_ffff
            && isize::MIN == -0x8000_0000_0000_0000);
    }
    proof fn lemma_value_injective(a: isize, b: isize) {}

    fn minimum() -> (r: isize) { isize::MIN }
    fn maximum() -> (r: isize) { isize::MAX }
    fn bit_width() -> (r: u32) { usize::BITS }

    fn magnitude(self) -> (r: u128) {
        if self >= 0 { self as u128 } else { (-(self + 1)) as u128 + 1 }
    }

    fn from_magnitude(negative: bool, m: u128) -> (r: isize) {
        if negative && m > 0 { -(((m - 1) as isize)) - 1 } else { m as isize }
    }

    fn to_raw(self) -> (r: u128) {
        proof { isize::lemma_bounds(); }
        let full: u128 = if usize::BITS == 32 { 0x1_0000_0000 } else { 0x1_0000_0000_0000_0000 };
        proof {
            lemma2_to64();
            lemma2_to64_rest();
            assert(full == pow2(usize::BITS as nat));
        }
        if self >= 0 { self as u128 } else { full - self.magnitude() }
    }

    fn from_raw(r: u128) -> (s: isize) {
        proof { isize::lemma_bounds(); }
        let full: u128 = if usize::BITS == 32 { 0x1_0000_0000 } else { 0x1_0000_0000_0000_0000 };
        proof {
            lemma2_to64();
            lemma2_to64_rest();
            assert(full == pow2(usize::BITS as nat));
        }
        if r <= isize::MAX as u128 { r as isize } else { isize::from_magnitude(true, full - r) }
    }

    fn less_than(self, other: isize) -> (r: bool) { self < other }
    fn plus(self, other: isize) -> (r: isize) { self + other }
    fn minus(self, other: isize) -> (r: isize) { self - other }
    fn times(self, other: isize) -> (r: isize) { self * other }
}

impl Number for u128 {
    open spec fn value(self) -> int { self as int }
    open spec fn spec_width() -> nat { 128 }
    open spec fn spec_min() -> int { 0 }
    open spec fn spec_max() -> int { 0xffff_ffff_ffff_ffff_ffff_ffff_ffff_ffff }

    proof fn lemma_range(x: u128) {}
    proof fn lemma_bounds() { lemma_pow2_128(); }
    proof fn lemma_value_injective(a: u128, b: u128) {}

    fn minimum() -> (r: u128) { 0 }
    fn maximum() -> (r: u128) { 0xffff_ffff_ffff_ffff_ffff_ffff_ffff_ffff }
    fn bit_width() -> (r: u32) { 128 }
    fn magnitude(self) -> (r: u128) { self }
    fn from_magnitude(negative: bool, m: u128) -> (r: u128) { m }
    fn to_raw(self) -> (r: u128) { self }
    fn from_raw(r: u128) -> (s: u128) { r }
    fn less_than(self, other: u128) -> (r: bool) { self < other }
    fn plus(self, other: u128) -> (r: u128) { self + other }
    fn minus(self, other: u128) -> (r: u128) { self - other }
    fn times(self, other: u128) -> (r: u128) { self * other }
}

impl Number for i128 {
    open spec fn value(self) -> int { self as int }
    open spec fn spec_width() -> nat { 128 }
    open spec fn spec_min() -> int { -0x8000_0000_0000_0000_0000_0000_0000_0000 }
    open spec fn spec_max() -> int { 0x7fff_ffff_ffff_ffff_ffff_ffff_ffff_ffff }

    proof fn lemma_range(x: i128) {}
    proof fn lemma_bounds() { lemma_pow2_128(); vstd::arithmetic::power2::lemma_pow2_unfold(128); }
    proof fn lemma_value_injective(a: i128, b: i128) {}

    fn minimum() -> (r: i128) { -0x8000_0000_0000_0000_0000_0000_0000_0000 }
    fn maximum() -> (r: i128) { 0x7fff_ffff_ffff_ffff_ffff_ffff_ffff_ffff }
    fn bit_width() -> (r: u32) { 128 }

    fn magnitude(self) -> (r: u128) {
        if self >= 0 { self as u128 } else { (-(self + 1)) as u128 + 1 }
    }

    fn from_magnitude(negative: bool, m: u128) -> (r: i128) {
        proof { lemma_pow2_128(); }
        if negative && m > 0 { -(((m - 1) as i128)) - 1 } else { m as i128 }
    }

    fn to_raw(self) -> (r: u128) {
        proof { lemma_pow2_128(); }
        if self >= 0 { self as u128 } else { (0xffff_ffff_ffff_ffff_ffff_ffff_ffff_ffff - self.magnitude()) + 1 }
    }

    fn from_raw(r: u128) -> (s: i128) {
        proof { lemma_pow2_128(); }
        if r < 0x8000_0000_0000_0000_0000_0000_0000_0000 {
            r as i128
        } else {
            i128::from_magnitude(true, (0xffff_ffff_ffff_ffff_ffff_ffff_ffff_ffff - r) + 1)
        }
    }

    fn less_than(self, other: i128) -> (r: bool) { self < other }
    fn plus(self, other: i128) -> (r: i128) { self + other }
    fn minus(self, other: i128) -> (r: i128) { self - other }
    fn times(self, other: i128) -> (r: i128) { self * other }
}

/// Whole-number types, totally ordered by value.
pub trait Integer: Number {}

/// Unsigned whole-number types.
pub trait UInt: Integer {
    proof fn lemma_min_is_zero()
        ensures
            Self::spec_min() == 0,
    ;
}

/// Signed whole-number types, with negation.
pub trait SInt: Integer {
    proof fn lemma_min_is_negative()
        ensures
            Self::spec_min() < 0,
    ;

    /// `-self`; the least value has no negation in its own type.
    fn negate(self) -> (r: Self)
        requires
            self.value() != Self::spec_min(),
        ensures
            r.value() == -self.value(),
    ;
}

impl Integer for u8 {}

impl UInt for u8 {
    proof fn lemma_min_is_zero() {}
}

impl Integer for i8 {}

impl SInt for i8 {
    proof fn lemma_min_is_negative() {}

    fn negate(self) -> (r: i8) {
        -self
    }
}

impl Integer for u16 {}

impl UInt for u16 {
    proof fn lemma_min_is_zero() {}
}

impl Integer for i16 {}

impl SInt for i16 {
    proof fn lemma_min_is_negative() {}

    fn negate(self) -> (r: i16) {
        -self
    }
}

impl Integer for u32 {}

impl UInt for u32 {
    proof fn lemma_min_is_zero() {}
}

impl Integer for i32 {}

impl SInt for i32 {
    proof fn lemma_min_is_negative() {}

    fn negate(self) -> (r: i32) {
        -self
    }
}

impl Integer for u64 {}

impl UInt for u64 {
    proof fn lemma_min_is_zero() {}
}

impl Integer for i64 {}

impl SInt for i64 {
    proof fn lemma_min_is_negative() {}

    fn negate(self) -> (r: i64) {
        -self
    }
}

impl Integer for u128 {}

impl UInt for u128 {
    proof fn lemma_min_is_zero() {}
}

impl Integer for i128 {}

impl SInt for i128 {
    proof fn lemma_min_is_negative() {}

    fn negate(self) -> (r: i128) {
        -self
    }
}

impl Integer for usize {}

impl UInt for usize {
    proof fn lemma_min_is_zero() {}
}

impl Integer for isize {}

impl SInt for isize {
    proof fn lemma_min_is_negative() {}

    fn negate(self) -> (r: isize) {
        -self
    }
}

/// The derived operations of every numeric type, in method form.
pub trait NumberOps: Number {
    /// `self + other`.
    fn add(self, other: Self) -> (r: Self)
        requires
            Self::spec_min() <= self.value() + other.value() <= Self::spec_max(),
        ensures
            r.value() == self.value() + other.value(),
    {
        self.plus(other)
    }

    /// `self - other`.
    fn sub(self, other: Self) -> (r: Self)
        requires
            Self::spec_min() <= self.value() - other.value() <= Self::spec_max(),
        ensures
            r.value() == self.value() - other.value(),
    {
        self.minus(other)
    }

    /// `self * other`.
    fn mul(self, other: Self) -> (r: Self)
        requires
            Self::spec_min() <= self.value() * other.value() <= Self::spec_max(),
        ensures
            r.value() == self.value() * other.value(),
    {
        self.times(other)
    }

    /// `self / other`, rounded toward zero.
    fn div(self, other: Self) -> (r: Self)
        requires
            other.value() != 0,
            trunc_div(self.value(), other.value()) <= Self::spec_max(),
        ensures
            r.value() == trunc_div(self.value(), other.value()),
    {
        quotient(self, other)
    }

    /// `self % other`, with the sign of `self`.
    fn rem(self, other: Self) -> (r: Self)
        requires
            other.value() != 0,
        ensures
            r.value() == trunc_rem(self.value(), other.value()),
    {
        remainder(self, other)
    }

    /// `self < 0`.
    fn is_negative(self) -> (r: bool)
        ensures
            r == (self.value() < 0),
    {
        is_negative(self)
    }

    /// Absolute value.
    fn module(self) -> (r: Self)
        requires
            self.value() != Self::spec_min() || Self::spec_min() == 0,
        ensures
            r.value() == abs(self.value()),
            r.value() >= 0,
            self.value() >= 0 ==> r.value() == self.value(),
    {
        module(self)
    }

    /// Greatest common divisor; 1 when either is zero.
    fn gcd(self, other: Self) -> (r: Self)
        requires
            self.value() != Self::spec_min() || other.value() != Self::spec_min() || Self::spec_min() == 0,
        ensures
            r.value() == gcd_spec(self.value(), other.value()),
    {
        gcd(self, other)
    }

    /// Least common multiple.
    fn lcm(self, other: Self) -> (r: Self)
        requires
            self.value() != Self::spec_min() || other.value() != Self::spec_min() || Self::spec_min() == 0,
            Self::spec_min() <= self.value() * other.value() <= Self::spec_max(),
            lcm_spec(self.value(), other.value()) <= Self::spec_max(),
        ensures
            r.value() == lcm_spec(self.value(), other.value()),
    {
        lcm(self, other)
    }

    /// `self` raised to the power `exp`.
    fn pow(self, exp: u32) -> (r: Self)
        requires
            Self::spec_min() <= power::pow(self.value(), exp as nat) <= Self::spec_max(),
        ensures
            r.value() == power::pow(self.value(), exp as nat),
    {
        pow(self, exp)
    }

    /// Integer logarithm of the widened value.
    fn ilog(self, base: Self) -> (r: u32)
        requires
            wide(base.value()) >= 2,
        ensures
            r == log(wide(base.value()), wide(self.value())),
    {
        ilog(self, base)
    }

    /// Base-2 logarithm of the widened value.
    fn ilog2(self) -> (r: u32)
        ensures
            r == log(2, wide(self.value())),
    {
        ilog2(self)
    }

    /// Base-10 logarithm of the widened value.
    fn ilog10(self) -> (r: u32)
        ensures
            r == log(10, wide(self.value())),
    {
        ilog10(self)
    }

    /// Number of leading zeros in the full-width bit pattern.
    fn leading_zeros(self) -> (r: u32)
        ensures
            r == leading_run(bits_msb(self), false),
    {
        leading_zeros(self)
    }

    /// Number of leading ones in the full-width bit pattern.
    fn leading_ones(self) -> (r: u32)
        ensures
            r == leading_run(bits_msb(self), true),
    {
        leading_ones(self)
    }

    /// Number of trailing zeros in the full-width bit pattern.
    fn trailing_zeros(self) -> (r: u32)
        ensures
            r == leading_run(bits_msb(self).reverse(), false),
    {
        trailing_zeros(self)
    }

    /// Number of trailing ones in the full-width bit pattern.
    fn trailing_ones(self) -> (r: u32)
        ensures
            r == leading_run(bits_msb(self).reverse(), true),
    {
        trailing_ones(self)
    }

    /// The value whose bit pattern is that of `self` reversed.
    fn reverse_bits(self) -> (r: Self)
        ensures
            pattern(r.value(), Self::spec_width())
                == reversed_pattern(pattern(self.value(), Self::spec_width()) as nat, Self::spec_width()),
    {
        reverse_bits(self)
    }

    /// The decimal digits of the magnitude, most significant first.
    fn digits(self) -> (r: Digits<Self>)
        ensures
            r.wf(),
            r.source() == self,
            r.remaining() == decimal_digits(abs(self.value()) as nat),
    {
        digits(self)
    }

    /// The bits of the full-width pattern, most significant first.
    fn bits(self) -> (r: Bits<Self>)
        ensures
            r.wf(),
            r.source() == self,
            r.remaining() == bits_msb(self).map_values(|b: bool| Bit::of_bool(b)),
            r.remaining().len() == Self::spec_width(),
    {
        bits(self)
    }
}

impl<T: Number> NumberOps for T {}

} // verus!
