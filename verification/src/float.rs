//! 32-bit IEEE 754 arithmetic on bit patterns.
//!
//! A pattern holds a sign in its top bit, an exponent field in the next
//! eight and a fraction in the low 23. With an exponent field of 0 the
//! value is `fraction * 2^-149`; with a field `e` from 1 to 254 it is
//! `(2^23 + fraction) * 2^(e - 150)`; a field of 255 marks the infinities
//! and the values that are not numbers. Results are rounded to the nearest
//! float, to the one with an even fraction where two are equally near.

use crate::ast::{BinOp, Float};
use crate::natural::{nat_digit, pow10, Natural};
use crate::rounding::{
    binade, finite_pattern, lemma_pow2_monotonic, lemma_pow2_positive, lemma_round_closed_form,
    lemma_round_scaled, nearest_even, pow2, round_ratio, round_units, times_pow10, times_pow2,
};
use crate::text::{digit_char, digit_to_char, push_text};
use vstd::prelude::*;

verus! {

/// Whether the sign bit is set.
pub open spec fn is_negative(bits: u32) -> bool {
    bits >= 0x8000_0000
}

/// The pattern without its sign.
pub open spec fn magnitude(bits: u32) -> nat {
    if bits >= 0x8000_0000 {
        (bits - 0x8000_0000) as nat
    } else {
        bits as nat
    }
}

/// Whether the exponent field is below 255.
pub open spec fn is_finite(bits: u32) -> bool {
    magnitude(bits) < 0x7F80_0000
}

/// Whether the pattern is no number: exponent field 255, fraction not 0.
pub open spec fn is_nan(bits: u32) -> bool {
    magnitude(bits) > 0x7F80_0000
}

/// Whether the pattern is that of `0.0` or `-0.0`.
pub open spec fn is_zero(bits: u32) -> bool {
    magnitude(bits) == 0
}

/// The whole number that the exponent scales.
pub open spec fn significand(bits: u32) -> nat {
    let m = magnitude(bits);
    if m < 0x80_0000 {
        m
    } else {
        0x80_0000 + m % 0x80_0000
    }
}

/// The power of two by which the significand counts units of 2^-149.
pub open spec fn scale(bits: u32) -> nat {
    let m = magnitude(bits);
    if m < 0x80_0000 {
        0
    } else {
        (m / 0x80_0000 - 1) as nat
    }
}

/// The magnitude of a finite float, in units of 2^-149.
pub open spec fn units(bits: u32) -> nat {
    significand(bits) * pow2(scale(bits))
}

/// The number that a finite float stands for, in units of 2^-149.
pub open spec fn signed_units(bits: u32) -> int {
    if is_negative(bits) {
        -(units(bits) as int)
    } else {
        units(bits) as int
    }
}

/// The pattern with the sign bit set if `negative`.
pub open spec fn with_sign(negative: bool, pattern: u32) -> u32 {
    if negative && pattern < 0x8000_0000 {
        (pattern + 0x8000_0000) as u32
    } else {
        pattern
    }
}

/// The pattern with the sign bit set if `negative`, where there is one.
pub open spec fn signed_pattern(negative: bool, pattern: Option<u32>) -> Option<u32> {
    match pattern {
        Some(p) => Some(with_sign(negative, p)),
        None => None,
    }
}

/// The same number with the opposite sign.
pub open spec fn negated(bits: u32) -> u32 {
    if bits >= 0x8000_0000 {
        (bits - 0x8000_0000) as u32
    } else {
        (bits + 0x8000_0000) as u32
    }
}

/// The pattern that stands for every result that is no number.
pub open spec fn canonical_nan() -> u32 {
    0x7FC0_0000
}

/// The pattern of an infinity.
pub open spec fn infinity(negative: bool) -> u32 {
    with_sign(negative, 0x7F80_0000)
}

/// The pattern with the sign, or the infinity of that sign where the
/// number is too large for any finite float.
pub open spec fn or_infinity(negative: bool, pattern: Option<u32>) -> u32 {
    match pattern {
        Some(p) => with_sign(negative, p),
        None => infinity(negative),
    }
}

/// The sum of two floats: of two numbers their exact sum, rounded; an
/// infinity where one operand is that infinity; no number where an
/// operand is none, or the operands are the two infinities. A sum of
/// zero is `-0.0` only where both operands are negative.
pub open spec fn sum_bits(a: u32, b: u32) -> u32 {
    if is_nan(a) || is_nan(b) {
        canonical_nan()
    } else if !is_finite(a) {
        if !is_finite(b) && is_negative(a) != is_negative(b) {
            canonical_nan()
        } else {
            a
        }
    } else if !is_finite(b) {
        b
    } else {
        let s = signed_units(a) + signed_units(b);
        if s == 0 {
            with_sign(is_negative(a) && is_negative(b), 0)
        } else if s < 0 {
            or_infinity(true, finite_pattern(round_units((-s) as nat, 1)))
        } else {
            or_infinity(false, finite_pattern(round_units(s as nat, 1)))
        }
    }
}

/// The difference of two floats: the sum of the first and the second
/// with its sign changed.
pub open spec fn difference_bits(a: u32, b: u32) -> u32 {
    sum_bits(a, negated(b))
}

/// The product of two floats: of two numbers their exact product,
/// rounded; an infinity where one operand is infinite and the other not
/// zero; no number where an operand is none, or one is infinite and the
/// other zero. The sign is negative where the signs of the operands differ.
pub open spec fn product_bits(a: u32, b: u32) -> u32 {
    let negative = is_negative(a) != is_negative(b);
    if is_nan(a) || is_nan(b) {
        canonical_nan()
    } else if !is_finite(a) || !is_finite(b) {
        if is_zero(a) || is_zero(b) {
            canonical_nan()
        } else {
            infinity(negative)
        }
    } else {
        or_infinity(
            negative,
            finite_pattern(
                round_units(
                    significand(a) * significand(b) * pow2(scale(a) + scale(b)),
                    pow2(149),
                ),
            ),
        )
    }
}

/// The quotient of two floats: of two numbers, the second not zero,
/// their exact quotient, rounded; an infinity where a number that is not
/// zero is divided by zero, or an infinity by a number; zero where a
/// number is divided by an infinity; no number where an operand is none,
/// or both are zero, or both infinite. The sign is negative where the
/// signs of the operands differ.
pub open spec fn quotient_bits(a: u32, b: u32) -> u32 {
    let negative = is_negative(a) != is_negative(b);
    if is_nan(a) || is_nan(b) {
        canonical_nan()
    } else if !is_finite(a) {
        if !is_finite(b) {
            canonical_nan()
        } else {
            infinity(negative)
        }
    } else if !is_finite(b) {
        with_sign(negative, 0)
    } else if is_zero(b) {
        if is_zero(a) {
            canonical_nan()
        } else {
            infinity(negative)
        }
    } else {
        or_infinity(
            negative,
            finite_pattern(
                round_units(
                    significand(a) * pow2(scale(a) + 149),
                    significand(b) * pow2(scale(b)),
                ),
            ),
        )
    }
}

/// The float nearest to `digits * 10^exp10`, where it is finite.
pub open spec fn literal_bits(digits: nat, exp10: int) -> Option<u32> {
    let up = if exp10 >= 0 {
        exp10 as nat
    } else {
        0
    };
    let down = if exp10 >= 0 {
        0
    } else {
        (-exp10) as nat
    };
    finite_pattern(round_units(digits * pow10(up) * pow2(149), pow10(down)))
}

/// Where a float stands among the others: patterns of one sign are in the
/// order of their magnitudes, and both zeros stand at 0.
pub open spec fn order_key(bits: u32) -> int {
    if is_negative(bits) {
        -(magnitude(bits) as int)
    } else {
        magnitude(bits) as int
    }
}

/// Whether two floats are equal: both numbers, and the same number.
pub open spec fn float_eq(a: u32, b: u32) -> bool {
    !is_nan(a) && !is_nan(b) && order_key(a) == order_key(b)
}

/// Whether `a` is less than `b`: both numbers, and `a` the smaller.
pub open spec fn float_lt(a: u32, b: u32) -> bool {
    !is_nan(a) && !is_nan(b) && order_key(a) < order_key(b)
}

/// What a relational operator gives for two floats. Anything compared with
/// a value that is not a number is unequal to it and unordered.
pub open spec fn float_compare(op: BinOp, a: u32, b: u32) -> bool {
    match op {
        BinOp::Eq => float_eq(a, b),
        BinOp::Ne => !float_eq(a, b),
        BinOp::Lt => float_lt(a, b),
        BinOp::Gt => float_lt(b, a),
        BinOp::Le => float_lt(a, b) || float_eq(a, b),
        BinOp::Ge => float_lt(b, a) || float_eq(a, b),
        _ => false,
    }
}

/// What an arithmetic operator gives for two floats. There is no
/// remainder of floats.
pub open spec fn float_arith(op: BinOp, a: u32, b: u32) -> Option<u32> {
    match op {
        BinOp::Add => Some(sum_bits(a, b)),
        BinOp::Sub => Some(difference_bits(a, b)),
        BinOp::Mul => Some(product_bits(a, b)),
        BinOp::Div => Some(quotient_bits(a, b)),
        _ => None,
    }
}

/// The power of five.
pub open spec fn pow5(n: nat) -> nat
    decreases n,
{
    if n == 0 {
        1
    } else {
        5 * pow5((n - 1) as nat)
    }
}

/// The magnitude of a finite float, in units of 10^-149. It is a whole
/// number, because 2^-149 is 5^149 units.
pub open spec fn decimal_units(bits: u32) -> nat {
    units(bits) * pow5(149)
}

/// The index of the first digit of `n` to write in front of the point:
/// the highest from `i` down that is not zero, and at least the one that
/// weighs one whole.
pub open spec fn first_digit(n: nat, i: int) -> int
    decreases i,
{
    if i <= 149 {
        149
    } else if nat_digit(n, i) != 0 {
        i
    } else {
        first_digit(n, i - 1)
    }
}

/// The index of the last digit of `n` to write behind the point: the
/// lowest from `i` up that is not zero, and at most the first behind the
/// point.
pub open spec fn last_digit(n: nat, i: int) -> int
    decreases 148 - i,
{
    if i >= 148 {
        148
    } else if nat_digit(n, i) != 0 {
        i
    } else {
        last_digit(n, i + 1)
    }
}

/// The digits of `n` from index `hi` down to index `lo`.
pub open spec fn digits_text(n: nat, hi: int, lo: int) -> Seq<char> {
    Seq::new((hi - lo + 1) as nat, |j: int| digit_char(nat_digit(n, hi - j) as int))
}

/// `-` for a pattern with the sign bit set.
pub open spec fn sign_text(bits: u32) -> Seq<char> {
    if is_negative(bits) {
        "-"@
    } else {
        ""@
    }
}

/// The decimal notation of a float: its exact value, with at least one
/// digit on each side of the point and no further zeros at either end;
/// `inf` for an infinity and `nan` for a value that is no number.
pub open spec fn float_text(bits: u32) -> Seq<char> {
    if is_nan(bits) {
        sign_text(bits) + "nan"@
    } else if !is_finite(bits) {
        sign_text(bits) + "inf"@
    } else {
        let n = decimal_units(bits);
        sign_text(bits) + digits_text(n, first_digit(n, 189), 149) + "."@ + digits_text(
            n,
            148,
            last_digit(n, 0),
        )
    }
}

/// Appends the digits of `n` from index `hi` down to index `lo`.
fn push_digits(out: &mut String, n: &Natural, hi: usize, lo: usize)
    requires
        n.wf(),
        lo <= hi,
    ensures
        final(out)@ == old(out)@ + digits_text(n@, hi as int, lo as int),
{
    let ghost want = digits_text(n@, hi as int, lo as int);
    let mut i: usize = hi;
    let mut done: usize = 0;
    assert(old(out)@ + want.take(0) =~= old(out)@);
    loop
        invariant_except_break
            lo <= i <= hi,
            done == hi - i,
            out@ == old(out)@ + want.take(done as int),
        invariant
            n.wf(),
            lo <= hi,
            want == digits_text(n@, hi as int, lo as int),
        ensures
            out@ == old(out)@ + want,
        decreases i,
    {
        let d = n.digit(i);
        out.push(digit_to_char(d));
        assert(want.take(done + 1) =~= want.take(done as int).push(want[done as int]));
        assert(out@ =~= old(out)@ + want.take(done + 1));
        if i == lo {
            assert(want.take(done + 1) =~= want);
            break;
        }
        i = i - 1;
        done = done + 1;
    }
}

/// `n` times `5^k`.
fn times_pow5(n: &Natural, k: u32) -> (r: Natural)
    requires
        n.wf(),
    ensures
        r.wf(),
        r@ == n@ * pow5(k as nat),
{
    let mut r = n.copy();
    let mut i: u32 = 0;
    assert(n@ * pow5(0) == n@) by (nonlinear_arith)
        requires
            pow5(0) == 1,
    ;
    while i < k
        invariant
            i <= k,
            r.wf(),
            r@ == n@ * pow5(i as nat),
        decreases k - i,
    {
        proof {
            assert(5 * (n@ * pow5(i as nat)) == n@ * (5 * pow5(i as nat))) by (nonlinear_arith);
        }
        r = r.mul_small(5);
        i = i + 1;
    }
    r
}

fn magnitude_of(bits: u32) -> (m: u32)
    ensures
        m == magnitude(bits),
        m < 0x8000_0000,
{
    if bits >= 0x8000_0000 {
        bits - 0x8000_0000
    } else {
        bits
    }
}

fn significand_of(bits: u32) -> (s: u32)
    ensures
        s == significand(bits),
        s < 0x100_0000,
{
    let m = magnitude_of(bits);
    if m < 0x80_0000 {
        m
    } else {
        0x80_0000 + m % 0x80_0000
    }
}

fn scale_of(bits: u32) -> (s: u32)
    ensures
        s == scale(bits),
        s <= 254,
{
    let m = magnitude_of(bits);
    if m < 0x80_0000 {
        0
    } else {
        m / 0x80_0000 - 1
    }
}

fn units_of(bits: u32) -> (u: Natural)
    ensures
        u.wf(),
        u@ == units(bits),
{
    times_pow2(&Natural::from_u64(significand_of(bits) as u64), scale_of(bits))
}

fn apply_sign(negative: bool, pattern: Option<u32>) -> (r: Option<Float>)
    requires
        pattern matches Some(p) ==> p < 0x7F80_0000,
    ensures
        bits_of(r) == signed_pattern(negative, pattern),
{
    match pattern {
        Some(p) => Some(
            Float {
                bits: if negative {
                    p + 0x8000_0000
                } else {
                    p
                },
            },
        ),
        None => None,
    }
}

fn or_infinite(negative: bool, pattern: Option<u32>) -> (r: Float)
    requires
        pattern matches Some(p) ==> p < 0x7F80_0000,
    ensures
        r.bits == or_infinity(negative, pattern),
{
    let p: u32 = match pattern {
        Some(p) => p,
        None => 0x7F80_0000,
    };
    Float {
        bits: if negative {
            p + 0x8000_0000
        } else {
            p
        },
    }
}

/// The bit pattern inside an optional float.
pub open spec fn bits_of(f: Option<Float>) -> Option<u32> {
    match f {
        Some(x) => Some(x.bits),
        None => None,
    }
}

impl Float {
    /// The float with the given bit pattern.
    pub fn from_bits(bits: u32) -> (f: Float)
        ensures
            f.bits == bits,
    {
        Float { bits }
    }

    /// The bit pattern of this float.
    pub fn to_bits(self) -> (bits: u32)
        ensures
            bits == self.bits,
    {
        self.bits
    }

    /// Whether this is `0.0` or `-0.0`.
    pub fn is_zero(self) -> (r: bool)
        ensures
            r == is_zero(self.bits),
    {
        magnitude_of(self.bits) == 0
    }

    /// Whether this is neither an infinity nor a value that is no number.
    pub fn is_finite(self) -> (r: bool)
        ensures
            r == is_finite(self.bits),
    {
        magnitude_of(self.bits) < 0x7F80_0000
    }

    /// Whether this is no number.
    pub fn is_nan(self) -> (r: bool)
        ensures
            r == is_nan(self.bits),
    {
        magnitude_of(self.bits) > 0x7F80_0000
    }

    /// Whether the sign bit is set.
    pub fn is_negative(self) -> (r: bool)
        ensures
            r == is_negative(self.bits),
    {
        self.bits >= 0x8000_0000
    }

    /// The same number with the opposite sign.
    pub fn negate(self) -> (r: Float)
        ensures
            r.bits == negated(self.bits),
    {
        if self.bits >= 0x8000_0000 {
            Float { bits: self.bits - 0x8000_0000 }
        } else {
            Float { bits: self.bits + 0x8000_0000 }
        }
    }

    fn order_key(self) -> (k: i64)
        ensures
            k == order_key(self.bits),
    {
        let m = magnitude_of(self.bits) as i64;
        if self.bits >= 0x8000_0000 {
            -m
        } else {
            m
        }
    }

    /// Appends the decimal notation of this float.
    pub fn push_text(self, out: &mut String)
        ensures
            final(out)@ == old(out)@ + float_text(self.bits),
    {
        if self.is_negative() {
            push_text(out, "-");
        } else {
            push_text(out, "");
        }
        assert(out@ == old(out)@ + sign_text(self.bits));
        if self.is_nan() {
            push_text(out, "nan");
            assert(out@ =~= old(out)@ + float_text(self.bits));
        } else if !self.is_finite() {
            push_text(out, "inf");
            assert(out@ =~= old(out)@ + float_text(self.bits));
        } else {
            let n = times_pow5(&units_of(self.bits), 149);
            let mut top: usize = 189;
            while top > 149 && n.digit(top) == 0
                invariant
                    149 <= top <= 189,
                    n.wf(),
                    first_digit(n@, top as int) == first_digit(n@, 189),
                decreases top,
            {
                top = top - 1;
            }
            let mut bottom: usize = 0;
            while bottom < 148 && n.digit(bottom) == 0
                invariant
                    bottom <= 148,
                    n.wf(),
                    last_digit(n@, bottom as int) == last_digit(n@, 0),
                decreases 148 - bottom,
            {
                bottom = bottom + 1;
            }
            push_digits(out, &n, top, 149);
            push_text(out, ".");
            push_digits(out, &n, 148, bottom);
            assert(out@ =~= old(out)@ + float_text(self.bits));
        }
    }

    /// The decimal notation of this float.
    pub fn to_string(self) -> (s: String)
        ensures
            s@ == float_text(self.bits),
    {
        let mut s = String::new();
        self.push_text(&mut s);
        assert(s@ =~= float_text(self.bits));
        s
    }

    /// What the relational operator `op` gives for `self` and `other`.
    pub fn compare(self, op: BinOp, other: Float) -> (r: bool)
        ensures
            r == float_compare(op, self.bits, other.bits),
    {
        let ordered = !self.is_nan() && !other.is_nan();
        let a = self.order_key();
        let b = other.order_key();
        match op {
            BinOp::Eq => ordered && a == b,
            BinOp::Ne => !(ordered && a == b),
            BinOp::Lt => ordered && a < b,
            BinOp::Gt => ordered && b < a,
            BinOp::Le => ordered && a <= b,
            BinOp::Ge => ordered && b <= a,
            _ => false,
        }
    }

    /// The sum of this float and `other`.
    pub fn sum(self, other: Float) -> (r: Float)
        ensures
            r.bits == sum_bits(self.bits, other.bits),
    {
        if self.is_nan() || other.is_nan() {
            return Float { bits: 0x7FC0_0000 };
        }
        if !self.is_finite() {
            if !other.is_finite() && self.is_negative() != other.is_negative() {
                return Float { bits: 0x7FC0_0000 };
            }
            return self;
        }
        if !other.is_finite() {
            return other;
        }
        let ua = units_of(self.bits);
        let ub = units_of(other.bits);
        let one = Natural::from_u64(1);
        let neg_a = self.is_negative();
        let neg_b = other.is_negative();
        if neg_a == neg_b {
            let s = ua.add(&ub);
            if s.is_zero() {
                or_infinite(neg_a, Some(0))
            } else {
                or_infinite(neg_a, round_ratio(&s, &one))
            }
        } else {
            match ua.sub_if_ge(&ub) {
                Some(d) => {
                    if d.is_zero() {
                        or_infinite(false, Some(0))
                    } else {
                        or_infinite(neg_a, round_ratio(&d, &one))
                    }
                },
                None => match ub.sub_if_ge(&ua) {
                    Some(d) => or_infinite(neg_b, round_ratio(&d, &one)),
                    None => Float { bits: 0 },
                },
            }
        }
    }

    /// The difference of this float and `other`.
    pub fn difference(self, other: Float) -> (r: Float)
        ensures
            r.bits == difference_bits(self.bits, other.bits),
    {
        self.sum(other.negate())
    }

    /// The product of this float and `other`.
    pub fn product(self, other: Float) -> (r: Float)
        ensures
            r.bits == product_bits(self.bits, other.bits),
    {
        let negative = self.is_negative() != other.is_negative();
        if self.is_nan() || other.is_nan() {
            return Float { bits: 0x7FC0_0000 };
        }
        if !self.is_finite() || !other.is_finite() {
            if self.is_zero() || other.is_zero() {
                return Float { bits: 0x7FC0_0000 };
            }
            return or_infinite(negative, None);
        }
        let sa = significand_of(self.bits) as u64;
        let sb = significand_of(other.bits) as u64;
        assert(sa * sb < 0x1_0000_0000_0000) by (nonlinear_arith)
            requires
                sa < 0x100_0000,
                sb < 0x100_0000,
        ;
        let num = times_pow2(
            &Natural::from_u64(sa * sb),
            scale_of(self.bits) + scale_of(other.bits),
        );
        let den = times_pow2(&Natural::from_u64(1), 149);
        proof {
            lemma_pow2_positive(149);
            assert(1 * pow2(149) == pow2(149));
        }
        or_infinite(negative, round_ratio(&num, &den))
    }

    /// The quotient of this float and `other`.
    pub fn quotient(self, other: Float) -> (r: Float)
        ensures
            r.bits == quotient_bits(self.bits, other.bits),
    {
        let negative = self.is_negative() != other.is_negative();
        if self.is_nan() || other.is_nan() {
            return Float { bits: 0x7FC0_0000 };
        }
        if !self.is_finite() {
            if !other.is_finite() {
                return Float { bits: 0x7FC0_0000 };
            }
            return or_infinite(negative, None);
        }
        if !other.is_finite() {
            return or_infinite(negative, Some(0));
        }
        if other.is_zero() {
            if self.is_zero() {
                return Float { bits: 0x7FC0_0000 };
            }
            return or_infinite(negative, None);
        }
        let num = times_pow2(
            &Natural::from_u64(significand_of(self.bits) as u64),
            scale_of(self.bits) + 149,
        );
        let den = units_of(other.bits);
        proof {
            lemma_pow2_positive(scale(other.bits));
            assert(significand(other.bits) * pow2(scale(other.bits)) > 0) by (nonlinear_arith)
                requires
                    significand(other.bits) > 0,
                    pow2(scale(other.bits)) > 0,
            ;
        }
        or_infinite(negative, round_ratio(&num, &den))
    }

    /// What the arithmetic operator `op` gives; nothing for an operator
    /// that is not one of `+ - * /`.
    pub fn arith(self, op: BinOp, other: Float) -> (r: Option<Float>)
        ensures
            bits_of(r) == float_arith(op, self.bits, other.bits),
    {
        match op {
            BinOp::Add => Some(self.sum(other)),
            BinOp::Sub => Some(self.difference(other)),
            BinOp::Mul => Some(self.product(other)),
            BinOp::Div => Some(self.quotient(other)),
            _ => None,
        }
    }

    /// The float nearest to the number that a decimal literal denotes,
    /// where it is finite: `digits` are the digits of the literal without
    /// the point, `frac_len` of them behind the point, and `exp` is the
    /// exponent without its sign.
    pub fn from_literal(digits: &Natural, frac_len: usize, exp_negative: bool, exp: &Natural) -> (r:
        Option<Float>)
        requires
            digits.wf(),
            exp.wf(),
        ensures
            bits_of(r) == literal_bits(digits@, literal_exponent(frac_len, exp_negative, exp@)),
    {
        let ghost e10 = literal_exponent(frac_len, exp_negative, exp@);
        let one = Natural::from_u64(1);
        if digits.is_zero() {
            proof {
                lemma_literal_zero(e10);
            }
            return Some(Float { bits: 0 });
        }
        let x = exp.to_u128();
        let count = digits.len();
        proof {
            crate::natural::lemma_pow10_30();
            digits.lemma_bound();
        }
        if exp_negative {
            let near = match x {
                None => None,
                Some(v) => if v >= count as u128 + 46 {
                    None
                } else {
                    Some(v)
                },
            };
            match near {
                None => {
                    proof {
                        lemma_literal_underflow(digits@, count as nat, frac_len as nat, exp@);
                    }
                    Some(Float { bits: 0 })
                },
                Some(v) => {
                    let num = times_pow2(digits, 149);
                    let den = times_pow10(&one, v + frac_len as u128);
                    proof {
                        crate::natural::lemma_pow10_positive((v + frac_len) as nat);
                        assert(1 * pow10((v + frac_len) as nat) == pow10((v + frac_len) as nat));
                        assert(digits@ * pow10(0) * pow2(149) == digits@ * pow2(149))
                            by (nonlinear_arith)
                            requires
                                pow10(0) == 1,
                        ;
                        assert(e10 == -((v + frac_len) as int));
                    }
                    apply_sign(false, round_ratio(&num, &den))
                },
            }
        } else {
            let near = match x {
                None => None,
                Some(v) => if v >= frac_len as u128 + 39 {
                    None
                } else {
                    Some(v)
                },
            };
            match near {
                None => {
                    proof {
                        lemma_literal_overflow(digits@, frac_len as nat, exp@);
                    }
                    None
                },
                Some(v) => {
                    if v >= frac_len as u128 {
                        let scaled = times_pow10(digits, v - frac_len as u128);
                        let num = times_pow2(&scaled, 149);
                        assert(pow10(0) == 1);
                        assert(e10 == v - frac_len);
                        apply_sign(false, round_ratio(&num, &one))
                    } else {
                        let num = times_pow2(digits, 149);
                        let den = times_pow10(&one, frac_len as u128 - v);
                        proof {
                            crate::natural::lemma_pow10_positive((frac_len - v) as nat);
                            let down = (frac_len - v) as nat;
                            assert(1 * pow10(down) == pow10(down));
                            assert(digits@ * pow10(0) * pow2(149) == digits@ * pow2(149))
                                by (nonlinear_arith)
                                requires
                                    pow10(0) == 1,
                            ;
                            assert(e10 == -((frac_len - v) as int));
                        }
                        apply_sign(false, round_ratio(&num, &den))
                    }
                },
            }
        }
    }
}

/// Among the floats of one sign, the pattern with the larger magnitude
/// stands for the larger number.
pub proof fn lemma_units_monotonic(a: u32, b: u32)
    requires
        magnitude(a) < magnitude(b),
    ensures
        units(a) < units(b),
{
    let ma = magnitude(a);
    let mb = magnitude(b);
    lemma_pow2_positive(scale(a));
    lemma_pow2_positive(scale(b));
    if ma / 0x80_0000 == mb / 0x80_0000 {
        if ma >= 0x80_0000 {
            assert(significand(a) * pow2(scale(a)) < significand(b) * pow2(scale(a)))
                by (nonlinear_arith)
                requires
                    significand(a) < significand(b),
                    pow2(scale(a)) > 0,
            ;
        } else {
            assert(pow2(0) == 1);
            assert(ma * 1 == ma && mb * 1 == mb);
        }
    } else {
        let bound = 8388608 * pow2(scale(b));
        assert(units(b) >= bound) by (nonlinear_arith)
            requires
                units(b) == significand(b) * pow2(scale(b)),
                bound == 8388608 * pow2(scale(b)),
                significand(b) >= 8388608,
                pow2(scale(b)) >= 0,
        ;
        if ma < 0x80_0000 {
            assert(pow2(0) == 1);
            assert(units(a) == ma) by (nonlinear_arith)
                requires
                    units(a) == ma * 1,
            ;
            assert(bound >= 8388608) by (nonlinear_arith)
                requires
                    bound == 8388608 * pow2(scale(b)),
                    pow2(scale(b)) >= 1,
            ;
        } else {
            lemma_pow2_monotonic(scale(a) + 1, scale(b));
            assert(units(a) < bound) by (nonlinear_arith)
                requires
                    units(a) == significand(a) * pow2(scale(a)),
                    significand(a) < 16777216,
                    pow2(scale(a)) > 0,
                    bound == 8388608 * pow2(scale(b)),
                    pow2(scale(b)) >= pow2(scale(a) + 1),
                    pow2(scale(a) + 1) == 2 * pow2(scale(a)),
            ;
        }
    }
}

/// Only the zeros stand for zero.
pub proof fn lemma_units_zero(a: u32)
    ensures
        units(a) == 0 <==> is_zero(a),
{
    if magnitude(a) > 0 {
        lemma_units_monotonic(0, a);
    } else {
        assert(units(a) == 0) by (nonlinear_arith)
            requires
                units(a) == 0 * pow2(scale(a)),
        ;
    }
}

/// The order of floats is the order of the numbers that they stand for,
/// and floats are equal where those numbers are.
pub proof fn lemma_order_is_numeric(a: u32, b: u32)
    requires
        !is_nan(a),
        !is_nan(b),
    ensures
        float_lt(a, b) <==> signed_units(a) < signed_units(b),
        float_eq(a, b) <==> signed_units(a) == signed_units(b),
{
    lemma_units_zero(a);
    lemma_units_zero(b);
    if magnitude(a) < magnitude(b) {
        lemma_units_monotonic(a, b);
    } else if magnitude(b) < magnitude(a) {
        lemma_units_monotonic(b, a);
    } else {
        assert(units(a) == units(b));
    }
}

/// How far apart two numbers are.
pub open spec fn distance(a: nat, b: nat) -> nat {
    if a >= b {
        (a - b) as nat
    } else {
        (b - a) as nat
    }
}

/// The pattern `k * 2^23 + n` stands for `n * 2^k`, where `n` has 24 bits
/// or `k` is zero.
proof fn lemma_pattern_units(k: nat, n: nat, a: u32)
    requires
        n <= 16777216,
        k > 0 ==> n >= 8388608,
        a == k * 8388608 + n,
        a < 0x8000_0000,
    ensures
        units(a) == n * pow2(k),
{
    let m = magnitude(a);
    assert(m == k * 8388608 + n);
    assert(pow2(0) == 1);
    if n < 8388608 {
        assert(k == 0);
        assert(n * pow2(0) == n) by (nonlinear_arith)
            requires
                pow2(0) == 1,
        ;
        assert(m * pow2(0) == m) by (nonlinear_arith)
            requires
                pow2(0) == 1,
        ;
    } else if n < 16777216 {
        vstd::arithmetic::div_mod::lemma_fundamental_div_mod_converse(
            m as int,
            8388608,
            (k + 1) as int,
            (n - 8388608) as int,
        );
        assert(significand(a) == n);
        assert(scale(a) == k);
    } else {
        vstd::arithmetic::div_mod::lemma_fundamental_div_mod_converse(
            m as int,
            8388608,
            (k + 2) as int,
            0,
        );
        assert(significand(a) == 8388608);
        assert(scale(a) == k + 1);
        assert(8388608 * pow2(k + 1) == 16777216 * pow2(k)) by (nonlinear_arith)
            requires
                pow2(k + 1) == 2 * pow2(k),
        ;
    }
}

/// Among the floats of one sign, a pattern that is no smaller stands for
/// a number that is no smaller.
proof fn lemma_units_ordered(a: u32, b: u32)
    requires
        magnitude(a) <= magnitude(b),
    ensures
        units(a) <= units(b),
{
    if magnitude(a) < magnitude(b) {
        lemma_units_monotonic(a, b);
    }
}

/// The floats on either side of `num / den` units: the pattern of the
/// one below, what it stands for, and how far the number is above it.
pub struct Bracket {
    /// The pattern of the nearest float that is no larger.
    pub below: nat,
    /// What that float stands for, times `den`.
    pub low: nat,
    /// From there to what the next pattern stands for, times `den`.
    pub gap: nat,
    /// From there to `num`.
    pub rest: nat,
}

/// The bracket of `num / den` units.
pub open spec fn bracket(num: nat, den: nat) -> Bracket {
    let k = binade(num, den);
    let d = den * pow2(k);
    Bracket {
        below: k * 8388608 + num / d,
        low: (num / d) * d,
        gap: d,
        rest: num % d,
    }
}

/// `num / den` lies between the float below it and the next one, and is
/// rounded to one of the two: to the upper one if that is nearer, or as
/// near and even.
proof fn lemma_bracket(num: nat, den: nat)
    requires
        den > 0,
    ensures
        ({
            let b = bracket(num, den);
            let up = 2 * b.rest > b.gap || (2 * b.rest == b.gap && b.below % 2 == 1);
            &&& num == b.low + b.rest
            &&& b.rest < b.gap
            &&& round_units(num, den) == if up {
                b.below + 1
            } else {
                b.below
            }
            &&& b.below < 0x8000_0000 ==> units(b.below as u32) * den == b.low
            &&& b.below + 1 < 0x8000_0000 ==> units((b.below + 1) as u32) * den == b.low + b.gap
        }),
{
    lemma_round_closed_form(num, den);
    let k = binade(num, den);
    let d = den * pow2(k);
    let n = num / d;
    let rem = num % d;
    let low = n * d;
    vstd::arithmetic::div_mod::lemma_fundamental_div_mod(num as int, d as int);
    assert(d * n == low) by (nonlinear_arith)
        requires
            low == n * d,
    ;
    assert(n < 16777216) by (nonlinear_arith)
        requires
            num == low + rem,
            low == n * d,
            num < 16777216 * d,
            d > 0,
    ;
    if k > 0 {
        assert(n >= 8388608) by (nonlinear_arith)
            requires
                num == low + rem,
                low == n * d,
                rem < d,
                num >= 8388608 * d,
                d > 0,
        ;
    }
    let below = k * 8388608 + n;
    assert((k * 8388608 + n) % 2 == n % 2) by {
        assert(k * 8388608 == 2 * (k * 4194304));
    }
    if below < 0x8000_0000 {
        lemma_pattern_units(k, n, below as u32);
        assert(units(below as u32) * den == low) by (nonlinear_arith)
            requires
                units(below as u32) == n * pow2(k),
                d == den * pow2(k),
                low == n * d,
        ;
    }
    if below + 1 < 0x8000_0000 {
        lemma_pattern_units(k, n + 1, (below + 1) as u32);
        assert(units((below + 1) as u32) * den == low + d) by (nonlinear_arith)
            requires
                units((below + 1) as u32) == (n + 1) * pow2(k),
                d == den * pow2(k),
                low == n * d,
        ;
    }
}

/// A float at or below the lower float of a bracket stands for no more
/// than it; one at or above the upper float for no less.
proof fn lemma_outside_bracket(num: nat, den: nat, m: u32)
    requires
        den > 0,
        !is_negative(m),
        bracket(num, den).below + 1 < 0x8000_0000,
    ensures
        ({
            let b = bracket(num, den);
            &&& m <= b.below ==> units(m) * den <= b.low
            &&& m < b.below ==> units(m) * den < b.low
            &&& m > b.below ==> units(m) * den >= b.low + b.gap
            &&& m > b.below + 1 ==> units(m) * den > b.low + b.gap
        }),
{
    lemma_bracket(num, den);
    let b = bracket(num, den);
    let lower = b.below as u32;
    let upper = (b.below + 1) as u32;
    if m <= b.below {
        lemma_units_ordered(m, lower);
        assert(units(m) * den <= units(lower) * den) by (nonlinear_arith)
            requires
                units(m) <= units(lower),
                den > 0,
        ;
        if m < b.below {
            lemma_units_monotonic(m, lower);
            assert(units(m) * den < units(lower) * den) by (nonlinear_arith)
                requires
                    units(m) < units(lower),
                    den > 0,
            ;
        }
    } else {
        lemma_units_ordered(upper, m);
        assert(units(m) * den >= units(upper) * den) by (nonlinear_arith)
            requires
                units(m) >= units(upper),
                den > 0,
        ;
        if m > b.below + 1 {
            lemma_units_monotonic(upper, m);
            assert(units(m) * den > units(upper) * den) by (nonlinear_arith)
                requires
                    units(m) > units(upper),
                    den > 0,
            ;
        }
    }
}

/// Rounding is to the nearest float: no float is nearer to `num / den`
/// units than the one whose pattern `round_units` gives. Where two
/// floats are equally near, it gives the one with the even pattern.
pub proof fn lemma_round_is_nearest(num: nat, den: nat, m: u32)
    requires
        den > 0,
        round_units(num, den) < 0x8000_0000,
        !is_negative(m),
    ensures
        ({
            let r = round_units(num, den) as u32;
            &&& distance(num, units(r) * den) <= distance(num, units(m) * den)
            &&& distance(num, units(r) * den) == distance(num, units(m) * den) && m != r ==> r
                % 2 == 0
        }),
{
    lemma_bracket(num, den);
    let b = bracket(num, den);
    let r = round_units(num, den) as u32;
    let up = 2 * b.rest > b.gap || (2 * b.rest == b.gap && b.below % 2 == 1);
    let there = units(m) * den;
    let here = units(r) * den;
    if b.below + 1 < 0x8000_0000 {
        lemma_outside_bracket(num, den, m);
        assert(here == if up {
            b.low + b.gap
        } else {
            b.low
        });
    } else {
        // The upper float of the bracket is no float that `m` could be.
        assert(!up);
        assert(m <= b.below);
        lemma_units_ordered(m, b.below as u32);
        assert(units(m) * den <= units(b.below as u32) * den) by (nonlinear_arith)
            requires
                units(m) <= units(b.below as u32),
                den > 0,
        ;
        if m < b.below {
            lemma_units_monotonic(m, b.below as u32);
            assert(units(m) * den < units(b.below as u32) * den) by (nonlinear_arith)
                requires
                    units(m) < units(b.below as u32),
                    den > 0,
            ;
        }
    }
}

/// A finite float, taken as an exact number and rounded, is itself.
pub proof fn lemma_round_exact(a: u32)
    requires
        is_finite(a),
    ensures
        round_units(units(a), 1) == magnitude(a),
{
    let m = magnitude(a);
    assert(pow2(0) == 1);
    if m < 0x80_0000 {
        assert(units(a) == m) by (nonlinear_arith)
            requires
                units(a) == m * 1,
        ;
    } else {
        lemma_round_scaled(significand(a), scale(a), 0);
    }
}

proof fn lemma_pow2_pow5(n: nat)
    ensures
        pow2(n) * pow5(n) == pow10(n),
    decreases n,
{
    if n > 0 {
        lemma_pow2_pow5((n - 1) as nat);
        let a = pow2((n - 1) as nat);
        let b = pow5((n - 1) as nat);
        assert((2 * a) * (5 * b) == 10 * (a * b)) by (nonlinear_arith);
    } else {
        assert(pow2(0) * pow5(0) == pow10(0)) by (nonlinear_arith)
            requires
                pow2(0) == 1,
                pow5(0) == 1,
                pow10(0) == 1,
        ;
    }
}

/// The decimal units of a finite float have fewer than 190 digits.
proof fn lemma_decimal_units_bound(a: u32)
    requires
        is_finite(a),
    ensures
        decimal_units(a) < pow10(188),
{
    let sig = significand(a);
    let sc = scale(a);
    lemma_range_constants();
    lemma_pow2_monotonic(sc, 253);
    lemma_pow2_positive(sc);
    crate::rounding::lemma_pow2_24();
    crate::rounding::lemma_pow2_adds(24, 253);
    crate::rounding::lemma_pow2_adds(128, 149);
    crate::rounding::lemma_pow2_adds(128, 1);
    assert(pow2(1) == 2) by {
        reveal_with_fuel(pow2, 2);
    }
    lemma_pow2_pow5(149);
    crate::natural::lemma_pow10_adds(39, 149);
    lemma_pow2_positive(128);
    let p5 = pow5(149);
    assert(units(a) < pow2(277)) by (nonlinear_arith)
        requires
            units(a) == sig * pow2(sc),
            sig < 16777216,
            0 < pow2(sc) <= pow2(253),
            pow2(277) == 16777216 * pow2(253),
    ;
    assert(p5 > 0) by {
        crate::natural::lemma_pow10_positive(149);
        assert(pow2(149) * p5 == pow10(149));
        if p5 == 0 {
            assert(pow2(149) * p5 == 0) by (nonlinear_arith)
                requires
                    p5 == 0,
            ;
        }
    }
    assert(units(a) * p5 < pow2(277) * p5) by (nonlinear_arith)
        requires
            units(a) < pow2(277),
            p5 > 0,
    ;
    assert(pow2(277) * p5 == pow2(128) * pow10(149)) by (nonlinear_arith)
        requires
            pow2(277) == pow2(128) * pow2(149),
            pow2(149) * p5 == pow10(149),
    ;
    assert(pow2(128) * pow10(149) < pow10(39) * pow10(149)) by (nonlinear_arith)
        requires
            pow2(128) < pow10(39),
            pow10(149) > 0,
    ;
}

proof fn lemma_above_first_digit(n: nat, top: int, i: int)
    requires
        first_digit(n, top) < i <= top,
    ensures
        nat_digit(n, i) == 0,
    decreases top,
{
    if top > 149 && nat_digit(n, top) == 0 && i < top {
        lemma_above_first_digit(n, top - 1, i);
    }
}

proof fn lemma_below_last_digit(n: nat, bottom: int, i: int)
    requires
        0 <= bottom <= i < last_digit(n, bottom),
    ensures
        nat_digit(n, i) == 0,
    decreases 148 - bottom,
{
    if bottom < 148 && nat_digit(n, bottom) == 0 && i > bottom {
        lemma_below_last_digit(n, bottom + 1, i);
    }
}

/// The text of a finite float is its exact value: every digit that is
/// not written, in front of the first or behind the last, is a zero.
pub proof fn lemma_text_is_exact(a: u32, i: int)
    requires
        is_finite(a),
        i >= 0,
        i > first_digit(decimal_units(a), 189) || i < last_digit(decimal_units(a), 0),
    ensures
        nat_digit(decimal_units(a), i) == 0,
{
    let n = decimal_units(a);
    if i < last_digit(n, 0) {
        lemma_below_last_digit(n, 0, i);
    } else if i <= 189 {
        lemma_above_first_digit(n, 189, i);
    } else {
        lemma_decimal_units_bound(a);
        crate::natural::lemma_pow10_monotonic(188, i as nat);
        vstd::arithmetic::div_mod::lemma_fundamental_div_mod_converse(
            n as int,
            pow10(i as nat) as int,
            0,
            n as int,
        );
    }
}

/// The power of ten that scales the digits of a literal: its exponent,
/// less the number of digits behind the point.
pub open spec fn literal_exponent(frac_len: usize, exp_negative: bool, exp: nat) -> int {
    if exp_negative {
        -(exp as int) - frac_len
    } else {
        exp as int - frac_len
    }
}

proof fn lemma_mul_le(a: nat, b: nat, c: nat)
    requires
        a <= b,
    ensures
        a * c <= b * c,
        c * a <= c * b,
{
    assert(a * c <= b * c) by (nonlinear_arith)
        requires
            a <= b,
    ;
    assert(c * a <= c * b) by (nonlinear_arith)
        requires
            a <= b,
    ;
}

proof fn lemma_literal_zero(exp10: int)
    ensures
        literal_bits(0, exp10) == Some(0u32),
{
    let up = if exp10 >= 0 {
        exp10 as nat
    } else {
        0
    };
    let down = if exp10 >= 0 {
        0
    } else {
        (-exp10) as nat
    };
    assert(0 * pow10(up) * pow2(149) == 0) by (nonlinear_arith);
    crate::natural::lemma_pow10_positive(down);
    crate::rounding::lemma_round_underflow(0, pow10(down));
}

/// The powers of two and ten between which the range of floats lies.
proof fn lemma_range_constants()
    ensures
        pow2(129) == 680564733841876926926749214863536422912nat,
        pow2(149) == 713623846352979940529142984724747568191373312nat,
        pow10(39) == 1000000000000000000000000000000000000000nat,
        pow10(46) == 10000000000000000000000000000000000000000000000nat,
{
    assert(pow2(30) == 1073741824nat) by {
        reveal_with_fuel(pow2, 31);
    }
    assert(pow2(29) == 536870912nat) by {
        reveal_with_fuel(pow2, 30);
    }
    assert(pow2(9) == 512nat) by {
        reveal_with_fuel(pow2, 10);
    }
    assert(pow10(10) == 10000000000nat) by {
        reveal_with_fuel(pow10, 11);
    }
    assert(pow10(6) == 1000000nat) by {
        reveal_with_fuel(pow10, 7);
    }
    crate::rounding::lemma_pow2_adds(30, 30);
    assert(pow2(60) == 1152921504606846976nat);
    crate::rounding::lemma_pow2_adds(60, 60);
    assert(pow2(120) == 1329227995784915872903807060280344576nat);
    crate::rounding::lemma_pow2_adds(120, 9);
    crate::rounding::lemma_pow2_adds(120, 29);
    crate::natural::lemma_pow10_adds(10, 10);
    assert(pow10(20) == 100000000000000000000nat);
    crate::natural::lemma_pow10_adds(20, 20);
    assert(pow10(40) == 10000000000000000000000000000000000000000nat);
    assert(pow10(40) == 10 * pow10(39));
    crate::natural::lemma_pow10_adds(40, 6);
}

/// A literal of `count` digits with an exponent of `-exp`, where `exp`
/// is at least `count + 46`, is below half the smallest float.
proof fn lemma_literal_underflow(digits: nat, count: nat, frac_len: nat, exp: nat)
    requires
        digits < pow10(count),
        exp >= count + 46,
        frac_len <= usize::MAX,
    ensures
        literal_bits(digits, literal_exponent(frac_len as usize, true, exp)) == Some(0u32),
{
    let den = pow10(exp + frac_len);
    let num = digits * pow2(149);
    lemma_range_constants();
    assert(2 * pow2(149) < pow10(46));
    assert(digits * pow10(0) * pow2(149) == num) by (nonlinear_arith)
        requires
            pow10(0) == 1,
            num == digits * pow2(149),
    ;
    crate::natural::lemma_pow10_adds(count, 46);
    crate::natural::lemma_pow10_monotonic(count + 46, exp + frac_len);
    crate::natural::lemma_pow10_positive(count);
    assert(2 * num == digits * (2 * pow2(149))) by (nonlinear_arith)
        requires
            num == digits * pow2(149),
    ;
    lemma_mul_le(digits, pow10(count), 2 * pow2(149));
    assert(pow10(count) * (2 * pow2(149)) < pow10(count) * pow10(46)) by (nonlinear_arith)
        requires
            2 * pow2(149) < pow10(46),
            pow10(count) > 0,
    ;
    crate::rounding::lemma_round_underflow(num, den);
}

/// A literal that is not zero, with at least 39 more in its exponent than
/// digits behind the point, is beyond the largest float.
proof fn lemma_literal_overflow(digits: nat, frac_len: nat, exp: nat)
    requires
        digits >= 1,
        exp >= frac_len + 39,
        frac_len <= usize::MAX,
    ensures
        literal_bits(digits, literal_exponent(frac_len as usize, false, exp)) == None::<u32>,
{
    let e = (exp - frac_len) as nat;
    let num = digits * pow10(e) * pow2(149);
    lemma_range_constants();
    assert(pow2(129) <= pow10(39));
    assert(pow10(0) == 1);
    crate::rounding::lemma_pow2_24();
    crate::rounding::lemma_pow2_adds(24, 254);
    crate::rounding::lemma_pow2_adds(129, 149);
    crate::natural::lemma_pow10_monotonic(39, e);
    crate::natural::lemma_pow10_positive(e);
    lemma_mul_le(pow2(129), pow10(e), pow2(149));
    assert(pow10(e) <= digits * pow10(e)) by (nonlinear_arith)
        requires
            digits >= 1,
            pow10(e) >= 0,
    ;
    lemma_mul_le(pow10(e), digits * pow10(e), pow2(149));
    assert(pow2(254) * 1 == pow2(254));
    crate::rounding::lemma_round_overflow(num, 1, 254);
}

} // verus!
