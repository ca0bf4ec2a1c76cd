//! Natural numbers of any size, held as decimal digits.
//!
//! The arithmetic of 32-bit floating point numbers is exact only over
//! numbers far wider than a machine word: the smallest float is 2^-149, the
//! largest just under 2^128. The operations here are the few that rounding
//! needs: multiplying by a digit, adding, and subtracting with a comparison.

use vstd::arithmetic::div_mod::lemma_fundamental_div_mod_converse;
use vstd::prelude::*;

verus! {

/// The power of ten.
pub open spec fn pow10(n: nat) -> nat
    decreases n,
{
    if n == 0 {
        1
    } else {
        10 * pow10((n - 1) as nat)
    }
}

/// The digit at index `i`, least significant first; 0 past the end.
pub open spec fn digit_at(s: Seq<u8>, i: int) -> nat {
    if 0 <= i < s.len() {
        s[i] as nat
    } else {
        0
    }
}

/// The number that the first `n` digits of `s` denote: digit `i` weighs `10^i`.
pub open spec fn prefix_value(s: Seq<u8>, n: nat) -> nat
    decreases n,
{
    if n == 0 {
        0
    } else {
        prefix_value(s, (n - 1) as nat) + digit_at(s, n - 1) * pow10((n - 1) as nat)
    }
}

/// Whether every element is a decimal digit.
pub open spec fn all_digits(s: Seq<u8>) -> bool {
    forall|i: int| 0 <= i < s.len() ==> #[trigger] s[i] < 10
}

/// A power of ten is positive.
pub proof fn lemma_pow10_positive(n: nat)
    ensures
        pow10(n) > 0,
    decreases n,
{
    if n > 0 {
        lemma_pow10_positive((n - 1) as nat);
    }
}

/// A larger exponent gives no smaller power of ten.
pub proof fn lemma_pow10_monotonic(a: nat, b: nat)
    requires
        a <= b,
    ensures
        pow10(a) <= pow10(b),
    decreases b,
{
    if a < b {
        lemma_pow10_monotonic(a, (b - 1) as nat);
    }
}

/// Appending a digit leaves the value of the digits before it unchanged.
pub proof fn lemma_prefix_push(s: Seq<u8>, d: u8, n: nat)
    requires
        n <= s.len(),
    ensures
        prefix_value(s.push(d), n) == prefix_value(s, n),
    decreases n,
{
    if n > 0 {
        lemma_prefix_push(s, d, (n - 1) as nat);
    }
}

/// `n` decimal digits denote a number below `10^n`.
pub proof fn lemma_prefix_bound(s: Seq<u8>, n: nat)
    requires
        all_digits(s),
    ensures
        prefix_value(s, n) < pow10(n),
    decreases n,
{
    if n > 0 {
        lemma_prefix_bound(s, (n - 1) as nat);
        let p = pow10((n - 1) as nat);
        let d = digit_at(s, n - 1);
        assert(d <= 9) by {
            if n - 1 < s.len() {
                assert(s[n - 1] < 10);
            }
        }
        assert(d * p <= 9 * p) by (nonlinear_arith)
            requires
                d <= 9,
                p >= 0,
        ;
    }
}

/// Past the last digit the value no longer grows.
pub proof fn lemma_prefix_beyond(s: Seq<u8>, n: nat)
    requires
        n >= s.len(),
    ensures
        prefix_value(s, n) == prefix_value(s, s.len()),
    decreases n,
{
    if n > s.len() {
        lemma_prefix_beyond(s, (n - 1) as nat);
        assert(digit_at(s, n - 1) * pow10((n - 1) as nat) == 0) by (nonlinear_arith)
            requires
                digit_at(s, n - 1) == 0,
        ;
    }
}

/// The value of more digits is no smaller.
pub proof fn lemma_prefix_monotonic(s: Seq<u8>, m: nat, n: nat)
    requires
        m <= n,
    ensures
        prefix_value(s, m) <= prefix_value(s, n),
    decreases n,
{
    if m < n {
        lemma_prefix_monotonic(s, m, (n - 1) as nat);
        assert(digit_at(s, n - 1) * pow10((n - 1) as nat) >= 0) by (nonlinear_arith)
            requires
                digit_at(s, n - 1) >= 0,
                pow10((n - 1) as nat) >= 0,
        ;
    }
}

/// Exponents add where powers of ten are multiplied.
pub proof fn lemma_pow10_adds(a: nat, b: nat)
    ensures
        pow10(a + b) == pow10(a) * pow10(b),
    decreases a,
{
    if a == 0 {
        assert(pow10(0) * pow10(b) == pow10(b)) by (nonlinear_arith)
            requires
                pow10(0) == 1,
        ;
    } else {
        lemma_pow10_adds((a - 1) as nat, b);
        assert(pow10(a + b) == 10 * pow10((a - 1 + b) as nat));
        assert(10 * (pow10((a - 1) as nat) * pow10(b)) == (10 * pow10((a - 1) as nat)) * pow10(b))
            by (nonlinear_arith);
    }
}

/// The value of 10^30.
pub proof fn lemma_pow10_30()
    ensures
        pow10(30) == 1_000_000_000_000_000_000_000_000_000_000,
{
    reveal_with_fuel(pow10, 31);
}

/// The value of a decimal digit; 0 for any other character.
pub open spec fn digit_value(c: char) -> nat {
    if '0' <= c <= '9' {
        (c as nat - '0' as nat) as nat
    } else {
        0
    }
}

/// The digits of a numeral, the last character first.
pub open spec fn numeral_digits(s: Seq<char>) -> Seq<u8> {
    Seq::new(s.len(), |j: int| digit_value(s[s.len() - 1 - j]) as u8)
}

/// The number that a decimal numeral denotes.
pub open spec fn numeral_value(s: Seq<char>) -> nat {
    prefix_value(numeral_digits(s), s.len())
}

/// The value of a decimal digit.
pub fn digit_of(c: char) -> (d: u8)
    ensures
        d as nat == digit_value(c),
        d < 10,
{
    if '0' <= c && c <= '9' {
        (c as u32 - '0' as u32) as u8
    } else {
        0
    }
}

/// The digit of `n` that weighs `10^i`.
pub open spec fn nat_digit(n: nat, i: int) -> nat {
    if i >= 0 {
        (n / pow10(i as nat)) % 10
    } else {
        0
    }
}

/// The number that the digits from index `i` on denote, digit `i` weighing 1.
pub open spec fn suffix_value(s: Seq<u8>, i: nat) -> nat
    decreases s.len() - i,
{
    if i >= s.len() {
        0
    } else {
        s[i as int] as nat + 10 * suffix_value(s, i + 1)
    }
}

/// A number is its low digits plus its high digits shifted.
pub proof fn lemma_split(s: Seq<u8>, i: nat)
    requires
        i <= s.len(),
    ensures
        prefix_value(s, s.len()) == prefix_value(s, i) + pow10(i) * suffix_value(s, i),
    decreases s.len() - i,
{
    if i == s.len() {
        assert(pow10(i) * suffix_value(s, i) == 0) by (nonlinear_arith)
            requires
                suffix_value(s, i) == 0,
        ;
    } else {
        lemma_split(s, i + 1);
        let d = s[i as int] as nat;
        let p = pow10(i);
        let rest = suffix_value(s, i + 1);
        assert(d * p + (10 * p) * rest == p * (d + 10 * rest)) by (nonlinear_arith);
    }
}

/// The digits that are held are the digits of the number.
pub proof fn lemma_digit_extract(s: Seq<u8>, i: nat)
    requires
        all_digits(s),
    ensures
        digit_at(s, i as int) == nat_digit(prefix_value(s, s.len()), i as int),
{
    let v = prefix_value(s, s.len());
    let p = pow10(i);
    lemma_pow10_positive(i);
    if i >= s.len() {
        lemma_prefix_bound(s, s.len());
        lemma_pow10_monotonic(s.len(), i);
        lemma_fundamental_div_mod_converse(v as int, p as int, 0, v as int);
    } else {
        lemma_split(s, i);
        lemma_prefix_bound(s, i);
        let high = suffix_value(s, i);
        let low = prefix_value(s, i);
        assert(v == high * p + low) by (nonlinear_arith)
            requires
                v == low + p * high,
        ;
        lemma_fundamental_div_mod_converse(v as int, p as int, high as int, low as int);
        let d = s[i as int] as nat;
        assert(d < 10);
        let rest = suffix_value(s, i + 1);
        assert(high == rest * 10 + d);
        lemma_fundamental_div_mod_converse(high as int, 10, rest as int, d as int);
    }
}

proof fn lemma_mul_step(p: nat, c: nat, d: nat, carry: nat, lo: nat, hi: nat, x_out: nat, x_in: nat)
    requires
        lo + 10 * hi == d * c + carry,
        x_out + carry * p == c * x_in,
    ensures
        x_out + lo * p + hi * (10 * p) == c * (x_in + d * p),
{
    assert(lo * p + hi * (10 * p) == (lo + 10 * hi) * p) by (nonlinear_arith);
    assert((d * c + carry) * p == d * c * p + carry * p) by (nonlinear_arith);
    assert(c * (x_in + d * p) == c * x_in + d * c * p) by (nonlinear_arith);
}

proof fn lemma_sub_step(
    p: nat,
    da: nat,
    db: nat,
    borrow: nat,
    lo: nat,
    borrow2: nat,
    x_out: nat,
    x_a: nat,
    x_b: nat,
)
    requires
        lo + db + borrow == da + 10 * borrow2,
        x_out + x_b == x_a + borrow * p,
    ensures
        (x_out + lo * p) + (x_b + db * p) == (x_a + da * p) + borrow2 * (10 * p),
{
    assert((lo + db + borrow) * p == lo * p + db * p + borrow * p) by (nonlinear_arith);
    assert((da + 10 * borrow2) * p == da * p + borrow2 * (10 * p)) by (nonlinear_arith);
}

proof fn lemma_add_step(
    p: nat,
    da: nat,
    db: nat,
    carry: nat,
    lo: nat,
    carry2: nat,
    x_out: nat,
    x_a: nat,
    x_b: nat,
)
    requires
        lo + 10 * carry2 == da + db + carry,
        x_out + carry * p == x_a + x_b,
    ensures
        (x_out + lo * p) + carry2 * (10 * p) == (x_a + da * p) + (x_b + db * p),
{
    assert((lo + 10 * carry2) * p == lo * p + carry2 * (10 * p)) by (nonlinear_arith);
    assert((da + db + carry) * p == da * p + db * p + carry * p) by (nonlinear_arith);
}

/// A natural number of any size.
pub struct Natural {
    /// Decimal digits, least significant first.
    digits: Vec<u8>,
}

impl View for Natural {
    type V = nat;

    closed spec fn view(&self) -> nat {
        prefix_value(self.digits@, self.digits@.len())
    }
}

impl Natural {
    /// Every digit is below ten.
    pub closed spec fn wf(&self) -> bool {
        all_digits(self.digits@)
    }

    /// The digits, least significant first.
    pub closed spec fn digits(&self) -> Seq<u8> {
        self.digits@
    }

    /// A number of `n` digits is below `10^n`.
    pub proof fn lemma_bound(&self)
        requires
            self.wf(),
        ensures
            self@ < pow10(self.digits().len()),
    {
        lemma_prefix_bound(self.digits@, self.digits@.len());
    }

    /// The number `n`.
    pub fn from_u64(n: u64) -> (r: Natural)
        ensures
            r.wf(),
            r@ == n,
    {
        let mut digits: Vec<u8> = Vec::new();
        let mut rest = n;
        assert(rest * pow10(0) == n) by (nonlinear_arith)
            requires
                pow10(0) == 1,
                rest == n,
        ;
        while rest > 0
            invariant
                all_digits(digits@),
                prefix_value(digits@, digits@.len()) + rest * pow10(digits@.len()) == n,
            decreases rest,
        {
            let d = (rest % 10) as u8;
            proof {
                let p = pow10(digits@.len());
                lemma_prefix_push(digits@, d, digits@.len());
                assert((rest % 10) * p + (rest / 10) * (10 * p) == rest * p) by (nonlinear_arith)
                    requires
                        rest == (rest % 10) + 10 * (rest / 10),
                ;
            }
            digits.push(d);
            rest = rest / 10;
        }
        assert(rest * pow10(digits@.len()) == 0) by (nonlinear_arith)
            requires
                rest == 0,
        ;
        Natural { digits }
    }

    /// Whether this number is zero.
    pub fn is_zero(&self) -> (r: bool)
        requires
            self.wf(),
        ensures
            r == (self@ == 0),
    {
        let mut i: usize = 0;
        while i < self.digits.len()
            invariant
                i <= self.digits.len(),
                prefix_value(self.digits@, i as nat) == 0,
            decreases self.digits.len() - i,
        {
            if self.digits[i] != 0 {
                proof {
                    lemma_pow10_positive(i as nat);
                    lemma_prefix_monotonic(self.digits@, (i + 1) as nat, self.digits@.len());
                    assert(digit_at(self.digits@, i as int) * pow10(i as nat) > 0)
                        by (nonlinear_arith)
                        requires
                            digit_at(self.digits@, i as int) > 0,
                            pow10(i as nat) > 0,
                    ;
                }
                return false;
            }
            assert(digit_at(self.digits@, i as int) * pow10(i as nat) == 0) by (nonlinear_arith)
                requires
                    digit_at(self.digits@, i as int) == 0,
            ;
            i = i + 1;
        }
        true
    }

    /// `c` times this number.
    pub fn mul_small(&self, c: u8) -> (r: Natural)
        requires
            self.wf(),
            c <= 10,
        ensures
            r.wf(),
            r@ == c * self@,
    {
        let mut out: Vec<u8> = Vec::new();
        let mut carry: u8 = 0;
        let mut i: usize = 0;
        assert(c * prefix_value(self.digits@, 0) == 0) by (nonlinear_arith)
            requires
                prefix_value(self.digits@, 0) == 0,
        ;
        while i < self.digits.len()
            invariant
                i <= self.digits.len(),
                out@.len() == i,
                all_digits(out@),
                all_digits(self.digits@),
                carry <= 9,
                c <= 10,
                prefix_value(out@, i as nat) + carry * pow10(i as nat) == c * prefix_value(
                    self.digits@,
                    i as nat,
                ),
            decreases self.digits.len() - i,
        {
            let d = self.digits[i];
            assert(d < 10);
            assert(d * c <= 90) by (nonlinear_arith)
                requires
                    d <= 9,
                    c <= 10,
            ;
            let t: u8 = d * c + carry;
            let lo: u8 = t % 10;
            let hi: u8 = t / 10;
            proof {
                lemma_prefix_push(out@, lo, i as nat);
                lemma_mul_step(
                    pow10(i as nat),
                    c as nat,
                    d as nat,
                    carry as nat,
                    lo as nat,
                    hi as nat,
                    prefix_value(out@, i as nat),
                    prefix_value(self.digits@, i as nat),
                );
            }
            out.push(lo);
            carry = hi;
            i = i + 1;
        }
        proof {
            lemma_prefix_push(out@, carry, i as nat);
            assert(carry * (10 * pow10(i as nat)) >= 0) by (nonlinear_arith)
                requires
                    carry >= 0,
                    pow10(i as nat) >= 0,
            ;
        }
        out.push(carry);
        Natural { digits: out }
    }

    /// A copy of this number.
    pub fn copy(&self) -> (r: Natural)
        requires
            self.wf(),
        ensures
            r.wf(),
            r@ == self@,
    {
        let r = self.mul_small(1);
        assert(1 * self@ == self@);
        r
    }

    /// The sum of this number and `other`.
    pub fn add(&self, other: &Natural) -> (r: Natural)
        requires
            self.wf(),
            other.wf(),
        ensures
            r.wf(),
            r@ == self@ + other@,
    {
        let n = if self.digits.len() >= other.digits.len() {
            self.digits.len()
        } else {
            other.digits.len()
        };
        let mut out: Vec<u8> = Vec::new();
        let mut carry: u8 = 0;
        let mut i: usize = 0;
        while i < n
            invariant
                i <= n,
                n >= self.digits.len(),
                n >= other.digits.len(),
                out@.len() == i,
                all_digits(out@),
                all_digits(self.digits@),
                all_digits(other.digits@),
                carry <= 1,
                prefix_value(out@, i as nat) + carry * pow10(i as nat) == prefix_value(
                    self.digits@,
                    i as nat,
                ) + prefix_value(other.digits@, i as nat),
            decreases n - i,
        {
            let da: u8 = if i < self.digits.len() {
                self.digits[i]
            } else {
                0
            };
            let db: u8 = if i < other.digits.len() {
                other.digits[i]
            } else {
                0
            };
            assert(da < 10 && db < 10);
            let t: u8 = da + db + carry;
            let lo: u8 = t % 10;
            let hi: u8 = t / 10;
            proof {
                lemma_prefix_push(out@, lo, i as nat);
                lemma_add_step(
                    pow10(i as nat),
                    da as nat,
                    db as nat,
                    carry as nat,
                    lo as nat,
                    hi as nat,
                    prefix_value(out@, i as nat),
                    prefix_value(self.digits@, i as nat),
                    prefix_value(other.digits@, i as nat),
                );
            }
            out.push(lo);
            carry = hi;
            i = i + 1;
        }
        proof {
            lemma_prefix_push(out@, carry, i as nat);
            lemma_prefix_beyond(self.digits@, n as nat);
            lemma_prefix_beyond(other.digits@, n as nat);
        }
        out.push(carry);
        Natural { digits: out }
    }

    /// This number less `other`, where `other` is no larger.
    pub fn sub_if_ge(&self, other: &Natural) -> (r: Option<Natural>)
        requires
            self.wf(),
            other.wf(),
        ensures
            r is Some <==> self@ >= other@,
            r matches Some(d) ==> d.wf() && d@ == self@ - other@,
    {
        let n = if self.digits.len() >= other.digits.len() {
            self.digits.len()
        } else {
            other.digits.len()
        };
        let mut out: Vec<u8> = Vec::new();
        let mut borrow: u8 = 0;
        let mut i: usize = 0;
        while i < n
            invariant
                i <= n,
                n >= self.digits.len(),
                n >= other.digits.len(),
                out@.len() == i,
                all_digits(out@),
                all_digits(self.digits@),
                all_digits(other.digits@),
                borrow <= 1,
                prefix_value(out@, i as nat) + prefix_value(other.digits@, i as nat)
                    == prefix_value(self.digits@, i as nat) + borrow * pow10(i as nat),
            decreases n - i,
        {
            let da: u8 = if i < self.digits.len() {
                self.digits[i]
            } else {
                0
            };
            let db: u8 = if i < other.digits.len() {
                other.digits[i]
            } else {
                0
            };
            assert(da < 10 && db < 10);
            let need: u8 = db + borrow;
            let lo: u8 = if da >= need {
                da - need
            } else {
                da + 10 - need
            };
            let borrow2: u8 = if da >= need {
                0
            } else {
                1
            };
            proof {
                lemma_prefix_push(out@, lo, i as nat);
                lemma_sub_step(
                    pow10(i as nat),
                    da as nat,
                    db as nat,
                    borrow as nat,
                    lo as nat,
                    borrow2 as nat,
                    prefix_value(out@, i as nat),
                    prefix_value(self.digits@, i as nat),
                    prefix_value(other.digits@, i as nat),
                );
            }
            out.push(lo);
            borrow = borrow2;
            i = i + 1;
        }
        proof {
            lemma_prefix_beyond(self.digits@, n as nat);
            lemma_prefix_beyond(other.digits@, n as nat);
            lemma_prefix_bound(out@, n as nat);
            assert(borrow * pow10(n as nat) == if borrow == 1 {
                pow10(n as nat)
            } else {
                0
            }) by (nonlinear_arith)
                requires
                    borrow <= 1,
            ;
        }
        if borrow == 0 {
            Some(Natural { digits: out })
        } else {
            None
        }
    }

    /// Whether this number is at least `other`.
    pub fn ge(&self, other: &Natural) -> (r: bool)
        requires
            self.wf(),
            other.wf(),
        ensures
            r == (self@ >= other@),
    {
        self.sub_if_ge(other).is_some()
    }

    /// The number that the characters of `text` from `start` up to `end`
    /// denote as a decimal numeral.
    pub fn from_numeral(text: &Vec<char>, start: usize, end: usize) -> (r: Natural)
        requires
            start <= end <= text.len(),
        ensures
            r.wf(),
            r@ == numeral_value(text@.subrange(start as int, end as int)),
            r.digits() == numeral_digits(text@.subrange(start as int, end as int)),
    {
        let ghost s = text@.subrange(start as int, end as int);
        let mut digits: Vec<u8> = Vec::new();
        let mut i: usize = end;
        while i > start
            invariant
                start <= i <= end <= text.len(),
                s == text@.subrange(start as int, end as int),
                digits@.len() == end - i,
                forall|j: int|
                    0 <= j < digits@.len() ==> #[trigger] digits@[j] == numeral_digits(s)[j],
            decreases i,
        {
            i = i - 1;
            digits.push(digit_of(text[i]));
        }
        assert(digits@ =~= numeral_digits(s));
        Natural { digits }
    }

    /// The number that two stretches of `text` denote when read as one
    /// decimal numeral, the first stretch in front.
    pub fn from_numeral_pair(text: &Vec<char>, a0: usize, a1: usize, b0: usize, b1: usize) -> (r:
        Natural)
        requires
            a0 <= a1 <= text.len(),
            b0 <= b1 <= text.len(),
        ensures
            r.wf(),
            r@ == numeral_value(
                text@.subrange(a0 as int, a1 as int) + text@.subrange(b0 as int, b1 as int),
            ),
            r.digits().len() == (a1 - a0) + (b1 - b0),
    {
        let ghost s = text@.subrange(a0 as int, a1 as int) + text@.subrange(b0 as int, b1 as int);
        let mut digits: Vec<u8> = Vec::new();
        let mut i: usize = b1;
        while i > b0
            invariant
                b0 <= i <= b1 <= text.len(),
                a0 <= a1 <= text.len(),
                s == text@.subrange(a0 as int, a1 as int) + text@.subrange(b0 as int, b1 as int),
                digits@.len() == b1 - i,
                forall|j: int|
                    0 <= j < digits@.len() ==> #[trigger] digits@[j] == numeral_digits(s)[j],
            decreases i,
        {
            i = i - 1;
            digits.push(digit_of(text[i]));
        }
        let mut k: usize = a1;
        while k > a0
            invariant
                a0 <= k <= a1 <= text.len(),
                b0 <= b1 <= text.len(),
                s == text@.subrange(a0 as int, a1 as int) + text@.subrange(b0 as int, b1 as int),
                digits@.len() == (b1 - b0) + (a1 - k),
                forall|j: int|
                    0 <= j < digits@.len() ==> #[trigger] digits@[j] == numeral_digits(s)[j],
            decreases k,
        {
            k = k - 1;
            digits.push(digit_of(text[k]));
        }
        assert(digits@ =~= numeral_digits(s));
        Natural { digits }
    }

    /// This number, if it is below `10^30`.
    pub fn to_u128(&self) -> (r: Option<u128>)
        requires
            self.wf(),
        ensures
            r == if self@ < pow10(30) {
                Some(self@ as u128)
            } else {
                None
            },
    {
        let mut acc: u128 = 0;
        let mut p: u128 = 1;
        let mut j: usize = 0;
        proof {
            lemma_pow10_30();
        }
        while j < self.digits.len()
            invariant
                j <= self.digits.len(),
                all_digits(self.digits@),
                acc == prefix_value(self.digits@, j as nat),
                acc < pow10(30),
                pow10(30) == 1_000_000_000_000_000_000_000_000_000_000,
                j <= 30 ==> p == pow10(j as nat),
            decreases self.digits.len() - j,
        {
            let d = self.digits[j];
            assert(d < 10);
            proof {
                lemma_prefix_bound(self.digits@, j as nat);
                lemma_prefix_bound(self.digits@, (j + 1) as nat);
                lemma_pow10_positive(j as nat);
                if j < 30 {
                    lemma_pow10_monotonic((j + 1) as nat, 30);
                } else {
                    lemma_pow10_monotonic(30, j as nat);
                }
            }
            if d != 0 {
                if j >= 30 {
                    proof {
                        lemma_prefix_monotonic(
                            self.digits@,
                            (j + 1) as nat,
                            self.digits@.len(),
                        );
                        assert(d * pow10(j as nat) >= pow10(j as nat)) by (nonlinear_arith)
                            requires
                                d >= 1,
                                pow10(j as nat) > 0,
                        ;
                    }
                    return None;
                }
                assert(d * p <= 9 * p) by (nonlinear_arith)
                    requires
                        d <= 9,
                        p >= 0,
                ;
                acc = acc + d as u128 * p;
            } else {
                assert(d * pow10(j as nat) == 0) by (nonlinear_arith)
                    requires
                        d == 0,
                ;
            }
            if j < 30 {
                p = p * 10;
            }
            j = j + 1;
        }
        Some(acc)
    }

    /// How many digits are held, leading zeros among them.
    pub fn len(&self) -> (n: usize)
        ensures
            n == self.digits().len(),
    {
        self.digits.len()
    }

    /// The digit that weighs `10^i`.
    pub fn digit(&self, i: usize) -> (d: u8)
        requires
            self.wf(),
        ensures
            d as nat == nat_digit(self@, i as int),
            d < 10,
    {
        proof {
            lemma_digit_extract(self.digits@, i as nat);
        }
        if i < self.digits.len() {
            self.digits[i]
        } else {
            0
        }
    }
}

} // verus!
