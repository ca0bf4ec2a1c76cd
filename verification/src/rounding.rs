//! Rounding an exact number to the nearest 32-bit float.
//!
//! Magnitudes are counted in units of 2^-149, the smallest positive float.
//! In these units every finite float is a whole number: below 2^24 units
//! the floats are the whole numbers themselves, and their bit patterns
//! (without the sign) are those numbers; each doubling beyond that halves
//! the density of floats and adds 2^23 to the bit pattern.

use crate::natural::{pow10, Natural};
use vstd::arithmetic::div_mod::lemma_fundamental_div_mod_converse;
use vstd::prelude::*;

verus! {

/// The power of two.
pub open spec fn pow2(n: nat) -> nat
    decreases n,
{
    if n == 0 {
        1
    } else {
        2 * pow2((n - 1) as nat)
    }
}

/// The whole number nearest to `num / den`; of two equally near, the even one.
pub open spec fn nearest_even(num: nat, den: nat) -> nat {
    let n = num / den;
    let r = num % den;
    if 2 * r > den || (2 * r == den && n % 2 == 1) {
        n + 1
    } else {
        n
    }
}

/// The bit pattern, without the sign, of the float nearest to `num / den`
/// units of 2^-149. Patterns from `0x7F80_0000` on are not finite.
pub open spec fn round_units(num: nat, den: nat) -> nat
    decreases num - den,
{
    if den == 0 || num < 16777216 * den {
        nearest_even(num, den)
    } else {
        8388608 + round_units(num, 2 * den)
    }
}

/// How often `num / den` must be halved to fall below 2^24: the power of
/// two that the floats near it are whole multiples of.
pub open spec fn binade(num: nat, den: nat) -> nat
    decreases num - den,
{
    if den == 0 || num < 16777216 * den {
        0
    } else {
        1 + binade(num, 2 * den)
    }
}

/// A bit pattern without sign, if it is that of a finite float.
pub open spec fn finite_pattern(pattern: nat) -> Option<u32> {
    if pattern < 0x7F80_0000 {
        Some(pattern as u32)
    } else {
        None
    }
}

/// A power of two is positive.
pub proof fn lemma_pow2_positive(n: nat)
    ensures
        pow2(n) > 0,
    decreases n,
{
    if n > 0 {
        lemma_pow2_positive((n - 1) as nat);
    }
}

/// A larger exponent gives no smaller power of two.
pub proof fn lemma_pow2_monotonic(a: nat, b: nat)
    requires
        a <= b,
    ensures
        pow2(a) <= pow2(b),
    decreases b,
{
    if a < b {
        lemma_pow2_monotonic(a, (b - 1) as nat);
    }
}

/// The values of 2^23 and 2^24.
pub proof fn lemma_pow2_24()
    ensures
        pow2(24) == 16777216,
        pow2(23) == 8388608,
{
    reveal_with_fuel(pow2, 25);
}

/// Exponents add where powers of two are multiplied.
pub proof fn lemma_pow2_adds(a: nat, b: nat)
    ensures
        pow2(a + b) == pow2(a) * pow2(b),
    decreases a,
{
    if a == 0 {
        assert(pow2(0) * pow2(b) == pow2(b)) by (nonlinear_arith)
            requires
                pow2(0) == 1,
        ;
    } else {
        lemma_pow2_adds((a - 1) as nat, b);
        assert(pow2(a + b) == 2 * pow2((a - 1 + b) as nat));
        assert(2 * (pow2((a - 1) as nat) * pow2(b)) == (2 * pow2((a - 1) as nat)) * pow2(b))
            by (nonlinear_arith);
    }
}

/// A number below half a unit rounds to zero.
pub proof fn lemma_round_underflow(num: nat, den: nat)
    requires
        2 * num < den,
    ensures
        round_units(num, den) == 0,
{
    lemma_fundamental_div_mod_converse(num as int, den as int, 0, num as int);
}

/// A number of at least `2^(24 + j)` units has a pattern of at least
/// `(j + 1) * 2^23`.
pub proof fn lemma_round_overflow(num: nat, den: nat, j: nat)
    requires
        den > 0,
        num >= 16777216 * (pow2(j) * den),
    ensures
        round_units(num, den) >= (j + 1) * 8388608,
    decreases j,
{
    lemma_pow2_positive(j);
    assert(pow2(j) * den >= den) by (nonlinear_arith)
        requires
            pow2(j) >= 1,
            den > 0,
    ;
    if j > 0 {
        assert(pow2(j) * den == pow2((j - 1) as nat) * (2 * den)) by (nonlinear_arith)
            requires
                pow2(j) == 2 * pow2((j - 1) as nat),
        ;
        lemma_round_overflow(num, 2 * den, (j - 1) as nat);
    }
}

/// A number of 24 significant bits, scaled by a power of two, is a float:
/// rounding gives its own pattern.
pub proof fn lemma_round_scaled(sig: nat, e: nat, j: nat)
    requires
        8388608 <= sig < 16777216,
        j <= e,
    ensures
        round_units(sig * pow2(e), pow2(j)) == (e - j) * 8388608 + sig,
    decreases e - j,
{
    let num = sig * pow2(e);
    let den = pow2(j);
    lemma_pow2_positive(j);
    lemma_pow2_positive(e);
    if j == e {
        assert(num < 16777216 * den) by (nonlinear_arith)
            requires
                num == sig * den,
                sig < 16777216,
                den > 0,
        ;
        lemma_fundamental_div_mod_converse(num as int, den as int, sig as int, 0);
    } else {
        lemma_pow2_monotonic(j + 1, e);
        assert(num >= 16777216 * den) by (nonlinear_arith)
            requires
                num == sig * pow2(e),
                sig >= 8388608,
                pow2(e) >= pow2(j + 1),
                pow2(j + 1) == 2 * den,
                den > 0,
        ;
        lemma_round_scaled(sig, e, j + 1);
    }
}

/// The pattern in one piece: the binade, and in it the nearest multiple.
pub proof fn lemma_round_closed_form(num: nat, den: nat)
    requires
        den > 0,
    ensures
        ({
            let k = binade(num, den);
            let d = den * pow2(k);
            &&& d > 0
            &&& round_units(num, den) == k * 8388608 + nearest_even(num, d)
            &&& num < 16777216 * d
            &&& k > 0 ==> num >= 8388608 * d
        }),
    decreases num - den,
{
    lemma_pow2_positive(binade(num, den));
    if num < 16777216 * den {
        assert(den * pow2(0) == den) by (nonlinear_arith)
            requires
                pow2(0) == 1,
        ;
    } else {
        lemma_round_closed_form(num, 2 * den);
        let k1 = binade(num, 2 * den);
        assert((2 * den) * pow2(k1) == den * pow2(k1 + 1)) by (nonlinear_arith)
            requires
                pow2(k1 + 1) == 2 * pow2(k1),
        ;
        let d = den * pow2(k1 + 1);
        if k1 == 0 {
            assert(pow2(1) == 2) by {
                reveal_with_fuel(pow2, 2);
            }
            assert(d == 2 * den) by (nonlinear_arith)
                requires
                    d == den * pow2(1),
                    pow2(1) == 2,
            ;
        }
    }
    let k = binade(num, den);
    assert(den * pow2(k) > 0) by (nonlinear_arith)
        requires
            den > 0,
            pow2(k) > 0,
    ;
}

/// What long division leaves: the quotient, and the remainder scaled.
proof fn lemma_division_result(num: nat, d: nat, n: nat, x: nat, t: nat)
    requires
        d > 0,
        t == 16777216 * d,
        num * 16777216 == n * t + x,
        x < t,
    ensures
        n == num / d,
        x == 16777216 * (num % d),
{
    let nd = n * d;
    assert(n * t == 16777216 * nd) by (nonlinear_arith)
        requires
            t == 16777216 * d,
            nd == n * d,
    ;
    let r: int = num - nd;
    assert(x == 16777216 * r);
    assert(0 <= r < d);
    assert(num == n * d + r);
    lemma_fundamental_div_mod_converse(num as int, d as int, n as int, r);
}

/// `n` times `2^k`.
pub fn times_pow2(n: &Natural, k: u32) -> (r: Natural)
    requires
        n.wf(),
    ensures
        r.wf(),
        r@ == n@ * pow2(k as nat),
{
    let mut r = n.copy();
    let mut i: u32 = 0;
    assert(n@ * pow2(0) == n@) by (nonlinear_arith)
        requires
            pow2(0) == 1,
    ;
    while i < k
        invariant
            i <= k,
            r.wf(),
            r@ == n@ * pow2(i as nat),
        decreases k - i,
    {
        proof {
            assert(2 * (n@ * pow2(i as nat)) == n@ * (2 * pow2(i as nat))) by (nonlinear_arith);
        }
        r = r.mul_small(2);
        i = i + 1;
    }
    r
}

/// `n` times `10^k`.
pub fn times_pow10(n: &Natural, k: u128) -> (r: Natural)
    requires
        n.wf(),
    ensures
        r.wf(),
        r@ == n@ * pow10(k as nat),
{
    let mut r = n.copy();
    let mut i: u128 = 0;
    assert(n@ * pow10(0) == n@) by (nonlinear_arith)
        requires
            pow10(0) == 1,
    ;
    while i < k
        invariant
            i <= k,
            r.wf(),
            r@ == n@ * pow10(i as nat),
        decreases k - i,
    {
        proof {
            assert(10 * (n@ * pow10(i as nat)) == n@ * (10 * pow10(i as nat)))
                by (nonlinear_arith);
        }
        r = r.mul_small(10);
        i = i + 1;
    }
    r
}

/// The bit pattern, without the sign, of the float nearest to `num / den`
/// units of 2^-149; `None` where no finite float is nearest.
pub fn round_ratio(num: &Natural, den: &Natural) -> (r: Option<u32>)
    requires
        num.wf(),
        den.wf(),
        den@ > 0,
    ensures
        r == finite_pattern(round_units(num@, den@)),
{
    let mut t = times_pow2(den, 24);
    let ghost mut d: nat = den@;
    let mut k: u32 = 0;
    proof {
        lemma_pow2_24();
    }
    loop
        invariant_except_break
            k <= 254,
        invariant
            t.wf(),
            num.wf(),
            den.wf(),
            d > 0,
            t@ == 16777216 * d,
            k <= 254,
            round_units(num@, den@) == k * 8388608 + round_units(num@, d),
        ensures
            num@ < t@,
        decreases 254 - k,
    {
        if !num.ge(&t) {
            break;
        }
        if k == 254 {
            assert(round_units(num@, d) >= 8388608);
            return None;
        }
        t = t.mul_small(2);
        proof {
            d = 2 * d;
        }
        k = k + 1;
    }
    let mut x = num.copy();
    let mut n: u32 = 0;
    let mut scale: u32 = 1;
    let mut i: u32 = 0;
    assert(num@ * 1 == 0 * t@ + x@) by (nonlinear_arith)
        requires
            x@ == num@,
    ;
    while i < 24
        invariant
            i <= 24,
            scale == pow2(i as nat),
            n < scale,
            x.wf(),
            t.wf(),
            num@ * scale == n * t@ + x@,
            x@ < t@,
        decreases 24 - i,
    {
        proof {
            lemma_pow2_24();
            lemma_pow2_monotonic(i as nat, 23);
        }
        let ghost n0 = n;
        let ghost x0 = x@;
        let x2 = x.mul_small(2);
        match x2.sub_if_ge(&t) {
            Some(y) => {
                x = y;
                n = 2 * n + 1;
                assert((2 * n0 + 1) * t@ == 2 * (n0 * t@) + t@) by (nonlinear_arith);
            },
            None => {
                x = x2;
                n = 2 * n;
                assert((2 * n0) * t@ == 2 * (n0 * t@)) by (nonlinear_arith);
            },
        }
        assert(num@ * (2 * scale) == 2 * (num@ * scale)) by (nonlinear_arith);
        scale = 2 * scale;
        i = i + 1;
    }
    proof {
        lemma_pow2_24();
        lemma_division_result(num@, d, n as nat, x@, t@);
    }
    let x2 = x.mul_small(2);
    let up = match x2.sub_if_ge(&t) {
        None => false,
        Some(diff) => if diff.is_zero() {
            n % 2 == 1
        } else {
            true
        },
    };
    let n2: u32 = if up {
        n + 1
    } else {
        n
    };
    assert(n2 == nearest_even(num@, d));
    let pattern: u64 = k as u64 * 8388608 + n2 as u64;
    if pattern < 0x7F80_0000 {
        Some(pattern as u32)
    } else {
        None
    }
}

} // verus!
