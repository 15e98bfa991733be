//! Exact decimal numbers.
//!
//! Measurements are held as a mantissa and a count of fractional digits, so
//! that unit conversion between powers of ten, sums and differences are exact.
//! [`Dec`] is the mathematical number, without bounds; [`Decimal`] is the
//! executable number, which holds those [`Dec`] whose shortest form fits its
//! fields.

use vstd::arithmetic::div_mod::*;
use vstd::arithmetic::power::*;
use vstd::prelude::*;

verus! {

/// The largest magnitude of the mantissa of a [`Decimal`]: `2^126 - 1`.
pub const MAX_MANTISSA: i128 = 85070591730234615865843651857942052863i128;

/// The number of fractional digits that a quotient is given, unless the
/// dividend has more.
pub const DIVISION_SCALE: u32 = 18u32;

/// Ten to the power `e`.
pub open spec fn pow10(e: nat) -> int {
    pow(10, e)
}

/// A decimal number, `mantissa / 10^scale`.
pub struct Dec {
    pub mantissa: int,
    pub scale: nat,
}

impl Dec {
    /// Whether no shorter form of the number exists: the mantissa does not
    /// end in a zero that is a fractional digit.
    pub open spec fn is_normal(self) -> bool {
        self.scale == 0 || self.mantissa % 10 != 0
    }

    /// The shortest form of the number: trailing fractional zeros dropped.
    pub open spec fn normal(self) -> Dec
        decreases self.scale,
    {
        if self.scale > 0 && self.mantissa % 10 == 0 {
            (Dec { mantissa: self.mantissa / 10, scale: (self.scale - 1) as nat }).normal()
        } else {
            self
        }
    }

    /// The numerator of the number over the denominator `10^s`, for `s` no
    /// less than the scale.
    pub open spec fn numerator(self, s: nat) -> int
        recommends
            self.scale <= s,
    {
        self.mantissa * pow10((s - self.scale) as nat)
    }

    /// The larger of the two scales.
    pub open spec fn common_scale(self, other: Dec) -> nat {
        if self.scale <= other.scale {
            other.scale
        } else {
            self.scale
        }
    }

    /// Whether the two are the same number, whatever their forms.
    pub open spec fn same(self, other: Dec) -> bool {
        self.numerator(self.common_scale(other)) == other.numerator(self.common_scale(other))
    }

    /// Whether this number is at most the other.
    pub open spec fn le(self, other: Dec) -> bool {
        self.numerator(self.common_scale(other)) <= other.numerator(self.common_scale(other))
    }

    /// Whether this number is less than the other.
    pub open spec fn lt(self, other: Dec) -> bool {
        self.numerator(self.common_scale(other)) < other.numerator(self.common_scale(other))
    }

    /// The number with its sign turned.
    pub open spec fn negated(self) -> Dec {
        Dec { mantissa: -self.mantissa, scale: self.scale }
    }

    /// The sum of the two numbers, at their common scale.
    pub open spec fn plus(self, other: Dec) -> Dec {
        Dec {
            mantissa: self.numerator(self.common_scale(other)) + other.numerator(
                self.common_scale(other),
            ),
            scale: self.common_scale(other),
        }
    }

    /// The difference of the two numbers, at their common scale.
    pub open spec fn minus(self, other: Dec) -> Dec {
        self.plus(other.negated())
    }

    /// The product of the two numbers.
    pub open spec fn times(self, other: Dec) -> Dec {
        Dec { mantissa: self.mantissa * other.mantissa, scale: self.scale + other.scale }
    }

    /// The number times `10^exponent`.
    pub open spec fn times_pow10(self, exponent: int) -> Dec {
        if exponent >= 0 {
            Dec { mantissa: self.mantissa * pow10(exponent as nat), scale: self.scale }
        } else {
            Dec { mantissa: self.mantissa, scale: self.scale + ((-exponent) as nat) }
        }
    }

    /// The scale of a quotient of this number: `DIVISION_SCALE`, or the
    /// number's own scale where that is larger.
    pub open spec fn quotient_scale(self) -> nat {
        if self.scale <= DIVISION_SCALE {
            DIVISION_SCALE as nat
        } else {
            self.scale
        }
    }

    /// The number divided by a positive count, cut off towards zero after
    /// `quotient_scale` fractional digits.
    pub open spec fn divided_by(self, count: nat) -> Dec
        recommends
            count > 0,
    {
        let s = self.quotient_scale();
        let n = self.numerator(s);
        Dec {
            mantissa: if n >= 0 {
                n / (count as int)
            } else {
                -((-n) / (count as int))
            },
            scale: s,
        }
    }

    /// Whether the two fields fit those of a [`Decimal`].
    pub open spec fn in_range(self) -> bool {
        -MAX_MANTISSA <= self.mantissa <= MAX_MANTISSA && self.scale <= u32::MAX
    }
}

/// `10^(e + 1)` is ten times `10^e`, and every power of ten is positive.
pub proof fn lemma_pow10_step(e: nat)
    ensures
        pow10(e + 1) == 10 * pow10(e),
        pow10(e) > 0,
        pow10(0) == 1,
{
    reveal(pow);
    lemma_pow_positive(10, e);
}

/// Powers of ten multiply as their exponents add.
pub proof fn lemma_pow10_adds(a: nat, b: nat)
    ensures
        pow10(a + b) == pow10(a) * pow10(b),
{
    lemma_pow_adds(10, a, b);
}

/// The powers of ten by which units of time differ, and that of the digits
/// of a quotient.
pub proof fn lemma_pow10_values()
    ensures
        pow10(3) == 1_000,
        pow10(6) == 1_000_000,
        pow10(9) == 1_000_000_000,
        pow10(18) == 1_000_000_000_000_000_000,
{
    reveal_with_fuel(pow, 10);
    lemma_pow10_adds(9, 9);
}

/// A number times `10^0` is the number.
pub proof fn lemma_mul_pow10_zero(m: int)
    ensures
        m * pow10(0) == m,
{
    lemma_pow10_step(0);
    assert(m * pow10(0) == m) by (nonlinear_arith)
        requires
            pow10(0) == 1,
    ;
}

/// A number grows in magnitude as it is multiplied by a larger power of ten.
pub proof fn lemma_scale_monotone(m: int, a: nat, b: nat)
    requires
        a <= b,
    ensures
        m >= 0 ==> m * pow10(a) <= m * pow10(b),
        m <= 0 ==> m * pow10(b) <= m * pow10(a),
        m > 0 ==> m <= m * pow10(a),
        m < 0 ==> m * pow10(a) <= m,
{
    lemma_pow_increases(10, a, b);
    lemma_pow_positive(10, a);
    let pa = pow10(a);
    let pb = pow10(b);
    assert(m >= 0 ==> m * pa <= m * pb) by (nonlinear_arith)
        requires
            pa <= pb,
    ;
    assert(m <= 0 ==> m * pb <= m * pa) by (nonlinear_arith)
        requires
            pa <= pb,
    ;
    assert(m > 0 ==> m <= m * pa) by (nonlinear_arith)
        requires
            pa >= 1,
    ;
    assert(m < 0 ==> m * pa <= m) by (nonlinear_arith)
        requires
            pa >= 1,
    ;
}

/// Dropping `k` zeros from the end of the mantissa together with `k`
/// fractional digits leaves the shortest form as it was.
pub proof fn lemma_normal_strip(m: int, k: nat, s: nat)
    requires
        k <= s,
    ensures
        (Dec { mantissa: m * pow10(k), scale: s }).normal() == (Dec {
            mantissa: m,
            scale: (s - k) as nat,
        }).normal(),
    decreases k,
{
    if k == 0 {
        lemma_mul_pow10_zero(m);
    } else {
        let p = pow10((k - 1) as nat);
        lemma_pow10_step((k - 1) as nat);
        assert(pow10(k) == 10 * p);
        assert(m * pow10(k) == (m * p) * 10) by (nonlinear_arith)
            requires
                pow10(k) == 10 * p,
        ;
        assert(((m * p) * 10) % 10 == 0 && ((m * p) * 10) / 10 == m * p) by (nonlinear_arith);
        lemma_normal_strip(m, (k - 1) as nat, (s - 1) as nat);
    }
}

/// The shortest form is normal, is the same number, and is the number itself
/// where that is normal already.
pub proof fn lemma_normal_is_normal(d: Dec)
    ensures
        d.normal().is_normal(),
        d.normal().scale <= d.scale,
        d.mantissa == d.normal().mantissa * pow10((d.scale - d.normal().scale) as nat),
        d.is_normal() ==> d.normal() == d,
    decreases d.scale,
{
    if d.scale > 0 && d.mantissa % 10 == 0 {
        let e = Dec { mantissa: d.mantissa / 10, scale: (d.scale - 1) as nat };
        lemma_normal_is_normal(e);
        let n = e.normal();
        let k = (e.scale - n.scale) as nat;
        lemma_pow10_step(k);
        assert(d.mantissa == e.mantissa * 10);
        assert(d.mantissa == n.mantissa * pow10(k + 1)) by (nonlinear_arith)
            requires
                d.mantissa == e.mantissa * 10,
                e.mantissa == n.mantissa * pow10(k),
                pow10(k + 1) == 10 * pow10(k),
        ;
        assert((d.scale - n.scale) as nat == k + 1);
    } else {
        lemma_mul_pow10_zero(d.mantissa);
    }
}

/// Two normal forms of the same number are one form.
pub proof fn lemma_same_normal(a: Dec, b: Dec)
    requires
        a.is_normal(),
        b.is_normal(),
        a.same(b),
    ensures
        a == b,
{
    lemma_mul_pow10_zero(a.mantissa);
    lemma_mul_pow10_zero(b.mantissa);
    if a.scale < b.scale {
        let k = (b.scale - a.scale) as nat;
        lemma_pow10_step((k - 1) as nat);
        assert(a.mantissa * pow10(k) == (a.mantissa * pow10((k - 1) as nat)) * 10)
            by (nonlinear_arith)
            requires
                pow10(k) == 10 * pow10((k - 1) as nat),
        ;
        assert(false);
    } else if b.scale < a.scale {
        let k = (a.scale - b.scale) as nat;
        lemma_pow10_step((k - 1) as nat);
        assert(b.mantissa * pow10(k) == (b.mantissa * pow10((k - 1) as nat)) * 10)
            by (nonlinear_arith)
            requires
                pow10(k) == 10 * pow10((k - 1) as nat),
        ;
        assert(false);
    }
}

/// The shortest form of a number is the same number, and no larger in
/// magnitude of mantissa or in scale.
pub proof fn lemma_normal_same(d: Dec)
    ensures
        d.normal().same(d),
        d.in_range() ==> d.normal().in_range(),
{
    lemma_normal_is_normal(d);
    lemma_mul_pow10_zero(d.mantissa);
    let n = d.normal();
    lemma_scale_monotone(n.mantissa, 0, (d.scale - n.scale) as nat);
    lemma_mul_pow10_zero(n.mantissa);
}

/// The numerator over a larger denominator is the numerator over a smaller
/// one, times the power of ten between them.
pub proof fn lemma_numerator_scales(d: Dec, t: nat, s: nat)
    requires
        d.scale <= t <= s,
    ensures
        d.numerator(s) == d.numerator(t) * pow10((s - t) as nat),
{
    let low = pow10((t - d.scale) as nat);
    let high = pow10((s - t) as nat);
    lemma_pow10_adds((t - d.scale) as nat, (s - t) as nat);
    assert(((t - d.scale) as nat) + ((s - t) as nat) == (s - d.scale) as nat);
    assert(d.mantissa * (low * high) == (d.mantissa * low) * high) by (nonlinear_arith);
}

/// Two numbers are the same number exactly when their numerators over any
/// one denominator that both allow are equal, and one is at most, or less
/// than, the other exactly when its numerator is.
pub proof fn lemma_compare_at(a: Dec, b: Dec, s: nat)
    requires
        a.scale <= s,
        b.scale <= s,
    ensures
        a.same(b) <==> a.numerator(s) == b.numerator(s),
        a.le(b) <==> a.numerator(s) <= b.numerator(s),
        a.lt(b) <==> a.numerator(s) < b.numerator(s),
{
    let c = a.common_scale(b);
    lemma_numerator_scales(a, c, s);
    lemma_numerator_scales(b, c, s);
    let p = pow10((s - c) as nat);
    lemma_pow10_step((s - c) as nat);
    let x = a.numerator(c);
    let y = b.numerator(c);
    assert((x == y <==> x * p == y * p) && (x <= y <==> x * p <= y * p) && (x < y <==> x * p < y
        * p)) by (nonlinear_arith)
        requires
            p > 0,
    ;
}

/// The numerator of a sum is the sum of the numerators, and that of a
/// negated number the negated numerator.
pub proof fn lemma_plus_at(a: Dec, b: Dec, s: nat)
    requires
        a.scale <= s,
        b.scale <= s,
    ensures
        a.plus(b).numerator(s) == a.numerator(s) + b.numerator(s),
        a.minus(b).numerator(s) == a.numerator(s) - b.numerator(s),
        a.negated().numerator(s) == -a.numerator(s),
{
    let c = a.common_scale(b);
    lemma_numerator_scales(a, c, s);
    lemma_numerator_scales(b, c, s);
    lemma_numerator_scales(a.plus(b), c, s);
    lemma_numerator_scales(a.minus(b), c, s);
    lemma_numerator_scales(b.negated(), c, c);
    lemma_mul_pow10_zero(a.plus(b).mantissa);
    lemma_mul_pow10_zero(a.minus(b).mantissa);
    lemma_mul_pow10_zero(b.negated().numerator(c));
    let p = pow10((s - c) as nat);
    let x = a.numerator(c);
    let y = b.numerator(c);
    let ny = b.negated().numerator(c);
    let q = pow10((c - b.scale) as nat);
    assert(ny == -y) by (nonlinear_arith)
        requires
            ny == (-b.mantissa) * q,
            y == b.mantissa * q,
    ;
    assert((x + y) * p == x * p + y * p && (x - y) * p == x * p - y * p) by (nonlinear_arith);
    let r = pow10((s - a.scale) as nat);
    assert((-a.mantissa) * r == -(a.mantissa * r)) by (nonlinear_arith);
}

/// Being the same number is an equivalence.
pub proof fn lemma_same_is_equivalence(a: Dec, b: Dec, c: Dec)
    ensures
        a.same(a),
        a.same(b) ==> b.same(a),
        a.same(b) && b.same(c) ==> a.same(c),
{
    let s = if a.common_scale(b) <= c.scale {
        c.scale
    } else {
        a.common_scale(b)
    };
    lemma_compare_at(a, b, s);
    lemma_compare_at(b, c, s);
    lemma_compare_at(a, c, s);
}

/// The order of the numbers is total, and it is an order of the numbers,
/// not of their forms.
pub proof fn lemma_le_is_total_order(a: Dec, b: Dec, c: Dec)
    ensures
        a.le(b) || b.le(a),
        a.le(b) && b.le(a) <==> a.same(b),
        a.le(b) && b.le(c) ==> a.le(c),
        a.lt(b) <==> !b.le(a),
{
    let s = if a.common_scale(b) <= c.scale {
        c.scale
    } else {
        a.common_scale(b)
    };
    lemma_compare_at(a, b, s);
    lemma_compare_at(b, a, s);
    lemma_compare_at(b, c, s);
    lemma_compare_at(a, c, s);
}

/// Sums and differences of the same numbers are the same numbers, whatever
/// the forms of the numbers added.
pub proof fn lemma_plus_respects_same(a: Dec, a2: Dec, b: Dec, b2: Dec)
    requires
        a.same(a2),
        b.same(b2),
    ensures
        a.plus(b).same(a2.plus(b2)),
        a.minus(b).same(a2.minus(b2)),
        a.plus(b).same(b.plus(a)),
{
    let s1 = a.common_scale(b);
    let s2 = a2.common_scale(b2);
    let s = if s1 <= s2 {
        s2
    } else {
        s1
    };
    lemma_compare_at(a, a2, s);
    lemma_compare_at(b, b2, s);
    lemma_plus_at(a, b, s);
    lemma_plus_at(a2, b2, s);
    lemma_plus_at(b, a, s);
    lemma_compare_at(a.plus(b), a2.plus(b2), s);
    lemma_compare_at(a.minus(b), a2.minus(b2), s);
    lemma_compare_at(a.plus(b), b.plus(a), s);
}

/// A number less than the divisor has the quotient zero.
proof fn lemma_div_basics_for(x: int, n: int)
    requires
        0 <= x < n,
    ensures
        x / n == 0,
{
    lemma_basic_div(x, n);
}

/// A number less than ten times the divisor has a quotient of one digit.
proof fn lemma_digit_bound(x: int, n: int)
    requires
        n > 0,
        0 <= x < 10 * n,
    ensures
        0 <= x / n < 10,
{
    lemma_fundamental_div_mod(x, n);
    lemma_mod_bound(x, n);
    let q = x / n;
    let r = x % n;
    assert(0 <= q < 10) by (nonlinear_arith)
        requires
            x == n * q + r,
            0 <= r < n,
            0 <= x < 10 * n,
            n > 0,
    ;
}

/// One more digit of a long division: how quotient and remainder of `x * 10`
/// follow from those of `x`.
proof fn lemma_division_step(x: int, n: int)
    requires
        n > 0,
    ensures
        (x * 10) / n == (x / n) * 10 + ((x % n) * 10) / n,
        (x * 10) % n == ((x % n) * 10) % n,
{
    let q = x / n;
    let r = x % n;
    lemma_fundamental_div_mod(x, n);
    assert(r * 10 + (q * 10) * n == x * 10) by (nonlinear_arith)
        requires
            x == n * q + r,
    ;
    assert(n * (q * 10) + r * 10 == x * 10) by (nonlinear_arith)
        requires
            x == n * q + r,
    ;
    lemma_hoist_over_denominator(r * 10, q * 10, n as nat);
    lemma_mod_multiples_vanish(q * 10, r * 10, n);
}

/// An exact decimal number in its shortest form, with a mantissa of at most
/// `MAX_MANTISSA` in magnitude.
#[derive(Clone, Copy, Debug, PartialEq, Eq, Structural, Hash)]
pub struct Decimal {
    mantissa: i128,
    scale: u32,
}

impl View for Decimal {
    type V = Dec;

    closed spec fn view(&self) -> Dec {
        Dec { mantissa: self.mantissa as int, scale: self.scale as nat }
    }
}

/// Whether `r` is the executable form of the number `d`: the shortest form
/// of `d` where that fits, and nothing where it does not.
pub open spec fn represents(r: Option<Decimal>, d: Dec) -> bool {
    match r {
        Some(x) => d.normal().in_range() && x@ == d.normal(),
        None => !d.normal().in_range(),
    }
}

/// `m * 10^k`, where that fits.
pub fn scale_up(m: i128, k: u32) -> (r: Option<i128>)
    ensures
        match r {
            Some(x) => x == m * pow10(k as nat),
            None => m * pow10(k as nat) < i128::MIN || m * pow10(k as nat) > i128::MAX,
        },
{
    if m == 0 {
        assert(0 * pow10(k as nat) == 0);
        return Some(0);
    }
    let mut cur: i128 = m;
    let mut i: u32 = 0;
    proof {
        lemma_mul_pow10_zero(m as int);
    }
    while i < k
        invariant
            i <= k,
            m != 0,
            cur == m * pow10(i as nat),
        decreases k - i,
    {
        proof {
            lemma_pow10_step(i as nat);
            assert(m * pow10((i + 1) as nat) == (m * pow10(i as nat)) * 10) by (nonlinear_arith)
                requires
                    pow10((i + 1) as nat) == 10 * pow10(i as nat),
            ;
        }
        match cur.checked_mul(10) {
            Some(next) => {
                cur = next;
            },
            None => {
                proof {
                    lemma_scale_monotone(m as int, (i + 1) as nat, k as nat);
                }
                return None;
            },
        }
        i = i + 1;
    }
    Some(cur)
}

/// The first `digits` fractional digits of `rem / n`, as a whole number:
/// the quotient of `rem * 10^digits` by `n`, found digit by digit.
fn fraction_digits(rem: u128, n: u128, digits: u32) -> (r: u128)
    requires
        0 < n <= usize::MAX,
        rem < n,
        digits <= DIVISION_SCALE,
    ensures
        r == (rem * pow10(digits as nat)) / (n as int),
        r < pow10(digits as nat),
{
    let mut q: u128 = 0;
    let mut left: u128 = rem;
    let mut i: u32 = 0;
    proof {
        lemma_mul_pow10_zero(rem as int);
        lemma_pow10_step(0);
        lemma_pow10_values();
        lemma_pow_increases(10, 0, DIVISION_SCALE as nat);
        lemma_small_mod(rem as nat, n as nat);
        lemma_div_basics_for(rem as int, n as int);
    }
    while i < digits
        invariant
            i <= digits <= DIVISION_SCALE,
            0 < n <= usize::MAX,
            q == (rem * pow10(i as nat)) / (n as int),
            left == (rem * pow10(i as nat)) % (n as int),
            q < pow10(i as nat),
            pow10(i as nat) <= pow10(DIVISION_SCALE as nat),
            pow10(DIVISION_SCALE as nat) == 1_000_000_000_000_000_000,
        decreases digits - i,
    {
        let ghost part = rem * pow10(i as nat);
        let ghost next_part = rem * pow10((i + 1) as nat);
        proof {
            lemma_pow10_step(i as nat);
            lemma_pow_increases(10, (i + 1) as nat, DIVISION_SCALE as nat);
            assert(next_part == part * 10) by (nonlinear_arith)
                requires
                    part == rem * pow10(i as nat),
                    next_part == rem * pow10((i + 1) as nat),
                    pow10((i + 1) as nat) == 10 * pow10(i as nat),
            ;
            lemma_division_step(part, n as int);
            lemma_mod_bound(part, n as int);
            lemma_digit_bound((left * 10) as int, n as int);
        }
        let left10: u128 = left * 10;
        let digit: u128 = left10 / n;
        q = q * 10 + digit;
        left = left10 % n;
        i = i + 1;
    }
    q
}

impl Decimal {
    /// Every `Decimal` is in its shortest form and within range.
    #[verifier::type_invariant]
    pub open spec fn well_formed(self) -> bool {
        self@.is_normal() && self@.in_range()
    }

    /// The executable form of the number `d`: its shortest form where that
    /// fits, and nothing where it does not.
    pub closed spec fn of(d: Dec) -> Option<Decimal> {
        if d.normal().in_range() {
            Some(
                Decimal {
                    mantissa: d.normal().mantissa as i128,
                    scale: d.normal().scale as u32,
                },
            )
        } else {
            None
        }
    }

    /// A number has an executable form exactly where its shortest form is
    /// in range, and the executable form is that number in its shortest
    /// form.
    pub proof fn lemma_of_is_same(d: Dec)
        ensures
            Decimal::of(d) is Some <==> d.normal().in_range(),
            represents(Decimal::of(d), d),
            Decimal::of(d) matches Some(x) ==> x@ == d.normal() && x@.same(d) && x.well_formed(),
    {
        lemma_normal_same(d);
        lemma_normal_is_normal(d);
    }

    /// Numbers with one shortest form have one executable form.
    pub proof fn lemma_of_normal(a: Dec, b: Dec)
        requires
            a.normal() == b.normal(),
        ensures
            Decimal::of(a) == Decimal::of(b),
    {
    }

    /// Two `Decimal`s are equal exactly when they are the same number, and
    /// each is the executable form of its own view.
    pub proof fn lemma_equal_iff_same(self, other: Decimal)
        requires
            self.well_formed(),
            other.well_formed(),
        ensures
            self == other <==> self@.same(other@),
            Decimal::of(self@) == Some(self),
    {
        lemma_normal_is_normal(self@);
        lemma_same_is_equivalence(self@, self@, self@);
        if self@.same(other@) {
            lemma_same_normal(self@, other@);
        }
    }

    /// The number `mantissa / 10^scale`, where its shortest form fits.
    pub fn new(mantissa: i128, scale: u32) -> (r: Option<Decimal>)
        ensures
            represents(r, Dec { mantissa: mantissa as int, scale: scale as nat }),
            r == Decimal::of(Dec { mantissa: mantissa as int, scale: scale as nat }),
    {
        let mut m: i128 = mantissa;
        let mut s: u32 = scale;
        while s > 0 && m % 10 == 0
            invariant
                (Dec { mantissa: m as int, scale: s as nat }).normal() == (Dec {
                    mantissa: mantissa as int,
                    scale: scale as nat,
                }).normal(),
            decreases s,
        {
            m = m / 10;
            s = s - 1;
        }
        proof {
            lemma_normal_is_normal(Dec { mantissa: m as int, scale: s as nat });
        }
        if m < -MAX_MANTISSA || m > MAX_MANTISSA {
            None
        } else {
            Some(Decimal { mantissa: m, scale: s })
        }
    }

    /// The whole number `n`.
    pub fn from_integer(n: i64) -> (r: Decimal)
        ensures
            r@ == (Dec { mantissa: n as int, scale: 0 }),
    {
        Decimal { mantissa: n as i128, scale: 0 }
    }

    /// The mantissa of the shortest form.
    pub fn mantissa(&self) -> (m: i128)
        ensures
            m == self@.mantissa,
    {
        self.mantissa
    }

    /// The number of fractional digits of the shortest form.
    pub fn scale(&self) -> (s: u32)
        ensures
            s == self@.scale,
    {
        self.scale
    }

    /// Whether this number is at most the other.
    pub fn le(&self, other: &Decimal) -> (b: bool)
        ensures
            b == self@.le(other@),
    {
        proof {
            use_type_invariant(self);
            use_type_invariant(other);
            lemma_mul_pow10_zero(self.mantissa as int);
            lemma_mul_pow10_zero(other.mantissa as int);
        }
        if self.scale == other.scale {
            self.mantissa <= other.mantissa
        } else if self.scale < other.scale {
            let k: u32 = other.scale - self.scale;
            proof {
                lemma_scale_monotone(self.mantissa as int, k as nat, k as nat);
            }
            match scale_up(self.mantissa, k) {
                Some(x) => x <= other.mantissa,
                None => self.mantissa < 0,
            }
        } else {
            let k: u32 = self.scale - other.scale;
            proof {
                lemma_scale_monotone(other.mantissa as int, k as nat, k as nat);
            }
            match scale_up(other.mantissa, k) {
                Some(y) => self.mantissa <= y,
                None => other.mantissa > 0,
            }
        }
    }

    /// Whether this number is less than the other.
    pub fn lt(&self, other: &Decimal) -> (b: bool)
        ensures
            b == self@.lt(other@),
    {
        !other.le(self)
    }

    /// `(low * 10^k + high) / 10^scale`, where `high` does not end in zero.
    fn aligned_sum(low: i128, k: u32, high: i128, scale: u32) -> (r: Option<Decimal>)
        requires
            k >= 1,
            scale >= 1,
            (high as int) % 10 != 0,
            -MAX_MANTISSA <= high <= MAX_MANTISSA,
        ensures
            represents(
                r,
                Dec { mantissa: low * pow10(k as nat) + high, scale: scale as nat },
            ),
            r == Decimal::of(Dec { mantissa: low * pow10(k as nat) + high, scale: scale as nat }),
    {
        let ghost shifted = low * pow10(k as nat);
        let ghost total = Dec { mantissa: shifted + high, scale: scale as nat };
        proof {
            lemma_pow10_step((k - 1) as nat);
            assert(shifted == (low * pow10((k - 1) as nat)) * 10) by (nonlinear_arith)
                requires
                    shifted == low * pow10(k as nat),
                    pow10(k as nat) == 10 * pow10((k - 1) as nat),
            ;
            assert(total.mantissa % 10 != 0);
            lemma_normal_is_normal(total);
        }
        match scale_up(low, k) {
            None => None,
            Some(x) => match x.checked_add(high) {
                None => None,
                Some(sum) => Decimal::new(sum, scale),
            },
        }
    }

    /// The sum of the two numbers, where it fits.
    pub fn plus(&self, other: &Decimal) -> (r: Option<Decimal>)
        ensures
            represents(r, self@.plus(other@)),
            r == Decimal::of(self@.plus(other@)),
    {
        proof {
            use_type_invariant(self);
            use_type_invariant(other);
            lemma_mul_pow10_zero(self.mantissa as int);
            lemma_mul_pow10_zero(other.mantissa as int);
        }
        if self.scale == other.scale {
            Decimal::new(self.mantissa + other.mantissa, self.scale)
        } else if self.scale < other.scale {
            Decimal::aligned_sum(
                self.mantissa,
                other.scale - self.scale,
                other.mantissa,
                other.scale,
            )
        } else {
            Decimal::aligned_sum(
                other.mantissa,
                self.scale - other.scale,
                self.mantissa,
                self.scale,
            )
        }
    }

    /// The number with its sign turned.
    pub fn negated(&self) -> (r: Decimal)
        ensures
            r@ == self@.negated(),
    {
        proof {
            use_type_invariant(self);
        }
        Decimal { mantissa: -self.mantissa, scale: self.scale }
    }

    /// The difference of the two numbers, where it fits.
    pub fn minus(&self, other: &Decimal) -> (r: Option<Decimal>)
        ensures
            represents(r, self@.minus(other@)),
            r == Decimal::of(self@.minus(other@)),
    {
        let negated = other.negated();
        self.plus(&negated)
    }

    /// The number times `10^exponent`, where it fits.
    pub fn times_pow10(&self, exponent: i32) -> (r: Option<Decimal>)
        ensures
            represents(r, self@.times_pow10(exponent as int)),
            r == Decimal::of(self@.times_pow10(exponent as int)),
    {
        proof {
            use_type_invariant(self);
        }
        let ghost wanted = self@.times_pow10(exponent as int);
        if exponent >= 0 {
            let e: u32 = exponent as u32;
            if e <= self.scale {
                proof {
                    lemma_normal_strip(self.mantissa as int, e as nat, self.scale as nat);
                }
                Decimal::new(self.mantissa, self.scale - e)
            } else {
                let up: u32 = e - self.scale;
                proof {
                    let whole = self.mantissa * pow10(up as nat);
                    lemma_pow10_adds(up as nat, self.scale as nat);
                    assert(self.mantissa * pow10(e as nat) == whole * pow10(self.scale as nat))
                        by (nonlinear_arith)
                        requires
                            whole == self.mantissa * pow10(up as nat),
                            pow10(e as nat) == pow10(up as nat) * pow10(self.scale as nat),
                    ;
                    lemma_normal_strip(whole, self.scale as nat, self.scale as nat);
                    lemma_normal_is_normal(Dec { mantissa: whole, scale: 0 });
                }
                match scale_up(self.mantissa, up) {
                    Some(x) => Decimal::new(x, 0),
                    None => None,
                }
            }
        } else {
            let down: i64 = -(exponent as i64);
            let total: i64 = self.scale as i64 + down;
            if total > u32::MAX as i64 {
                proof {
                    lemma_normal_is_normal(wanted);
                }
                None
            } else {
                Decimal::new(self.mantissa, total as u32)
            }
        }
    }

    /// What `divided_by` gives: nothing for a count of zero, and else the
    /// executable form of the quotient.
    pub open spec fn spec_divided_by(self, count: usize) -> Option<Decimal> {
        if count == 0 {
            None
        } else {
            Decimal::of(self@.divided_by(count as nat))
        }
    }

    /// The number divided by `count` and cut off towards zero after
    /// `DIVISION_SCALE` fractional digits, or after its own where it has
    /// more. Nothing for a count of zero, and nothing where the quotient
    /// does not fit.
    pub fn divided_by(&self, count: usize) -> (r: Option<Decimal>)
        ensures
            r == self.spec_divided_by(count),
            count == 0 ==> r is None,
            count > 0 ==> represents(r, self@.divided_by(count as nat)),
    {
        if count == 0 {
            return None;
        }
        proof {
            use_type_invariant(self);
        }
        let n: u128 = count as u128;
        let negative: bool = self.mantissa < 0;
        let a: u128 = if negative {
            (-self.mantissa) as u128
        } else {
            self.mantissa as u128
        };
        let digits: u32 = if self.scale <= DIVISION_SCALE {
            DIVISION_SCALE - self.scale
        } else {
            0
        };
        let whole: u128 = a / n;
        let rest: u128 = a % n;
        let fraction: u128 = fraction_digits(rest, n, digits);
        let ghost wanted = self@.divided_by(count as nat);
        let ghost p = pow10(digits as nat);
        let ghost quotient = whole * p + fraction;
        proof {
            lemma_pow10_step(digits as nat);
            lemma_fundamental_div_mod(a as int, n as int);
            lemma_hoist_over_denominator(rest * p, whole * p, n as nat);
            assert(rest * p + (whole * p) * n == a * p) by (nonlinear_arith)
                requires
                    a == n * whole + rest,
            ;
            assert(quotient == (a * p) / (n as int));
            assert(a * p >= 0 && (a > 0 ==> a * p > 0)) by (nonlinear_arith)
                requires
                    p > 0,
                    a >= 0,
            ;
            assert(self.mantissa * p == if negative {
                -(a * p)
            } else {
                a * p
            }) by (nonlinear_arith)
                requires
                    a == if negative {
                        -self.mantissa
                    } else {
                        self.mantissa as int
                    },
            ;
            assert(wanted.mantissa == if negative {
                -quotient
            } else {
                quotient
            });
            lemma_mul_pow10_zero(fraction as int);
        }
        let mut tail: u128 = fraction;
        let mut kept: u32 = digits;
        while kept > 0 && tail % 10 == 0
            invariant
                kept <= digits,
                tail * pow10((digits - kept) as nat) == fraction,
            decreases kept,
        {
            proof {
                let j = (digits - kept) as nat;
                lemma_pow10_step(j);
                assert((tail / 10) * pow10(j + 1) == tail * pow10(j)) by (nonlinear_arith)
                    requires
                        tail % 10 == 0,
                        pow10(j + 1) == 10 * pow10(j),
                ;
            }
            tail = tail / 10;
            kept = kept - 1;
        }
        let ghost dropped = (digits - kept) as nat;
        let ghost short = whole * pow10(kept as nat) + tail;
        proof {
            lemma_pow10_adds(kept as nat, dropped);
            lemma_pow10_step(dropped);
            assert(quotient == short * pow10(dropped)) by (nonlinear_arith)
                requires
                    quotient == whole * p + fraction,
                    p == pow10(kept as nat) * pow10(dropped),
                    fraction == tail * pow10(dropped),
                    short == whole * pow10(kept as nat) + tail,
            ;
            let signed_short = if negative {
                -short
            } else {
                short
            };
            assert(wanted.mantissa == signed_short * pow10(dropped)) by (nonlinear_arith)
                requires
                    quotient == short * pow10(dropped),
                    wanted.mantissa == if negative {
                        -quotient
                    } else {
                        quotient
                    },
                    signed_short == if negative {
                        -short
                    } else {
                        short
                    },
            ;
            lemma_normal_strip(signed_short, dropped, wanted.scale);
        }
        if kept == 0 {
            proof {
                lemma_mul_pow10_zero(whole as int);
                assert(tail == 0) by (nonlinear_arith)
                    requires
                        tail * p == fraction,
                        fraction < p,
                        tail >= 0,
                        p > 0,
                ;
            }
            let signed: i128 = if negative {
                -(whole as i128)
            } else {
                whole as i128
            };
            Decimal::new(signed, self.scale)
        } else {
            proof {
                lemma_pow10_values();
                lemma_pow10_step(dropped);
                assert(tail <= fraction) by (nonlinear_arith)
                    requires
                        tail * pow10(dropped) == fraction,
                        pow10(dropped) >= 1,
                        tail >= 0,
                ;
                lemma_pow_increases(10, digits as nat, DIVISION_SCALE as nat);
            }
            let signed_whole: i128 = if negative {
                -(whole as i128)
            } else {
                whole as i128
            };
            let signed_tail: i128 = if negative {
                -(tail as i128)
            } else {
                tail as i128
            };
            proof {
                let pk = pow10(kept as nat);
                assert(signed_whole * pk + signed_tail == if negative {
                    -short
                } else {
                    short
                }) by (nonlinear_arith)
                    requires
                        short == whole * pk + tail,
                        signed_whole == if negative {
                            -whole
                        } else {
                            whole as int
                        },
                        signed_tail == if negative {
                            -tail
                        } else {
                            tail as int
                        },
                ;
            }
            Decimal::aligned_sum(signed_whole, kept, signed_tail, self.scale + kept)
        }
    }
}

} // verus!
