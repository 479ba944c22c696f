//! Exact decimal amounts: a signed 96-bit mantissa and a scale of at most 28
//! fractional digits.

use vstd::prelude::*;

use crate::decimal::{
    decimal_checked_add, decimal_checked_sub, decimal_difference, decimal_from_str,
    decimal_greater, decimal_of_text, decimal_round_dp, decimal_sum, round_half_even, widen,
};

verus! {

/// `10^29`: larger than any mantissa, so that a value counted in units of
/// `10^-28` splits into two digits to this base.
pub const BASE: u128 = 100000000000000000000000000000u128;

/// Largest magnitude a mantissa may have: `2^96 - 1`.
pub const MAX_MANTISSA: i128 = 79228162514264337593543950335i128;

/// Largest number of fractional digits.
pub const MAX_SCALE: u32 = 28u32;

/// `10^n`.
pub open spec fn pow10(n: nat) -> int
    decreases n,
{
    if n == 0 {
        1
    } else {
        10 * pow10((n - 1) as nat)
    }
}

/// The value `mantissa / 10^scale`, counted in units of `10^-28`.
pub open spec fn units_of(mantissa: int, scale: int) -> int {
    mantissa * pow10((MAX_SCALE - scale) as nat)
}

/// Whether `mantissa` and `scale` are within the limits of an amount.
pub open spec fn in_range(mantissa: int, scale: int) -> bool {
    &&& -MAX_MANTISSA <= mantissa <= MAX_MANTISSA
    &&& 0 <= scale <= MAX_SCALE
}

/// A decimal number `mantissa / 10^scale`. Two amounts are equal under `==`
/// when they have the same value, whatever their scales.
#[derive(Clone, Copy, Debug)]
pub struct Amount {
    mantissa: i128,
    scale: u32,
}

impl PartialEq for Amount {
    fn eq(&self, other: &Amount) -> (r: bool) {
        self.sums_to(Amount::zero(), *other)
    }
}

impl vstd::std_specs::cmp::PartialEqSpecImpl for Amount {
    open spec fn obeys_eq_spec() -> bool {
        true
    }

    open spec fn eq_spec(&self, other: &Amount) -> bool {
        self.units() == other.units()
    }
}

impl Eq for Amount {

}

impl Amount {
    /// The limits every amount keeps.
    #[verifier::type_invariant]
    pub closed spec fn wf(self) -> bool {
        in_range(self.mantissa as int, self.scale as int)
    }

    /// The mantissa, as a mathematical integer.
    pub closed spec fn spec_mantissa(self) -> int {
        self.mantissa as int
    }

    /// The scale, as a mathematical integer.
    pub closed spec fn spec_scale(self) -> int {
        self.scale as int
    }

    /// The amount with the given mantissa and scale. Meaningful where the two
    /// are [`in_range`].
    pub closed spec fn of(mantissa: int, scale: int) -> Amount {
        Amount { mantissa: mantissa as i128, scale: scale as u32 }
    }

    /// The amount's value in units of `10^-28`.
    pub open spec fn units(self) -> int {
        units_of(self.spec_mantissa(), self.spec_scale())
    }

    /// The amount `mantissa / 10^scale`, or `None` when either part is out of
    /// range.
    pub fn new(mantissa: i128, scale: u32) -> (r: Option<Amount>)
        ensures
            r == if in_range(mantissa as int, scale as int) {
                Some(Amount::of(mantissa as int, scale as int))
            } else {
                None
            },
    {
        if scale <= MAX_SCALE && -MAX_MANTISSA <= mantissa && mantissa <= MAX_MANTISSA {
            Some(Amount { mantissa, scale })
        } else {
            None
        }
    }

    /// Zero, with no fractional digits.
    pub fn zero() -> (r: Amount)
        ensures
            r == Amount::of(0, 0),
            r.units() == 0,
    {
        Amount { mantissa: 0, scale: 0 }
    }

    /// [`Amount::of`] keeps the parts it is given.
    pub proof fn lemma_of_parts(mantissa: int, scale: int)
        requires
            in_range(mantissa, scale),
        ensures
            Amount::of(mantissa, scale).spec_mantissa() == mantissa,
            Amount::of(mantissa, scale).spec_scale() == scale,
            Amount::of(mantissa, scale).units() == units_of(mantissa, scale),
    {
    }

    /// The mantissa: the amount's digits as a signed integer.
    pub fn mantissa(&self) -> (m: i128)
        ensures
            m == self.spec_mantissa(),
            -MAX_MANTISSA <= m <= MAX_MANTISSA,
    {
        proof {
            use_type_invariant(self);
        }
        self.mantissa
    }

    /// The scale: how many of the mantissa's digits are fractional.
    pub fn scale(&self) -> (s: u32)
        ensures
            s == self.spec_scale(),
            s <= MAX_SCALE,
    {
        proof {
            use_type_invariant(self);
        }
        self.scale
    }
}

/// `10^(a + b)` is `10^a * 10^b`.
pub proof fn lemma_pow10_adds(a: nat, b: nat)
    ensures
        pow10(a + b) == pow10(a) * pow10(b),
    decreases a,
{
    if a == 0 {
        assert(pow10(a + b) == 1 * pow10(b));
    } else {
        lemma_pow10_adds((a - 1) as nat, b);
        assert(pow10(a + b) == 10 * pow10((a + b - 1) as nat));
        assert(10 * (pow10((a - 1) as nat) * pow10(b)) == (10 * pow10((a - 1) as nat)) * pow10(b))
            by (nonlinear_arith);
    }
}

/// Powers of ten are positive and grow with the exponent.
pub proof fn lemma_pow10_grows(a: nat, b: nat)
    requires
        a <= b,
    ensures
        0 < pow10(a) <= pow10(b),
    decreases b,
{
    if b == 0 {
    } else if a == b {
        lemma_pow10_grows(0, (b - 1) as nat);
    } else {
        lemma_pow10_grows(a, (b - 1) as nat);
    }
}

/// The value of `10^29`.
pub proof fn lemma_pow10_base()
    ensures
        pow10(29) == BASE,
{
    reveal_with_fuel(pow10, 30);
}

/// `10^exponent` for an exponent of at most 29.
fn ten_to(exponent: u32) -> (r: u128)
    requires
        exponent <= 29,
    ensures
        r == pow10(exponent as nat),
        1 <= r <= BASE,
{
    let mut r: u128 = 1;
    let mut i: u32 = 0;
    while i < exponent
        invariant
            i <= exponent <= 29,
            r == pow10(i as nat),
            1 <= r,
        decreases exponent - i,
    {
        proof {
            lemma_pow10_grows((i + 1) as nat, 29);
            lemma_pow10_base();
        }
        r = r * 10;
        i = i + 1;
    }
    proof {
        lemma_pow10_grows(exponent as nat, 29);
        lemma_pow10_base();
    }
    r
}

/// The magnitude of a value counted in units of `10^-28`, as two digits to
/// the base `10^29`: the high digit first.
fn magnitude(mantissa: i128, scale: u32) -> (r: (u128, u128))
    requires
        in_range(mantissa as int, scale as int),
    ensures
        mantissa >= 0 ==> r.0 * BASE + r.1 == units_of(mantissa as int, scale as int),
        mantissa < 0 ==> r.0 * BASE + r.1 == -units_of(mantissa as int, scale as int),
        r.0 < BASE,
        r.1 < BASE,
{
    let e: u32 = MAX_SCALE - scale;
    let p: u128 = ten_to(e);
    let c: u128 = ten_to(29 - e);
    let m: u128 = if mantissa < 0 {
        (-mantissa) as u128
    } else {
        mantissa as u128
    };
    let q: u128 = m / c;
    let r: u128 = m % c;
    proof {
        lemma_pow10_adds((29 - e) as nat, e as nat);
        lemma_pow10_base();
        let (mi, ci, pi, qi, ri) = (m as int, c as int, p as int, q as int, r as int);
        assert(ci * pi == BASE);
        assert(mi == qi * ci + ri) by {
            vstd::arithmetic::div_mod::lemma_fundamental_div_mod(mi, ci);
            assert(ci * qi == qi * ci) by (nonlinear_arith);
        }
        assert(ri * pi < BASE) by (nonlinear_arith)
            requires
                0 <= ri < ci,
                0 < pi,
                ci * pi == BASE,
        ;
        assert(mi * pi == qi * BASE + ri * pi) by (nonlinear_arith)
            requires
                mi == qi * ci + ri,
                ci * pi == BASE,
        ;
        assert(qi <= mi) by (nonlinear_arith)
            requires
                mi == qi * ci + ri,
                ci >= 1,
                qi >= 0,
                ri >= 0,
        ;
        assert((-(mantissa as int)) * pi == -((mantissa as int) * pi)) by (nonlinear_arith);
    }
    (q, r * p)
}

/// The decimal library's sum, kept only where it is an amount whose value is
/// exactly `a + b`.
pub open spec fn exact_sum(a: Amount, b: Amount, raw: Option<(int, int)>) -> Option<Amount> {
    match raw {
        Some((m, s)) => if in_range(m, s) && units_of(m, s) == a.units() + b.units() {
            Some(Amount::of(m, s))
        } else {
            None
        },
        None => None,
    }
}

/// The decimal library's difference, kept only where it is an amount whose
/// value is exactly `a - b`.
pub open spec fn exact_difference(a: Amount, b: Amount, raw: Option<(int, int)>) -> Option<
    Amount,
> {
    match raw {
        Some((m, s)) => if in_range(m, s) && units_of(m, s) == a.units() - b.units() {
            Some(Amount::of(m, s))
        } else {
            None
        },
        None => None,
    }
}

/// `a + b` as the decimal library computes it, or `None` where its result is
/// not exactly the sum.
pub open spec fn checked_sum(a: Amount, b: Amount) -> Option<Amount> {
    exact_sum(
        a,
        b,
        decimal_sum(a.spec_mantissa(), a.spec_scale(), b.spec_mantissa(), b.spec_scale()),
    )
}

/// `a - b` as the decimal library computes it, or `None` where its result is
/// not exactly the difference.
pub open spec fn checked_difference(a: Amount, b: Amount) -> Option<Amount> {
    exact_difference(
        a,
        b,
        decimal_difference(a.spec_mantissa(), a.spec_scale(), b.spec_mantissa(), b.spec_scale()),
    )
}

/// The amount that the decimal library reads from a text, or `None` where it
/// refuses the text.
pub open spec fn parsed(text: Seq<char>) -> Option<Amount> {
    match decimal_of_text(text) {
        Some((m, s)) => if in_range(m, s) {
            Some(Amount::of(m, s))
        } else {
            None
        },
        None => None,
    }
}

/// `a` with at most `places` fractional digits, rounded half to even.
pub open spec fn rounded(a: Amount, places: nat) -> Amount {
    if a.spec_scale() <= places {
        a
    } else {
        Amount::of(
            round_half_even(a.spec_mantissa(), pow10((a.spec_scale() - places) as nat)),
            places as int,
        )
    }
}

/// Rounding half to even keeps an integer between zero and itself.
pub proof fn lemma_round_half_even_bounds(n: int, d: int)
    requires
        d >= 1,
    ensures
        n >= 0 ==> 0 <= round_half_even(n, d) <= n,
        n <= 0 ==> n <= round_half_even(n, d) <= 0,
{
    vstd::arithmetic::div_mod::lemma_fundamental_div_mod(n, d);
    vstd::arithmetic::div_mod::lemma_mod_bound(n, d);
    let q = n / d;
    let r = n % d;
    assert(n == d * q + r);
    assert(n >= 0 ==> 0 <= q && (r >= 1 ==> q + 1 <= n)) by (nonlinear_arith)
        requires
            n == d * q + r,
            0 <= r < d,
            d >= 1,
    ;
    assert(n <= 0 ==> n <= q && (r >= 1 ==> q + 1 <= 0) && (r == 0 ==> q <= 0))
        by (nonlinear_arith)
        requires
            n == d * q + r,
            0 <= r < d,
            d >= 1,
    ;
}

/// Rounding does not depend on the unit: `n * e` rounded to a multiple of
/// `d * e` is `n` rounded to a multiple of `d`.
pub proof fn lemma_round_half_even_scales(n: int, d: int, e: int)
    requires
        d >= 1,
        e >= 1,
    ensures
        round_half_even(n * e, d * e) == round_half_even(n, d),
{
    vstd::arithmetic::div_mod::lemma_fundamental_div_mod(n, d);
    vstd::arithmetic::div_mod::lemma_mod_bound(n, d);
    let q = n / d;
    let r = n % d;
    assert(n * e == q * (d * e) + r * e && 0 <= r * e < d * e && d * e >= 1) by (nonlinear_arith)
        requires
            n == d * q + r,
            0 <= r < d,
            d >= 1,
            e >= 1,
    ;
    vstd::arithmetic::div_mod::lemma_fundamental_div_mod_converse(n * e, d * e, q, r * e);
    assert((2 * (r * e) < d * e) == (2 * r < d) && (2 * (r * e) == d * e) == (2 * r == d))
        by (nonlinear_arith)
        requires
            e >= 1,
    ;
}

/// What rounding does to the value: in units of `10^-28`, the value goes to
/// the nearest multiple of `10^(28 - places)`, a tie going to the even
/// multiple.
pub proof fn lemma_rounded_value(a: Amount, places: nat)
    requires
        in_range(a.spec_mantissa(), a.spec_scale()),
        places <= MAX_SCALE,
    ensures
        rounded(a, places).units() == round_half_even(
            a.units(),
            pow10((MAX_SCALE - places) as nat),
        ) * pow10((MAX_SCALE - places) as nat),
{
    let m = a.spec_mantissa();
    let s = a.spec_scale();
    let step = pow10((MAX_SCALE - places) as nat);
    let unit = pow10((MAX_SCALE - s) as nat);
    lemma_pow10_grows(0, (MAX_SCALE - places) as nat);
    lemma_pow10_grows(0, (MAX_SCALE - s) as nat);
    if s <= places {
        let spread = pow10((places - s) as nat);
        lemma_pow10_grows(0, (places - s) as nat);
        lemma_pow10_adds((places - s) as nat, (MAX_SCALE - places) as nat);
        assert(unit == spread * step);
        assert(m * unit == (m * spread) * step && (m * spread) * step == step * (m * spread) + 0)
            by (nonlinear_arith)
            requires
                unit == spread * step,
        ;
        vstd::arithmetic::div_mod::lemma_fundamental_div_mod_converse(
            m * unit,
            step,
            m * spread,
            0,
        );
    } else {
        let drop = pow10((s - places) as nat);
        lemma_pow10_grows(0, (s - places) as nat);
        lemma_pow10_adds((s - places) as nat, (MAX_SCALE - s) as nat);
        assert(step == drop * unit);
        lemma_round_half_even_scales(m, drop, unit);
        lemma_round_half_even_bounds(m, drop);
        Amount::lemma_of_parts(round_half_even(m, drop), places as int);
    }
}

/// A sum that [`checked_sum`] gives is exact.
pub proof fn lemma_checked_sum_exact(a: Amount, b: Amount)
    ensures
        checked_sum(a, b) matches Some(r) ==> r.units() == a.units() + b.units(),
{
    if let Some((m, s)) = decimal_sum(
        a.spec_mantissa(),
        a.spec_scale(),
        b.spec_mantissa(),
        b.spec_scale(),
    ) {
        if in_range(m, s) {
            Amount::lemma_of_parts(m, s);
        }
    }
}

/// A difference that [`checked_difference`] gives is exact.
pub proof fn lemma_checked_difference_exact(a: Amount, b: Amount)
    ensures
        checked_difference(a, b) matches Some(r) ==> r.units() == a.units() - b.units(),
{
    if let Some((m, s)) = decimal_difference(
        a.spec_mantissa(),
        a.spec_scale(),
        b.spec_mantissa(),
        b.spec_scale(),
    ) {
        if in_range(m, s) {
            Amount::lemma_of_parts(m, s);
        }
    }
}

impl Amount {
    /// Keeps a sum that the decimal library computed for `a + b` where it is
    /// an amount and exact, and drops it otherwise.
    pub fn accept_sum(a: Amount, b: Amount, raw: Option<(i128, u32)>) -> (r: Option<Amount>)
        ensures
            r == exact_sum(a, b, widen(raw)),
            r matches Some(v) ==> v.units() == a.units() + b.units(),
    {
        match raw {
            Some((m, s)) => match Amount::new(m, s) {
                Some(v) => {
                    proof {
                        Amount::lemma_of_parts(m as int, s as int);
                    }
                    if a.sums_to(b, v) {
                        Some(v)
                    } else {
                        None
                    }
                },
                None => None,
            },
            None => None,
        }
    }

    /// Keeps a difference that the decimal library computed for `a - b`
    /// where it is an amount and exact, and drops it otherwise.
    pub fn accept_difference(a: Amount, b: Amount, raw: Option<(i128, u32)>) -> (r: Option<
        Amount,
    >)
        ensures
            r == exact_difference(a, b, widen(raw)),
            r matches Some(v) ==> v.units() == a.units() - b.units(),
    {
        match raw {
            Some((m, s)) => match Amount::new(m, s) {
                Some(v) => {
                    proof {
                        Amount::lemma_of_parts(m as int, s as int);
                    }
                    if v.sums_to(b, a) {
                        Some(v)
                    } else {
                        None
                    }
                },
                None => None,
            },
            None => None,
        }
    }

    /// `self + other`, or `None` where the decimal library cannot give the
    /// exact sum.
    pub fn checked_add(self, other: Amount) -> (r: Option<Amount>)
        ensures
            r == checked_sum(self, other),
            r matches Some(v) ==> v.units() == self.units() + other.units(),
    {
        proof {
            use_type_invariant(self);
            use_type_invariant(other);
        }
        let raw = decimal_checked_add(self.mantissa, self.scale, other.mantissa, other.scale);
        Amount::accept_sum(self, other, raw)
    }

    /// `self - other`, or `None` where the decimal library cannot give the
    /// exact difference.
    pub fn checked_sub(self, other: Amount) -> (r: Option<Amount>)
        ensures
            r == checked_difference(self, other),
            r matches Some(v) ==> v.units() == self.units() - other.units(),
    {
        proof {
            use_type_invariant(self);
            use_type_invariant(other);
        }
        let raw = decimal_checked_sub(self.mantissa, self.scale, other.mantissa, other.scale);
        Amount::accept_difference(self, other, raw)
    }

    /// Whether `self` is greater than `other` in value.
    pub fn greater_than(self, other: Amount) -> (r: bool)
        ensures
            r == (self.units() > other.units()),
    {
        proof {
            use_type_invariant(self);
            use_type_invariant(other);
        }
        decimal_greater(self.mantissa, self.scale, other.mantissa, other.scale)
    }

    /// `self` with at most `places` fractional digits: an amount that has no
    /// more is returned as it is, any other is rounded half to even.
    pub fn round_to(self, places: u32) -> (r: Amount)
        ensures
            r == rounded(self, places as nat),
    {
        proof {
            use_type_invariant(self);
            if self.scale > places {
                lemma_pow10_grows(0, (self.scale - places) as nat);
                lemma_round_half_even_bounds(
                    self.mantissa as int,
                    pow10((self.scale - places) as nat),
                );
            }
        }
        let (mantissa, scale) = decimal_round_dp(self.mantissa, self.scale, places);
        Amount { mantissa, scale }
    }

    /// Reads a decimal number from a text.
    pub fn parse(text: &str) -> (r: Option<Amount>)
        ensures
            r == parsed(text@),
    {
        match decimal_from_str(text) {
            Ok((m, s)) => Amount::new(m, s),
            Err(_) => None,
        }
    }

    /// Whether `self + other` is exactly `total`.
    pub fn sums_to(self, other: Amount, total: Amount) -> (r: bool)
        ensures
            r == (self.units() + other.units() == total.units()),
    {
        proof {
            use_type_invariant(self);
            use_type_invariant(other);
            use_type_invariant(total);
        }
        let (xh, xl) = magnitude(self.mantissa, self.scale);
        let (yh, yl) = magnitude(other.mantissa, other.scale);
        let (zh, zl) = magnitude(total.mantissa, total.scale);
        let mut plus_hi: u128 = 0;
        let mut plus_lo: u128 = 0;
        let mut minus_hi: u128 = 0;
        let mut minus_lo: u128 = 0;
        if self.mantissa >= 0 {
            plus_hi = plus_hi + xh;
            plus_lo = plus_lo + xl;
        } else {
            minus_hi = minus_hi + xh;
            minus_lo = minus_lo + xl;
        }
        if other.mantissa >= 0 {
            plus_hi = plus_hi + yh;
            plus_lo = plus_lo + yl;
        } else {
            minus_hi = minus_hi + yh;
            minus_lo = minus_lo + yl;
        }
        if total.mantissa >= 0 {
            minus_hi = minus_hi + zh;
            minus_lo = minus_lo + zl;
        } else {
            plus_hi = plus_hi + zh;
            plus_lo = plus_lo + zl;
        }
        assert(plus_hi * BASE + plus_lo - (minus_hi * BASE + minus_lo) == self.units()
            + other.units() - total.units());
        let plus_carry: u128 = plus_lo / BASE;
        let minus_carry: u128 = minus_lo / BASE;
        plus_hi + plus_carry == minus_hi + minus_carry && plus_lo % BASE == minus_lo % BASE
    }
}

} // verus!
