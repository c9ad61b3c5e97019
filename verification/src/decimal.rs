//! Exact base-10 arithmetic substrate.
//!
//! A [`Decimal`] is a signed base-10 fixed-point number `mantissa * 10^-scale`
//! with at most [`MAX_SCALE`] fractional digits.  Equality and ordering are
//! exact value comparisons; arithmetic is exact except where an operation's
//! contract says it truncates.  Every well-formed value, measured in units of
//! `10^-MAX_SCALE`, lies within [`UNITS_LIMIT`] in magnitude.

use vstd::prelude::*;

verus! {

use vstd::arithmetic::div_mod::{
    lemma_div_denominator,
    lemma_div_is_ordered,
    lemma_div_multiples_vanish,
    lemma_div_nonincreasing,
    lemma_div_pos_is_pos,
    lemma_fundamental_div_mod,
    lemma_fundamental_div_mod_converse,
    lemma_multiply_divide_lt,
};
use vstd::arithmetic::mul::{
    lemma_mul_inequality,
    lemma_mul_is_associative,
    lemma_mul_is_distributive_add_other_way,
    lemma_mul_is_distributive_sub_other_way,
};
use vstd::slice::slice_index_get;
use vstd::string::StringSliceAdditionalSpecFns;

/// Greatest number of fractional digits a `Decimal` may carry.
pub const MAX_SCALE: u32 = 18;

/// Magnitude bound of a well-formed `Decimal`, measured in units of
/// `10^-MAX_SCALE`; equal to `10^37`, so values reach `10^19` in magnitude.
pub const UNITS_LIMIT: i128 = 10_000_000_000_000_000_000_000_000_000_000_000_000i128;

/// `10^e`.
pub open spec fn pow10(e: nat) -> int
    decreases e,
{
    if e == 0 {
        1
    } else {
        10 * pow10((e - 1) as nat)
    }
}

/// Quotient of `a` by `b`, rounded toward zero; meant for `b > 0`.
pub open spec fn tdiv(a: int, b: int) -> int {
    if a >= 0 {
        a / b
    } else {
        -((-a) / b)
    }
}

/// Remainder of `a` by `b` rounded toward zero: it carries the sign of `a`;
/// meant for `b > 0`.
pub open spec fn tmod(a: int, b: int) -> int {
    a - b * tdiv(a, b)
}

/// Absolute value.
pub open spec fn iabs(a: int) -> int {
    if a >= 0 {
        a
    } else {
        -a
    }
}

pub proof fn lemma_pow10_pos(e: nat)
    ensures
        pow10(e) >= 1,
    decreases e,
{
    if e > 0 {
        lemma_pow10_pos((e - 1) as nat);
    }
}

pub proof fn lemma_pow10_adds(a: nat, b: nat)
    ensures
        pow10(a + b) == pow10(a) * pow10(b),
    decreases a,
{
    if a == 0 {
    } else {
        lemma_pow10_adds((a - 1) as nat, b);
        assert(10 * (pow10((a - 1) as nat) * pow10(b)) == (10 * pow10((a - 1) as nat)) * pow10(b))
            by (nonlinear_arith);
    }
}

pub proof fn lemma_pow10_increases(a: nat, b: nat)
    requires
        a <= b,
    ensures
        pow10(a) <= pow10(b),
    decreases b,
{
    if a < b {
        lemma_pow10_increases(a, (b - 1) as nat);
        lemma_pow10_pos((b - 1) as nat);
    }
}

/// A product with a factor of at least one does not shrink in magnitude and
/// keeps the multiplicand's sign.
pub proof fn lemma_mul_grows(x: int, p: int)
    requires
        p >= 1,
    ensures
        iabs(x * p) >= iabs(x),
        x >= 0 ==> x * p >= 0,
        x < 0 ==> x * p < 0,
{
    if x >= 0 {
        assert(x * p >= x * 1) by (nonlinear_arith)
            requires
                p >= 1,
                x >= 0,
        ;
    } else {
        assert(x * p <= x * 1) by (nonlinear_arith)
            requires
                p >= 1,
                x < 0,
        ;
    }
}

/// Magnitude of a product is the product of magnitudes.
pub proof fn lemma_abs_mul(x: int, y: int)
    ensures
        iabs(x * y) == iabs(x) * iabs(y),
{
    assert(x * y == (-x) * (-y) && (-x) * y == -(x * y) && x * (-y) == -(x * y))
        by (nonlinear_arith);
    if x >= 0 && y >= 0 {
        assert(x * y >= 0) by (nonlinear_arith)
            requires
                x >= 0,
                y >= 0,
        ;
    } else if x < 0 && y < 0 {
        assert(x * y >= 0) by (nonlinear_arith)
            requires
                x < 0,
                y < 0,
        ;
    } else if x >= 0 && y < 0 {
        assert(x * y <= 0) by (nonlinear_arith)
            requires
                x >= 0,
                y < 0,
        ;
    } else {
        assert(x * y <= 0) by (nonlinear_arith)
            requires
                x < 0,
                y >= 0,
        ;
    }
}

pub proof fn lemma_pow10_values()
    ensures
        pow10(18) == 1_000_000_000_000_000_000,
        pow10(19) == 10_000_000_000_000_000_000,
        pow10(37) == UNITS_LIMIT as int,
{
    reveal_with_fuel(pow10, 40);
}

/// Scaling numerator and denominator of a truncating division by a common
/// positive factor leaves the quotient unchanged.
pub proof fn lemma_tdiv_scale(a: int, d: int, p: int)
    requires
        d > 0,
        p > 0,
    ensures
        tdiv(a * p, d * p) == tdiv(a, d),
{
    assert(d * p > 0) by (nonlinear_arith)
        requires
            d > 0,
            p > 0,
    ;
    if a >= 0 {
        lemma_mul_grows(a, p);
        lemma_div_denominator(a * p, p, d);
        lemma_div_multiples_vanish(a, p);
        assert(a * p == p * a) by (nonlinear_arith);
        assert(p * d == d * p) by (nonlinear_arith);
        assert((a * p) / (d * p) == ((a * p) / p) / d);
        assert((a * p) / p == a);
    } else {
        lemma_mul_grows(a, p);
        assert((-a) * p == -(a * p)) by (nonlinear_arith);
        lemma_div_denominator((-a) * p, p, d);
        lemma_div_multiples_vanish(-a, p);
        assert((-a) * p == p * (-a)) by (nonlinear_arith);
        assert(p * d == d * p) by (nonlinear_arith);
    }
}

/// `tdiv`/`tmod` agree with Euclidean `/` and `%` on a nonnegative dividend,
/// and mirror them on a negative one.
pub proof fn lemma_tmod_cases(a: int, b: int)
    requires
        b > 0,
    ensures
        a >= 0 ==> tdiv(a, b) == a / b && tmod(a, b) == a % b,
        a < 0 ==> tdiv(a, b) == -((-a) / b) && tmod(a, b) == -((-a) % b),
        tmod(a, b) == 0 <==> a % b == 0,
        iabs(tmod(a, b)) < b,
        a >= 0 ==> tmod(a, b) >= 0,
        a < 0 ==> tmod(a, b) <= 0,
{
    if a >= 0 {
        lemma_fundamental_div_mod(a, b);
    } else {
        lemma_fundamental_div_mod(-a, b);
        assert(b * (-((-a) / b)) == -(b * ((-a) / b))) by (nonlinear_arith);
        assert(tmod(a, b) == a + b * ((-a) / b));
        assert(b * ((-a) / b) == (-a) - ((-a) % b));
        assert((-a) % b == 0 ==> a % b == 0) by {
            if (-a) % b == 0 {
                assert(-a == b * ((-a) / b) + 0);
                assert(a == (-((-a) / b)) * b + 0) by (nonlinear_arith)
                    requires
                        -a == b * ((-a) / b) + 0,
                ;
                lemma_fundamental_div_mod_converse(a, b, -((-a) / b), 0);
            }
        };
        assert(a % b == 0 ==> (-a) % b == 0) by {
            if a % b == 0 {
                lemma_fundamental_div_mod(a, b);
                assert(a == b * (a / b) + a % b);
                assert(-a == (-(a / b)) * b + 0) by (nonlinear_arith)
                    requires
                        a == b * (a / b),
                ;
                lemma_fundamental_div_mod_converse(-a, b, -(a / b), 0);
            }
        };
    }
}

/// Subtracting the truncating remainder leaves an exact multiple of the
/// divisor that is no larger in magnitude and keeps its sign direction.
pub proof fn lemma_align(a: int, b: int)
    requires
        b > 0,
    ensures
        tmod(a - tmod(a, b), b) == 0,
        iabs(a - tmod(a, b)) <= iabs(a),
        a >= 0 ==> 0 <= a - tmod(a, b) <= a,
        a < 0 ==> a <= a - tmod(a, b) <= 0,
{
    lemma_tmod_cases(a, b);
    let r = a - tmod(a, b);
    assert(r == b * tdiv(a, b));
    if a >= 0 {
        lemma_fundamental_div_mod(a, b);
        assert(r % b == 0) by {
            assert(r == tdiv(a, b) * b + 0) by (nonlinear_arith)
                requires
                    r == b * tdiv(a, b),
            ;
            lemma_fundamental_div_mod_converse(r, b, tdiv(a, b), 0);
        };
        lemma_tmod_cases(r, b);
    } else {
        lemma_fundamental_div_mod(-a, b);
        assert(-r == b * ((-a) / b)) by (nonlinear_arith)
            requires
                r == b * (-((-a) / b)),
        ;
        assert((-r) % b == 0) by {
            assert(-r == ((-a) / b) * b + 0) by (nonlinear_arith)
                requires
                    -r == b * ((-a) / b),
            ;
            lemma_fundamental_div_mod_converse(-r, b, (-a) / b, 0);
        };
        lemma_tmod_cases(r, b);
        assert(r <= 0);
    }
}

/// `10^e` as an `i128`, for exponents up to 37.
fn pow10_i128(e: u32) -> (r: i128)
    requires
        e <= 37,
    ensures
        r as int == pow10(e as nat),
        r >= 1,
{
    let mut r: i128 = 1;
    let mut i: u32 = 0;
    proof {
        lemma_pow10_values();
    }
    while i < e
        invariant
            i <= e,
            e <= 37,
            r as int == pow10(i as nat),
            pow10(37) == UNITS_LIMIT as int,
        decreases e - i,
    {
        proof {
            lemma_pow10_pos(i as nat);
            lemma_pow10_increases((i + 1) as nat, 37);
        }
        r = r * 10;
        i = i + 1;
    }
    proof {
        lemma_pow10_pos(e as nat);
    }
    r
}

/// An exact base-10 number `mantissa * 10^-scale`.
#[derive(Clone, Copy, Debug)]
pub struct Decimal {
    mantissa: i128,
    scale: u32,
}

impl Decimal {
    /// The canonical zero: mantissa zero at scale zero.
    pub closed spec fn spec_zero() -> Decimal {
        Decimal { mantissa: 0, scale: 0 }
    }

    /// The greatest value: mantissa `10^19` at scale zero.
    pub closed spec fn spec_max_value() -> Decimal {
        Decimal { mantissa: 10_000_000_000_000_000_000, scale: 0 }
    }

    /// The mantissa, as a mathematical integer.
    pub closed spec fn spec_mantissa(self) -> int {
        self.mantissa as int
    }

    /// The number of fractional digits carried by the representation.
    pub closed spec fn spec_scale(self) -> nat {
        self.scale as nat
    }

    /// The value, measured in units of `10^-MAX_SCALE`.
    pub open spec fn units(self) -> int {
        if self.spec_scale() <= MAX_SCALE {
            self.spec_mantissa() * pow10((MAX_SCALE - self.spec_scale()) as nat)
        } else {
            0
        }
    }

    /// Well-formedness: the scale is within bounds and the value's magnitude
    /// is within `UNITS_LIMIT` units.  Every `Decimal` satisfies this: it is
    /// the type's invariant.
    pub open spec fn wf(self) -> bool {
        &&& self.spec_scale() <= MAX_SCALE
        &&& -(UNITS_LIMIT as int) <= self.units() <= UNITS_LIMIT as int
    }

    #[verifier::type_invariant]
    pub(crate) open spec fn type_inv(self) -> bool {
        self.wf()
    }

    /// The represented scale (number of fractional digits).
    pub fn scale(&self) -> (s: u32)
        ensures
            s as nat == self.spec_scale(),
    {
        self.scale
    }

    /// The raw mantissa, for callers that format or convert values.
    pub fn mantissa(&self) -> (m: i128)
        ensures
            m as int == self.spec_mantissa(),
    {
        self.mantissa
    }

    /// The value zero, at scale zero.
    pub fn zero() -> (r: Decimal)
        ensures
            r == Decimal::spec_zero(),
            r.units() == 0,
            r.spec_scale() == 0,
    {
        Decimal { mantissa: 0, scale: 0 }
    }

    /// The value one, at scale zero.
    pub fn one() -> (r: Decimal)
        ensures
            r.wf(),
            r.units() == pow10(MAX_SCALE as nat),
            r.spec_scale() == 0,
    {
        proof {
            lemma_pow10_values();
        }
        Decimal { mantissa: 1, scale: 0 }
    }

    /// The greatest well-formed value, `10^19`.
    pub fn max_value() -> (r: Decimal)
        ensures
            r == Decimal::spec_max_value(),
            r.units() == UNITS_LIMIT as int,
            r.spec_scale() == 0,
    {
        proof {
            lemma_pow10_values();
            lemma_pow10_adds(19, 18);
        }
        Decimal { mantissa: 10_000_000_000_000_000_000, scale: 0 }
    }

    /// Builds `mantissa * 10^-scale`; `None` when the scale is out of range.
    pub fn new(mantissa: i64, scale: u32) -> (r: Option<Decimal>)
        ensures
            scale <= MAX_SCALE ==> {
                &&& r is Some
                &&& r->Some_0.wf()
                &&& r->Some_0.spec_mantissa() == mantissa as int
                &&& r->Some_0.spec_scale() == scale as nat
            },
            scale > MAX_SCALE ==> r is None,
    {
        if scale > MAX_SCALE {
            None
        } else {
            proof {
                lemma_pow10_values();
                lemma_pow10_increases((MAX_SCALE - scale) as nat, 18);
                lemma_pow10_pos((MAX_SCALE - scale) as nat);
                let m = mantissa as int;
                let p = pow10((MAX_SCALE - scale) as nat);
                assert(iabs(m * p) <= iabs(m) * pow10(18)) by (nonlinear_arith)
                    requires
                        1 <= p <= pow10(18),
                ;
                assert(iabs(m) * pow10(18) < UNITS_LIMIT as int) by (nonlinear_arith)
                    requires
                        iabs(m) < 10_000_000_000_000_000_000,
                        pow10(18) == 1_000_000_000_000_000_000,
                        UNITS_LIMIT as int == pow10(37),
                        pow10(37) == pow10(19) * pow10(18),
                        pow10(19) == 10_000_000_000_000_000_000,
                ;
            }
            let d = Decimal { mantissa: mantissa as i128, scale };
            Some(d)
        }
    }
}

/// `u` rounded toward zero to a multiple of `10^k`.
pub open spec fn trunc_units(u: int, k: nat) -> int {
    tdiv(u, pow10(k)) * pow10(k)
}

/// Rounding toward zero to a multiple of `p` does not grow the magnitude and
/// keeps the sign direction.
pub proof fn lemma_trunc_bound(u: int, p: int)
    requires
        p > 0,
    ensures
        iabs(tdiv(u, p) * p) <= iabs(u),
        u >= 0 ==> 0 <= tdiv(u, p) * p,
        u < 0 ==> tdiv(u, p) * p <= 0,
{
    if u >= 0 {
        let q = u / p;
        lemma_fundamental_div_mod(u, p);
        assert(q * p == p * q) by (nonlinear_arith);
    } else {
        let q = (-u) / p;
        lemma_fundamental_div_mod(-u, p);
        assert((-q) * p == -(q * p) && q * p == p * q) by (nonlinear_arith);
    }
}

/// A truncating quotient never exceeds the dividend in magnitude, for a
/// divisor of at least one.
pub proof fn lemma_tdiv_abs(a: int, b: int)
    requires
        b >= 1,
    ensures
        iabs(tdiv(a, b)) <= iabs(a),
{
    if a >= 0 {
        lemma_div_nonincreasing(a, b);
        lemma_div_pos_is_pos(a, b);
    } else {
        lemma_div_nonincreasing(-a, b);
        lemma_div_pos_is_pos(-a, b);
    }
}

/// The units of an exact product, truncated toward zero at `MAX_SCALE`
/// fractional digits, over plain unit values.
pub open spec fn qmul_units(au: int, bu: int) -> int {
    tdiv(au * bu, pow10(MAX_SCALE as nat))
}

/// The units of an exact product of values, truncated toward zero at
/// `MAX_SCALE` fractional digits.
pub open spec fn mul_units(a: Decimal, b: Decimal) -> int {
    qmul_units(a.units(), b.units())
}

/// The mantissa a well-formed decimal with value `u` and scale `s` carries.
pub open spec fn mant_of(u: int, s: nat) -> int {
    tdiv(u, pow10((MAX_SCALE - s) as nat))
}

/// A well-formed decimal's mantissa is determined by its value and scale.
pub proof fn lemma_mantissa_of(d: Decimal)
    requires
        d.wf(),
    ensures
        d.spec_mantissa() == mant_of(d.units(), d.spec_scale()),
{
    let m = d.spec_mantissa();
    let p = pow10((MAX_SCALE - d.spec_scale()) as nat);
    lemma_pow10_pos((MAX_SCALE - d.spec_scale()) as nat);
    lemma_tdiv_scale(m, 1, p);
    assert(m * 1 == m) by (nonlinear_arith);
    assert(1 * p == p);
}

/// `checked_mul` succeeds on well-formed operands with these values and
/// scales: the mantissa product fits the machine and the truncated product of
/// values stays representable.
pub open spec fn mul_fits(au: int, asc: nat, bu: int, bsc: nat) -> bool {
    let pm = mant_of(au, asc) * mant_of(bu, bsc);
    &&& i128::MIN <= pm <= i128::MAX
    &&& iabs(qmul_units(au, bu)) <= UNITS_LIMIT as int
}

/// `checked_mul` on these operands returns a value.
pub open spec fn mul_succeeds(a: Decimal, b: Decimal) -> bool {
    mul_fits(a.units(), a.spec_scale(), b.units(), b.spec_scale())
}

/// `checked_div` on these operands returns a value.
pub open spec fn div_succeeds(a: Decimal, b: Decimal) -> bool {
    &&& b.units() != 0
    &&& iabs(div_units(a, b)) <= UNITS_LIMIT as int
}

/// `mul_fits` is exactly `checked_mul`'s success condition.
pub proof fn lemma_mul_fits(a: Decimal, b: Decimal)
    requires
        a.wf(),
        b.wf(),
    ensures
        mul_succeeds(a, b) <==> (i128::MIN <= a.spec_mantissa() * b.spec_mantissa() <= i128::MAX
            && iabs(mul_units(a, b)) <= UNITS_LIMIT as int),
{
    lemma_mantissa_of(a);
    lemma_mantissa_of(b);
}

/// The units of an exact quotient, truncated toward zero at `MAX_SCALE`
/// fractional digits, over plain unit values.
pub open spec fn qdiv_units(au: int, bu: int) -> int {
    let q = (iabs(au) * pow10(MAX_SCALE as nat)) / iabs(bu);
    if (au >= 0) == (bu >= 0) {
        q
    } else {
        -q
    }
}

/// The units of an exact quotient of values, truncated toward zero at
/// `MAX_SCALE` fractional digits.
pub open spec fn div_units(a: Decimal, b: Decimal) -> int {
    qdiv_units(a.units(), b.units())
}

/// One digit of schoolbook long division: appending a digit to the dividend's
/// scaled copy extends quotient and remainder in the familiar way.
proof fn lemma_long_div_step(n: int, d: int, i: nat, q: int, r: int)
    requires
        n >= 0,
        d > 0,
        q == (n * pow10(i)) / d,
        r == (n * pow10(i)) % d,
    ensures
        (n * pow10(i + 1)) / d == q * 10 + (r * 10) / d,
        (n * pow10(i + 1)) % d == (r * 10) % d,
        (r * 10) / d < 10,
{
    lemma_pow10_pos(i);
    assert(n * pow10(i) >= 0) by (nonlinear_arith)
        requires
            n >= 0,
            pow10(i) >= 1,
    ;
    let x = n * pow10(i);
    lemma_fundamental_div_mod(x, d);
    let q2 = (r * 10) / d;
    let r2 = (r * 10) % d;
    lemma_fundamental_div_mod(r * 10, d);
    assert(n * pow10(i + 1) == x * 10) by {
        assert(pow10(i + 1) == 10 * pow10(i));
        assert(n * (10 * pow10(i)) == (n * pow10(i)) * 10) by (nonlinear_arith);
    };
    assert(x * 10 == (q * 10 + q2) * d + r2) by (nonlinear_arith)
        requires
            x == d * q + r,
            r * 10 == d * q2 + r2,
    ;
    lemma_fundamental_div_mod_converse(n * pow10(i + 1), d, q * 10 + q2, r2);
    lemma_multiply_divide_lt(r * 10, d, 10);
}

/// Operands whose exact product stays representable: the scales' sum is
/// within `MAX_SCALE` and the product of the values within range.
pub open spec fn mul_ok(a: Decimal, b: Decimal) -> bool {
    &&& a.spec_scale() + b.spec_scale() <= MAX_SCALE as nat
    &&& iabs(a.units() * b.units()) <= UNITS_LIMIT as int * pow10(MAX_SCALE as nat)
}

/// Under `mul_ok`, `checked_mul` cannot fail and its result is the exact
/// product of the values.
pub proof fn lemma_checked_mul_exact(a: Decimal, b: Decimal)
    requires
        a.wf(),
        b.wf(),
        mul_ok(a, b),
    ensures
        i128::MIN <= a.spec_mantissa() * b.spec_mantissa() <= i128::MAX,
        iabs(mul_units(a, b)) <= UNITS_LIMIT as int,
        mul_units(a, b) * pow10(MAX_SCALE as nat) == a.units() * b.units(),
{
    let ma = a.spec_mantissa();
    let mb = b.spec_mantissa();
    let ka = (MAX_SCALE - a.spec_scale()) as nat;
    let kb = (MAX_SCALE - b.spec_scale()) as nat;
    let ks = (MAX_SCALE as nat - (a.spec_scale() + b.spec_scale())) as nat;
    lemma_pow10_adds(ka, kb);
    assert((ma * pow10(ka)) * (mb * pow10(kb)) == (ma * mb) * (pow10(ka) * pow10(kb)))
        by (nonlinear_arith);
    lemma_pow10_adds(ks, MAX_SCALE as nat);
    assert(ka + kb == ks + MAX_SCALE as nat);
    assert((ma * mb) * (pow10(ks) * pow10(MAX_SCALE as nat)) == ((ma * mb) * pow10(ks)) * pow10(
        MAX_SCALE as nat,
    )) by (nonlinear_arith);
    let mu = (ma * mb) * pow10(ks);
    assert(a.units() * b.units() == mu * pow10(MAX_SCALE as nat));
    lemma_pow10_pos(MAX_SCALE as nat);
    lemma_pow10_pos(ks);
    assert(mu * 1 == mu) by (nonlinear_arith);
    assert(1 * pow10(MAX_SCALE as nat) == pow10(MAX_SCALE as nat));
    lemma_tdiv_scale(mu, 1, pow10(MAX_SCALE as nat));
    assert(mul_units(a, b) == mu);
    lemma_abs_mul(mu, pow10(MAX_SCALE as nat));
    assert(iabs(mu) <= UNITS_LIMIT as int) by (nonlinear_arith)
        requires
            iabs(mu) * pow10(MAX_SCALE as nat) <= UNITS_LIMIT as int * pow10(MAX_SCALE as nat),
            pow10(MAX_SCALE as nat) > 0,
    ;
    lemma_mul_grows(ma * mb, pow10(ks));
    lemma_pow10_values();
}

/// Truncation at `10^k` leaves a multiple of `10^a` unchanged when `k <= a`.
pub proof fn lemma_trunc_units_multiple(c: int, a: nat, k: nat)
    requires
        k <= a,
    ensures
        trunc_units(c * pow10(a), k) == c * pow10(a),
{
    lemma_pow10_adds((a - k) as nat, k);
    lemma_pow10_pos(k);
    lemma_pow10_pos((a - k) as nat);
    let x = c * pow10((a - k) as nat);
    assert(c * (pow10((a - k) as nat) * pow10(k)) == (c * pow10((a - k) as nat)) * pow10(k))
        by (nonlinear_arith);
    lemma_tdiv_scale(x, 1, pow10(k));
    assert(x * 1 == x) by (nonlinear_arith);
    assert(1 * pow10(k) == pow10(k));
    assert(tdiv(c * pow10(a), pow10(k)) == x);
}

/// True exactly when the exact product of the two values is representable,
/// so that `checked_mul` computes it without truncation.
pub fn mul_in_range(a: &Decimal, b: &Decimal) -> (r: bool)
    ensures
        r == mul_ok(*a, *b),
{
    proof {
        use_type_invariant(a);
        use_type_invariant(b);
    }
    let s: u32 = a.scale() + b.scale();
    if s > MAX_SCALE {
        return false;
    }
    proof {
        let ka = (MAX_SCALE - a.spec_scale()) as nat;
        let kb = (MAX_SCALE - b.spec_scale()) as nat;
        lemma_pow10_adds(ka, kb);
        assert((a.spec_mantissa() * pow10(ka)) * (b.spec_mantissa() * pow10(kb)) == (
        a.spec_mantissa() * b.spec_mantissa()) * (pow10(ka) * pow10(kb))) by (nonlinear_arith);
        lemma_abs_mul(a.spec_mantissa() * b.spec_mantissa(), pow10(ka + kb));
        lemma_abs_mul(a.units(), b.units());
        lemma_pow10_pos(ka + kb);
        lemma_pow10_values();
        lemma_pow10_adds((MAX_SCALE + MAX_SCALE - s) as nat, MAX_SCALE as nat);
        lemma_pow10_adds((19 + s) as nat, (MAX_SCALE - s) as nat);
        lemma_pow10_adds((19 + s) as nat, ((MAX_SCALE - s) as nat + MAX_SCALE as nat) as nat);
    }
    let pm = match a.mantissa().checked_mul(b.mantissa()) {
        Some(v) => v,
        None => {
            proof {
                let pm_i = a.spec_mantissa() * b.spec_mantissa();
                let kk = (MAX_SCALE + MAX_SCALE - s) as nat;
                lemma_pow10_pos(kk);
                lemma_pow10_increases(MAX_SCALE as nat, kk);
                // the mantissa product overflowed, so the units product is
                // far beyond the representable band
                assert(iabs(a.units() * b.units()) > UNITS_LIMIT as int * pow10(MAX_SCALE as nat))
                    by (nonlinear_arith)
                    requires
                        iabs(a.units() * b.units()) == iabs(pm_i) * pow10(kk),
                        iabs(pm_i) > i128::MAX,
                        pow10(kk) >= pow10(MAX_SCALE as nat),
                        pow10(MAX_SCALE as nat) >= 1,
                        i128::MAX >= UNITS_LIMIT,
                ;
            }
            return false;
        },
    };
    let cap = pow10_i128(19 + s);
    proof {
        let pm_i = a.spec_mantissa() * b.spec_mantissa();
        let kk = (MAX_SCALE + MAX_SCALE - s) as nat;
        lemma_pow10_pos(kk);
        lemma_pow10_adds(37, MAX_SCALE as nat);
        lemma_pow10_adds((19 + s) as nat, kk);
        lemma_abs_mul(pm_i, pow10(kk));
        if iabs(pm_i) <= cap as int {
            lemma_mul_inequality(iabs(pm_i), cap as int, pow10(kk));
        } else {
            lemma_mul_inequality(cap as int + 1, iabs(pm_i), pow10(kk));
            assert((cap as int + 1) * pow10(kk) == cap as int * pow10(kk) + pow10(kk))
                by (nonlinear_arith);
        }
    }
    -cap <= pm && pm <= cap
}

/// Truncating a well-formed value at its own scale or coarser leaves it
/// unchanged, so the truncated value depends only on the precision, not on
/// the representation's scale.
pub proof fn lemma_trunc_scale_cases(d: Decimal, p: nat)
    requires
        d.wf(),
    ensures
        trunc_units(d.units(), (MAX_SCALE - nmin(d.spec_scale(), p)) as nat) == trunc_units(
            d.units(),
            (MAX_SCALE - nmin(p, MAX_SCALE as nat)) as nat,
        ),
{
    let s = d.spec_scale();
    let a = (MAX_SCALE - s) as nat;
    if p >= MAX_SCALE as nat {
        lemma_trunc_units_multiple(d.spec_mantissa(), a, a);
        lemma_trunc_units_multiple(d.spec_mantissa(), a, 0);
    } else if s <= p {
        lemma_trunc_units_multiple(d.spec_mantissa(), a, a);
        lemma_trunc_units_multiple(d.spec_mantissa(), a, (MAX_SCALE as nat - p) as nat);
    }
}

/// The smaller of two naturals.
pub open spec fn nmin(a: nat, b: nat) -> nat {
    if a <= b {
        a
    } else {
        b
    }
}

/// The larger of two naturals.
pub open spec fn nmax(a: nat, b: nat) -> nat {
    if a >= b {
        a
    } else {
        b
    }
}

/// Builds `mantissa * 10^-scale` when its magnitude is within bounds.
fn build(mantissa: i128, scale: u32) -> (r: Option<Decimal>)
    requires
        scale <= MAX_SCALE,
    ensures
        ({
            let u = mantissa * pow10((MAX_SCALE - scale) as nat);
            match r {
                Some(d) => iabs(u) <= UNITS_LIMIT as int && d.wf() && d.spec_mantissa()
                    == mantissa as int && d.spec_scale() == scale as nat && d.units() == u,
                None => iabs(u) > UNITS_LIMIT as int,
            }
        }),
{
    let cap = pow10_i128(19 + scale);
    proof {
        let p = pow10((MAX_SCALE - scale) as nat);
        lemma_pow10_values();
        lemma_pow10_adds((19 + scale) as nat, (MAX_SCALE - scale) as nat);
        assert(cap as int * p == UNITS_LIMIT as int);
        lemma_abs_mul(mantissa as int, p);
        lemma_pow10_pos((MAX_SCALE - scale) as nat);
        if iabs(mantissa as int) <= cap as int {
            lemma_mul_inequality(iabs(mantissa as int), cap as int, p);
        } else {
            lemma_mul_inequality(cap as int + 1, iabs(mantissa as int), p);
            assert((cap as int + 1) * p == cap as int * p + p) by (nonlinear_arith);
        }
    }
    if mantissa > cap || mantissa < -cap {
        None
    } else {
        Some(Decimal { mantissa, scale })
    }
}

impl Decimal {
    /// The value, in units of `10^-MAX_SCALE`, as a machine integer.
    fn units_i128(&self) -> (r: i128)
        requires
            self.wf(),
        ensures
            r as int == self.units(),
    {
        self.mantissa * pow10_i128(MAX_SCALE - self.scale)
    }

    /// The mantissa rescaled to `s` fractional digits.
    fn mantissa_at(&self, s: u32) -> (m: i128)
        requires
            self.wf(),
            self.spec_scale() <= s as nat,
            s <= MAX_SCALE,
        ensures
            m as int * pow10((MAX_SCALE - s) as nat) == self.units(),
            iabs(m as int) <= iabs(self.units()),
    {
        let f = pow10_i128(s - self.scale);
        proof {
            let m = self.spec_mantissa();
            let fi = f as int;
            let p = pow10((MAX_SCALE - s) as nat);
            lemma_pow10_adds((s - self.scale) as nat, (MAX_SCALE - s) as nat);
            lemma_mul_is_associative(m, fi, p);
            assert(m * (fi * p) == self.units());
            lemma_pow10_pos((MAX_SCALE - s) as nat);
            lemma_mul_grows(m * fi, p);
            lemma_mul_grows(m, fi);
        }
        self.mantissa * f
    }

    /// True when the value is zero.
    pub fn is_zero(&self) -> (r: bool)
        ensures
            r == (self.units() == 0),
    {
        proof {
            use_type_invariant(self);
            lemma_pow10_pos((MAX_SCALE - self.spec_scale()) as nat);
            lemma_mul_grows(self.spec_mantissa(), pow10((MAX_SCALE - self.spec_scale()) as nat));
        }
        self.mantissa == 0
    }

    /// Strict value order: `self < other`.
    pub fn lt(&self, other: &Decimal) -> (r: bool)
        ensures
            r == (self.units() < other.units()),
    {
        proof {
            use_type_invariant(self);
            use_type_invariant(other);
        }
        self.units_i128() < other.units_i128()
    }

    /// Value order: `self <= other`.
    pub fn le(&self, other: &Decimal) -> (r: bool)
        ensures
            r == (self.units() <= other.units()),
    {
        proof {
            use_type_invariant(self);
            use_type_invariant(other);
        }
        self.units_i128() <= other.units_i128()
    }

    /// Strict value order: `self > other`.
    pub fn gt(&self, other: &Decimal) -> (r: bool)
        ensures
            r == (self.units() > other.units()),
    {
        proof {
            use_type_invariant(self);
            use_type_invariant(other);
        }
        self.units_i128() > other.units_i128()
    }

    /// Value order: `self >= other`.
    pub fn ge(&self, other: &Decimal) -> (r: bool)
        ensures
            r == (self.units() >= other.units()),
    {
        proof {
            use_type_invariant(self);
            use_type_invariant(other);
        }
        self.units_i128() >= other.units_i128()
    }

    /// The negated value, at the same scale.
    pub fn neg(&self) -> (r: Decimal)
        ensures
            r.wf(),
            r.units() == -self.units(),
            r.spec_scale() == self.spec_scale(),
    {
        proof {
            use_type_invariant(self);
            lemma_pow10_pos((MAX_SCALE - self.spec_scale()) as nat);
            lemma_mul_grows(self.spec_mantissa(), pow10((MAX_SCALE - self.spec_scale()) as nat));
            assert((-self.spec_mantissa()) * pow10((MAX_SCALE - self.spec_scale()) as nat)
                == -self.units()) by (nonlinear_arith)
                requires
                    self.units() == self.spec_mantissa() * pow10(
                        (MAX_SCALE - self.spec_scale()) as nat,
                    ),
            ;
        }
        Decimal { mantissa: -self.mantissa, scale: self.scale }
    }

    /// Exact sum, at the larger of the two scales; `None` when the sum's
    /// magnitude leaves the representable range.
    pub fn checked_add(&self, other: &Decimal) -> (r: Option<Decimal>)
        ensures
            ({
                let sum = self.units() + other.units();
                match r {
                    Some(d) => d.wf() && d.units() == sum && d.spec_scale() == nmax(
                        self.spec_scale(),
                        other.spec_scale(),
                    ),
                    None => iabs(sum) > UNITS_LIMIT as int,
                }
            }),
    {
        proof {
            use_type_invariant(self);
            use_type_invariant(other);
        }
        let s: u32 = if self.scale >= other.scale {
            self.scale
        } else {
            other.scale
        };
        let ma = self.mantissa_at(s);
        let mb = other.mantissa_at(s);
        proof {
            lemma_mul_is_distributive_add_other_way(
                pow10((MAX_SCALE - s) as nat),
                ma as int,
                mb as int,
            );
        }
        build(ma + mb, s)
    }

    /// Truncation toward zero at `n` fractional digits; a value whose scale
    /// is already `n` or less is returned unchanged, and the result's scale
    /// never exceeds `n`.
    pub fn trunc_with_scale(&self, n: u32) -> (r: Decimal)
        ensures
            r.wf(),
            r.spec_scale() == nmin(self.spec_scale(), n as nat),
            r.units() == trunc_units(
                self.units(),
                (MAX_SCALE - nmin(self.spec_scale(), n as nat)) as nat,
            ),
            self.spec_scale() <= n as nat ==> r == *self,
    {
        proof {
            use_type_invariant(self);
        }
        if n >= self.scale {
            proof {
                let p = pow10((MAX_SCALE - self.spec_scale()) as nat);
                lemma_pow10_pos((MAX_SCALE - self.spec_scale()) as nat);
                lemma_tdiv_scale(self.spec_mantissa(), 1, p);
                assert(self.spec_mantissa() * p == 1 * p * self.spec_mantissa())
                    by (nonlinear_arith);
                assert(tdiv(self.spec_mantissa(), 1) == self.spec_mantissa());
            }
            *self
        } else {
            let f = pow10_i128(self.scale - n);
            proof {
                let m = self.spec_mantissa();
                let fi = f as int;
                let p = pow10((MAX_SCALE - self.spec_scale()) as nat);
                let pr = pow10((MAX_SCALE - n) as nat);
                lemma_pow10_pos((MAX_SCALE - self.spec_scale()) as nat);
                lemma_pow10_pos((MAX_SCALE - n) as nat);
                // pr == fi * p, so self.units() == m * p and tdiv scales by p
                lemma_pow10_adds((self.scale - n) as nat, (MAX_SCALE - self.spec_scale()) as nat);
                lemma_tdiv_scale(m, fi, p);
                assert(tdiv(self.units(), pr) == tdiv(m, fi));
                lemma_trunc_bound(self.units(), pr);
                // the machine division matches tdiv, and its result is small
                lemma_tmod_cases(m, fi);
                lemma_tdiv_abs(m, fi);
            }
            let q = match self.mantissa.checked_div(f) {
                Some(v) => v,
                None => 0,  // unreachable: the divisor is positive
            };
            proof {
                let m = self.spec_mantissa();
                let fi = f as int;
                let pr = pow10((MAX_SCALE - n) as nat);
                assert(q as int == tdiv(m, fi));
                assert(q as int * pr == tdiv(self.units(), pr) * pr);
            }
            Decimal { mantissa: q, scale: n }
        }
    }

    /// Truncating remainder of the values: the result carries the dividend's
    /// sign and the larger of the two scales; `None` exactly on a zero
    /// divisor.
    pub fn checked_rem(&self, other: &Decimal) -> (r: Option<Decimal>)
        ensures
            r is Some <==> other.units() != 0,
            r is Some ==> ({
                let d = r->Some_0;
                &&& d.wf()
                &&& d.units() == tmod(self.units(), iabs(other.units()))
                &&& d.spec_scale() == nmax(self.spec_scale(), other.spec_scale())
            }),
    {
        proof {
            use_type_invariant(self);
            use_type_invariant(other);
        }
        if other.is_zero() {
            return None;
        }
        let s: u32 = if self.scale >= other.scale {
            self.scale
        } else {
            other.scale
        };
        let ma = self.mantissa_at(s);
        let mb = other.mantissa_at(s);
        proof {
            let p = pow10((MAX_SCALE - s) as nat);
            lemma_pow10_pos((MAX_SCALE - s) as nat);
            assert(mb as int != 0) by {
                if mb as int == 0 {
                    assert(0 * p == 0) by (nonlinear_arith);
                }
            };
            lemma_tmod_cases(ma as int, iabs(mb as int));
            lemma_abs_mul(mb as int, p);
            // tmod scales with the common factor p
            lemma_tdiv_scale(ma as int, iabs(mb as int), p);
            assert(iabs(mb as int) * p > 0) by (nonlinear_arith)
                requires
                    iabs(mb as int) > 0,
                    p > 0,
            ;
            lemma_tmod_cases(ma as int * p, iabs(mb as int) * p);
            assert(tmod(ma as int * p, iabs(mb as int) * p) == tmod(ma as int, iabs(mb as int))
                * p) by {
                let q = tdiv(ma as int, iabs(mb as int));
                assert(tdiv(ma as int * p, iabs(mb as int) * p) == q);
                assert(ma as int * p - (iabs(mb as int) * p) * q == (ma as int - iabs(mb as int)
                    * q) * p) by (nonlinear_arith);
            };
        }
        let m = match ma.checked_rem(mb) {
            Some(v) => v,
            None => 0,  // unreachable: the divisor is nonzero and in range
        };
        proof {
            let p = pow10((MAX_SCALE - s) as nat);
            assert(m as int == tmod(ma as int, iabs(mb as int))) by {
                lemma_tmod_cases(ma as int, iabs(mb as int));
                if (mb as int) < 0 {
                    lemma_tmod_cases(ma as int, -(mb as int));
                }
            };
            lemma_tmod_cases(ma as int, iabs(mb as int));
            lemma_abs_mul(m as int, p);
            lemma_abs_mul(mb as int, p);
            assert(iabs(m as int) * p <= iabs(mb as int) * p) by (nonlinear_arith)
                requires
                    iabs(m as int) <= iabs(mb as int),
                    p >= 0,
            ;
        }
        Some(Decimal { mantissa: m, scale: s })
    }

    /// Product of the values, exact while the scales' sum stays within
    /// `MAX_SCALE` and truncated toward zero at `MAX_SCALE` fractional digits
    /// beyond that; `None` when an intermediate or the result leaves the
    /// representable range.
    pub fn checked_mul(&self, other: &Decimal) -> (r: Option<Decimal>)
        ensures
            ({
                let pm = self.spec_mantissa() * other.spec_mantissa();
                let u = mul_units(*self, *other);
                match r {
                    Some(d) => {
                        &&& d.wf()
                        &&& d.units() == u
                        &&& d.spec_scale() == nmin(
                            self.spec_scale() + other.spec_scale(),
                            MAX_SCALE as nat,
                        )
                        &&& i128::MIN <= pm <= i128::MAX
                    },
                    None => pm > i128::MAX || pm < i128::MIN || iabs(u) > UNITS_LIMIT as int,
                }
            }),
            self.spec_scale() + other.spec_scale() <= MAX_SCALE && r is Some
                ==> r->Some_0.units() * pow10(MAX_SCALE as nat) == self.units() * other.units(),
    {
        proof {
            use_type_invariant(self);
            use_type_invariant(other);
        }
        let pm = match self.mantissa.checked_mul(other.mantissa) {
            Some(v) => v,
            None => {
                return None;
            },
        };
        let s: u32 = self.scale + other.scale;
        proof {
            let ma = self.spec_mantissa();
            let mb = other.spec_mantissa();
            let ka = (MAX_SCALE - self.spec_scale()) as nat;
            let kb = (MAX_SCALE - other.spec_scale()) as nat;
            lemma_pow10_adds(ka, kb);
            assert((ma * pow10(ka)) * (mb * pow10(kb)) == (ma * mb) * (pow10(ka) * pow10(kb)))
                by (nonlinear_arith);
            assert(self.units() * other.units() == pm as int * pow10(ka + kb));
        }
        if s <= MAX_SCALE {
            proof {
                let ka = (MAX_SCALE - self.spec_scale()) as nat;
                let kb = (MAX_SCALE - other.spec_scale()) as nat;
                let pr = pow10((MAX_SCALE - s) as nat);
                lemma_pow10_adds((MAX_SCALE - s) as nat, MAX_SCALE as nat);
                lemma_pow10_pos(MAX_SCALE as nat);
                lemma_pow10_pos((MAX_SCALE - s) as nat);
                // units product = pm * 10^(ka + kb) = (pm * pr) * 10^MAX_SCALE
                assert(pm as int * (pr * pow10(MAX_SCALE as nat)) == (pm as int * pr) * pow10(
                    MAX_SCALE as nat,
                )) by (nonlinear_arith);
                lemma_tdiv_scale(pm as int * pr, 1, pow10(MAX_SCALE as nat));
                assert((pm as int * pr) * 1 == pm as int * pr) by (nonlinear_arith);
                assert(1 * pow10(MAX_SCALE as nat) == pow10(MAX_SCALE as nat));
                assert(tdiv(pm as int * pr, 1) == pm as int * pr);
                assert(mul_units(*self, *other) == pm as int * pr);
            }
            build(pm, s)
        } else {
            let f = pow10_i128(s - MAX_SCALE);
            proof {
                let fi = f as int;
                let km = (MAX_SCALE as nat + MAX_SCALE as nat - s as nat) as nat;
                lemma_pow10_pos(km);
                lemma_pow10_adds((s - MAX_SCALE) as nat, km);
                // 10^(ka+kb) == 10^km, and 10^MAX_SCALE == fi * 10^km
                lemma_tdiv_scale(pm as int, fi, pow10(km));
                assert(tdiv(pm as int * pow10(km), fi * pow10(km)) == tdiv(pm as int, fi));
                assert(mul_units(*self, *other) == tdiv(pm as int, fi));
                lemma_tmod_cases(pm as int, fi);
            }
            let q = match pm.checked_div(f) {
                Some(v) => v,
                None => 0,  // unreachable: the divisor is positive
            };
            proof {
                assert(q as int * pow10((MAX_SCALE - MAX_SCALE) as nat) == q as int);
            }
            build(q, MAX_SCALE)
        }
    }

    /// Quotient of the values, truncated toward zero at `MAX_SCALE`
    /// fractional digits and represented at exactly that scale; `None` on a
    /// zero divisor or when the quotient's magnitude leaves the representable
    /// range.
    pub fn checked_div(&self, other: &Decimal) -> (r: Option<Decimal>)
        ensures
            other.units() == 0 ==> r is None,
            other.units() != 0 ==> match r {
                Some(d) => {
                    &&& d.wf()
                    &&& d.units() == div_units(*self, *other)
                    &&& d.spec_scale() == MAX_SCALE as nat
                    &&& d.spec_mantissa() == div_units(*self, *other)
                },
                None => iabs(div_units(*self, *other)) > UNITS_LIMIT as int,
            },
    {
        proof {
            use_type_invariant(self);
            use_type_invariant(other);
        }
        let bu = other.units_i128();
        if bu == 0 {
            return None;
        }
        let au = self.units_i128();
        let neg: bool = (au < 0) != (bu < 0);
        let n: u128 = if au < 0 {
            (-au) as u128
        } else {
            au as u128
        };
        let d: u128 = if bu < 0 {
            (-bu) as u128
        } else {
            bu as u128
        };
        proof {
            lemma_pow10_values();
            assert(n as int == iabs(self.units()));
            assert(d as int == iabs(other.units()));
        }
        let mut q: u128 = n / d;
        let mut rem: u128 = n % d;
        let mut i: u32 = 0;
        proof {
            assert(n as int * pow10(0) == n as int);
            lemma_div_nonincreasing(n as int, d as int);
        }
        while i < MAX_SCALE
            invariant
                d as int == iabs(other.units()),
                n as int == iabs(self.units()),
                other.units() != 0,
                d > 0,
                n <= UNITS_LIMIT as u128,
                d <= UNITS_LIMIT as u128,
                i <= MAX_SCALE,
                q as int == (n as int * pow10(i as nat)) / (d as int),
                rem as int == (n as int * pow10(i as nat)) % (d as int),
                rem < d,
                q <= UNITS_LIMIT as u128,
                pow10(37) == UNITS_LIMIT as int,
            ensures
                i == MAX_SCALE,
                q as int == (n as int * pow10(MAX_SCALE as nat)) / (d as int),
                q <= UNITS_LIMIT as u128,
            decreases MAX_SCALE - i,
        {
            let r10 = rem * 10;
            let digit = r10 / d;
            proof {
                lemma_long_div_step(n as int, d as int, i as nat, q as int, rem as int);
            }
            let qn = q * 10 + digit;
            if qn > (UNITS_LIMIT as u128) {
                proof {
                    lemma_pow10_pos((i + 1) as nat);
                    lemma_pow10_increases((i + 1) as nat, MAX_SCALE as nat);
                    lemma_mul_inequality(
                        pow10((i + 1) as nat),
                        pow10(MAX_SCALE as nat),
                        n as int,
                    );
                    assert(pow10((i + 1) as nat) * n as int == n as int * pow10((i + 1) as nat)
                        && pow10(MAX_SCALE as nat) * n as int == n as int * pow10(
                        MAX_SCALE as nat,
                    )) by (nonlinear_arith);
                    lemma_div_is_ordered(
                        n as int * pow10((i + 1) as nat),
                        n as int * pow10(MAX_SCALE as nat),
                        d as int,
                    );
                    lemma_pow10_pos((i + 1) as nat);
                    assert(n as int * pow10((i + 1) as nat) >= 0) by (nonlinear_arith)
                        requires
                            n as int >= 0,
                            pow10((i + 1) as nat) >= 1,
                    ;
                }
                return None;
            }
            q = qn;
            rem = r10 % d;
            i = i + 1;
        }
        proof {
            assert(pow10((MAX_SCALE - MAX_SCALE) as nat) == 1);
            lemma_div_pos_is_pos(n as int * pow10(MAX_SCALE as nat), d as int);
            lemma_pow10_pos(MAX_SCALE as nat);
            assert(n as int * pow10(MAX_SCALE as nat) >= 0) by (nonlinear_arith)
                requires
                    n as int >= 0,
                    pow10(MAX_SCALE as nat) >= 1,
            ;
        }
        let m128: i128 = q as i128;
        let mantissa: i128 = if neg {
            -m128
        } else {
            m128
        };
        Some(Decimal { mantissa, scale: MAX_SCALE })
    }

    /// Exact difference, at the larger of the two scales; `None` when the
    /// difference's magnitude leaves the representable range.
    pub fn checked_sub(&self, other: &Decimal) -> (r: Option<Decimal>)
        ensures
            ({
                let diff = self.units() - other.units();
                match r {
                    Some(d) => d.wf() && d.units() == diff && d.spec_scale() == nmax(
                        self.spec_scale(),
                        other.spec_scale(),
                    ),
                    None => iabs(diff) > UNITS_LIMIT as int,
                }
            }),
    {
        proof {
            use_type_invariant(self);
            use_type_invariant(other);
        }
        let s: u32 = if self.scale >= other.scale {
            self.scale
        } else {
            other.scale
        };
        let ma = self.mantissa_at(s);
        let mb = other.mantissa_at(s);
        proof {
            lemma_mul_is_distributive_sub_other_way(
                pow10((MAX_SCALE - s) as nat),
                ma as int,
                mb as int,
            );
        }
        build(ma - mb, s)
    }
}

impl PartialEq for Decimal {
    /// Exact value equality: representations that differ only in trailing
    /// zero digits compare equal.
    fn eq(&self, other: &Decimal) -> bool {
        proof {
            use_type_invariant(self);
            use_type_invariant(other);
        }
        self.units_i128() == other.units_i128()
    }
}

impl vstd::std_specs::cmp::PartialEqSpecImpl for Decimal {
    open spec fn obeys_eq_spec() -> bool {
        true
    }

    open spec fn eq_spec(&self, other: &Decimal) -> bool {
        self.units() == other.units()
    }
}

/// An ASCII decimal digit.
pub open spec fn is_digit_byte(b: u8) -> bool {
    48 <= b && b <= 57
}

/// Little-step scanner for the decimal literal grammar
/// `digits ['.' digits]`: accumulates the digits' value and counts the
/// fractional ones; `None` when the bytes do not fit the grammar.
pub open spec fn scan_digits(
    s: Seq<u8>,
    acc: int,
    dot: bool,
    frac: nat,
    int_seen: bool,
    frac_seen: bool,
) -> Option<(int, nat)>
    decreases s.len(),
{
    if s.len() == 0 {
        if int_seen && (!dot || frac_seen) {
            Some((acc, frac))
        } else {
            None
        }
    } else if is_digit_byte(s[0]) {
        scan_digits(
            s.skip(1),
            acc * 10 + (s[0] - 48),
            dot,
            if dot {
                frac + 1
            } else {
                frac
            },
            int_seen || !dot,
            frac_seen || dot,
        )
    } else if s[0] == 46 && !dot {
        scan_digits(s.skip(1), acc, true, frac, int_seen, frac_seen)
    } else {
        None
    }
}

/// The sign, digits' value and fractional digit count denoted by a decimal
/// literal `['-'] digits ['.' digits]`, if the bytes form one.
pub open spec fn spec_parse(s: Seq<u8>) -> Option<(bool, int, nat)> {
    if s.len() > 0 && s[0] == 45 {
        match scan_digits(s.skip(1), 0, false, 0, false, false) {
            Some((m, f)) => Some((true, m, f)),
            None => None,
        }
    } else {
        match scan_digits(s, 0, false, 0, false, false) {
            Some((m, f)) => Some((false, m, f)),
            None => None,
        }
    }
}

/// Scanning never shrinks the accumulated value or the fractional count.
proof fn lemma_scan_grows(
    s: Seq<u8>,
    acc: int,
    dot: bool,
    frac: nat,
    int_seen: bool,
    frac_seen: bool,
)
    requires
        acc >= 0,
    ensures
        match scan_digits(s, acc, dot, frac, int_seen, frac_seen) {
            Some((m, f)) => m >= acc && f >= frac,
            None => true,
        },
    decreases s.len(),
{
    if s.len() == 0 {
    } else if is_digit_byte(s[0]) {
        assert(acc * 10 >= acc) by (nonlinear_arith)
            requires
                acc >= 0,
        ;
        lemma_scan_grows(
            s.skip(1),
            acc * 10 + (s[0] - 48),
            dot,
            if dot {
                (frac + 1) as nat
            } else {
                frac
            },
            int_seen || !dot,
            frac_seen || dot,
        );
    } else if s[0] == 46 && !dot {
        lemma_scan_grows(s.skip(1), acc, true, frac, int_seen, frac_seen);
    } else {
    }
}

impl Decimal {
    /// Reads a decimal literal `['-'] digits ['.' digits]`; `None` when the
    /// text does not fit that shape, carries more than `MAX_SCALE` fractional
    /// digits, or denotes a value out of the representable range.
    pub fn parse(s: &str) -> (r: Option<Decimal>)
        ensures
            match spec_parse(s.spec_bytes()) {
                None => r is None,
                Some((neg, m, f)) => {
                    if f <= MAX_SCALE && m * pow10((MAX_SCALE - f) as nat) <= UNITS_LIMIT as int {
                        &&& r is Some
                        &&& r->Some_0.wf()
                        &&& r->Some_0.spec_scale() == f
                        &&& r->Some_0.spec_mantissa() == if neg {
                            -m
                        } else {
                            m
                        }
                    } else {
                        r is None
                    }
                },
            },
    {
        let bytes: &[u8] = s.as_bytes();
        let ghost bs: Seq<u8> = s.spec_bytes();
        let len = bytes.len();
        let neg = len > 0 && *slice_index_get(bytes, 0) == 45;
        let start: usize = if neg {
            1
        } else {
            0
        };
        let mut i: usize = start;
        let mut acc: u128 = 0;
        let mut dot = false;
        let mut frac: u32 = 0;
        let mut int_seen = false;
        let mut frac_seen = false;
        proof {
            lemma_pow10_values();
            assert(bs.skip(0) =~= bs);
        }
        while i < len
            invariant
                bytes@ == bs,
                bs == s.spec_bytes(),
                len == bs.len(),
                start <= i <= len,
                neg == (bs.len() > 0 && bs[0] == 45),
                neg ==> start == 1,
                !neg ==> start == 0,
                bs.skip(0) == bs,
                acc <= UNITS_LIMIT as u128,
                frac <= MAX_SCALE,
                pow10(37) == UNITS_LIMIT as int,
                scan_digits(bs.skip(start as int), 0, false, 0, false, false) == scan_digits(
                    bs.skip(i as int),
                    acc as int,
                    dot,
                    frac as nat,
                    int_seen,
                    frac_seen,
                ),
            ensures
                i == len,
                acc <= UNITS_LIMIT as u128,
                frac <= MAX_SCALE,
                scan_digits(bs.skip(start as int), 0, false, 0, false, false) == scan_digits(
                    bs.skip(i as int),
                    acc as int,
                    dot,
                    frac as nat,
                    int_seen,
                    frac_seen,
                ),
            decreases len - i,
        {
            let b = *slice_index_get(bytes, i);
            proof {
                assert(bs.skip(i as int)[0] == bs[i as int]);
                assert(bs.skip(i as int).skip(1) =~= bs.skip(i as int + 1));
            }
            if 48 <= b && b <= 57 {
                proof {
                    // one scanner step over a digit
                    assert(scan_digits(
                        bs.skip(i as int),
                        acc as int,
                        dot,
                        frac as nat,
                        int_seen,
                        frac_seen,
                    ) == scan_digits(
                        bs.skip(i as int + 1),
                        acc as int * 10 + (b - 48),
                        dot,
                        if dot {
                            (frac + 1) as nat
                        } else {
                            frac as nat
                        },
                        int_seen || !dot,
                        frac_seen || dot,
                    ));
                    lemma_scan_grows(
                        bs.skip(i as int + 1),
                        acc as int * 10 + (b - 48),
                        dot,
                        if dot {
                            (frac + 1) as nat
                        } else {
                            frac as nat
                        },
                        int_seen || !dot,
                        frac_seen || dot,
                    );
                    let full = scan_digits(bs.skip(start as int), 0, false, 0, false, false);
                    if full is Some {
                        let m = full->Some_0.0;
                        let f = full->Some_0.1;
                        if f <= MAX_SCALE {
                            lemma_pow10_pos((MAX_SCALE - f) as nat);
                            lemma_mul_grows(m, pow10((MAX_SCALE - f) as nat));
                        }
                    }
                }
                if dot && frac == MAX_SCALE {
                    return None;
                }
                let d = (b - 48) as u128;
                acc = acc * 10 + d;
                if dot {
                    frac = frac + 1;
                    frac_seen = true;
                } else {
                    int_seen = true;
                }
                if acc > UNITS_LIMIT as u128 {
                    return None;
                }
            } else if b == 46 && !dot {
                proof {
                    assert(scan_digits(
                        bs.skip(i as int),
                        acc as int,
                        dot,
                        frac as nat,
                        int_seen,
                        frac_seen,
                    ) == scan_digits(
                        bs.skip(i as int + 1),
                        acc as int,
                        true,
                        frac as nat,
                        int_seen,
                        frac_seen,
                    ));
                }
                dot = true;
            } else {
                proof {
                    assert(scan_digits(
                        bs.skip(i as int),
                        acc as int,
                        dot,
                        frac as nat,
                        int_seen,
                        frac_seen,
                    ) is None);
                }
                return None;
            }
            i = i + 1;
        }
        proof {
            assert(bs.skip(len as int) =~= Seq::<u8>::empty());
        }
        if !(int_seen && (!dot || frac_seen)) {
            return None;
        }
        let m128: i128 = acc as i128;
        let mantissa: i128 = if neg {
            -m128
        } else {
            m128
        };
        proof {
            let p = pow10((MAX_SCALE - frac) as nat);
            lemma_pow10_pos((MAX_SCALE - frac) as nat);
            assert((-(m128 as int)) * p == -(m128 as int * p)) by (nonlinear_arith);
        }
        build(mantissa, frac)
    }
}

} // verus!
