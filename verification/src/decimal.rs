use vstd::arithmetic::mul::{lemma_mul_equality_converse, lemma_mul_is_associative};
use vstd::arithmetic::power::{lemma_pow0, lemma_pow1, lemma_pow_adds, lemma_pow_increases,
    lemma_pow_positive, pow};
use vstd::prelude::*;

verus! {

/// Largest scale (number of fraction digits) a `Decimal` may carry.
/// With `scale <= 19` the cross products used by the comparison
/// functions fit in `u128`.
pub const MAX_SCALE: u32 = 19;

/// A nonnegative decimal number, held exactly as `mantissa / 10^scale`.
///
/// The SQL grammar only produces nonnegative decimal literals, and the
/// engine's auto-increment counters are nonnegative integers, so this
/// representation covers every number the system can hold. A value is
/// kept in canonical form (see [`Decimal::wf`]), which makes structural
/// equality coincide with numeric equality ([`lemma_canonical_eq`]).
#[derive(Clone, Copy, Debug, PartialEq, Eq, Structural)]
pub struct Decimal {
    pub mantissa: u64,
    pub scale: u32,
}

/// `10^e` as a mathematical integer.
pub open spec fn pow10(e: nat) -> int {
    pow(10, e)
}

pub proof fn lemma_pow10_pos(e: nat)
    ensures
        pow10(e) >= 1,
{
    lemma_pow_positive(10, e);
}

pub proof fn lemma_pow10_adds(a: nat, b: nat)
    ensures
        pow10(a + b) == pow10(a) * pow10(b),
{
    lemma_pow_adds(10, a, b);
}

/// `10^MAX_SCALE` fits in a `u64`.
pub proof fn lemma_pow10_max_scale()
    ensures
        pow10(MAX_SCALE as nat) == 0x8ac7230489e80000,
{
    reveal_with_fuel(pow, 20);
}

/// One unfolding step: `10^(e+1) == 10 * 10^e`.
pub proof fn lemma_pow10_step(e: nat)
    ensures
        pow10((e + 1) as nat) == 10 * pow10(e),
{
    lemma_pow_adds(10, e, 1);
    lemma_pow1(10);
}

pub proof fn lemma_pow10_zero()
    ensures
        pow10(0) == 1,
{
    lemma_pow0(10);
}

pub proof fn lemma_pow10_mono(a: nat, b: nat)
    requires
        a <= b,
    ensures
        pow10(a) <= pow10(b),
{
    lemma_pow_increases(10, a, b);
}

/// Canonicalization at the specification level: strip trailing zeros
/// from the fraction until the scale is zero or the last digit is not
/// a zero.
pub open spec fn spec_strip(m: u64, s: u32) -> (u64, u32)
    decreases s,
{
    if s > 0 && m % 10 == 0 {
        spec_strip((m / 10) as u64, (s - 1) as u32)
    } else {
        (m, s)
    }
}

/// `a` and `b` denote the same number: cross-multiplied mantissas agree.
pub open spec fn same_value(a: Decimal, b: Decimal) -> bool {
    a.mantissa * pow10(b.scale as nat) == b.mantissa * pow10(a.scale as nat)
}

/// Stripping trailing fraction zeros does not change the number denoted.
pub proof fn lemma_strip_same_value(m: u64, s: u32)
    ensures
        ({
            let (m2, s2) = spec_strip(m, s);
            same_value(Decimal { mantissa: m2, scale: s2 }, Decimal { mantissa: m, scale: s })
        }),
    decreases s,
{
    if s > 0 && m % 10 == 0 {
        let m10 = (m / 10) as u64;
        lemma_strip_same_value(m10, (s - 1) as u32);
        let (m2, s2) = spec_strip(m, s);
        assert(m2 * pow10((s - 1) as nat) == m10 * pow10(s2 as nat));
        assert(m == m10 * 10);
        lemma_pow10_step((s - 1) as nat);
        assert(pow10(s as nat) == 10 * pow10((s - 1) as nat));
        assert(m2 * (10 * pow10((s - 1) as nat)) == 10 * (m2 * pow10((s - 1) as nat)))
            by (nonlinear_arith);
        assert((m10 * 10) * pow10(s2 as nat) == 10 * (m10 * pow10(s2 as nat)))
            by (nonlinear_arith);
    }
}

impl Decimal {
    /// Canonical form: at most `MAX_SCALE` fraction digits and no
    /// trailing zero in the fraction (so zero is `0 / 10^0`).
    pub open spec fn wf(self) -> bool {
        &&& self.scale <= MAX_SCALE
        &&& (self.scale > 0 ==> self.mantissa % 10 != 0)
    }

    /// The value scaled by the fixed denominator `10^MAX_SCALE`;
    /// two canonical decimals compare exactly as their `scaled` values do.
    pub open spec fn scaled(self) -> int
        recommends
            self.wf(),
    {
        self.mantissa * pow10((MAX_SCALE - self.scale) as nat)
    }

    /// The integer `m` as a decimal.
    pub fn from_int(m: u64) -> (r: Decimal)
        ensures
            r.wf(),
            r == (Decimal { mantissa: m, scale: 0 }),
    {
        Decimal { mantissa: m, scale: 0 }
    }

    /// Builds the canonical decimal with value `mantissa / 10^scale`,
    /// or `None` when more than `MAX_SCALE` fraction digits remain
    /// after stripping trailing zeros.
    pub fn make(mantissa: u64, scale: u32) -> (r: Option<Decimal>)
        ensures
            ({
                let (m2, s2) = spec_strip(mantissa, scale);
                if s2 <= MAX_SCALE {
                    r == Some(Decimal { mantissa: m2, scale: s2 })
                } else {
                    r is None
                }
            }),
            r is Some ==> r->Some_0.wf(),
    {
        let mut m: u64 = mantissa;
        let mut s: u32 = scale;
        while s > 0 && m % 10 == 0
            invariant
                spec_strip(m, s) == spec_strip(mantissa, scale),
            decreases s,
        {
            m = m / 10;
            s = s - 1;
        }
        if s <= MAX_SCALE {
            Some(Decimal { mantissa: m, scale: s })
        } else {
            None
        }
    }

    /// `self <= other` as numbers.
    pub fn le(&self, other: &Decimal) -> (r: bool)
        requires
            self.wf(),
            other.wf(),
        ensures
            r == (self.scaled() <= other.scaled()),
    {
        proof {
            lemma_cross_product_fits(*self);
            lemma_cross_product_fits(*other);
        }
        let pa = pow10_u64(MAX_SCALE - self.scale);
        let pb = pow10_u64(MAX_SCALE - other.scale);
        let a = (self.mantissa as u128) * (pa as u128);
        let b = (other.mantissa as u128) * (pb as u128);
        a <= b
    }

    /// `self < other` as numbers.
    pub fn lt(&self, other: &Decimal) -> (r: bool)
        requires
            self.wf(),
            other.wf(),
        ensures
            r == (self.scaled() < other.scaled()),
    {
        proof {
            lemma_cross_product_fits(*self);
            lemma_cross_product_fits(*other);
        }
        let pa = pow10_u64(MAX_SCALE - self.scale);
        let pb = pow10_u64(MAX_SCALE - other.scale);
        let a = (self.mantissa as u128) * (pa as u128);
        let b = (other.mantissa as u128) * (pb as u128);
        a < b
    }

    /// Numeric equality; on canonical values it coincides with `==`.
    pub fn eq_value(&self, other: &Decimal) -> (r: bool)
        requires
            self.wf(),
            other.wf(),
        ensures
            r == (self.scaled() == other.scaled()),
            r == (*self == *other),
    {
        proof {
            lemma_canonical_eq(*self, *other);
        }
        proof {
            lemma_cross_product_fits(*self);
            lemma_cross_product_fits(*other);
        }
        let pa = pow10_u64(MAX_SCALE - self.scale);
        let pb = pow10_u64(MAX_SCALE - other.scale);
        let a = (self.mantissa as u128) * (pa as u128);
        let b = (other.mantissa as u128) * (pb as u128);
        a == b
    }
}

/// The scaled mantissa of a canonical decimal fits in a `u128`.
proof fn lemma_cross_product_fits(d: Decimal)
    requires
        d.wf(),
    ensures
        d.mantissa * pow10((MAX_SCALE - d.scale) as nat) <= u128::MAX,
        pow10((MAX_SCALE - d.scale) as nat) <= u64::MAX,
{
    lemma_pow10_mono((MAX_SCALE - d.scale) as nat, MAX_SCALE as nat);
    lemma_pow10_max_scale();
    let p = pow10((MAX_SCALE - d.scale) as nat);
    assert(d.mantissa * p <= u128::MAX) by (nonlinear_arith)
        requires
            p <= 0x8ac7230489e80000,
            d.mantissa <= u64::MAX,
    ;
}

/// `10^e` as a `u64`, for `e <= MAX_SCALE`.
pub fn pow10_u64(e: u32) -> (r: u64)
    requires
        e <= MAX_SCALE,
    ensures
        r == pow10(e as nat),
{
    let mut r: u64 = 1;
    let mut i: u32 = 0;
    proof {
        lemma_pow10_zero();
    }
    while i < e
        invariant
            i <= e,
            e <= MAX_SCALE,
            r == pow10(i as nat),
        decreases e - i,
    {
        proof {
            lemma_pow10_step(i as nat);
            lemma_pow10_mono((i + 1) as nat, MAX_SCALE as nat);
            lemma_pow10_max_scale();
        }
        r = r * 10;
        i = i + 1;
    }
    r
}

/// On canonical decimals, equal values are equal representations.
pub proof fn lemma_canonical_eq(a: Decimal, b: Decimal)
    requires
        a.wf(),
        b.wf(),
    ensures
        (a.scaled() == b.scaled()) <==> (a == b),
{
    if a.scaled() == b.scaled() && a != b {
        lemma_scaled_eq_same_rep(a, b);
    }
}

proof fn lemma_scaled_eq_same_rep(a: Decimal, b: Decimal)
    requires
        a.wf(),
        b.wf(),
        a.scaled() == b.scaled(),
    ensures
        a == b,
{
    let pa = pow10((MAX_SCALE - a.scale) as nat);
    let pb = pow10((MAX_SCALE - b.scale) as nat);
    lemma_pow10_pos((MAX_SCALE - a.scale) as nat);
    lemma_pow10_pos((MAX_SCALE - b.scale) as nat);
    if a.scale == b.scale {
        assert(a.mantissa == b.mantissa) by (nonlinear_arith)
            requires
                a.mantissa * pa == b.mantissa * pb,
                pa == pb,
                pa >= 1,
        ;
    } else if a.scale < b.scale {
        lemma_scaled_eq_scale_lt(a, b);
        assert(b.mantissa % 10 != 0);
    } else {
        lemma_scaled_eq_scale_lt(b, a);
        assert(a.mantissa % 10 != 0);
    }
}

/// When a canonical decimal with scale below `b.scale` denotes the same
/// value as `b`, the mantissa of `b` must end in a zero digit (which a
/// canonical `b` with positive scale cannot).
proof fn lemma_scaled_eq_scale_lt(a: Decimal, b: Decimal)
    requires
        a.wf(),
        b.scale <= MAX_SCALE,
        a.scaled() == b.scaled(),
        a.scale < b.scale,
    ensures
        b.mantissa % 10 == 0,
{
    let d = (b.scale - a.scale) as nat;
    let pb = pow10((MAX_SCALE - b.scale) as nat);
    lemma_pow10_pos((MAX_SCALE - b.scale) as nat);
    lemma_pow10_pos((d - 1) as nat);
    lemma_pow10_adds(d, (MAX_SCALE - a.scale - d) as nat);
    // a.scaled() == (a.mantissa * pow10(d)) * pb
    assert(a.mantissa * (pow10(d) * pb) == (a.mantissa * pow10(d)) * pb) by (nonlinear_arith);
    assert((a.mantissa * pow10(d)) * pb == b.mantissa * pb);
    assert(a.mantissa * pow10(d) == b.mantissa) by (nonlinear_arith)
        requires
            (a.mantissa * pow10(d)) * pb == b.mantissa * pb,
            pb >= 1,
    ;
    // so b.mantissa is a positive multiple of 10 or zero, contradicting wf
    lemma_pow10_step((d - 1) as nat);
    assert(pow10(d) == pow10((d - 1) as nat) * 10);
    assert(b.mantissa == (a.mantissa * pow10((d - 1) as nat)) * 10) by (nonlinear_arith)
        requires
            a.mantissa * pow10(d) == b.mantissa,
            pow10(d) == pow10((d - 1) as nat) * 10,
    ;
    assert(b.mantissa % 10 == 0);
}

/// The ASCII decimal digits of `n`, most significant first, no
/// leading zeros (`0` renders as one digit).
pub open spec fn spec_digits(n: nat) -> Seq<u8>
    decreases n,
{
    if n < 10 {
        seq![(48 + n) as u8]
    } else {
        spec_digits(n / 10).push((48 + n % 10) as u8)
    }
}

/// Exactly `width` ASCII digits: the last `width` decimal digits of
/// `n`, with leading zeros.
pub open spec fn spec_frac_digits(n: nat, width: nat) -> Seq<u8>
    decreases width,
{
    if width == 0 {
        Seq::empty()
    } else {
        spec_frac_digits(n / 10, (width - 1) as nat).push((48 + n % 10) as u8)
    }
}

/// The textual form of a decimal: the integer part, and when the scale
/// is positive a dot followed by exactly `scale` fraction digits.
pub open spec fn spec_render(d: Decimal) -> Seq<u8> {
    if d.scale == 0 {
        spec_digits(d.mantissa as nat)
    } else {
        let p = pow10(d.scale as nat);
        spec_digits(((d.mantissa as int) / p) as nat) + seq![46u8] + spec_frac_digits(
            (((d.mantissa as int) % p) as nat),
            d.scale as nat,
        )
    }
}

/// The ASCII decimal digits of `n`.
pub fn u64_digits(n: u64) -> (r: Vec<u8>)
    ensures
        r@ == spec_digits(n as nat),
    decreases n,
{
    if n < 10 {
        let mut v: Vec<u8> = Vec::new();
        v.push(48 + n as u8);
        proof {
            assert(v@ =~= spec_digits(n as nat));
        }
        v
    } else {
        let mut v = u64_digits(n / 10);
        v.push(48 + (n % 10) as u8);
        v
    }
}

/// The last `width` decimal digits of `n`, with leading zeros.
pub fn frac_digits(n: u64, width: u32) -> (r: Vec<u8>)
    ensures
        r@ == spec_frac_digits(n as nat, width as nat),
    decreases width,
{
    if width == 0 {
        let v: Vec<u8> = Vec::new();
        proof {
            assert(v@ =~= spec_frac_digits(n as nat, 0));
        }
        v
    } else {
        let mut v = frac_digits(n / 10, width - 1);
        v.push(48 + (n % 10) as u8);
        v
    }
}

impl Decimal {
    /// Renders the decimal as ASCII text.
    pub fn to_bytes(&self) -> (r: Vec<u8>)
        requires
            self.wf(),
        ensures
            r@ == spec_render(*self),
    {
        if self.scale == 0 {
            u64_digits(self.mantissa)
        } else {
            proof {
                lemma_pow10_pos(self.scale as nat);
                lemma_pow10_mono(self.scale as nat, MAX_SCALE as nat);
                lemma_pow10_max_scale();
            }
            let p = pow10_u64(self.scale);
            let mut v = u64_digits(self.mantissa / p);
            v.push(46);
            let mut frac = frac_digits(self.mantissa % p, self.scale);
            v.append(&mut frac);
            v
        }
    }
}

} // verus!

