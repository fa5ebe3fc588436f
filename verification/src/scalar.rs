//! Fixed-point scalars.
//!
//! Every quantity of the tracer (coordinates, distances, colours, densities)
//! is a [`Scalar`]: a signed count of millionths. Arithmetic rounds toward
//! zero and saturates at `±RAW_MAX`, which plays the part of infinity, so
//! every operation is total and none can overflow.
use vstd::prelude::*;

verus! {

/// Raw units per unit: a scalar with `raw == SCALE` is the number one.
pub const SCALE: i64 = 1_000_000;

/// Largest raw magnitude. A scalar holding it stands for infinity.
pub const RAW_MAX: i64 = 9_223_372_036_854_775_807;

/// Raw value of the circle constant, rounded to the nearest millionth.
pub const PI_RAW: i64 = 3_141_593;

/// Absolute value of an integer.
pub open spec fn magnitude(v: int) -> int {
    if v < 0 {
        -v
    } else {
        v
    }
}

/// The nearest integer to `v` within `[-RAW_MAX, RAW_MAX]`.
pub open spec fn saturated(v: int) -> int {
    if v > RAW_MAX {
        RAW_MAX as int
    } else if v < -RAW_MAX {
        -RAW_MAX
    } else {
        v
    }
}

/// `n / d` rounded toward zero. Division by zero gives the infinity of the
/// sign of `n`, and zero for `0 / 0`.
pub open spec fn quotient(n: int, d: int) -> int {
    if d == 0 {
        if n > 0 {
            RAW_MAX as int
        } else if n < 0 {
            -RAW_MAX
        } else {
            0
        }
    } else if (n < 0) == (d < 0) {
        magnitude(n) / magnitude(d)
    } else {
        -(magnitude(n) / magnitude(d))
    }
}

/// `r` is the integer square root of `n`: the largest integer whose square
/// does not exceed `n`.
pub open spec fn is_root(n: int, r: int) -> bool {
    0 <= r && r * r <= n < (r + 1) * (r + 1)
}

/// The integer square root of `n` (meaningful for `n >= 0`).
pub open spec fn root(n: int) -> int {
    choose|r: int| is_root(n, r)
}

/// An integer has at most one integer square root.
pub proof fn lemma_root_unique(n: int, r1: int, r2: int)
    requires
        is_root(n, r1),
        is_root(n, r2),
    ensures
        r1 == r2,
{
    if r1 < r2 {
        assert((r1 + 1) * (r1 + 1) <= r2 * r2) by (nonlinear_arith)
            requires
                0 <= r1 + 1 <= r2,
        ;
    } else if r2 < r1 {
        assert((r2 + 1) * (r2 + 1) <= r1 * r1) by (nonlinear_arith)
            requires
                0 <= r2 + 1 <= r1,
        ;
    }
}

/// Whoever exhibits an integer square root of `n` knows `root(n)`.
pub proof fn lemma_root_is(n: int, r: int)
    requires
        is_root(n, r),
    ensures
        root(n) == r,
{
    lemma_root_unique(n, r, root(n));
}

/// Every integer that is not negative has an integer square root.
pub proof fn lemma_root_exists(n: int)
    requires
        n >= 0,
    ensures
        is_root(n, root(n)),
    decreases n,
{
    if n == 0 {
        assert(is_root(0, 0));
    } else {
        lemma_root_exists(n - 1);
        let r = root(n - 1);
        assert((r + 2) * (r + 2) > (r + 1) * (r + 1)) by (nonlinear_arith)
            requires
                r >= 0,
        ;
        if (r + 1) * (r + 1) <= n {
            assert(is_root(n, r + 1));
        } else {
            assert(is_root(n, r));
        }
    }
}

/// The integer square root grows with its argument.
pub proof fn lemma_root_monotonic(n1: int, r1: int, n2: int, r2: int)
    requires
        is_root(n1, r1),
        is_root(n2, r2),
        n1 <= n2,
    ensures
        r1 <= r2,
{
    if r2 < r1 {
        assert((r2 + 1) * (r2 + 1) <= r1 * r1) by (nonlinear_arith)
            requires
                0 <= r2 + 1 <= r1,
        ;
    }
}

/// Rounding toward zero never increases the magnitude, and keeps the order
/// of numerators over a positive denominator.
pub proof fn lemma_quotient_monotonic(n1: int, n2: int, d: int)
    requires
        n1 <= n2,
        d > 0,
    ensures
        quotient(n1, d) <= quotient(n2, d),
{
    if n1 >= 0 {
        assert(n1 / d <= n2 / d) by (nonlinear_arith)
            requires
                0 <= n1 <= n2,
                d > 0,
        ;
    } else if n2 < 0 {
        assert((-n2) / d <= (-n1) / d) by (nonlinear_arith)
            requires
                0 <= -n2 <= -n1,
                d > 0,
        ;
    } else {
        assert((-n1) / d >= 0) by (nonlinear_arith)
            requires
                -n1 >= 0,
                d > 0,
        ;
        assert(n2 / d >= 0) by (nonlinear_arith)
            requires
                n2 >= 0,
                d > 0,
        ;
    }
}

/// Negating the numerator negates the quotient, and so does negating a
/// denominator other than zero.
pub proof fn lemma_quotient_negate(n: int, d: int)
    ensures
        quotient(-n, d) == -quotient(n, d),
        d != 0 ==> quotient(n, -d) == -quotient(n, d),
{
}

/// The quotient of a numerator that is a multiple of the denominator is exact.
pub proof fn lemma_quotient_exact(q: int, d: int)
    requires
        d != 0,
    ensures
        quotient(q * d, d) == q,
{
    let n = q * d;
    let mq = magnitude(q);
    let md = magnitude(d);
    assert(magnitude(n) == mq * md) by (nonlinear_arith)
        requires
            n == q * d,
            mq == magnitude(q),
            md == magnitude(d),
    ;
    assert((mq * md) / md == mq) by (nonlinear_arith)
        requires
            md > 0,
            mq >= 0,
    ;
    assert((n < 0) == ((q < 0) != (d < 0)) || q == 0) by (nonlinear_arith)
        requires
            n == q * d,
            d != 0,
    ;
    if q == 0 {
        assert(n == 0) by (nonlinear_arith)
            requires
                n == q * d,
                q == 0,
        ;
    }
}

/// A fixed-point number: `raw` millionths.
#[derive(Clone, Copy, Debug, PartialEq, Eq, Structural)]
pub struct Scalar {
    pub raw: i64,
}

/// The nearest raw value to `v`.
fn saturate(v: i128) -> (r: i64)
    ensures
        r == saturated(v as int),
{
    if v > RAW_MAX as i128 {
        RAW_MAX
    } else if v < -(RAW_MAX as i128) {
        -RAW_MAX
    } else {
        v as i64
    }
}

/// The absolute value of `v`, which fits for every `v`.
fn magnitude_of(v: i64) -> (r: u128)
    ensures
        r == magnitude(v as int),
{
    if v < 0 {
        (-(v as i128)) as u128
    } else {
        v as u128
    }
}

/// Gives a magnitude its sign back and saturates it.
fn signed(m: u128, negative: bool) -> (r: i64)
    ensures
        r == saturated(
            if negative {
                -(m as int)
            } else {
                m as int
            },
        ),
{
    let capped: i64 = if m > RAW_MAX as u128 {
        RAW_MAX
    } else {
        m as i64
    };
    if negative {
        -capped
    } else {
        capped
    }
}

/// Integer square root of `n` by bisection.
fn root_of(n: u128) -> (r: u128)
    requires
        n < 0x1_0000_0000_0000_0000_0000_0000,
    ensures
        r == root(n as int),
        is_root(n as int, r as int),
{
    let mut lo: u128 = 0;
    let mut hi: u128 = 0x1_0000_0000_0000;
    assert(0x1_0000_0000_0000int * 0x1_0000_0000_0000int == 0x1_0000_0000_0000_0000_0000_0000int)
        by (nonlinear_arith);
    while hi - lo > 1
        invariant
            lo < hi <= 0x1_0000_0000_0000,
            lo * lo <= n < hi * hi,
        decreases hi - lo,
    {
        let mid: u128 = lo + (hi - lo) / 2;
        assert(mid * mid < 0x1_0000_0000_0000int * 0x1_0000_0000_0000int) by (nonlinear_arith)
            requires
                0 <= mid < 0x1_0000_0000_0000,
        ;
        if mid * mid <= n {
            lo = mid;
        } else {
            hi = mid;
        }
    }
    proof {
        lemma_root_is(n as int, lo as int);
    }
    lo
}

impl Scalar {
    /// The number this scalar holds, in millionths.
    pub open spec fn view(self) -> int {
        self.raw as int
    }

    /// The scalar of `v` millionths, saturated.
    pub open spec fn of(v: int) -> Scalar {
        Scalar { raw: saturated(v) as i64 }
    }

    /// The raw value lies within `[-RAW_MAX, RAW_MAX]`, as that of every
    /// scalar that this module computes does.
    pub open spec fn in_range(self) -> bool {
        -RAW_MAX <= self.raw
    }

    /// Zero.
    pub open spec fn spec_zero() -> Scalar {
        Scalar { raw: 0 }
    }

    /// One.
    pub open spec fn spec_one() -> Scalar {
        Scalar { raw: SCALE }
    }

    /// The largest scalar, which stands for infinity.
    pub open spec fn spec_inf() -> Scalar {
        Scalar { raw: RAW_MAX }
    }

    /// The circle constant.
    pub open spec fn spec_pi() -> Scalar {
        Scalar { raw: PI_RAW }
    }

    /// The whole number `v`: `v * SCALE` millionths, saturated.
    pub open spec fn spec_from_int(v: i64) -> Scalar {
        Scalar::of(v * SCALE)
    }

    /// The whole number `n`: `n * SCALE` millionths, saturated.
    pub open spec fn spec_from_count(n: usize) -> Scalar {
        Scalar::of(n * SCALE)
    }

    /// The fraction `num / den`: `num * SCALE / den` millionths, rounded toward
    /// zero and saturated.
    pub open spec fn spec_from_ratio(num: i64, den: i64) -> Scalar {
        Scalar::of(quotient(num * SCALE, den as int))
    }

    /// The sum, saturated.
    pub open spec fn spec_add(self, rhs: Scalar) -> Scalar {
        Scalar::of(self.raw + rhs.raw)
    }

    /// The difference, saturated.
    pub open spec fn spec_sub(self, rhs: Scalar) -> Scalar {
        Scalar::of(self.raw - rhs.raw)
    }

    /// The negation, saturated.
    pub open spec fn spec_neg(self) -> Scalar {
        Scalar::of(-self.raw)
    }

    /// The absolute value, saturated.
    pub open spec fn spec_abs(self) -> Scalar {
        Scalar::of(magnitude(self.raw as int))
    }

    /// The product: `raw * raw / SCALE` millionths, rounded toward zero and
    /// saturated.
    pub open spec fn spec_mul(self, rhs: Scalar) -> Scalar {
        Scalar::of(quotient(self.raw * rhs.raw, SCALE as int))
    }

    /// The quotient: `raw * SCALE / raw` millionths, rounded toward zero and
    /// saturated.
    pub open spec fn spec_div(self, rhs: Scalar) -> Scalar {
        Scalar::of(quotient(self.raw * SCALE, rhs.raw as int))
    }

    /// The quotient by the whole number `k`, rounded toward zero.
    pub open spec fn spec_div_int(self, k: i64) -> Scalar {
        Scalar::of(quotient(self.raw as int, k as int))
    }

    /// The square root: the integer square root of `raw * SCALE` millionths,
    /// and zero for a scalar that is not positive.
    pub open spec fn spec_sqrt(self) -> Scalar {
        if self.raw <= 0 {
            Scalar { raw: 0 }
        } else {
            Scalar::of(root(self.raw * SCALE))
        }
    }

    /// The smaller of the two.
    pub open spec fn spec_min(self, rhs: Scalar) -> Scalar {
        if self.raw <= rhs.raw {
            self
        } else {
            rhs
        }
    }

    /// The larger of the two.
    pub open spec fn spec_max(self, rhs: Scalar) -> Scalar {
        if self.raw >= rhs.raw {
            self
        } else {
            rhs
        }
    }

    /// The `n`-th power: `n` products by `self`, starting from one.
    pub open spec fn spec_powi(self, n: nat) -> Scalar
        decreases n,
    {
        if n == 0 {
            Scalar::spec_one()
        } else {
            self.spec_powi((n - 1) as nat).spec_mul(self)
        }
    }

    /// The whole part, rounded toward zero.
    pub open spec fn spec_trunc(self) -> i64 {
        quotient(self.raw as int, SCALE as int) as i64
    }

    /// The largest whole number that does not exceed the scalar.
    pub open spec fn spec_floor(self) -> i64 {
        (self.raw as int / SCALE as int) as i64
    }

    /// The scalar with the given raw value.
    pub fn new(raw: i64) -> (r: Scalar)
        ensures
            r.raw == raw,
    {
        Scalar { raw }
    }

    /// Zero.
    #[verifier::when_used_as_spec(spec_zero)]
    pub fn zero() -> (r: Scalar)
        ensures
            r == Scalar::spec_zero(),
    {
        Scalar { raw: 0 }
    }

    /// One.
    #[verifier::when_used_as_spec(spec_one)]
    pub fn one() -> (r: Scalar)
        ensures
            r == Scalar::spec_one(),
    {
        Scalar { raw: SCALE }
    }

    /// The largest scalar, which stands for infinity.
    #[verifier::when_used_as_spec(spec_inf)]
    pub fn inf() -> (r: Scalar)
        ensures
            r == Scalar::spec_inf(),
    {
        Scalar { raw: RAW_MAX }
    }

    /// The circle constant.
    #[verifier::when_used_as_spec(spec_pi)]
    pub fn pi() -> (r: Scalar)
        ensures
            r == Scalar::spec_pi(),
    {
        Scalar { raw: PI_RAW }
    }

    /// The whole number `v`.
    #[verifier::when_used_as_spec(spec_from_int)]
    pub fn from_int(v: i64) -> (r: Scalar)
        ensures
            r == Scalar::spec_from_int(v),
    {
        let wide: i128 = (v as i128) * 1_000_000;
        Scalar { raw: saturate(wide) }
    }

    /// The whole number `n`, a count of things.
    #[verifier::when_used_as_spec(spec_from_count)]
    pub fn from_count(n: usize) -> (r: Scalar)
        ensures
            r == Scalar::spec_from_count(n),
    {
        let wide: u64 = n as u64;
        if wide > 9_223_372_036_854 {
            Scalar { raw: RAW_MAX }
        } else {
            Scalar { raw: (wide as i64) * 1_000_000 }
        }
    }

    /// The fraction `num / den`, rounded toward zero.
    #[verifier::when_used_as_spec(spec_from_ratio)]
    pub fn from_ratio(num: i64, den: i64) -> (r: Scalar)
        ensures
            r == Scalar::spec_from_ratio(num, den),
    {
        if den == 0 {
            if num > 0 {
                Scalar { raw: RAW_MAX }
            } else if num < 0 {
                Scalar { raw: -RAW_MAX }
            } else {
                Scalar { raw: 0 }
            }
        } else {
            let n: u128 = magnitude_of(num) * 1_000_000;
            let d: u128 = magnitude_of(den);
            Scalar { raw: signed(n / d, (num < 0) != (den < 0)) }
        }
    }

    /// Sum, saturated.
    #[verifier::when_used_as_spec(spec_add)]
    pub fn add(self, rhs: Scalar) -> (r: Scalar)
        ensures
            r == self.spec_add(rhs),
    {
        Scalar { raw: saturate(self.raw as i128 + rhs.raw as i128) }
    }

    /// Difference, saturated.
    #[verifier::when_used_as_spec(spec_sub)]
    pub fn sub(self, rhs: Scalar) -> (r: Scalar)
        ensures
            r == self.spec_sub(rhs),
    {
        Scalar { raw: saturate(self.raw as i128 - rhs.raw as i128) }
    }

    /// Negation, saturated.
    #[verifier::when_used_as_spec(spec_neg)]
    pub fn neg(self) -> (r: Scalar)
        ensures
            r == self.spec_neg(),
    {
        Scalar { raw: saturate(-(self.raw as i128)) }
    }

    /// Absolute value, saturated.
    #[verifier::when_used_as_spec(spec_abs)]
    pub fn abs(self) -> (r: Scalar)
        ensures
            r == self.spec_abs(),
    {
        Scalar { raw: signed(magnitude_of(self.raw), false) }
    }

    /// Product, rounded toward zero and saturated.
    #[verifier::when_used_as_spec(spec_mul)]
    pub fn mul(self, rhs: Scalar) -> (r: Scalar)
        ensures
            r == self.spec_mul(rhs),
    {
        let a: u128 = magnitude_of(self.raw);
        let b: u128 = magnitude_of(rhs.raw);
        assert(a * b <= 0x8000_0000_0000_0000int * 0x8000_0000_0000_0000int) by (nonlinear_arith)
            requires
                0 <= a <= 0x8000_0000_0000_0000,
                0 <= b <= 0x8000_0000_0000_0000,
        ;
        assert(magnitude(self.raw * rhs.raw) == a * b) by (nonlinear_arith)
            requires
                a == magnitude(self.raw as int),
                b == magnitude(rhs.raw as int),
        ;
        assert((self.raw * rhs.raw < 0) == ((self.raw < 0) != (rhs.raw < 0) && a * b != 0))
            by (nonlinear_arith)
            requires
                a == magnitude(self.raw as int),
                b == magnitude(rhs.raw as int),
        ;
        let q: u128 = (a * b) / 1_000_000;
        Scalar { raw: signed(q, (self.raw < 0) != (rhs.raw < 0)) }
    }

    /// Quotient, rounded toward zero and saturated. Dividing by zero gives
    /// the infinity of the sign of `self`, and zero for zero.
    #[verifier::when_used_as_spec(spec_div)]
    pub fn div(self, rhs: Scalar) -> (r: Scalar)
        ensures
            r == self.spec_div(rhs),
    {
        if rhs.raw == 0 {
            if self.raw > 0 {
                Scalar { raw: RAW_MAX }
            } else if self.raw < 0 {
                Scalar { raw: -RAW_MAX }
            } else {
                Scalar { raw: 0 }
            }
        } else {
            let n: u128 = magnitude_of(self.raw) * 1_000_000;
            let d: u128 = magnitude_of(rhs.raw);
            Scalar { raw: signed(n / d, (self.raw < 0) != (rhs.raw < 0)) }
        }
    }

    /// Quotient by a whole number, rounded toward zero.
    #[verifier::when_used_as_spec(spec_div_int)]
    pub fn div_int(self, k: i64) -> (r: Scalar)
        ensures
            r == self.spec_div_int(k),
    {
        if k == 0 {
            if self.raw > 0 {
                Scalar { raw: RAW_MAX }
            } else if self.raw < 0 {
                Scalar { raw: -RAW_MAX }
            } else {
                Scalar { raw: 0 }
            }
        } else {
            let n: u128 = magnitude_of(self.raw);
            let d: u128 = magnitude_of(k);
            Scalar { raw: signed(n / d, (self.raw < 0) != (k < 0)) }
        }
    }

    /// Square root, rounded down. Zero for a scalar that is not positive.
    #[verifier::when_used_as_spec(spec_sqrt)]
    pub fn sqrt(self) -> (r: Scalar)
        ensures
            r == self.spec_sqrt(),
    {
        if self.raw <= 0 {
            Scalar { raw: 0 }
        } else {
            let n: u128 = (self.raw as u128) * 1_000_000;
            Scalar { raw: signed(root_of(n), false) }
        }
    }

    /// The smaller of two scalars.
    #[verifier::when_used_as_spec(spec_min)]
    pub fn min(self, rhs: Scalar) -> (r: Scalar)
        ensures
            r == self.spec_min(rhs),
    {
        if self.raw <= rhs.raw {
            self
        } else {
            rhs
        }
    }

    /// The larger of two scalars.
    #[verifier::when_used_as_spec(spec_max)]
    pub fn max(self, rhs: Scalar) -> (r: Scalar)
        ensures
            r == self.spec_max(rhs),
    {
        if self.raw >= rhs.raw {
            self
        } else {
            rhs
        }
    }

    /// `self` multiplied by itself `n` times, each product rounded.
    pub fn powi(self, n: u32) -> (r: Scalar)
        ensures
            r == self.spec_powi(n as nat),
    {
        let mut acc = Scalar::one();
        let mut i: u32 = 0;
        while i < n
            invariant
                i <= n,
                acc == self.spec_powi(i as nat),
            decreases n - i,
        {
            acc = acc.mul(self);
            i += 1;
        }
        acc
    }

    /// The whole part, rounded toward zero.
    #[verifier::when_used_as_spec(spec_trunc)]
    pub fn trunc(self) -> (r: i64)
        ensures
            r == self.spec_trunc(),
    {
        let q: u128 = magnitude_of(self.raw) / 1_000_000;
        signed(q, self.raw < 0)
    }

    /// The largest whole number that does not exceed the scalar.
    #[verifier::when_used_as_spec(spec_floor)]
    pub fn floor(self) -> (r: i64)
        ensures
            r == self.spec_floor(),
    {
        let m: u128 = magnitude_of(self.raw);
        let q: i64 = (m / 1_000_000) as i64;
        if self.raw >= 0 {
            q
        } else if m % 1_000_000 == 0 {
            -q
        } else {
            -q - 1
        }
    }
}

/// A square root is not negative, and for a positive scalar it is the
/// integer square root of the raw value times the scale.
pub proof fn lemma_sqrt(x: Scalar)
    ensures
        x.sqrt().raw >= 0,
        x.raw > 0 ==> is_root(x.raw * SCALE, x.sqrt().raw as int),
{
    if x.raw > 0 {
        let n = x.raw * SCALE;
        lemma_root_exists(n);
        let r = root(n);
        if r > RAW_MAX {
            assert(r * r > n) by (nonlinear_arith)
                requires
                    r > RAW_MAX,
                    n <= RAW_MAX * 1_000_000,
                    RAW_MAX > 1_000_000,
            ;
        }
    }
}

/// Subtracting the same scalar keeps the order.
pub proof fn lemma_sub_monotonic(a: Scalar, b: Scalar, c: Scalar)
    requires
        a.raw <= b.raw,
    ensures
        a.sub(c).raw <= b.sub(c).raw,
        c.sub(b).raw <= c.sub(a).raw,
{
}

/// Dividing by the same scalar keeps the order of the dividends when the
/// divisor is not negative, and reverses it when the divisor is negative.
pub proof fn lemma_div_monotonic(a: Scalar, b: Scalar, d: Scalar)
    requires
        a.raw <= b.raw,
    ensures
        d.raw >= 0 ==> a.div(d).raw <= b.div(d).raw,
        d.raw < 0 ==> b.div(d).raw <= a.div(d).raw,
{
    let na = a.raw * SCALE;
    let nb = b.raw * SCALE;
    if d.raw > 0 {
        lemma_quotient_monotonic(na, nb, d.raw as int);
    } else if d.raw < 0 {
        lemma_quotient_monotonic(na, nb, -d.raw);
        lemma_quotient_negate(na, -d.raw);
        lemma_quotient_negate(nb, -d.raw);
    }
}

/// Multiplying by the same scalar keeps the order of the other factors when
/// that scalar is not negative, and reverses it when it is negative.
pub proof fn lemma_mul_monotonic(a: Scalar, b: Scalar, c: Scalar)
    requires
        a.raw <= b.raw,
    ensures
        c.raw >= 0 ==> a.mul(c).raw <= b.mul(c).raw,
        c.raw < 0 ==> b.mul(c).raw <= a.mul(c).raw,
{
    let pa = a.raw * c.raw;
    let pb = b.raw * c.raw;
    if c.raw >= 0 {
        assert(pa <= pb) by (nonlinear_arith)
            requires
                pa == a.raw * c.raw,
                pb == b.raw * c.raw,
                a.raw <= b.raw,
                c.raw >= 0,
        ;
        lemma_quotient_monotonic(pa, pb, SCALE as int);
    } else {
        assert(pb <= pa) by (nonlinear_arith)
            requires
                pa == a.raw * c.raw,
                pb == b.raw * c.raw,
                a.raw <= b.raw,
                c.raw < 0,
        ;
        lemma_quotient_monotonic(pb, pa, SCALE as int);
    }
}

/// The product does not depend on the order of the factors.
pub proof fn lemma_mul_commutative(a: Scalar, b: Scalar)
    ensures
        a.mul(b) == b.mul(a),
{
    assert(a.raw * b.raw == b.raw * a.raw) by (nonlinear_arith);
}

/// Negating one factor negates the product, unless that factor is the one
/// raw value whose negation saturates.
pub proof fn lemma_mul_negate(a: Scalar, b: Scalar)
    ensures
        b.in_range() ==> a.mul(b.neg()) == a.mul(b).neg(),
        a.in_range() ==> a.neg().mul(b) == a.mul(b).neg(),
{
    let p = a.raw * b.raw;
    assert(a.raw * (-b.raw) == -p) by (nonlinear_arith)
        requires
            p == a.raw * b.raw,
    ;
    assert((-a.raw) * b.raw == -p) by (nonlinear_arith)
        requires
            p == a.raw * b.raw,
    ;
    lemma_quotient_negate(p, SCALE as int);
}

/// Negating both terms negates the sum.
pub proof fn lemma_add_negate(a: Scalar, b: Scalar)
    requires
        a.in_range(),
        b.in_range(),
    ensures
        a.neg().add(b.neg()) == a.add(b).neg(),
{
}

/// Multiplying by one changes nothing.
pub proof fn lemma_mul_one(a: Scalar)
    requires
        a.in_range(),
    ensures
        a.mul(Scalar::one()) == a,
        Scalar::one().mul(a) == a,
{
    lemma_quotient_exact(a.raw as int, SCALE as int);
    assert(SCALE * a.raw == a.raw * SCALE) by (nonlinear_arith);
}

/// Multiplying by minus one negates.
pub proof fn lemma_mul_minus_one(a: Scalar)
    requires
        a.in_range(),
    ensures
        a.mul(Scalar::one().neg()) == a.neg(),
{
    lemma_mul_one(a);
    lemma_mul_negate(a, Scalar::one());
}

/// The square root of one is one, and the square root of a scalar that
/// does not exceed one does not exceed one.
pub proof fn lemma_sqrt_at_most_one(x: Scalar)
    requires
        x.raw <= SCALE,
    ensures
        x.sqrt().raw <= SCALE,
        Scalar::one().sqrt() == Scalar::one(),
{
    assert(is_root(SCALE * SCALE, SCALE as int)) by (nonlinear_arith)
        requires
            SCALE == 1_000_000,
    ;
    lemma_root_is(SCALE * SCALE, SCALE as int);
    if x.raw > 0 {
        lemma_sqrt(x);
        assert(x.raw * SCALE <= SCALE * SCALE) by (nonlinear_arith)
            requires
                x.raw <= SCALE,
                SCALE == 1_000_000,
        ;
        lemma_root_monotonic(x.raw * SCALE, x.sqrt().raw as int, SCALE * SCALE, SCALE as int);
    }
}

/// A quotient of two scalars that are not negative, the dividend not
/// larger than the divisor, lies between zero and one.
pub proof fn lemma_div_at_most_one(x: Scalar, p: Scalar)
    requires
        0 <= x.raw <= p.raw,
        p.raw > 0,
    ensures
        0 <= x.div(p).raw <= SCALE,
{
    lemma_quotient_monotonic(0, x.raw * SCALE, p.raw as int);
    lemma_quotient_monotonic(x.raw * SCALE, p.raw * SCALE, p.raw as int);
    lemma_quotient_exact(SCALE as int, p.raw as int);
    assert(p.raw * SCALE == SCALE * p.raw) by (nonlinear_arith);
}

/// A product of a scalar between zero and one with a scalar that is not
/// negative lies between zero and that scalar.
pub proof fn lemma_mul_at_most(w: Scalar, x: Scalar)
    requires
        0 <= w.raw <= SCALE,
        0 <= x.raw,
    ensures
        0 <= w.mul(x).raw <= x.raw,
{
    lemma_mul_monotonic(Scalar::zero(), w, x);
    lemma_mul_monotonic(w, Scalar::one(), x);
    lemma_mul_one(x);
    assert(0 * x.raw == 0) by (nonlinear_arith);
}

/// A product is no larger in magnitude than the product of two bounds of
/// its factors.
pub proof fn lemma_mul_bounded(a: Scalar, b: Scalar, bound_a: int, bound_b: int)
    requires
        -bound_a <= a.raw <= bound_a,
        -bound_b <= b.raw <= bound_b,
        bound_a * bound_b <= RAW_MAX,
    ensures
        -(bound_a * bound_b) <= a.mul(b).raw * SCALE <= bound_a * bound_b,
        a.mul(b).raw == quotient(a.raw * b.raw, SCALE as int),
{
    let p = a.raw * b.raw;
    let limit = bound_a * bound_b;
    assert(-limit <= p <= limit) by (nonlinear_arith)
        requires
            p == a.raw * b.raw,
            limit == bound_a * bound_b,
            -bound_a <= a.raw <= bound_a,
            -bound_b <= b.raw <= bound_b,
    ;
    let m = magnitude(p);
    assert(0 <= (m / (SCALE as int)) * SCALE <= m) by (nonlinear_arith)
        requires
            m >= 0,
            SCALE == 1_000_000,
    ;
}

/// The square root of a scalar that does not exceed the square of a bound
/// does not exceed that bound.
pub proof fn lemma_sqrt_bounded(x: Scalar, bound: int)
    requires
        0 <= bound,
        x.raw * SCALE <= bound * bound,
    ensures
        0 <= x.sqrt().raw <= bound,
{
    lemma_sqrt(x);
    if x.raw > 0 {
        let r = x.sqrt().raw as int;
        if r > bound {
            assert(r * r > bound * bound) by (nonlinear_arith)
                requires
                    r > bound,
                    bound >= 0,
            ;
        }
    }
}

} // verus!
