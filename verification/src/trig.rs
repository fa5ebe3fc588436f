//! Trigonometry on fixed-point scalars.
//!
//! Sine is an odd polynomial of degree eleven on the first quadrant, carried
//! to the other quadrants by symmetry. Arctangent is an odd polynomial of
//! degree thirteen on `[0, tan(pi/8)]`, carried to `[0, 1]` by the identity
//! `atan(z) = pi/4 + atan((z - 1) / (z + 1))` and to the plane by symmetry.
//! Every intermediate result is rounded as the scalar operations round.
use vstd::prelude::*;
use crate::scalar::{Scalar, PI_RAW};

verus! {

/// Raw value of a quarter turn.
pub const HALF_PI_RAW: i64 = 1_570_796;

/// Raw value of a full turn.
pub const TWO_PI_RAW: i64 = 6_283_185;

/// Raw value of an eighth of a turn.
pub const QUARTER_PI_RAW: i64 = 785_398;

/// Raw value of `tan(pi/8)`, where the arctangent switches branches.
pub const TAN_EIGHTH_RAW: i64 = 414_214;

/// `z - z^3/3! + z^5/5! - ... - z^11/11!`, nested so that each step is one
/// product and one division by a whole number.
pub open spec fn spec_sin_poly(z: Scalar) -> Scalar {
    let z2 = z.mul(z);
    let t5 = Scalar::one().sub(z2.div_int(110));
    let t4 = Scalar::one().sub(z2.mul(t5).div_int(72));
    let t3 = Scalar::one().sub(z2.mul(t4).div_int(42));
    let t2 = Scalar::one().sub(z2.mul(t3).div_int(20));
    let t1 = Scalar::one().sub(z2.mul(t2).div_int(6));
    z.mul(t1)
}

/// `w - w^3/3 + w^5/5 - ... + w^13/13`, nested in the same way.
pub open spec fn spec_atan_poly(w: Scalar) -> Scalar {
    let w2 = w.mul(w);
    let t6 = Scalar::from_ratio(1, 11).sub(w2.div_int(13));
    let t5 = Scalar::from_ratio(1, 9).sub(w2.mul(t6));
    let t4 = Scalar::from_ratio(1, 7).sub(w2.mul(t5));
    let t3 = Scalar::from_ratio(1, 5).sub(w2.mul(t4));
    let t2 = Scalar::from_ratio(1, 3).sub(w2.mul(t3));
    let t1 = Scalar::one().sub(w2.mul(t2));
    w.mul(t1)
}

/// Arctangent of a scalar between zero and one.
pub open spec fn spec_atan_unit(z: Scalar) -> Scalar {
    if z.raw <= TAN_EIGHTH_RAW {
        spec_atan_poly(z)
    } else {
        let w = z.sub(Scalar::one()).div(z.add(Scalar::one()));
        Scalar { raw: QUARTER_PI_RAW }.add(spec_atan_poly(w))
    }
}

/// The sine polynomial.
fn sin_poly(z: Scalar) -> (r: Scalar)
    ensures
        r == spec_sin_poly(z),
{
    let z2 = z.mul(z);
    let t5 = Scalar::one().sub(z2.div_int(110));
    let t4 = Scalar::one().sub(z2.mul(t5).div_int(72));
    let t3 = Scalar::one().sub(z2.mul(t4).div_int(42));
    let t2 = Scalar::one().sub(z2.mul(t3).div_int(20));
    let t1 = Scalar::one().sub(z2.mul(t2).div_int(6));
    z.mul(t1)
}

/// The arctangent polynomial.
fn atan_poly(w: Scalar) -> (r: Scalar)
    ensures
        r == spec_atan_poly(w),
{
    let w2 = w.mul(w);
    let t6 = Scalar::from_ratio(1, 11).sub(w2.div_int(13));
    let t5 = Scalar::from_ratio(1, 9).sub(w2.mul(t6));
    let t4 = Scalar::from_ratio(1, 7).sub(w2.mul(t5));
    let t3 = Scalar::from_ratio(1, 5).sub(w2.mul(t4));
    let t2 = Scalar::from_ratio(1, 3).sub(w2.mul(t3));
    let t1 = Scalar::one().sub(w2.mul(t2));
    w.mul(t1)
}

/// Arctangent of a scalar between zero and one.
fn atan_unit(z: Scalar) -> (r: Scalar)
    ensures
        r == spec_atan_unit(z),
{
    if z.raw <= TAN_EIGHTH_RAW {
        atan_poly(z)
    } else {
        let w = z.sub(Scalar::one()).div(z.add(Scalar::one()));
        Scalar { raw: QUARTER_PI_RAW }.add(atan_poly(w))
    }
}

impl Scalar {
    /// The angle brought into `[0, 2 pi)` by whole turns.
    pub open spec fn spec_turn(self) -> Scalar {
        Scalar { raw: (self.raw as int % TWO_PI_RAW as int) as i64 }
    }

    /// Sine: the polynomial on the first quadrant, mirrored at a quarter turn
    /// and negated beyond a half turn.
    pub open spec fn spec_sin(self) -> Scalar {
        let y = self.spec_turn();
        if y.raw <= HALF_PI_RAW {
            spec_sin_poly(y)
        } else if y.raw <= PI_RAW {
            spec_sin_poly(Scalar::pi().sub(y))
        } else if y.raw <= PI_RAW + HALF_PI_RAW {
            spec_sin_poly(y.sub(Scalar::pi())).neg()
        } else {
            spec_sin_poly(Scalar { raw: TWO_PI_RAW }.sub(y)).neg()
        }
    }

    /// Cosine: the sine a quarter turn on.
    pub open spec fn spec_cos(self) -> Scalar {
        self.add(Scalar { raw: HALF_PI_RAW }).spec_sin()
    }

    /// Tangent: sine over cosine.
    pub open spec fn spec_tan(self) -> Scalar {
        self.spec_sin().div(self.spec_cos())
    }

    /// The angle in `(-pi, pi]` of the point with ordinate `self` and abscissa
    /// `x`: the arctangent of the smaller coordinate over the larger, taken
    /// from a quarter turn where the ordinate is the larger, from a half turn
    /// left of the axis, and negated below it.
    pub open spec fn spec_atan2(self, x: Scalar) -> Scalar {
        if self.raw == 0 && x.raw == 0 {
            Scalar::zero()
        } else {
            let ay = self.abs();
            let ax = x.abs();
            let base = if ay.raw <= ax.raw {
                spec_atan_unit(ay.div(ax))
            } else {
                Scalar { raw: HALF_PI_RAW }.sub(spec_atan_unit(ax.div(ay)))
            };
            let half = if x.raw < 0 {
                Scalar::pi().sub(base)
            } else {
                base
            };
            if self.raw < 0 {
                half.neg()
            } else {
                half
            }
        }
    }

    /// Arcsine: the angle of the point `(sqrt(1 - self^2), self)`.
    pub open spec fn spec_asin(self) -> Scalar {
        self.spec_atan2(Scalar::one().sub(self.mul(self)).sqrt())
    }

    /// The angle brought into `[0, 2 pi)` by whole turns.
    fn turn(self) -> (r: Scalar)
        ensures
            r == self.spec_turn(),
            0 <= r.raw < TWO_PI_RAW,
    {
        if self.raw >= 0 {
            Scalar { raw: self.raw % TWO_PI_RAW }
        } else {
            let m: i128 = (-(self.raw as i128)) % (TWO_PI_RAW as i128);
            if m == 0 {
                Scalar { raw: 0 }
            } else {
                Scalar { raw: (TWO_PI_RAW as i128 - m) as i64 }
            }
        }
    }

    /// Sine of an angle in radians.
    #[verifier::when_used_as_spec(spec_sin)]
    pub fn sin(self) -> (r: Scalar)
        ensures
            r == self.spec_sin(),
    {
        let y = self.turn();
        if y.raw <= HALF_PI_RAW {
            sin_poly(y)
        } else if y.raw <= PI_RAW {
            sin_poly(Scalar::pi().sub(y))
        } else if y.raw <= PI_RAW + HALF_PI_RAW {
            sin_poly(y.sub(Scalar::pi())).neg()
        } else {
            sin_poly(Scalar { raw: TWO_PI_RAW }.sub(y)).neg()
        }
    }

    /// Cosine of an angle in radians: the sine a quarter turn on.
    #[verifier::when_used_as_spec(spec_cos)]
    pub fn cos(self) -> (r: Scalar)
        ensures
            r == self.spec_cos(),
    {
        self.add(Scalar { raw: HALF_PI_RAW }).sin()
    }

    /// Tangent of an angle in radians: sine over cosine.
    #[verifier::when_used_as_spec(spec_tan)]
    pub fn tan(self) -> (r: Scalar)
        ensures
            r == self.spec_tan(),
    {
        self.sin().div(self.cos())
    }

    /// The angle in `(-pi, pi]` of the point with ordinate `self` and
    /// abscissa `x`; zero at the origin.
    #[verifier::when_used_as_spec(spec_atan2)]
    pub fn atan2(self, x: Scalar) -> (r: Scalar)
        ensures
            r == self.spec_atan2(x),
    {
        if self.raw == 0 && x.raw == 0 {
            Scalar::zero()
        } else {
            let ay = self.abs();
            let ax = x.abs();
            let base = if ay.raw <= ax.raw {
                atan_unit(ay.div(ax))
            } else {
                Scalar { raw: HALF_PI_RAW }.sub(atan_unit(ax.div(ay)))
            };
            let half = if x.raw < 0 {
                Scalar::pi().sub(base)
            } else {
                base
            };
            if self.raw < 0 {
                half.neg()
            } else {
                half
            }
        }
    }

    /// Arcsine: the angle of the point `(sqrt(1 - self^2), self)`.
    #[verifier::when_used_as_spec(spec_asin)]
    pub fn asin(self) -> (r: Scalar)
        ensures
            r == self.spec_asin(),
    {
        self.atan2(Scalar::one().sub(self.mul(self)).sqrt())
    }
}

} // verus!
