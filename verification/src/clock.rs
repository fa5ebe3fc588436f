//! A clock face drawn into a grid of pixels.
use vstd::prelude::*;
use vstd::std_specs::cmp::{PartialOrdIs, PartialOrdSpec};
use crate::point::Point;
use crate::scalar::Scalar;

verus! {

/// Number of columns of the grid.
pub const WIDTH: usize = 1024;

/// Number of pixels in a column.
pub const HEIGHT: usize = 512;

/// A grid of `WIDTH` columns of `HEIGHT` pixels, each zero or one, with the
/// centre and the radius of the clock face.
pub struct Clock {
    pub clock: Vec<Vec<i32>>,
    pub center: Point,
    pub radius: i32,
}

/// Absolute value of an integer.
pub open spec fn spec_abs(x: int) -> int {
    if x < 0 {
        -x
    } else {
        x
    }
}

/// Sign of a scalar: -1, 0 or 1.
pub open spec fn spec_sgn(x: Scalar) -> i32 {
    if x.raw == 0 {
        0
    } else if x.raw > 0 {
        1
    } else {
        -1i32
    }
}

/// Whether the circle of radius `r` around `p2` passes through the pixel
/// at `p1`. With `a` and `b` the distances of the two points along x and
/// along y, the pixel reaches from `2a - 1` to `2a + 1` and from `2b - 1`
/// to `2b + 1` in half pixels; where it lies on an axis through `p2` only
/// the other distance counts. The circle passes through if `r * r` lies
/// between the smallest and the largest sum of squares.
#[verifier::opaque]
pub open spec fn spec_check_dis(p1: Point, p2: Point, r: i32) -> bool {
    let a = spec_abs(p1.x - p2.x);
    let b = spec_abs(p1.y - p2.y);
    let mn = if a == 0 && b == 0 {
        0
    } else if a == 0 {
        (2 * b - 1) * (2 * b - 1)
    } else if b == 0 {
        (2 * a - 1) * (2 * a - 1)
    } else {
        (2 * a - 1) * (2 * a - 1) + (2 * b - 1) * (2 * b - 1)
    };
    let mx = if a == 0 && b == 0 {
        2
    } else if a == 0 {
        (2 * b + 1) * (2 * b + 1) + 1
    } else if b == 0 {
        (2 * a + 1) * (2 * a + 1) + 1
    } else {
        (2 * a + 1) * (2 * a + 1) + (2 * b + 1) * (2 * b + 1)
    };
    mn <= r * r && mx >= r * r
}

/// The angle in radians, counted from the x axis, of the hand that stands
/// `alpha` degrees past twelve: `90 - alpha` degrees, brought above zero.
pub open spec fn spec_hand_angle(alpha: Scalar) -> Scalar {
    let turned = Scalar::from_int(90).sub(alpha);
    let positive = if turned.raw < 0 {
        turned.add(Scalar::from_int(360))
    } else {
        turned
    };
    positive.div_int(360).mul(Scalar::from_int(2)).mul(Scalar::pi())
}

/// On which side of the line through the origin with direction
/// `(co, si)` the point `(x, y)` lies: the sign of `x si - y co`.
pub open spec fn spec_side(x: Scalar, y: Scalar, si: Scalar, co: Scalar) -> Scalar {
    x.mul(si).sub(y.mul(co))
}

/// Whether the hand of length `len` along `(co, si)` passes through the
/// pixel at `(x, y)` from the centre: the pixel lies in a quadrant that the
/// hand points into, its nearest corner lies within `len` half pixels, and
/// its four corners do not all lie strictly on one side of the hand.
#[verifier::opaque]
pub open spec fn spec_on_hand(x: int, y: int, si: Scalar, co: Scalar, len: Scalar) -> bool {
    let x1 = Scalar::from_int((2 * x - 1) as i64);
    let x2 = Scalar::from_int((2 * x + 1) as i64);
    let y1 = Scalar::from_int((2 * y - 1) as i64);
    let y2 = Scalar::from_int((2 * y + 1) as i64);
    let nx = x1.abs().min(x2.abs());
    let ny = y1.abs().min(y2.abs());
    let s11 = spec_side(x1, y1, si, co).raw;
    let s12 = spec_side(x1, y2, si, co).raw;
    let s21 = spec_side(x2, y1, si, co).raw;
    let s22 = spec_side(x2, y2, si, co).raw;
    &&& spec_abs(spec_sgn(co) - spec_sgn(Scalar::from_int(x as i64))) <= 1
    &&& spec_abs(spec_sgn(si) - spec_sgn(Scalar::from_int(y as i64))) <= 1
    &&& nx.mul(nx).add(ny.mul(ny)).raw <= len.mul(len).raw
    &&& (s11 >= 0 || s12 >= 0 || s21 >= 0 || s22 >= 0)
    &&& (s11 <= 0 || s12 <= 0 || s21 <= 0 || s22 <= 0)
}

/// Whether drawing the hand that stands `alpha` degrees past twelve, of
/// length `len`, lights the pixel in column `i` and row `j` of the grid.
/// The centre of the face is the pixel in column 512 and row 255; rows are
/// counted downward. The last column and the top row are never lit.
pub open spec fn spec_lit(i: int, j: int, alpha: Scalar, len: Scalar) -> bool {
    &&& 0 <= i < 1023
    &&& 1 <= j < 512
    &&& spec_on_hand(
        i - 512,
        255 - j,
        spec_hand_angle(alpha).sin(),
        spec_hand_angle(alpha).cos(),
        len,
    )
}

/// The three angles, in degrees past twelve, at which the hands for
/// seconds, minutes and hours are drawn at `h:m:s`.
pub open spec fn spec_needles(h: i32, m: i32, s: i32) -> (Scalar, Scalar, Scalar) {
    let seconds = Scalar::from_int(s as i64).mul(Scalar::from_int(6));
    let minutes = seconds.div_int(60).add(Scalar::from_int(m as i64).mul(Scalar::from_int(6)));
    let hours = minutes.div_int(60).add(Scalar::from_int(h as i64).mul(Scalar::from_int(30)));
    (seconds, minutes, hours)
}

/// Absolute value of an integer other than the least.
#[verifier::when_used_as_spec(spec_abs_i32)]
pub fn abs(x: i32) -> (r: i32)
    requires
        x > i32::MIN,
    ensures
        r == spec_abs(x as int),
{
    if x < 0 {
        -x
    } else {
        x
    }
}

/// Absolute value of an integer, as an integer of the same width.
pub open spec fn spec_abs_i32(x: i32) -> i32 {
    spec_abs(x as int) as i32
}

/// Absolute value of a scalar.
pub fn absf(x: Scalar) -> (r: Scalar)
    ensures
        r == x.abs(),
{
    x.abs()
}

/// Sign of a scalar: -1, 0 or 1.
#[verifier::when_used_as_spec(spec_sgn)]
pub fn sgn(x: Scalar) -> (r: i32)
    ensures
        r == spec_sgn(x),
{
    if x.raw == 0 {
        0
    } else {
        if x.raw > 0 {
            1
        } else {
            -1
        }
    }
}

/// The larger of `x` and `y` as their type orders them: `x` where it is
/// greater than `y` or equal to it, `y` elsewhere.
pub fn max<T: PartialOrd>(x: T, y: T) -> (r: T)
    ensures
        r == x || r == y,
        T::obeys_partial_cmp_spec() ==> r == if x.is_ge(&y) {
            x
        } else {
            y
        },
{
    if x >= y {
        x
    } else {
        y
    }
}

/// The smaller of `x` and `y` as their type orders them: `x` where it is
/// less than `y` or equal to it, `y` elsewhere.
pub fn min<T: PartialOrd>(x: T, y: T) -> (r: T)
    ensures
        r == x || r == y,
        T::obeys_partial_cmp_spec() ==> r == if x.is_le(&y) {
            x
        } else {
            y
        },
{
    if x <= y {
        x
    } else {
        y
    }
}

/// Whether the circle of radius `r` around `p2` passes through the pixel
/// at `p1`.
pub fn check_dis(p1: &Point, p2: &Point, r: &i32) -> (res: bool)
    ensures
        res == spec_check_dis(*p1, *p2, *r),
{
    let dx: i64 = p1.x as i64 - p2.x as i64;
    let dy: i64 = p1.y as i64 - p2.y as i64;
    let a: i128 = if dx < 0 {
        -dx as i128
    } else {
        dx as i128
    };
    let b: i128 = if dy < 0 {
        -dy as i128
    } else {
        dy as i128
    };
    reveal(spec_check_dis);
    assert(0 <= (*r) * (*r) <= 0x1_0000_0000 * 0x1_0000_0000) by (nonlinear_arith)
        requires
            -0x1_0000_0000 <= *r <= 0x1_0000_0000,
    ;
    let rr: i128 = (*r as i128) * (*r as i128);
    assert(0 <= (2 * a - 1) * (2 * a - 1) <= 0x4_0000_0000 * 0x4_0000_0000) by (nonlinear_arith)
        requires
            0 <= a <= 0x1_0000_0000,
    ;
    assert(0 <= (2 * a + 1) * (2 * a + 1) <= 0x4_0000_0000 * 0x4_0000_0000) by (nonlinear_arith)
        requires
            0 <= a <= 0x1_0000_0000,
    ;
    assert(0 <= (2 * b - 1) * (2 * b - 1) <= 0x4_0000_0000 * 0x4_0000_0000) by (nonlinear_arith)
        requires
            0 <= b <= 0x1_0000_0000,
    ;
    assert(0 <= (2 * b + 1) * (2 * b + 1) <= 0x4_0000_0000 * 0x4_0000_0000) by (nonlinear_arith)
        requires
            0 <= b <= 0x1_0000_0000,
    ;
    let mn: i128;
    let mx: i128;
    if a == 0 {
        if b == 0 {
            mn = 0;
            mx = 2;
        } else {
            mn = (2 * b - 1) * (2 * b - 1);
            mx = (2 * b + 1) * (2 * b + 1) + 1;
        }
    } else {
        if b == 0 {
            mn = (2 * a - 1) * (2 * a - 1);
            mx = (2 * a + 1) * (2 * a + 1) + 1;
        } else {
            mn = (2 * a - 1) * (2 * a - 1) + (2 * b - 1) * (2 * b - 1);
            mx = (2 * a + 1) * (2 * a + 1) + (2 * b + 1) * (2 * b + 1);
        }
    }
    mn <= rr && mx >= rr
}

/// The angle in radians, counted from the x axis, of the hand that stands
/// `alpha` degrees past twelve.
#[verifier::when_used_as_spec(spec_hand_angle)]
pub fn hand_angle(alpha: Scalar) -> (r: Scalar)
    ensures
        r == spec_hand_angle(alpha),
{
    let mut turned = Scalar::from_int(90).sub(alpha);
    if turned.raw < 0 {
        turned = turned.add(Scalar::from_int(360));
    }
    turned.div_int(360).mul(Scalar::from_int(2)).mul(Scalar::pi())
}

/// Whether the hand of length `len` along `(co, si)` passes through the
/// pixel at `(x, y)` from the centre.
pub fn on_hand(x: i32, y: i32, si: Scalar, co: Scalar, len: Scalar) -> (r: bool)
    ensures
        r == spec_on_hand(x as int, y as int, si, co, len),
{
    reveal(spec_on_hand);
    if abs(sgn(co) - sgn(Scalar::from_int(x as i64))) > 1 {
        return false;
    }
    if abs(sgn(si) - sgn(Scalar::from_int(y as i64))) > 1 {
        return false;
    }
    let x1 = Scalar::from_int(2 * (x as i64) - 1);
    let x2 = Scalar::from_int(2 * (x as i64) + 1);
    let y1 = Scalar::from_int(2 * (y as i64) - 1);
    let y2 = Scalar::from_int(2 * (y as i64) + 1);
    let nx = absf(x1).min(absf(x2));
    let ny = absf(y1).min(absf(y2));
    if nx.mul(nx).add(ny.mul(ny)).raw > len.mul(len).raw {
        return false;
    }
    let s11 = x1.mul(si).sub(y1.mul(co)).raw;
    let s12 = x1.mul(si).sub(y2.mul(co)).raw;
    let s21 = x2.mul(si).sub(y1.mul(co)).raw;
    let s22 = x2.mul(si).sub(y2.mul(co)).raw;
    let np = s11 >= 0 || s12 >= 0 || s21 >= 0 || s22 >= 0;
    let nn = s11 <= 0 || s12 <= 0 || s21 <= 0 || s22 <= 0;
    np && nn
}

impl Clock {
    /// The grid has `WIDTH` columns of `HEIGHT` pixels.
    pub open spec fn well_formed(&self) -> bool {
        &&& self.clock@.len() == WIDTH
        &&& forall|x: int| 0 <= x < WIDTH ==> (#[trigger] self.clock@[x])@.len() == HEIGHT
    }

    /// The pixel in column `x` and row `y`.
    pub open spec fn pixel(&self, x: int, y: int) -> i32 {
        self.clock@[x]@[y]
    }

    /// A blank grid, with the face centred at `(512, 256)` and of radius 400.
    pub fn new() -> (r: Clock)
        ensures
            r.well_formed(),
            r.radius == 400,
            r.center.x == 512 && r.center.y == 256,
            forall|x: int, y: int| 0 <= x < WIDTH && 0 <= y < HEIGHT ==> r.pixel(x, y) == 0,
    {
        let mut grid: Vec<Vec<i32>> = Vec::new();
        let mut x: usize = 0;
        while x < WIDTH
            invariant
                x <= WIDTH,
                grid@.len() == x,
                forall|i: int| 0 <= i < x ==> (#[trigger] grid@[i])@.len() == HEIGHT,
                forall|i: int, j: int| 0 <= i < x && 0 <= j < HEIGHT ==> grid@[i]@[j] == 0,
            decreases WIDTH - x,
        {
            let mut column: Vec<i32> = Vec::new();
            let mut y: usize = 0;
            while y < HEIGHT
                invariant
                    y <= HEIGHT,
                    column@.len() == y,
                    forall|j: int| 0 <= j < y ==> column@[j] == 0,
                decreases HEIGHT - y,
            {
                column.push(0);
                y += 1;
            }
            grid.push(column);
            x += 1;
        }
        Clock { clock: grid, center: Point::new(512, 256), radius: 400 }
    }

    /// Lights the pixel in column `x` and row `y`.
    fn light(&mut self, x: usize, y: usize)
        requires
            old(self).well_formed(),
            x < WIDTH,
            y < HEIGHT,
        ensures
            final(self).well_formed(),
            final(self).center == old(self).center,
            final(self).radius == old(self).radius,
            forall|i: int, j: int|
                0 <= i < WIDTH && 0 <= j < HEIGHT ==> #[trigger] final(self).pixel(i, j) == if i == x
                    && j == y {
                    1
                } else {
                    old(self).pixel(i, j)
                },
    {
        self.clock[x][y] = 1;
    }

    /// Lights every pixel that the circle of the face passes through, and
    /// leaves the others as they are.
    pub fn draw_clock_plate(&mut self)
        requires
            old(self).well_formed(),
        ensures
            final(self).well_formed(),
            final(self).center == old(self).center,
            final(self).radius == old(self).radius,
            forall|x: int, y: int|
                0 <= x < WIDTH && 0 <= y < HEIGHT ==> final(self).pixel(x, y) == if spec_check_dis(
                    Point { x: x as i32, y: y as i32 },
                    old(self).center,
                    old(self).radius,
                ) {
                    1
                } else {
                    old(self).pixel(x, y)
                },
    {
        let ghost before = *self;
        let mut x: usize = 0;
        while x < WIDTH
            invariant
                x <= WIDTH,
                self.well_formed(),
                before.well_formed(),
                self.center == before.center,
                self.radius == before.radius,
                forall|i: int, j: int|
                    0 <= i < WIDTH && 0 <= j < HEIGHT ==> self.pixel(i, j) == if i < x
                        && spec_check_dis(
                        Point { x: i as i32, y: j as i32 },
                        before.center,
                        before.radius,
                    ) {
                        1
                    } else {
                        before.pixel(i, j)
                    },
            decreases WIDTH - x,
        {
            let mut y: usize = 0;
            while y < HEIGHT
                invariant
                    x < WIDTH,
                    y <= HEIGHT,
                    self.well_formed(),
                    before.well_formed(),
                    self.center == before.center,
                    self.radius == before.radius,
                    forall|i: int, j: int|
                        0 <= i < WIDTH && 0 <= j < HEIGHT ==> self.pixel(i, j) == if (i < x || (i
                            == x && j < y)) && spec_check_dis(
                            Point { x: i as i32, y: j as i32 },
                            before.center,
                            before.radius,
                        ) {
                            1
                        } else {
                            before.pixel(i, j)
                        },
                decreases HEIGHT - y,
            {
                if check_dis(&Point::new(x as i32, y as i32), &self.center, &self.radius) {
                    self.light(x, y);
                }
                y += 1;
            }
            x += 1;
        }
    }

    /// Lights every pixel that the hand passes through which stands `alpha`
    /// degrees past twelve and is `len` half pixels long, and leaves the
    /// others as they are.
    pub fn draw_line(&mut self, alpha: Scalar, len: Scalar)
        requires
            old(self).well_formed(),
        ensures
            final(self).well_formed(),
            final(self).center == old(self).center,
            final(self).radius == old(self).radius,
            forall|i: int, j: int|
                0 <= i < WIDTH && 0 <= j < HEIGHT ==> final(self).pixel(i, j) == if spec_lit(
                    i,
                    j,
                    alpha,
                    len,
                ) {
                    1
                } else {
                    old(self).pixel(i, j)
                },
    {
        let ghost before = *self;
        let angle = hand_angle(alpha);
        let si = angle.sin();
        let co = angle.cos();
        let mut x: i32 = -512;
        while x < 511
            invariant
                -512 <= x <= 511,
                self.well_formed(),
                before.well_formed(),
                self.center == before.center,
                self.radius == before.radius,
                si == spec_hand_angle(alpha).sin(),
                co == spec_hand_angle(alpha).cos(),
                forall|i: int, j: int|
                    0 <= i < WIDTH && 0 <= j < HEIGHT ==> self.pixel(i, j) == if i < x + 512
                        && spec_lit(i, j, alpha, len) {
                        1
                    } else {
                        before.pixel(i, j)
                    },
            decreases 511 - x,
        {
            let mut y: i32 = -256;
            while y < 255
                invariant
                    -512 <= x < 511,
                    -256 <= y <= 255,
                    self.well_formed(),
                    before.well_formed(),
                    self.center == before.center,
                    self.radius == before.radius,
                    si == spec_hand_angle(alpha).sin(),
                    co == spec_hand_angle(alpha).cos(),
                    forall|i: int, j: int|
                        0 <= i < WIDTH && 0 <= j < HEIGHT ==> self.pixel(i, j) == if (i < x + 512
                            || (i == x + 512 && j > 255 - y)) && spec_lit(i, j, alpha, len) {
                            1
                        } else {
                            before.pixel(i, j)
                        },
                decreases 255 - y,
            {
                if on_hand(x, y, si, co, len) {
                    self.light((x + 512) as usize, (-y + 255) as usize);
                }
                y += 1;
            }
            x += 1;
        }
    }

    /// Draws the three hands of the clock at `h:m:s`: the hand for seconds
    /// 360 half pixels long, the hand for minutes 300, the hand for hours
    /// 200.
    pub fn draw_clock_needle(&mut self, h: i32, m: i32, s: i32)
        requires
            old(self).well_formed(),
        ensures
            final(self).well_formed(),
            final(self).center == old(self).center,
            final(self).radius == old(self).radius,
            forall|i: int, j: int|
                0 <= i < WIDTH && 0 <= j < HEIGHT ==> final(self).pixel(i, j) == if spec_lit(
                    i,
                    j,
                    spec_needles(h, m, s).0,
                    Scalar::from_int(360),
                ) || spec_lit(i, j, spec_needles(h, m, s).1, Scalar::from_int(300)) || spec_lit(
                    i,
                    j,
                    spec_needles(h, m, s).2,
                    Scalar::from_int(200),
                ) {
                    1
                } else {
                    old(self).pixel(i, j)
                },
    {
        let alpha = Scalar::from_int(s as i64).mul(Scalar::from_int(6));
        self.draw_line(alpha, Scalar::from_int(360));
        let alpha = alpha.div_int(60).add(Scalar::from_int(m as i64).mul(Scalar::from_int(6)));
        self.draw_line(alpha, Scalar::from_int(300));
        let alpha = alpha.div_int(60).add(Scalar::from_int(h as i64).mul(Scalar::from_int(30)));
        self.draw_line(alpha, Scalar::from_int(200));
    }
}

} // verus!
