//! Fixed-point world geometry: scalars, points and axis-aligned rectangles.
use vstd::prelude::*;

verus! {

/// Number of raw fixed-point steps in one world unit.
pub const WORLD_ONE: i64 = 1024;

/// Largest magnitude a raw coordinate may have for the geometric operations.
pub const COORD_LIMIT: i64 = 0x10_0000_0000_0000;

/// Largest magnitude of a component of a vector that can be normalised.
pub const NORM_LIMIT: i64 = 0x100_0000_0000;

/// How much finer than a raw step normalisation measures a vector's length.
pub const NORM_SCALE: i64 = 4096;

/// Division of integers rounding toward zero, as Rust's `/` does.
pub open spec fn tdiv(a: int, b: int) -> int {
    if a >= 0 {
        a / b
    } else {
        -((-a) / b)
    }
}

pub open spec fn in_limit(v: int) -> bool {
    -COORD_LIMIT <= v <= COORD_LIMIT
}

/// Rounds toward zero.
pub fn div_toward_zero(a: i64, b: i64) -> (r: i64)
    requires
        b > 0,
        a > i64::MIN,
    ensures
        r == tdiv(a as int, b as int),
{
    if a >= 0 {
        a / b
    } else {
        -((-a) / b)
    }
}

/// A scalar in world space, stored as a count of `1 / WORLD_ONE` steps.
#[derive(Clone, Copy, Debug, PartialEq, Eq, Structural)]
pub struct WorldCoord(pub i64);

impl WorldCoord {
    pub fn clamp(self, lower: WorldCoord, upper: WorldCoord) -> (r: WorldCoord)
        requires
            lower.0 <= upper.0,
        ensures
            r.0 == if self.0 < lower.0 {
                lower.0
            } else if self.0 > upper.0 {
                upper.0
            } else {
                self.0
            },
    {
        if self.0 < lower.0 {
            lower
        } else if self.0 > upper.0 {
            upper
        } else {
            self
        }
    }
}


impl WorldCoord {
    /// The length in whole world units, as a size on the display; negative lengths give 0.
    pub fn to_window_as_dim(self) -> (r: u32)
        ensures
            r == if self.0 <= 0 {
                0
            } else if self.0 / WORLD_ONE > u32::MAX {
                u32::MAX as int
            } else {
                self.0 / WORLD_ONE
            },
    {
        if self.0 <= 0 {
            0
        } else {
            let w = self.0 / WORLD_ONE;
            if w > u32::MAX as i64 {
                u32::MAX
            } else {
                w as u32
            }
        }
    }
}

/// Quotient rounded toward zero, for a divisor of either sign.
pub open spec fn quot(a: int, b: int) -> int {
    if b > 0 {
        tdiv(a, b)
    } else {
        tdiv(-a, -b)
    }
}

pub open spec fn fits_i64(v: int) -> bool {
    i64::MIN <= v <= i64::MAX
}

/// `a / b` rounded toward zero, on `i128`.
fn quot_i128(a: i128, b: i128) -> (r: i128)
    requires
        b != 0,
        -0x4000_0000_0000_0000_0000_0000_0000_0000 <= a <= 0x4000_0000_0000_0000_0000_0000_0000_0000,
        -0x4000_0000_0000_0000_0000_0000_0000_0000 <= b <= 0x4000_0000_0000_0000_0000_0000_0000_0000,
    ensures
        r == quot(a as int, b as int),
{
    let (na, nb) = if b > 0 { (a, b) } else { (-a, -b) };
    let q = if na >= 0 { na / nb } else { -((-na) / nb) };
    proof {
        if na >= 0 {
            vstd::arithmetic::div_mod::lemma_div_is_ordered_by_denominator(na as int, 1, nb as int);
            vstd::arithmetic::div_mod::lemma_div_pos_is_pos(na as int, nb as int);
        } else {
            vstd::arithmetic::div_mod::lemma_div_is_ordered_by_denominator(-na, 1, nb as int);
            vstd::arithmetic::div_mod::lemma_div_pos_is_pos(-na, nb as int);
        }
    }
    q
}

impl WorldCoord {
    pub fn neg(self) -> (r: WorldCoord)
        requires
            self.0 > i64::MIN,
        ensures
            r.0 == -self.0,
    {
        WorldCoord(-self.0)
    }

    pub fn add(self, o: WorldCoord) -> (r: WorldCoord)
        requires
            fits_i64(self.0 + o.0),
        ensures
            r.0 == self.0 + o.0,
    {
        WorldCoord(self.0 + o.0)
    }

    pub fn sub(self, o: WorldCoord) -> (r: WorldCoord)
        requires
            fits_i64(self.0 - o.0),
        ensures
            r.0 == self.0 - o.0,
    {
        WorldCoord(self.0 - o.0)
    }

    /// Fixed-point product: the raw product over `WORLD_ONE`, rounded toward zero.
    pub fn mul(self, o: WorldCoord) -> (r: WorldCoord)
        requires
            fits_i64(quot(self.0 * o.0, WORLD_ONE as int)),
        ensures
            r.0 == quot(self.0 * o.0, WORLD_ONE as int),
    {
        let p = self.0 as i128 * o.0 as i128;
        assert(-0x4000_0000_0000_0000_0000_0000_0000_0000 <= p <= 0x4000_0000_0000_0000_0000_0000_0000_0000) by (nonlinear_arith)
            requires
                p == self.0 * o.0,
                i64::MIN <= self.0 <= i64::MAX,
                i64::MIN <= o.0 <= i64::MAX,
        ;
        WorldCoord(quot_i128(p, WORLD_ONE as i128) as i64)
    }

    /// Fixed-point quotient: the raw dividend times `WORLD_ONE` over the divisor, rounded
    /// toward zero.
    pub fn div(self, o: WorldCoord) -> (r: WorldCoord)
        requires
            o.0 != 0,
            fits_i64(quot(self.0 * WORLD_ONE, o.0 as int)),
        ensures
            r.0 == quot(self.0 * WORLD_ONE, o.0 as int),
    {
        let p = self.0 as i128 * WORLD_ONE as i128;
        WorldCoord(quot_i128(p, o.0 as i128) as i64)
    }
}

/// A floor square root: the largest `r` with `r * r <= n`.
pub open spec fn is_floor_sqrt(n: int, r: int) -> bool {
    r >= 0 && r * r <= n < (r + 1) * (r + 1)
}

pub open spec fn floor_sqrt(n: int) -> int {
    choose|r: int| is_floor_sqrt(n, r)
}

proof fn lemma_floor_sqrt_unique(n: int, a: int, b: int)
    requires
        is_floor_sqrt(n, a),
        is_floor_sqrt(n, b),
    ensures
        a == b,
{
    if a < b {
        assert((a + 1) * (a + 1) <= b * b) by (nonlinear_arith)
            requires
                0 <= a < b,
        ;
    } else if b < a {
        assert((b + 1) * (b + 1) <= a * a) by (nonlinear_arith)
            requires
                0 <= b < a,
        ;
    }
}

proof fn lemma_floor_sqrt_of(n: int, r: int)
    requires
        is_floor_sqrt(n, r),
    ensures
        floor_sqrt(n) == r,
{
    let c = floor_sqrt(n);
    assert(is_floor_sqrt(n, c));
    lemma_floor_sqrt_unique(n, r, c);
}

/// Floor square root by bisection.
fn isqrt(n: u128) -> (r: u64)
    requires
        n < 0x400_0000_0000_0000_0000_0000_0000,
    ensures
        is_floor_sqrt(n as int, r as int),
        r as int == floor_sqrt(n as int),
        r < 0x20_0000_0000_0000,
{
    let mut lo: u128 = 0;
    let mut hi: u128 = 0x20_0000_0000_0000;
    assert(hi * hi > n) by (nonlinear_arith)
        requires
            hi == 0x20_0000_0000_0000u128,
            n < 0x400_0000_0000_0000_0000_0000_0000,
    ;
    while lo + 1 < hi
        invariant
            lo < hi <= 0x20_0000_0000_0000,
            lo * lo <= n,
            n < hi * hi,
        decreases hi - lo,
    {
        let mid = lo + (hi - lo) / 2;
        assert(mid * mid <= 0x20_0000_0000_0000u128 * 0x20_0000_0000_0000u128) by (nonlinear_arith)
            requires
                mid <= 0x20_0000_0000_0000u128,
        ;
        if mid * mid <= n {
            lo = mid;
        } else {
            hi = mid;
        }
    }
    assert(hi == lo + 1);
    proof {
        lemma_floor_sqrt_of(n as int, lo as int);
    }
    lo as u64
}

/// A point, or a vector, in world space.
#[derive(Clone, Copy, Debug, PartialEq, Eq, Structural)]
pub struct WorldPoint {
    pub x: WorldCoord,
    pub y: WorldCoord,
}

pub open spec fn point(x: int, y: int) -> WorldPoint {
    WorldPoint { x: WorldCoord(x as i64), y: WorldCoord(y as i64) }
}

impl WorldPoint {
    pub open spec fn in_limits(self) -> bool {
        in_limit(self.x.0 as int) && in_limit(self.y.0 as int)
    }

    pub open spec fn squared_len(self) -> int {
        self.x.0 * self.x.0 + self.y.0 * self.y.0
    }

    pub open spec fn magnitude_spec(self) -> int {
        floor_sqrt(self.squared_len())
    }

    pub open spec fn is_zero(self) -> bool {
        self.x.0 == 0 && self.y.0 == 0
    }

    pub open spec fn within_norm_limit(self) -> bool {
        -NORM_LIMIT <= self.x.0 <= NORM_LIMIT && -NORM_LIMIT <= self.y.0 <= NORM_LIMIT
    }

    /// Each component times `WORLD_ONE` over the length, the length taken `NORM_SCALE`
    /// times finer and rounded up, the quotient rounded toward zero.
    pub open spec fn scaled_spec(self) -> WorldPoint {
        if self.is_zero() {
            self
        } else {
            let m = root_up(self.squared_len() * (NORM_SCALE * NORM_SCALE));
            point(
                tdiv(self.x.0 * (WORLD_ONE * NORM_SCALE), m),
                tdiv(self.y.0 * (WORLD_ONE * NORM_SCALE), m),
            )
        }
    }

    /// Scales the vector to length `WORLD_ONE` (see `scaled_spec`); a component that the
    /// rounding would take to 0 becomes one raw step of the input's sign, so that every
    /// component keeps its sign. The zero vector stays as it is.
    pub open spec fn normalized_spec(self) -> WorldPoint {
        let t = self.scaled_spec();
        point(keep_sign(t.x.0 as int, self.x.0 as int), keep_sign(t.y.0 as int, self.y.0 as int))
    }

    pub fn new(x: WorldCoord, y: WorldCoord) -> (r: WorldPoint)
        ensures
            r.x == x,
            r.y == y,
    {
        WorldPoint { x, y }
    }

    /// Euclidean length, rounded down to a whole raw step.
    pub fn magnitude(self) -> (r: WorldCoord)
        requires
            self.in_limits(),
        ensures
            is_floor_sqrt(self.squared_len(), r.0 as int),
            r.0 == self.magnitude_spec(),
    {
        let x = self.x.0;
        let y = self.y.0;
        let ax: u128 = if x < 0 { (-x) as u128 } else { x as u128 };
        let ay: u128 = if y < 0 { (-y) as u128 } else { y as u128 };
        assert(ax * ax <= 0x10_0000_0000_0000u128 * 0x10_0000_0000_0000u128) by (nonlinear_arith)
            requires
                ax <= 0x10_0000_0000_0000u128,
        ;
        assert(ay * ay <= 0x10_0000_0000_0000u128 * 0x10_0000_0000_0000u128) by (nonlinear_arith)
            requires
                ay <= 0x10_0000_0000_0000u128,
        ;
        assert(ax * ax == x * x) by (nonlinear_arith)
            requires
                ax == x || ax == -x,
        ;
        assert(ay * ay == y * y) by (nonlinear_arith)
            requires
                ay == y || ay == -y,
        ;
        let r = isqrt(ax * ax + ay * ay);
        WorldCoord(r as i64)
    }

    /// A vector of length `WORLD_ONE`, up to two raw steps of rounding, in the same
    /// direction; the zero vector is returned unchanged.
    pub fn normalized(self) -> (r: WorldPoint)
        requires
            self.within_norm_limit(),
        ensures
            r == self.normalized_spec(),
            !self.is_zero() ==> (WORLD_ONE - 2) * (WORLD_ONE - 2) <= r.squared_len() <= WORLD_ONE
                * WORLD_ONE + 1,
            -WORLD_ONE <= r.x.0 <= WORLD_ONE,
            -WORLD_ONE <= r.y.0 <= WORLD_ONE,
            self.x.0 > 0 ==> r.x.0 > 0,
            self.x.0 < 0 ==> r.x.0 < 0,
            self.x.0 == 0 ==> r.x.0 == 0,
            self.y.0 > 0 ==> r.y.0 > 0,
            self.y.0 < 0 ==> r.y.0 < 0,
            self.y.0 == 0 ==> r.y.0 == 0,
    {
        if self.x.0 == 0 && self.y.0 == 0 {
            return self;
        }
        proof {
            lemma_normalized_bounded(self);
        }
        let x = self.x.0;
        let y = self.y.0;
        let ax: u128 = if x < 0 { (-x) as u128 } else { x as u128 };
        let ay: u128 = if y < 0 { (-y) as u128 } else { y as u128 };
        assert(ax * ax <= 0x100_0000_0000u128 * 0x100_0000_0000u128) by (nonlinear_arith)
            requires
                ax <= 0x100_0000_0000u128,
        ;
        assert(ay * ay <= 0x100_0000_0000u128 * 0x100_0000_0000u128) by (nonlinear_arith)
            requires
                ay <= 0x100_0000_0000u128,
        ;
        assert(ax * ax == x * x) by (nonlinear_arith)
            requires
                ax == x || ax == -x,
        ;
        assert(ay * ay == y * y) by (nonlinear_arith)
            requires
                ay == y || ay == -y,
        ;
        assert(ax * ax + ay * ay >= 1) by (nonlinear_arith)
            requires
                ax != 0 || ay != 0,
        ;
        let big: u128 = (ax * ax + ay * ay) * ((NORM_SCALE * NORM_SCALE) as u128);
        let f = isqrt(big);
        let m: i64 = if (f as u128) * (f as u128) == big {
            f as i64
        } else {
            f as i64 + 1
        };
        assert(m == root_up(big as int));
        proof {
            lemma_root_up_bounds(big as int);
        }
        assert(x * (WORLD_ONE * NORM_SCALE) <= 0x4000_0000_0000_0000) by (nonlinear_arith)
            requires
                -NORM_LIMIT <= x <= NORM_LIMIT,
        ;
        assert(x * (WORLD_ONE * NORM_SCALE) >= -0x4000_0000_0000_0000) by (nonlinear_arith)
            requires
                -NORM_LIMIT <= x <= NORM_LIMIT,
        ;
        assert(y * (WORLD_ONE * NORM_SCALE) <= 0x4000_0000_0000_0000) by (nonlinear_arith)
            requires
                -NORM_LIMIT <= y <= NORM_LIMIT,
        ;
        assert(y * (WORLD_ONE * NORM_SCALE) >= -0x4000_0000_0000_0000) by (nonlinear_arith)
            requires
                -NORM_LIMIT <= y <= NORM_LIMIT,
        ;
        let nx = div_toward_zero(x * (WORLD_ONE * NORM_SCALE), m);
        let ny = div_toward_zero(y * (WORLD_ONE * NORM_SCALE), m);
        WorldPoint { x: WorldCoord(sign_kept(nx, x)), y: WorldCoord(sign_kept(ny, y)) }
    }
}

impl WorldPoint {
    /// Scales both components by `k` (a fixed-point product).
    pub fn mul(self, k: WorldCoord) -> (r: WorldPoint)
        requires
            fits_i64(quot(self.x.0 * k.0, WORLD_ONE as int)),
            fits_i64(quot(self.y.0 * k.0, WORLD_ONE as int)),
        ensures
            r == point(quot(self.x.0 * k.0, WORLD_ONE as int), quot(self.y.0 * k.0, WORLD_ONE as int)),
    {
        WorldPoint { x: self.x.mul(k), y: self.y.mul(k) }
    }

    /// Divides both components by `k` (a fixed-point quotient).
    pub fn div(self, k: WorldCoord) -> (r: WorldPoint)
        requires
            k.0 != 0,
            fits_i64(quot(self.x.0 * WORLD_ONE, k.0 as int)),
            fits_i64(quot(self.y.0 * WORLD_ONE, k.0 as int)),
        ensures
            r == point(quot(self.x.0 * WORLD_ONE, k.0 as int), quot(self.y.0 * WORLD_ONE, k.0 as int)),
    {
        WorldPoint { x: self.x.div(k), y: self.y.div(k) }
    }

    pub fn add(self, o: WorldPoint) -> (r: WorldPoint)
        requires
            self.in_limits(),
            o.in_limits(),
        ensures
            r == point(self.x.0 + o.x.0, self.y.0 + o.y.0),
    {
        WorldPoint { x: WorldCoord(self.x.0 + o.x.0), y: WorldCoord(self.y.0 + o.y.0) }
    }

    pub fn sub(self, o: WorldPoint) -> (r: WorldPoint)
        requires
            self.in_limits(),
            o.in_limits(),
        ensures
            r == point(self.x.0 - o.x.0, self.y.0 - o.y.0),
    {
        WorldPoint { x: WorldCoord(self.x.0 - o.x.0), y: WorldCoord(self.y.0 - o.y.0) }
    }

    /// The point relative to `camera`, in whole display units (rounded toward zero
    /// and saturated to the `i32` range).
    pub fn to_window(self, camera: WorldPoint) -> (r: DisplayPoint)
        requires
            self.in_limits(),
            camera.in_limits(),
        ensures
            r.x == saturate_i32(tdiv(self.x.0 - camera.x.0, WORLD_ONE as int)),
            r.y == saturate_i32(tdiv(self.y.0 - camera.y.0, WORLD_ONE as int)),
    {
        let offset = self.sub(camera);
        DisplayPoint {
            x: to_i32_saturating(div_toward_zero(offset.x.0, WORLD_ONE)),
            y: to_i32_saturating(div_toward_zero(offset.y.0, WORLD_ONE)),
        }
    }

    /// Clamps the point into the closed area of `r`.
    pub fn clamp(self, r: &WorldRect) -> (c: WorldPoint)
        requires
            r.wf(),
        ensures
            c == point(
                clamp_spec(self.x.0 as int, r.left(), r.right()),
                clamp_spec(self.y.0 as int, r.top(), r.bottom()),
            ),
    {
        WorldPoint {
            x: self.x.clamp(r.top_left.x, WorldCoord(r.top_left.x.0 + r.width.0)),
            y: self.y.clamp(r.top_left.y, WorldCoord(r.top_left.y.0 + r.height.0)),
        }
    }
}

pub open spec fn clamp_spec(v: int, lo: int, hi: int) -> int {
    if v < lo {
        lo
    } else if v > hi {
        hi
    } else {
        v
    }
}

pub open spec fn saturate_i32(v: int) -> int {
    if v < i32::MIN {
        i32::MIN as int
    } else if v > i32::MAX {
        i32::MAX as int
    } else {
        v
    }
}

fn to_i32_saturating(v: i64) -> (r: i32)
    ensures
        r == saturate_i32(v as int),
{
    if v < i32::MIN as i64 {
        i32::MIN
    } else if v > i32::MAX as i64 {
        i32::MAX
    } else {
        v as i32
    }
}

/// An axis-aligned rectangle: its top-left corner and its non-negative extent.
/// Its area is closed: points on the right and bottom edges belong to it.
#[derive(Clone, Copy, Debug, PartialEq, Eq, Structural)]
pub struct WorldRect {
    pub top_left: WorldPoint,
    pub width: WorldCoord,
    pub height: WorldCoord,
}

impl WorldRect {
    pub open spec fn wf(self) -> bool {
        self.top_left.in_limits() && 0 <= self.width.0 <= COORD_LIMIT && 0 <= self.height.0
            <= COORD_LIMIT
    }

    pub open spec fn left(self) -> int {
        self.top_left.x.0 as int
    }

    pub open spec fn top(self) -> int {
        self.top_left.y.0 as int
    }

    pub open spec fn right(self) -> int {
        self.top_left.x.0 + self.width.0
    }

    pub open spec fn bottom(self) -> int {
        self.top_left.y.0 + self.height.0
    }

    pub open spec fn contains_xy(self, x: int, y: int) -> bool {
        self.left() <= x <= self.right() && self.top() <= y <= self.bottom()
    }

    /// Whether a corner of `other` lies in `self`.
    pub open spec fn holds_corner_of(self, other: WorldRect) -> bool {
        self.contains_xy(other.left(), other.top()) || self.contains_xy(other.right(), other.top())
            || self.contains_xy(other.left(), other.bottom()) || self.contains_xy(
            other.right(),
            other.bottom(),
        )
    }

    /// Two rectangles intersect when a corner of either lies in the other.
    pub open spec fn intersects_spec(self, other: WorldRect) -> bool {
        other.holds_corner_of(self) || self.holds_corner_of(other)
    }

    pub fn contains(&self, p: WorldPoint) -> (r: bool)
        requires
            self.wf(),
        ensures
            r == self.contains_xy(p.x.0 as int, p.y.0 as int),
    {
        self.top_left.x.0 <= p.x.0 && p.x.0 <= self.top_left.x.0 + self.width.0
            && self.top_left.y.0 <= p.y.0 && p.y.0 <= self.top_left.y.0 + self.height.0
    }

    pub fn intersects(&self, other: &WorldRect) -> (r: bool)
        requires
            self.wf(),
            other.wf(),
        ensures
            r == self.intersects_spec(*other),
    {
        let (a_tl, a_tr, a_bl, a_br) = self.points();
        let (b_tl, b_tr, b_bl, b_br) = other.points();
        other.contains(a_tl) || other.contains(a_tr) || other.contains(a_bl) || other.contains(a_br)
            || self.contains(b_tl) || self.contains(b_tr) || self.contains(b_bl) || self.contains(
            b_br,
        )
    }

    /// The corners: top-left, top-right, bottom-left, bottom-right.
    fn points(&self) -> (r: (WorldPoint, WorldPoint, WorldPoint, WorldPoint))
        requires
            self.wf(),
        ensures
            r.0 == point(self.left(), self.top()),
            r.1 == point(self.right(), self.top()),
            r.2 == point(self.left(), self.bottom()),
            r.3 == point(self.right(), self.bottom()),
    {
        let tl = self.top_left;
        (
            tl,
            WorldPoint { x: WorldCoord(tl.x.0 + self.width.0), y: tl.y },
            WorldPoint { x: tl.x, y: WorldCoord(tl.y.0 + self.height.0) },
            WorldPoint {
                x: WorldCoord(tl.x.0 + self.width.0),
                y: WorldCoord(tl.y.0 + self.height.0),
            },
        )
    }

    /// The rectangle relative to `camera`, in display units.
    pub fn to_window_rect(&self, camera: WorldPoint) -> (r: DisplayRect)
        requires
            self.wf(),
            camera.in_limits(),
        ensures
            r.top_left.x == saturate_i32(tdiv(self.left() - camera.x.0, WORLD_ONE as int)),
            r.top_left.y == saturate_i32(tdiv(self.top() - camera.y.0, WORLD_ONE as int)),
            r.width == if self.width.0 / WORLD_ONE > u32::MAX {
                u32::MAX as int
            } else {
                self.width.0 / WORLD_ONE
            },
            r.height == if self.height.0 / WORLD_ONE > u32::MAX {
                u32::MAX as int
            } else {
                self.height.0 / WORLD_ONE
            },
    {
        let top_left = self.top_left.to_window(camera);
        let width = self.width.to_window_as_dim();
        let height = self.height.to_window_as_dim();
        DisplayRect { top_left, width, height }
    }
}

/// Rectangle intersection does not depend on the order of its operands.
pub proof fn lemma_intersects_symmetric(a: WorldRect, b: WorldRect)
    ensures
        a.intersects_spec(b) == b.intersects_spec(a),
{
}

/// A point on the display, in whole display units.
#[derive(Clone, Copy, Debug, PartialEq, Eq, Structural)]
pub struct DisplayPoint {
    pub x: i32,
    pub y: i32,
}

/// A rectangle on the display.
#[derive(Clone, Copy, Debug, PartialEq, Eq, Structural)]
pub struct DisplayRect {
    pub top_left: DisplayPoint,
    pub width: u32,
    pub height: u32,
}

impl DisplayRect {
    /// The smallest rectangle with the two points as opposite corners.
    pub fn from_points(p1: DisplayPoint, p2: DisplayPoint) -> (r: DisplayRect)
        ensures
            r.top_left.x == if p1.x <= p2.x { p1.x } else { p2.x },
            r.top_left.y == if p1.y <= p2.y { p1.y } else { p2.y },
            r.width == if p1.x <= p2.x { p2.x - p1.x } else { p1.x - p2.x },
            r.height == if p1.y <= p2.y { p2.y - p1.y } else { p1.y - p2.y },
    {
        let (xmin, xmax) = if p1.x <= p2.x { (p1.x, p2.x) } else { (p2.x, p1.x) };
        let (ymin, ymax) = if p1.y <= p2.y { (p1.y, p2.y) } else { (p2.y, p1.y) };
        DisplayRect {
            top_left: DisplayPoint { x: xmin, y: ymin },
            width: (xmax as i64 - xmin as i64) as u32,
            height: (ymax as i64 - ymin as i64) as u32,
        }
    }
}

impl DisplayPoint {
    pub fn new(x: i32, y: i32) -> (r: DisplayPoint)
        ensures
            r.x == x,
            r.y == y,
    {
        DisplayPoint { x, y }
    }

    /// The world point at this display position, with the camera at the origin.
    pub fn to_world(self) -> (r: WorldPoint)
        ensures
            r == point(self.x * WORLD_ONE, self.y * WORLD_ONE),
            r.in_limits(),
    {
        WorldPoint {
            x: WorldCoord(self.x as i64 * WORLD_ONE),
            y: WorldCoord(self.y as i64 * WORLD_ONE),
        }
    }

    /// The world point at this display position when the display's origin shows `camera`.
    pub fn to_world_from(self, camera: WorldPoint) -> (r: WorldPoint)
        requires
            camera.in_limits(),
        ensures
            r == point(self.x * WORLD_ONE + camera.x.0, self.y * WORLD_ONE + camera.y.0),
    {
        self.to_world().add(camera)
    }
}

proof fn lemma_floor_sqrt_exists(n: int)
    requires
        n >= 0,
    ensures
        is_floor_sqrt(n, floor_sqrt(n)),
    decreases n,
{
    if n == 0 {
        assert(is_floor_sqrt(0, 0));
    } else {
        lemma_floor_sqrt_exists(n - 1);
        let r = floor_sqrt(n - 1);
        if (r + 1) * (r + 1) <= n {
            assert(n < (r + 2) * (r + 2)) by (nonlinear_arith)
                requires
                    n - 1 < (r + 1) * (r + 1),
                    r >= 0,
            ;
            assert(is_floor_sqrt(n, r + 1));
        } else {
            assert(is_floor_sqrt(n, r));
        }
    }
}

/// The least `r >= 0` with `n <= r * r`.
pub open spec fn root_up(n: int) -> int {
    let f = floor_sqrt(n);
    if f * f == n {
        f
    } else {
        f + 1
    }
}

proof fn lemma_root_up_bounds(n: int)
    requires
        n >= 1,
    ensures
        root_up(n) >= 1,
        (root_up(n) - 1) * (root_up(n) - 1) < n <= root_up(n) * root_up(n),
{
    lemma_floor_sqrt_exists(n);
    let f = floor_sqrt(n);
    if f * f == n {
        assert(f != 0);
        assert((f - 1) * (f - 1) < f * f) by (nonlinear_arith)
            requires
                f >= 1,
        ;
    }
}

/// The size of a quotient rounded toward zero, against the size of the dividend.
proof fn lemma_quotient_squares(p: int, m: int)
    requires
        m >= 1,
    ensures
        ({
            let q = if tdiv(p, m) >= 0 { tdiv(p, m) } else { -tdiv(p, m) };
            &&& q >= 0
            &&& q <= p || q <= -p
            &&& q * q * (m * m) <= p * p
            &&& p * p < (q + 1) * (q + 1) * (m * m)
        }),
{
    let b = if p >= 0 { p } else { -p };
    assert(b * b == p * p) by (nonlinear_arith)
        requires
            b == p || b == -p,
    ;
    vstd::arithmetic::div_mod::lemma_fundamental_div_mod(b, m);
    let q = b / m;
    let r = b % m;
    vstd::arithmetic::div_mod::lemma_div_pos_is_pos(b, m);
    assert(p >= 0 ==> tdiv(p, m) == q);
    assert(p < 0 ==> tdiv(p, m) == -q);
    assert(q * q * (m * m) <= b * b) by (nonlinear_arith)
        requires
            b == m * q + r,
            0 <= r < m,
            q >= 0,
    ;
    assert(q <= b) by (nonlinear_arith)
        requires
            b == m * q + r,
            0 <= r,
            q >= 0,
            m >= 1,
    ;
    assert(b * b < (q + 1) * (q + 1) * (m * m)) by (nonlinear_arith)
        requires
            b == m * q + r,
            0 <= r < m,
            q >= 0,
    ;
}

/// `t`, or one raw step of the sign of `v` where `t` is 0 and `v` is not.
pub open spec fn keep_sign(t: int, v: int) -> int {
    if t == 0 && v > 0 {
        1
    } else if t == 0 && v < 0 {
        -1
    } else {
        t
    }
}

fn sign_kept(t: i64, v: i64) -> (r: i64)
    ensures
        r == keep_sign(t as int, v as int),
{
    if t == 0 && v > 0 {
        1
    } else if t == 0 && v < 0 {
        -1
    } else {
        t
    }
}

/// Normalising keeps the zero vector as it is, and turns any other vector into one of
/// length `WORLD_ONE` up to rounding: its squared length lies between
/// `(WORLD_ONE - 2)^2` and `WORLD_ONE^2 + 1`, each component lies within
/// `[-WORLD_ONE, WORLD_ONE]`, and each component has the sign of the input's.
pub proof fn lemma_normalized_bounded(p: WorldPoint)
    requires
        p.within_norm_limit(),
    ensures
        p.is_zero() ==> p.normalized_spec() == p,
        !p.is_zero() ==> (WORLD_ONE - 2) * (WORLD_ONE - 2) <= p.normalized_spec().squared_len()
            <= WORLD_ONE * WORLD_ONE + 1,
        -WORLD_ONE <= p.normalized_spec().x.0 <= WORLD_ONE,
        -WORLD_ONE <= p.normalized_spec().y.0 <= WORLD_ONE,
        p.x.0 > 0 ==> p.normalized_spec().x.0 > 0,
        p.x.0 < 0 ==> p.normalized_spec().x.0 < 0,
        p.x.0 == 0 ==> p.normalized_spec().x.0 == 0,
        p.y.0 > 0 ==> p.normalized_spec().y.0 > 0,
        p.y.0 < 0 ==> p.normalized_spec().y.0 < 0,
        p.y.0 == 0 ==> p.normalized_spec().y.0 == 0,
{
    lemma_scaled_bounded(p);
    let t = p.scaled_spec();
    let r = p.normalized_spec();
    if !p.is_zero() {
        assert(!(t.x.0 == 0 && t.y.0 == 0)) by {
            if t.x.0 == 0 && t.y.0 == 0 {
                assert(t.squared_len() == 0) by (nonlinear_arith)
                    requires
                        t.x.0 == 0,
                        t.y.0 == 0,
                        t.squared_len() == t.x.0 * t.x.0 + t.y.0 * t.y.0,
                ;
            }
        }
        assert(r.x.0 * r.x.0 <= t.x.0 * t.x.0 + 1 && t.x.0 * t.x.0 <= r.x.0 * r.x.0) by (nonlinear_arith)
            requires
                r.x.0 == keep_sign(t.x.0 as int, p.x.0 as int),
        ;
        assert(r.y.0 * r.y.0 <= t.y.0 * t.y.0 + 1 && t.y.0 * t.y.0 <= r.y.0 * r.y.0) by (nonlinear_arith)
            requires
                r.y.0 == keep_sign(t.y.0 as int, p.y.0 as int),
        ;
        assert(t.x.0 != 0 ==> r.x.0 == t.x.0);
        assert(t.y.0 != 0 ==> r.y.0 == t.y.0);
        assert(t.x.0 * t.x.0 >= 0 && t.y.0 * t.y.0 >= 0) by (nonlinear_arith);
        if t.x.0 == 0 {
            assert(t.x.0 * t.x.0 == 0) by (nonlinear_arith)
                requires
                    t.x.0 == 0,
            ;
        }
        if t.y.0 == 0 {
            assert(t.y.0 * t.y.0 == 0) by (nonlinear_arith)
                requires
                    t.y.0 == 0,
            ;
        }
    }
}

proof fn lemma_scaled_bounded(p: WorldPoint)
    requires
        p.within_norm_limit(),
    ensures
        p.is_zero() ==> p.scaled_spec() == p,
        !p.is_zero() ==> (WORLD_ONE - 2) * (WORLD_ONE - 2) <= p.scaled_spec().squared_len()
            <= WORLD_ONE * WORLD_ONE,
        -WORLD_ONE <= p.scaled_spec().x.0 <= WORLD_ONE,
        -WORLD_ONE <= p.scaled_spec().y.0 <= WORLD_ONE,
        p.x.0 >= 0 ==> p.scaled_spec().x.0 >= 0,
        p.x.0 <= 0 ==> p.scaled_spec().x.0 <= 0,
        p.y.0 >= 0 ==> p.scaled_spec().y.0 >= 0,
        p.y.0 <= 0 ==> p.scaled_spec().y.0 <= 0,
{
    if !p.is_zero() {
        let x = p.x.0 as int;
        let y = p.y.0 as int;
        let k = NORM_SCALE * NORM_SCALE;
        let one2 = WORLD_ONE * WORLD_ONE;
        assert(x * x >= 0 && y * y >= 0) by (nonlinear_arith);
        assert(x * x + y * y >= 1) by (nonlinear_arith)
            requires
                x != 0 || y != 0,
        ;
        let n = p.squared_len() * k;
        assert(n >= k);
        lemma_root_up_bounds(n);
        let m = root_up(n);
        assert(m >= NORM_SCALE) by (nonlinear_arith)
            requires
                n <= m * m,
                n >= NORM_SCALE * NORM_SCALE,
                m >= 1,
        ;
        let c = WORLD_ONE * NORM_SCALE;
        lemma_quotient_squares(x * c, m);
        lemma_quotient_squares(y * c, m);
        assert(-0x4000_0000_0000_0000 <= x * c <= 0x4000_0000_0000_0000) by (nonlinear_arith)
            requires
                -NORM_LIMIT <= x <= NORM_LIMIT,
                c == WORLD_ONE * NORM_SCALE,
        ;
        assert(-0x4000_0000_0000_0000 <= y * c <= 0x4000_0000_0000_0000) by (nonlinear_arith)
            requires
                -NORM_LIMIT <= y <= NORM_LIMIT,
                c == WORLD_ONE * NORM_SCALE,
        ;
        let r = p.scaled_spec();
        assert(r.x.0 == tdiv(x * c, m) && r.y.0 == tdiv(y * c, m));
        assert(x * c >= 0 <==> x >= 0) by (nonlinear_arith)
            requires
                c == WORLD_ONE * NORM_SCALE,
        ;
        assert(y * c >= 0 <==> y >= 0) by (nonlinear_arith)
            requires
                c == WORLD_ONE * NORM_SCALE,
        ;
        assert(x * c <= 0 <==> x <= 0) by (nonlinear_arith)
            requires
                c == WORLD_ONE * NORM_SCALE,
        ;
        assert(y * c <= 0 <==> y <= 0) by (nonlinear_arith)
            requires
                c == WORLD_ONE * NORM_SCALE,
        ;
        if x * c >= 0 {
            vstd::arithmetic::div_mod::lemma_div_pos_is_pos(x * c, m);
        } else {
            vstd::arithmetic::div_mod::lemma_div_pos_is_pos(-(x * c), m);
        }
        if y * c >= 0 {
            vstd::arithmetic::div_mod::lemma_div_pos_is_pos(y * c, m);
        } else {
            vstd::arithmetic::div_mod::lemma_div_pos_is_pos(-(y * c), m);
        }
        let u = if r.x.0 >= 0 { r.x.0 as int } else { -r.x.0 };
        let v = if r.y.0 >= 0 { r.y.0 as int } else { -r.y.0 };
        let mm = m * m;
        assert(mm > 0) by (nonlinear_arith)
            requires
                m >= 1,
                mm == m * m,
        ;
        assert(r.squared_len() == u * u + v * v) by (nonlinear_arith)
            requires
                u == r.x.0 || u == -r.x.0,
                v == r.y.0 || v == -r.y.0,
                r.squared_len() == r.x.0 * r.x.0 + r.y.0 * r.y.0,
        ;
        assert((x * c) * (x * c) + (y * c) * (y * c) == one2 * n) by (nonlinear_arith)
            requires
                n == (x * x + y * y) * k,
                k == NORM_SCALE * NORM_SCALE,
                one2 == WORLD_ONE * WORLD_ONE,
                c == WORLD_ONE * NORM_SCALE,
        ;
        // upper bound
        assert((u * u + v * v) * mm <= one2 * mm) by (nonlinear_arith)
            requires
                u * u * mm <= (x * c) * (x * c),
                v * v * mm <= (y * c) * (y * c),
                (x * c) * (x * c) + (y * c) * (y * c) == one2 * n,
                n <= mm,
                one2 > 0,
        ;
        assert(u * u + v * v <= one2) by (nonlinear_arith)
            requires
                (u * u + v * v) * mm <= one2 * mm,
                mm > 0,
        ;
        assert(u <= WORLD_ONE && v <= WORLD_ONE) by (nonlinear_arith)
            requires
                u * u + v * v <= one2,
                one2 == WORLD_ONE * WORLD_ONE,
                u >= 0,
                v >= 0,
        ;
        // lower bound
        let big_p = (u + 1) * (u + 1) + (v + 1) * (v + 1);
        assert(big_p * mm > one2 * ((m - 1) * (m - 1))) by (nonlinear_arith)
            requires
                (x * c) * (x * c) < (u + 1) * (u + 1) * mm,
                (y * c) * (y * c) < (v + 1) * (v + 1) * mm,
                (x * c) * (x * c) + (y * c) * (y * c) == one2 * n,
                (m - 1) * (m - 1) < n,
                one2 > 0,
                big_p == (u + 1) * (u + 1) + (v + 1) * (v + 1),
        ;
        assert(one2 * ((m - 1) * (m - 1)) >= (one2 - 512) * mm) by (nonlinear_arith)
            requires
                m >= 4096,
                one2 == 1048576,
                mm == m * m,
        ;
        assert(big_p > one2 - 512) by (nonlinear_arith)
            requires
                big_p * mm > (one2 - 512) * mm,
                mm > 0,
        ;
        assert((u + v) * (u + v) <= 2 * one2) by (nonlinear_arith)
            requires
                u * u + v * v <= one2,
        ;
        assert(u + v <= 1448) by (nonlinear_arith)
            requires
                (u + v) * (u + v) <= 2 * one2,
                one2 == 1048576,
                u >= 0,
                v >= 0,
        ;
        assert(u * u + v * v == big_p - 2 * (u + v) - 2) by (nonlinear_arith)
            requires
                big_p == (u + 1) * (u + 1) + (v + 1) * (v + 1),
        ;
    }
}

} // verus!
