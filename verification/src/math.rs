//! Fixed-point plane geometry: bounded points, displacements, integer square
//! roots, segments and the few constructions the strategies need.

use vstd::prelude::*;

verus! {

/// Largest magnitude of a coordinate of a [`Vec2`] (100 m in micrometres).
pub const LIMIT: i32 = 100_000_000;

/// Largest magnitude of a component of a displacement between two points.
pub const SPAN: i64 = 200_000_000;

/// One metre, in micrometres.
pub const METRE: i64 = 1_000_000;

/// The value nearest to `v` that a coordinate can hold.
pub open spec fn clamp_coord(v: int) -> int {
    if v < -(LIMIT as int) {
        -(LIMIT as int)
    } else if v > LIMIT as int {
        LIMIT as int
    } else {
        v
    }
}

/// Quotient rounded toward zero, for a positive divisor.
pub open spec fn trunc_div(a: int, b: int) -> int {
    if a >= 0 {
        a / b
    } else {
        -((-a) / b)
    }
}

/// `a * b` stays within the product of the bounds of its factors.
pub proof fn lemma_mul_bound(a: int, b: int, ba: int, bb: int)
    by (nonlinear_arith)
    requires
        -ba <= a <= ba,
        -bb <= b <= bb,
    ensures
        -(ba * bb) <= a * b <= ba * bb,
{
}

/// A position, a velocity or an acceleration in the plane. Both coordinates
/// stay within [`LIMIT`] of zero.
#[derive(Clone, Copy, Debug, PartialEq, Eq, Structural)]
pub struct Vec2 {
    pub(crate) x: i32,
    pub(crate) y: i32,
}

/// The exact difference of two points, or any direction in the plane.
#[derive(Clone, Copy, Debug, PartialEq, Eq, Structural)]
pub struct Delta {
    pub dx: i64,
    pub dy: i64,
}

impl Vec2 {
    /// Every coordinate is within the limit.
    #[verifier::type_invariant]
    pub open(crate) spec fn in_range(self) -> bool {
        &&& -LIMIT <= self.x <= LIMIT
        &&& -LIMIT <= self.y <= LIMIT
    }

    /// First coordinate.
    pub open(crate) spec fn sx(self) -> int {
        self.x as int
    }

    /// Second coordinate.
    pub open(crate) spec fn sy(self) -> int {
        self.y as int
    }

    /// The point `(x, y)`, each coordinate brought into range.
    pub open(crate) spec fn spec_new(x: int, y: int) -> Vec2 {
        Vec2 { x: clamp_coord(x) as i32, y: clamp_coord(y) as i32 }
    }

    /// The point `(x, y)`, each coordinate brought into range.
    pub fn new(x: i64, y: i64) -> (r: Vec2)
        ensures
            r == Vec2::spec_new(x as int, y as int),
            r.sx() == clamp_coord(x as int),
            r.sy() == clamp_coord(y as int),
    {
        let cx: i32 = if x < -(LIMIT as i64) {
            -LIMIT
        } else if x > LIMIT as i64 {
            LIMIT
        } else {
            x as i32
        };
        let cy: i32 = if y < -(LIMIT as i64) {
            -LIMIT
        } else if y > LIMIT as i64 {
            LIMIT
        } else {
            y as i32
        };
        Vec2 { x: cx, y: cy }
    }

    /// The point `(x, y)`, each coordinate brought into range.
    pub fn from_wide(x: i128, y: i128) -> (r: Vec2)
        ensures
            r == Vec2::spec_new(x as int, y as int),
    {
        let cx: i32 = if x < -(LIMIT as i128) {
            -LIMIT
        } else if x > LIMIT as i128 {
            LIMIT
        } else {
            x as i32
        };
        let cy: i32 = if y < -(LIMIT as i128) {
            -LIMIT
        } else if y > LIMIT as i128 {
            LIMIT
        } else {
            y as i32
        };
        Vec2 { x: cx, y: cy }
    }

    /// The origin.
    pub fn zero() -> (r: Vec2)
        ensures
            r.sx() == 0,
            r.sy() == 0,
    {
        Vec2 { x: 0, y: 0 }
    }

    /// First coordinate.
    pub fn x(&self) -> (r: i32)
        ensures
            r == self.sx(),
            -LIMIT <= r <= LIMIT,
    {
        proof {
            use_type_invariant(self);
        }
        self.x
    }

    /// Second coordinate.
    pub fn y(&self) -> (r: i32)
        ensures
            r == self.sy(),
            -LIMIT <= r <= LIMIT,
    {
        proof {
            use_type_invariant(self);
        }
        self.y
    }

    /// The image of the point under the half turn about the origin.
    pub open(crate) spec fn spec_mirrored(self) -> Vec2 {
        Vec2 { x: (-self.x) as i32, y: (-self.y) as i32 }
    }

    /// The image of the point under the half turn about the origin.
    pub fn mirrored(&self) -> (r: Vec2)
        ensures
            r == self.spec_mirrored(),
            r.sx() == -self.sx(),
            r.sy() == -self.sy(),
    {
        proof {
            use_type_invariant(self);
        }
        Vec2 { x: -self.x, y: -self.y }
    }

    /// The half turn about the origin, made twice, brings every point of the
    /// field back to itself.
    pub proof fn lemma_mirrored_twice(self)
        requires
            self.in_range(),
        ensures
            self.spec_mirrored().spec_mirrored() == self,
    {
    }

    /// The displacement that leads from `self` to `to`.
    pub open spec fn spec_delta_to(self, to: Vec2) -> Delta {
        Delta { dx: (to.sx() - self.sx()) as i64, dy: (to.sy() - self.sy()) as i64 }
    }

    /// The displacement that leads from `self` to `to`.
    pub fn delta_to(&self, to: &Vec2) -> (d: Delta)
        ensures
            d == self.spec_delta_to(*to),
            d.dx == to.sx() - self.sx(),
            d.dy == to.sy() - self.sy(),
            d.in_span(),
    {
        proof {
            use_type_invariant(self);
            use_type_invariant(to);
        }
        Delta { dx: to.x as i64 - self.x as i64, dy: to.y as i64 - self.y as i64 }
    }

    /// The point seen as a displacement from the origin.
    pub open spec fn spec_as_delta(self) -> Delta {
        Delta { dx: self.sx() as i64, dy: self.sy() as i64 }
    }

    /// The point seen as a displacement from the origin.
    pub fn as_delta(&self) -> (d: Delta)
        ensures
            d == self.spec_as_delta(),
            d.dx == self.sx(),
            d.dy == self.sy(),
            d.in_span(),
    {
        proof {
            use_type_invariant(self);
        }
        Delta { dx: self.x as i64, dy: self.y as i64 }
    }

    /// Square of the distance between two points.
    pub open spec fn spec_dist2(self, other: Vec2) -> int {
        (other.sx() - self.sx()) * (other.sx() - self.sx()) + (other.sy() - self.sy()) * (
        other.sy() - self.sy())
    }

    /// Square of the distance between two points.
    pub fn dist2(&self, other: &Vec2) -> (r: i64)
        ensures
            r == self.spec_dist2(*other),
            0 <= r <= 2 * SPAN * SPAN,
    {
        let d = self.delta_to(other);
        d.norm2()
    }

    /// Whether `other` lies closer to `self` than `radius`.
    pub fn within(&self, other: &Vec2, radius: i64) -> (r: bool)
        requires
            0 <= radius <= 2 * SPAN,
        ensures
            r == (self.spec_dist2(*other) < radius * radius),
    {
        assert(0 <= radius * radius <= 4 * SPAN * SPAN) by (nonlinear_arith)
            requires
                0 <= radius <= 2 * SPAN,
        ;
        self.dist2(other) < radius * radius
    }
}

impl Delta {
    /// The direction a quarter turn to the left of `self`.
    pub open spec fn spec_quarter_turn(self) -> Delta {
        Delta { dx: (-self.dy) as i64, dy: self.dx }
    }

    /// The direction a quarter turn to the left of `self`.
    pub fn quarter_turn(&self) -> (r: Delta)
        requires
            self.in_span(),
        ensures
            r == self.spec_quarter_turn(),
            r.in_span(),
    {
        Delta { dx: -self.dy, dy: self.dx }
    }

    /// The opposite direction.
    pub open spec fn spec_reversed(self) -> Delta {
        Delta { dx: (-self.dx) as i64, dy: (-self.dy) as i64 }
    }

    /// The opposite direction.
    pub fn reversed(&self) -> (r: Delta)
        requires
            self.in_span(),
        ensures
            r == self.spec_reversed(),
            r.in_span(),
    {
        Delta { dx: -self.dx, dy: -self.dy }
    }

    /// Four quarter turns, or a turn to the other side and back, bring every
    /// direction back to itself.
    pub proof fn lemma_turns_round_trip(self)
        requires
            self.in_span(),
        ensures
            self.spec_quarter_turn().spec_quarter_turn() == self.spec_reversed(),
            self.spec_quarter_turn().spec_quarter_turn().spec_quarter_turn().spec_quarter_turn()
                == self,
            self.spec_reversed().spec_reversed() == self,
            self.spec_quarter_turn().spec_dot(self) == 0,
            self.spec_quarter_turn().spec_norm2() == self.spec_norm2(),
    {
        assert((-self.dy) * self.dx + self.dx * self.dy == 0) by (nonlinear_arith);
        assert((-self.dy) * (-self.dy) == self.dy * self.dy) by (nonlinear_arith);
    }

    /// Both components are differences of coordinates in range.
    pub open spec fn in_span(self) -> bool {
        &&& -SPAN <= self.dx <= SPAN
        &&& -SPAN <= self.dy <= SPAN
    }

    /// Scalar product.
    pub open spec fn spec_dot(self, o: Delta) -> int {
        self.dx * o.dx + self.dy * o.dy
    }

    /// Signed area of the parallelogram on `self` and `o`.
    pub open spec fn spec_cross(self, o: Delta) -> int {
        self.dx * o.dy - self.dy * o.dx
    }

    /// Square of the length.
    pub open spec fn spec_norm2(self) -> int {
        self.dx * self.dx + self.dy * self.dy
    }

    /// Scalar product.
    pub fn dot(&self, o: &Delta) -> (r: i64)
        requires
            self.in_span(),
            o.in_span(),
        ensures
            r == self.spec_dot(*o),
            -2 * SPAN * SPAN <= r <= 2 * SPAN * SPAN,
    {
        proof {
            lemma_mul_bound(self.dx as int, o.dx as int, SPAN as int, SPAN as int);
            lemma_mul_bound(self.dy as int, o.dy as int, SPAN as int, SPAN as int);
        }
        self.dx * o.dx + self.dy * o.dy
    }

    /// Signed area of the parallelogram on `self` and `o`.
    pub fn cross(&self, o: &Delta) -> (r: i64)
        requires
            self.in_span(),
            o.in_span(),
        ensures
            r == self.spec_cross(*o),
            -2 * SPAN * SPAN <= r <= 2 * SPAN * SPAN,
    {
        proof {
            lemma_mul_bound(self.dx as int, o.dy as int, SPAN as int, SPAN as int);
            lemma_mul_bound(self.dy as int, o.dx as int, SPAN as int, SPAN as int);
        }
        self.dx * o.dy - self.dy * o.dx
    }

    /// Square of the length.
    pub fn norm2(&self) -> (r: i64)
        requires
            self.in_span(),
        ensures
            r == self.spec_norm2(),
            0 <= r <= 2 * SPAN * SPAN,
    {
        proof {
            lemma_mul_bound(self.dx as int, self.dx as int, SPAN as int, SPAN as int);
            lemma_mul_bound(self.dy as int, self.dy as int, SPAN as int, SPAN as int);
            assert(self.dx * self.dx >= 0) by (nonlinear_arith);
            assert(self.dy * self.dy >= 0) by (nonlinear_arith);
        }
        self.dx * self.dx + self.dy * self.dy
    }

    /// Whether the direction of `self` lies within the cone about `o` whose
    /// cosine is `num / den`: `self . o > (num / den) |self| |o|`.
    pub open spec fn spec_within_cone(self, o: Delta, num: int, den: int) -> bool {
        &&& self.spec_dot(o) > 0
        &&& den * den * (self.spec_dot(o) * self.spec_dot(o)) > num * num * (self.spec_norm2()
            * o.spec_norm2())
    }

    /// Whether the direction of `self` lies within the cone about `o` whose
    /// cosine is `num / den`.
    pub fn within_cone(&self, o: &Delta, num: i64, den: i64) -> (r: bool)
        requires
            self.in_span(),
            o.in_span(),
            0 <= num <= den <= 100,
        ensures
            r == self.spec_within_cone(*o, num as int, den as int),
    {
        let dot = self.dot(o) as i128;
        let na = self.norm2() as i128;
        let nb = o.norm2() as i128;
        proof {
            lemma_mul_bound(den as int, den as int, 100, 100);
            lemma_mul_bound(num as int, num as int, 100, 100);
        }
        let d2 = (den * den) as i128;
        let n2 = (num * num) as i128;
        proof {
            let b: int = 80_000_000_000_000_000;
            let bb: int = 6_400_000_000_000_000_000_000_000_000_000_000;
            assert(b * b == bb) by (nonlinear_arith)
                requires
                    b == 80_000_000_000_000_000,
                    bb == 6_400_000_000_000_000_000_000_000_000_000_000,
            ;
            lemma_mul_bound(dot as int, dot as int, b, b);
            lemma_mul_bound(na as int, nb as int, b, b);
            lemma_mul_bound(d2 as int, dot * dot, 10_000, bb);
            lemma_mul_bound(n2 as int, na * nb, 10_000, bb);
        }
        dot > 0 && d2 * (dot * dot) > n2 * (na * nb)
    }
}

/// Whether `r` is the integer part of the square root of `n`.
pub open spec fn is_sqrt_floor(n: int, r: int) -> bool {
    &&& 0 <= r
    &&& r * r <= n
    &&& n < (r + 1) * (r + 1)
}

/// The integer part of the square root of `n`.
pub open spec fn spec_isqrt(n: int) -> int {
    choose|r: int| is_sqrt_floor(n, r)
}

/// No number has two integer square roots.
pub proof fn lemma_sqrt_floor_unique(n: int, a: int, b: int)
    by (nonlinear_arith)
    requires
        is_sqrt_floor(n, a),
        is_sqrt_floor(n, b),
    ensures
        a == b,
{
    if a < b {
        assert((a + 1) * (a + 1) <= b * b);
    } else if b < a {
        assert((b + 1) * (b + 1) <= a * a);
    }
}

/// The integer part of the square root of `n`.
pub fn isqrt(n: u64) -> (r: u64)
    ensures
        is_sqrt_floor(n as int, r as int),
        r == spec_isqrt(n as int),
        r < 0x1_0000_0000,
{
    let mut lo: u64 = 0;
    let mut hi: u64 = 0x1_0000_0000;
    assert(0x1_0000_0000 * 0x1_0000_0000 > n) by (nonlinear_arith)
        requires
            n <= 0xffff_ffff_ffff_ffff,
    ;
    while hi - lo > 1
        invariant
            lo < hi <= 0x1_0000_0000,
            lo * lo <= n,
            n < hi * hi,
        decreases hi - lo,
    {
        let mid: u64 = lo + (hi - lo) / 2;
        assert(mid * mid < 0x1_0000_0000 * 0x1_0000_0000) by (nonlinear_arith)
            requires
                0 <= mid < 0x1_0000_0000,
        ;
        if mid * mid <= n {
            lo = mid;
        } else {
            hi = mid;
        }
    }
    proof {
        assert(hi == lo + 1);
        let w = spec_isqrt(n as int);
        assert(is_sqrt_floor(n as int, lo as int));
        lemma_sqrt_floor_unique(n as int, lo as int, w);
    }
    lo
}

/// Quotient rounded toward zero.
pub fn trunc_quot(a: i128, b: i128) -> (r: i128)
    requires
        b > 0,
    ensures
        r == trunc_div(a as int, b as int),
        a >= 0 ==> 0 <= r <= a,
        a <= 0 ==> a <= r <= 0,
{
    proof {
        if a >= 0 {
            assert(0 <= (a as int) / (b as int) <= a) by (nonlinear_arith)
                requires
                    a >= 0,
                    b >= 1,
            ;
        } else {
            assert(0 <= (-(a as int)) / (b as int) <= -a) by (nonlinear_arith)
                requires
                    a < 0,
                    b >= 1,
            ;
        }
    }
    a / b
}

/// The point at distance `dist` from `origin` in the direction `dir`, to the
/// micrometre; `origin` itself where `dir` has no length.
pub open spec fn spec_offset_along(origin: Vec2, dir: Delta, dist: int) -> Vec2 {
    let n = spec_isqrt(dir.spec_norm2());
    if n == 0 {
        origin
    } else {
        Vec2::spec_new(
            origin.sx() + trunc_div(dir.dx * dist, n),
            origin.sy() + trunc_div(dir.dy * dist, n),
        )
    }
}

/// The point at distance `dist` from `origin` in the direction `dir`, to the
/// micrometre; `origin` itself where `dir` has no length.
pub fn offset_along(origin: &Vec2, dir: &Delta, dist: i64) -> (r: Vec2)
    requires
        dir.in_span(),
        0 <= dist <= 10_000_000_000,
    ensures
        r == spec_offset_along(*origin, *dir, dist as int),
{
    let n = isqrt(dir.norm2() as u64);
    if n == 0 {
        return *origin;
    }
    proof {
        lemma_mul_bound(dir.dx as int, dist as int, SPAN as int, 10_000_000_000);
        lemma_mul_bound(dir.dy as int, dist as int, SPAN as int, 10_000_000_000);
    }
    let qx = trunc_quot(dir.dx as i128 * dist as i128, n as i128);
    let qy = trunc_quot(dir.dy as i128 * dist as i128, n as i128);
    let ox = origin.x();
    let oy = origin.y();
    Vec2::new((ox as i128 + qx) as i64, (oy as i128 + qy) as i64)
}

/// Whether the ratio `n / den` lies between 0 and 1, for `den` other than 0.
pub open spec fn in_unit(n: int, den: int) -> bool {
    ||| den > 0 && 0 <= n <= den
    ||| den < 0 && den <= n <= 0
}

/// Absolute value.
pub open spec fn spec_abs(v: int) -> int {
    if v < 0 {
        -v
    } else {
        v
    }
}

/// `from` moved by the fraction `num / den` of `dir`, to the micrometre.
pub open spec fn spec_advance(from: Vec2, dir: Delta, num: int, den: int) -> Vec2 {
    Vec2::spec_new(
        from.sx() + trunc_div(dir.dx * num, den),
        from.sy() + trunc_div(dir.dy * num, den),
    )
}

/// `from` moved by the fraction `num / den` of `dir`, to the micrometre.
pub fn advance(from: &Vec2, dir: &Delta, num: i64, den: i64) -> (r: Vec2)
    requires
        dir.in_span(),
        0 <= num <= 100 * 2 * SPAN * SPAN,
        0 < den,
    ensures
        r == spec_advance(*from, *dir, num as int, den as int),
{
    proof {
        lemma_mul_bound(dir.dx as int, num as int, SPAN as int, 100 * 2 * SPAN * SPAN);
        lemma_mul_bound(dir.dy as int, num as int, SPAN as int, 100 * 2 * SPAN * SPAN);
        assert(SPAN * (100 * 2 * SPAN * SPAN) == 1_600_000_000_000_000_000_000_000_000);
    }
    let qx = trunc_quot(dir.dx as i128 * num as i128, den as i128);
    let qy = trunc_quot(dir.dy as i128 * num as i128, den as i128);
    let fx = from.x() as i128 + qx;
    let fy = from.y() as i128 + qy;
    let cx: i64 = if fx < -(LIMIT as i128) {
        -(LIMIT as i64)
    } else if fx > LIMIT as i128 {
        LIMIT as i64
    } else {
        fx as i64
    };
    let cy: i64 = if fy < -(LIMIT as i128) {
        -(LIMIT as i64)
    } else if fy > LIMIT as i128 {
        LIMIT as i64
    } else {
        fy as i64
    };
    Vec2::new(cx, cy)
}

/// Why two lines have no point in common where one was asked for.
#[derive(Clone, Copy, Debug, PartialEq, Eq, Structural)]
pub enum IntersectionError {
    /// The two lines have the same direction, or one of them has none.
    Parallel,
    /// The lines cross outside the part that was asked for.
    Outside,
}

/// A segment of the plane, from `start` to `end`.
#[derive(Clone, Copy, Debug, PartialEq, Eq, Structural)]
pub struct Line {
    pub start: Vec2,
    pub end: Vec2,
}

impl Line {
    /// The segment from `start` to `end`.
    pub fn new(start: Vec2, end: Vec2) -> (r: Line)
        ensures
            r == (Line { start, end }),
    {
        Line { start, end }
    }

    /// The displacement from `start` to `end`.
    pub open spec fn spec_dir(self) -> Delta {
        self.start.spec_delta_to(self.end)
    }

    /// Square of the length.
    pub open spec fn spec_norm2(self) -> int {
        self.start.spec_dist2(self.end)
    }

    /// Square of the length.
    pub fn norm2(&self) -> (r: i64)
        ensures
            r == self.spec_norm2(),
            0 <= r <= 2 * SPAN * SPAN,
    {
        self.start.dist2(&self.end)
    }

    /// The length, rounded down to the micrometre.
    pub open spec fn spec_length(self) -> int {
        spec_isqrt(self.spec_norm2())
    }

    /// The length, rounded down to the micrometre.
    pub fn length(&self) -> (r: u64)
        ensures
            r == self.spec_length(),
            r < 0x1_0000_0000,
    {
        isqrt(self.norm2() as u64)
    }

    /// The middle of the segment, to the micrometre.
    pub open spec fn spec_center(self) -> Vec2 {
        Vec2::spec_new(
            trunc_div(self.start.sx() + self.end.sx(), 2),
            trunc_div(self.start.sy() + self.end.sy(), 2),
        )
    }

    /// The middle of the segment, to the micrometre.
    pub fn center(&self) -> (r: Vec2)
        ensures
            r == self.spec_center(),
    {
        let sx = self.start.x() as i64 + self.end.x() as i64;
        let sy = self.start.y() as i64 + self.end.y() as i64;
        Vec2::new(sx / 2, sy / 2)
    }

    /// Where `p` falls along the segment: 0 at `start`, the squared length at
    /// `end`, growing in the direction of the segment.
    pub open spec fn spec_key(self, p: Vec2) -> int {
        self.start.spec_delta_to(p).spec_dot(self.spec_dir())
    }

    /// Where `p` falls along the segment.
    pub fn key(&self, p: &Vec2) -> (r: i64)
        ensures
            r == self.spec_key(*p),
            -2 * SPAN * SPAN <= r <= 2 * SPAN * SPAN,
    {
        let w = self.start.delta_to(p);
        let d = self.start.delta_to(&self.end);
        w.dot(&d)
    }

    /// The point of the segment nearest to `p`, to the micrometre.
    pub open spec fn spec_closest_point_on_segment(self, p: Vec2) -> Vec2 {
        let len = self.spec_norm2();
        let k = self.spec_key(p);
        if len == 0 || k <= 0 {
            self.start
        } else if k >= len {
            self.end
        } else {
            spec_advance(self.start, self.spec_dir(), k, len)
        }
    }

    /// The point of the segment nearest to `p`, to the micrometre.
    pub fn closest_point_on_segment(&self, p: &Vec2) -> (r: Vec2)
        ensures
            r == self.spec_closest_point_on_segment(*p),
    {
        let len = self.norm2();
        let k = self.key(p);
        if len == 0 || k <= 0 {
            self.start
        } else if k >= len {
            self.end
        } else {
            let d = self.start.delta_to(&self.end);
            advance(&self.start, &d, k, len)
        }
    }

    /// What is left of the segment once the stretch between the two ends of
    /// `clip` is taken out of it: nothing, one piece or two, in the order in
    /// which they lie on the segment. A `clip` of no length along the segment,
    /// or one that lies before its start or past its end, takes nothing out.
    pub open spec fn spec_cut_off_segment(self, clip: Line) -> Seq<Line> {
        let len = self.spec_norm2();
        let ka = self.spec_key(clip.start);
        let kb = self.spec_key(clip.end);
        let lo = if ka <= kb {
            clip.start
        } else {
            clip.end
        };
        let hi = if ka <= kb {
            clip.end
        } else {
            clip.start
        };
        let klo = if ka <= kb {
            ka
        } else {
            kb
        };
        let khi = if ka <= kb {
            kb
        } else {
            ka
        };
        if klo == khi || khi <= 0 || klo >= len {
            seq![self]
        } else {
            let before = if klo > 0 {
                seq![Line { start: self.start, end: lo }]
            } else {
                Seq::<Line>::empty()
            };
            let after = if khi < len {
                seq![Line { start: hi, end: self.end }]
            } else {
                Seq::<Line>::empty()
            };
            before + after
        }
    }

    /// What is left of the segment once the stretch between the two ends of
    /// `clip` is taken out of it.
    pub fn cut_off_segment(&self, clip: &Line) -> (r: Vec<Line>)
        ensures
            r@ == self.spec_cut_off_segment(*clip),
    {
        let len = self.norm2();
        let ka = self.key(&clip.start);
        let kb = self.key(&clip.end);
        let (lo, hi, klo, khi) = if ka <= kb {
            (clip.start, clip.end, ka, kb)
        } else {
            (clip.end, clip.start, kb, ka)
        };
        let mut out: Vec<Line> = Vec::new();
        if klo == khi || khi <= 0 || klo >= len {
            out.push(*self);
            assert(out@ =~= seq![*self]);
        } else {
            if klo > 0 {
                out.push(Line { start: self.start, end: lo });
            }
            if khi < len {
                out.push(Line { start: hi, end: self.end });
            }
            assert(out@ =~= self.spec_cut_off_segment(*clip));
        }
        out
    }

    /// The point where two segments cross, to the micrometre.
    pub open spec fn spec_intersection_segments(self, other: Line) -> Result<
        Vec2,
        IntersectionError,
    > {
        let d1 = self.spec_dir();
        let d2 = other.spec_dir();
        let w = self.start.spec_delta_to(other.start);
        let den = d1.spec_cross(d2);
        let tn = w.spec_cross(d2);
        let sn = w.spec_cross(d1);
        if den == 0 {
            Err(IntersectionError::Parallel)
        } else if in_unit(tn, den) && in_unit(sn, den) {
            Ok(spec_advance(self.start, d1, spec_abs(tn), spec_abs(den)))
        } else {
            Err(IntersectionError::Outside)
        }
    }

    /// The point where the segment crosses the whole line through `other`, to
    /// the micrometre.
    pub open spec fn spec_intersection_segment_line(self, other: Line) -> Result<
        Vec2,
        IntersectionError,
    > {
        let d1 = self.spec_dir();
        let d2 = other.spec_dir();
        let w = self.start.spec_delta_to(other.start);
        let den = d1.spec_cross(d2);
        let tn = w.spec_cross(d2);
        if den == 0 {
            Err(IntersectionError::Parallel)
        } else if in_unit(tn, den) {
            Ok(spec_advance(self.start, d1, spec_abs(tn), spec_abs(den)))
        } else {
            Err(IntersectionError::Outside)
        }
    }

    /// The point where two segments cross, to the micrometre.
    pub fn intersection_segments(&self, other: &Line) -> (r: Result<Vec2, IntersectionError>)
        ensures
            r == self.spec_intersection_segments(*other),
    {
        let d1 = self.start.delta_to(&self.end);
        let d2 = other.start.delta_to(&other.end);
        let w = self.start.delta_to(&other.start);
        let den = d1.cross(&d2);
        let tn = w.cross(&d2);
        let sn = w.cross(&d1);
        if den == 0 {
            Err(IntersectionError::Parallel)
        } else if ratio_in_unit(tn, den) && ratio_in_unit(sn, den) {
            Ok(advance(&self.start, &d1, magnitude(tn), magnitude(den)))
        } else {
            Err(IntersectionError::Outside)
        }
    }

    /// The point where the segment crosses the whole line through `other`, to
    /// the micrometre.
    pub fn intersection_segment_line(&self, other: &Line) -> (r: Result<Vec2, IntersectionError>)
        ensures
            r == self.spec_intersection_segment_line(*other),
    {
        let d1 = self.start.delta_to(&self.end);
        let d2 = other.start.delta_to(&other.end);
        let w = self.start.delta_to(&other.start);
        let den = d1.cross(&d2);
        let tn = w.cross(&d2);
        if den == 0 {
            Err(IntersectionError::Parallel)
        } else if ratio_in_unit(tn, den) {
            Ok(advance(&self.start, &d1, magnitude(tn), magnitude(den)))
        } else {
            Err(IntersectionError::Outside)
        }
    }
}

/// Whether the ratio `n / den` lies between 0 and 1.
pub fn ratio_in_unit(n: i64, den: i64) -> (r: bool)
    ensures
        r == in_unit(n as int, den as int),
{
    (den > 0 && 0 <= n && n <= den) || (den < 0 && den <= n && n <= 0)
}

/// Absolute value.
pub fn magnitude(v: i64) -> (r: i64)
    requires
        v > i64::MIN,
    ensures
        r == spec_abs(v as int),
{
    if v < 0 {
        -v
    } else {
        v
    }
}

/// Whether the half line from `origin` along `dir` meets the segment `seg`.
pub open spec fn spec_ray_hits_segment(origin: Vec2, dir: Delta, seg: Line) -> bool {
    let g = seg.spec_dir();
    let w = origin.spec_delta_to(seg.start);
    let den = dir.spec_cross(g);
    let tn = w.spec_cross(g);
    let sn = w.spec_cross(dir);
    ||| den > 0 && tn >= 0 && 0 <= sn <= den
    ||| den < 0 && tn <= 0 && den <= sn <= 0
}

/// Whether the half line from `origin` along `dir` meets the segment `seg`.
pub fn ray_hits_segment(origin: &Vec2, dir: &Delta, seg: &Line) -> (r: bool)
    requires
        dir.in_span(),
    ensures
        r == spec_ray_hits_segment(*origin, *dir, *seg),
{
    let g = seg.start.delta_to(&seg.end);
    let w = origin.delta_to(&seg.start);
    let den = dir.cross(&g);
    let tn = w.cross(&g);
    let sn = w.cross(dir);
    (den > 0 && tn >= 0 && 0 <= sn && sn <= den) || (den < 0 && tn <= 0 && den <= sn && sn <= 0)
}

/// Where the half line from `origin` along `dir` meets the line of the points
/// whose first coordinate is `gx`, to the micrometre.
pub open spec fn spec_ray_meets_upright(origin: Vec2, dir: Delta, gx: int) -> Option<Vec2> {
    let gdx = gx - origin.sx();
    if (dir.dx > 0 && gdx >= 0) || (dir.dx < 0 && gdx <= 0) {
        Some(
            Vec2::spec_new(
                gx,
                origin.sy() + trunc_div(dir.dy * spec_abs(gdx), spec_abs(dir.dx as int)),
            ),
        )
    } else {
        None
    }
}

/// Where the half line from `origin` along `dir` meets the line of the points
/// whose first coordinate is `gx`, to the micrometre.
pub fn ray_meets_upright(origin: &Vec2, dir: &Delta, gx: i32) -> (r: Option<Vec2>)
    requires
        dir.in_span(),
        -LIMIT <= gx <= LIMIT,
    ensures
        r == spec_ray_meets_upright(*origin, *dir, gx as int),
{
    let gdx: i64 = gx as i64 - origin.x() as i64;
    if (dir.dx > 0 && gdx >= 0) || (dir.dx < 0 && gdx <= 0) {
        let num = magnitude(gdx);
        let den = magnitude(dir.dx);
        proof {
            lemma_mul_bound(dir.dy as int, num as int, SPAN as int, SPAN as int);
        }
        let q = trunc_quot(dir.dy as i128 * num as i128, den as i128);
        Some(Vec2::from_wide(gx as i128, origin.y() as i128 + q))
    } else {
        None
    }
}

/// The point of the half line from `origin` along `dir` nearest to `p`, to
/// the micrometre.
pub open spec fn spec_closest_point_on_ray(origin: Vec2, dir: Delta, p: Vec2) -> Vec2 {
    let len = dir.spec_norm2();
    let k = origin.spec_delta_to(p).spec_dot(dir);
    if len == 0 || k <= 0 {
        origin
    } else {
        spec_advance(origin, dir, k, len)
    }
}

/// The point of the half line from `origin` along `dir` nearest to `p`, to
/// the micrometre.
pub fn closest_point_on_ray(origin: &Vec2, dir: &Delta, p: &Vec2) -> (r: Vec2)
    requires
        dir.in_span(),
    ensures
        r == spec_closest_point_on_ray(*origin, *dir, *p),
{
    let len = dir.norm2();
    let k = origin.delta_to(p).dot(dir);
    if len == 0 || k <= 0 {
        *origin
    } else {
        advance(origin, dir, k, len)
    }
}

/// A disc of the plane.
#[derive(Clone, Copy, Debug, PartialEq, Eq, Structural)]
pub struct Circle {
    pub center: Vec2,
    /// Radius, in micrometres.
    pub radius: u32,
}

impl Circle {
    /// The disc about `center` with the radius `radius`.
    pub fn new(center: Vec2, radius: u32) -> (r: Circle)
        ensures
            r == (Circle { center, radius }),
    {
        Circle { center, radius }
    }

    /// Whether `p` lies in the disc, its rim included.
    pub open spec fn spec_contains(self, p: Vec2) -> bool {
        self.center.spec_dist2(p) <= self.radius * self.radius
    }

    /// Whether `p` lies in the disc, its rim included.
    pub fn contains(&self, p: &Vec2) -> (r: bool)
        ensures
            r == self.spec_contains(*p),
    {
        let rad = self.radius as i128;
        assert(0 <= rad * rad <= 0xffff_ffff * 0xffff_ffff) by (nonlinear_arith)
            requires
                0 <= rad <= 0xffff_ffff,
        ;
        (self.center.dist2(p) as i128) <= rad * rad
    }
}

/// A rectangle with sides along the axes, given by the corner with the least
/// coordinates and its two sides.
#[derive(Clone, Copy, Debug, PartialEq, Eq, Structural)]
pub struct Rectangle {
    pub width: u32,
    pub height: u32,
    pub position: Vec2,
}

impl Rectangle {
    /// The rectangle with the given sides whose corner with the least coordinates is `position`.
    pub fn new(width: u32, height: u32, position: Vec2) -> (r: Rectangle)
        ensures
            r == (Rectangle { width, height, position }),
    {
        Rectangle { width, height, position }
    }

    /// Whether `point` lies in the rectangle, its border included.
    pub open spec fn spec_is_in(self, point: Vec2) -> bool {
        let x = point.sx() - self.position.sx();
        let y = point.sy() - self.position.sy();
        0 <= x <= self.width && 0 <= y <= self.height
    }

    /// Whether `point` lies in the rectangle, its border included.
    pub fn is_in(&self, point: Vec2) -> (r: bool)
        ensures
            r == self.spec_is_in(point),
    {
        let d = self.position.delta_to(&point);
        d.dx >= 0 && d.dx <= self.width as i64 && d.dy >= 0 && d.dy <= self.height as i64
    }
}

/// A position, a velocity or an acceleration in space. The three coordinates
/// stay within [`LIMIT`] of zero.
#[derive(Clone, Copy, Debug, PartialEq, Eq, Structural)]
pub struct Vec3 {
    pub(crate) x: i32,
    pub(crate) y: i32,
    pub(crate) z: i32,
}

impl Vec3 {
    /// Every coordinate is within the limit.
    #[verifier::type_invariant]
    pub open(crate) spec fn in_range(self) -> bool {
        &&& -LIMIT <= self.x <= LIMIT
        &&& -LIMIT <= self.y <= LIMIT
        &&& -LIMIT <= self.z <= LIMIT
    }

    /// First coordinate.
    pub open(crate) spec fn sx(self) -> int {
        self.x as int
    }

    /// Second coordinate.
    pub open(crate) spec fn sy(self) -> int {
        self.y as int
    }

    /// Third coordinate.
    pub open(crate) spec fn sz(self) -> int {
        self.z as int
    }

    /// The point `(x, y, z)`, each coordinate brought into range.
    pub open(crate) spec fn spec_new(x: int, y: int, z: int) -> Vec3 {
        Vec3 { x: clamp_coord(x) as i32, y: clamp_coord(y) as i32, z: clamp_coord(z) as i32 }
    }

    /// The point `(x, y, z)`, each coordinate brought into range.
    pub fn new(x: i64, y: i64, z: i64) -> (r: Vec3)
        ensures
            r == Vec3::spec_new(x as int, y as int, z as int),
            r.sx() == clamp_coord(x as int),
            r.sy() == clamp_coord(y as int),
            r.sz() == clamp_coord(z as int),
    {
        let a = Vec2::new(x, y);
        let b = Vec2::new(z, 0);
        Vec3 { x: a.x(), y: a.y(), z: b.x() }
    }

    /// The origin.
    pub fn zero() -> (r: Vec3)
        ensures
            r == Vec3::spec_new(0, 0, 0),
    {
        Vec3 { x: 0, y: 0, z: 0 }
    }

    /// First coordinate.
    pub fn x(&self) -> (r: i32)
        ensures
            r == self.sx(),
            -LIMIT <= r <= LIMIT,
    {
        proof {
            use_type_invariant(self);
        }
        self.x
    }

    /// Second coordinate.
    pub fn y(&self) -> (r: i32)
        ensures
            r == self.sy(),
            -LIMIT <= r <= LIMIT,
    {
        proof {
            use_type_invariant(self);
        }
        self.y
    }

    /// Third coordinate.
    pub fn z(&self) -> (r: i32)
        ensures
            r == self.sz(),
            -LIMIT <= r <= LIMIT,
    {
        proof {
            use_type_invariant(self);
        }
        self.z
    }

    /// The first two coordinates.
    pub open(crate) spec fn spec_xy(self) -> Vec2 {
        Vec2 { x: self.x, y: self.y }
    }

    /// The first two coordinates.
    pub fn xy(&self) -> (r: Vec2)
        ensures
            r == self.spec_xy(),
            r.sx() == self.sx(),
            r.sy() == self.sy(),
    {
        proof {
            use_type_invariant(self);
        }
        Vec2 { x: self.x, y: self.y }
    }

    /// The image of the point under the half turn about the vertical axis
    /// through the origin: the height stays.
    pub open(crate) spec fn spec_mirrored(self) -> Vec3 {
        Vec3 { x: (-self.x) as i32, y: (-self.y) as i32, z: self.z }
    }

    /// The image of the point under the half turn about the vertical axis
    /// through the origin: the height stays.
    pub fn mirrored(&self) -> (r: Vec3)
        ensures
            r == self.spec_mirrored(),
            r.sx() == -self.sx(),
            r.sy() == -self.sy(),
            r.sz() == self.sz(),
    {
        proof {
            use_type_invariant(self);
        }
        Vec3 { x: -self.x, y: -self.y, z: self.z }
    }

    /// Square of the length.
    pub open spec fn spec_norm2(self) -> int {
        self.sx() * self.sx() + self.sy() * self.sy() + self.sz() * self.sz()
    }

    /// Square of the length.
    pub fn norm2(&self) -> (r: i64)
        ensures
            r == self.spec_norm2(),
            0 <= r <= 3 * SPAN * SPAN,
    {
        proof {
            use_type_invariant(self);
            lemma_mul_bound(self.x as int, self.x as int, LIMIT as int, LIMIT as int);
            lemma_mul_bound(self.y as int, self.y as int, LIMIT as int, LIMIT as int);
            lemma_mul_bound(self.z as int, self.z as int, LIMIT as int, LIMIT as int);
            assert(self.x * self.x >= 0) by (nonlinear_arith);
            assert(self.y * self.y >= 0) by (nonlinear_arith);
            assert(self.z * self.z >= 0) by (nonlinear_arith);
        }
        let x = self.x as i64;
        let y = self.y as i64;
        let z = self.z as i64;
        x * x + y * y + z * z
    }
}

} // verus!
