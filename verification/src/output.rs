//! The commands that leave for the robots and the feedback that comes back.

use vstd::prelude::*;
use crate::math::isqrt;
use crate::math::lemma_mul_bound;
use crate::math::spec_isqrt;
use crate::math::trunc_div;
use crate::math::trunc_quot;

verus! {

/// One metre per second, in micrometres per second.
pub const METRE_PER_SECOND: i32 = 1_000_000;

/// Greatest number of commands that one packet to the robots may carry.
pub const MAX_ID_ROBOTS: usize = 16;

/// A kick, with the speed to give to the ball in micrometres per second.
#[derive(Clone, Copy, Debug, PartialEq, Eq, Structural)]
pub enum Kick {
    StraightKick { power: u32 },
    ChipKick { power: u32 },
}

/// What one robot is to do during one tick. Speeds are in micrometres per
/// second and microradians per second, in the robot's own frame.
#[derive(Clone, Copy, Debug, PartialEq, Eq, Structural)]
pub struct Command {
    pub forward_velocity: i32,
    pub left_velocity: i32,
    pub angular_velocity: i32,
    pub charge: bool,
    pub kick: Option<Kick>,
    pub dribbler: u32,
}

impl Command {
    /// The command that keeps a robot still.
    pub open spec fn spec_zero() -> Command {
        Command {
            forward_velocity: 0,
            left_velocity: 0,
            angular_velocity: 0,
            charge: false,
            kick: None,
            dribbler: 0,
        }
    }

    /// The command that keeps a robot still.
    pub fn zero() -> (r: Command)
        ensures
            r == Command::spec_zero(),
    {
        Command {
            forward_velocity: 0,
            left_velocity: 0,
            angular_velocity: 0,
            charge: false,
            kick: None,
            dribbler: 0,
        }
    }

    /// Square of the linear speed.
    pub open spec fn spec_speed2(self) -> int {
        self.forward_velocity * self.forward_velocity + self.left_velocity * self.left_velocity
    }

    /// The command with its linear speed brought down to `limit` where it is
    /// above: both components are scaled by `limit` over the length, the
    /// length rounded up and the result rounded toward zero.
    pub open spec fn spec_limit_speed(self, limit: u32) -> Command {
        if self.spec_speed2() <= limit * limit {
            self
        } else {
            let n = spec_ceil_sqrt(self.spec_speed2());
            Command {
                forward_velocity: trunc_div(self.forward_velocity * limit, n) as i32,
                left_velocity: trunc_div(self.left_velocity * limit, n) as i32,
                ..self
            }
        }
    }

    /// The command with its linear speed brought down to `limit` where it is
    /// above it. The result is never faster than `limit`.
    pub fn limit_speed(&self, limit: u32) -> (r: Command)
        ensures
            r == self.spec_limit_speed(limit),
            r.spec_speed2() <= limit * limit,
    {
        let f = self.forward_velocity as i128;
        let l = self.left_velocity as i128;
        let lim = limit as i128;
        proof {
            lemma_mul_bound(f as int, f as int, 0x8000_0000, 0x8000_0000);
            lemma_mul_bound(l as int, l as int, 0x8000_0000, 0x8000_0000);
            lemma_mul_bound(lim as int, lim as int, 0x1_0000_0000, 0x1_0000_0000);
            assert(f * f >= 0) by (nonlinear_arith);
            assert(l * l >= 0) by (nonlinear_arith);
        }
        let speed2 = (f * f + l * l) as u64;
        if speed2 as i128 <= lim * lim {
            return *self;
        }
        let root = isqrt(speed2);
        let n: i128 = if root * root == speed2 {
            root as i128
        } else {
            root as i128 + 1
        };
        proof {
            assert(root * root <= speed2 < (root + 1) * (root + 1));
            lemma_limited(f as int, l as int, lim as int, n as int);
            lemma_mul_bound(f as int, lim as int, 0x8000_0000, 0x1_0000_0000);
            lemma_mul_bound(l as int, lim as int, 0x8000_0000, 0x1_0000_0000);
        }
        let nf = trunc_quot(f * lim, n);
        let nl = trunc_quot(l * lim, n);
        Command {
            forward_velocity: nf as i32,
            left_velocity: nl as i32,
            angular_velocity: self.angular_velocity,
            charge: self.charge,
            kick: self.kick,
            dribbler: self.dribbler,
        }
    }
}

/// The least integer whose square is at least `v`.
pub open spec fn spec_ceil_sqrt(v: int) -> int {
    let n = spec_isqrt(v);
    if n * n == v {
        n
    } else {
        n + 1
    }
}

/// `a * lim / n`, rounded down, is at most `a * lim / n`.
proof fn lemma_quotient_below(a: int, lim: int, n: int)
    requires
        0 <= a,
        0 <= lim,
        0 < n,
    ensures
        0 <= (a * lim) / n,
        ((a * lim) / n) * n <= a * lim,
        0 <= a * lim,
{
    assert(0 <= a * lim) by (nonlinear_arith)
        requires
            0 <= a,
            0 <= lim,
    ;
    vstd::arithmetic::div_mod::lemma_fundamental_div_mod(a * lim, n);
    vstd::arithmetic::div_mod::lemma_mod_bound(a * lim, n);
    vstd::arithmetic::div_mod::lemma_div_pos_is_pos(a * lim, n);
    let q = (a * lim) / n;
    assert(q * n == n * q) by (nonlinear_arith);
}

/// Squaring keeps the order of two numbers that are not negative.
proof fn lemma_square_le(x: int, y: int)
    by (nonlinear_arith)
    requires
        0 <= x <= y,
    ensures
        x * x <= y * y,
{
}

/// A speed above the limit, scaled by the limit over its length rounded up,
/// is no longer above the limit.
pub proof fn lemma_limited(f: int, l: int, lim: int, n: int)
    requires
        0 <= lim,
        f * f + l * l > lim * lim,
        n > 0,
        f * f + l * l <= n * n,
    ensures
        f >= 0 ==> 0 <= trunc_div(f * lim, n) <= f,
        f <= 0 ==> f <= trunc_div(f * lim, n) <= 0,
        l >= 0 ==> 0 <= trunc_div(l * lim, n) <= l,
        l <= 0 ==> l <= trunc_div(l * lim, n) <= 0,
        trunc_div(f * lim, n) * trunc_div(f * lim, n) + trunc_div(l * lim, n) * trunc_div(
            l * lim,
            n,
        ) <= lim * lim,
{
    let a = if f >= 0 {
        f
    } else {
        -f
    };
    let b = if l >= 0 {
        l
    } else {
        -l
    };
    let qa = (a * lim) / n;
    let qb = (b * lim) / n;
    let tf = trunc_div(f * lim, n);
    let tl = trunc_div(l * lim, n);
    assert(a * a == f * f && b * b == l * l) by (nonlinear_arith)
        requires
            a == f || a == -f,
            b == l || b == -l,
    ;
    assert((f >= 0 ==> tf == qa) && (f < 0 ==> tf == -qa)) by {
        if f >= 0 {
            assert(f * lim >= 0) by (nonlinear_arith)
                requires
                    f >= 0,
                    lim >= 0,
            ;
        } else {
            assert(-(f * lim) == a * lim && f * lim <= 0) by (nonlinear_arith)
                requires
                    f < 0,
                    a == -f,
                    lim >= 0,
            ;
        }
    }
    assert((l >= 0 ==> tl == qb) && (l < 0 ==> tl == -qb)) by {
        if l >= 0 {
            assert(l * lim >= 0) by (nonlinear_arith)
                requires
                    l >= 0,
                    lim >= 0,
            ;
        } else {
            assert(-(l * lim) == b * lim && l * lim <= 0) by (nonlinear_arith)
                requires
                    l < 0,
                    b == -l,
                    lim >= 0,
            ;
        }
    }
    lemma_quotient_below(a, lim, n);
    lemma_quotient_below(b, lim, n);
    assert(0 <= qa * n) by (nonlinear_arith)
        requires
            0 <= qa,
            0 < n,
    ;
    assert(0 <= qb * n) by (nonlinear_arith)
        requires
            0 <= qb,
            0 < n,
    ;
    lemma_square_le(qa * n, a * lim);
    lemma_square_le(qb * n, b * lim);
    let s = qa * qa + qb * qb;
    assert(s * (n * n) == (qa * n) * (qa * n) + (qb * n) * (qb * n)) by (nonlinear_arith)
        requires
            s == qa * qa + qb * qb,
    ;
    assert((a * lim) * (a * lim) + (b * lim) * (b * lim) == (a * a + b * b) * (lim * lim))
        by (nonlinear_arith);
    assert((a * a + b * b) * (lim * lim) <= (n * n) * (lim * lim)) by (nonlinear_arith)
        requires
            a * a + b * b <= n * n,
            0 <= lim * lim,
    ;
    assert(0 <= lim * lim) by (nonlinear_arith);
    assert(s <= lim * lim) by (nonlinear_arith)
        requires
            s * (n * n) <= (n * n) * (lim * lim),
            n > 0,
    {
        assert(n * n > 0);
    }
    assert(lim <= n) by (nonlinear_arith)
        requires
            0 <= lim,
            0 < n,
            lim * lim < n * n,
    ;
    assert(qa <= a) by (nonlinear_arith)
        requires
            qa * n <= a * lim,
            0 <= a,
            0 <= lim <= n,
            0 < n,
    ;
    assert(qb <= b) by (nonlinear_arith)
        requires
            qb * n <= b * lim,
            0 <= b,
            0 <= lim <= n,
            0 < n,
    ;
    assert(tf * tf == qa * qa) by (nonlinear_arith)
        requires
            tf == qa || tf == -qa,
    ;
    assert(tl * tl == qb * qb) by (nonlinear_arith)
        requires
            tl == qb || tl == -qb,
    ;
}

} // verus!
