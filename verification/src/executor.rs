//! The executor: it turns the intent of each robot into the command of the
//! tick, within what the referee allows.

use vstd::prelude::*;
use crate::action::Action;
use crate::action::MoveTo;
use crate::actions::closer_than;
use crate::math::offset_along;
use crate::math::spec_offset_along;
use crate::math::Line;
use crate::math::Vec2;
use crate::output::Command;
use crate::referee::RefereeOrders;

verus! {

/// The speeds that the trajectory follower asks of a robot, in the frame of
/// the robot.
#[derive(Clone, Copy, Debug, PartialEq, Eq, Structural)]
pub struct Twist {
    pub forward_velocity: i32,
    pub left_velocity: i32,
    pub angular_velocity: i32,
}

/// The command of a robot before the speed limit: rest without an intent,
/// the raw order as it is, and for a move the speeds of the trajectory
/// follower with dribbler, kick and charge of the intent.
pub open spec fn spec_unlimited(action: Option<Action>, followed: Twist) -> Command {
    match action {
        None => Command::spec_zero(),
        Some(Action::RawOrder(command)) => command,
        Some(Action::MoveTo(intent)) => Command {
            forward_velocity: followed.forward_velocity,
            left_velocity: followed.left_velocity,
            angular_velocity: followed.angular_velocity,
            charge: intent.charge,
            kick: intent.kick,
            dribbler: intent.dribbler,
        },
    }
}

/// The command of a robot for the tick: what its intent asks for, its linear
/// speed brought down to the speed limit of the referee.
pub fn command_for(action: Option<Action>, followed: &Twist, orders: &RefereeOrders) -> (r: Command)
    ensures
        r == spec_unlimited(action, *followed).spec_limit_speed(orders.speed_limit),
        r.spec_speed2() <= orders.speed_limit * orders.speed_limit,
        action is None ==> r == Command::spec_zero(),
{
    let asked = match action {
        None => Command::zero(),
        Some(Action::RawOrder(command)) => command,
        Some(Action::MoveTo(intent)) => Command {
            forward_velocity: followed.forward_velocity,
            left_velocity: followed.left_velocity,
            angular_velocity: followed.angular_velocity,
            charge: intent.charge,
            kick: intent.kick,
            dribbler: intent.dribbler,
        },
    };
    proof {
        assert(0 * 0 + 0 * 0 <= orders.speed_limit * orders.speed_limit) by (nonlinear_arith);
    }
    asked.limit_speed(orders.speed_limit)
}

/// Whether the straight way from `from` to `target` comes nearer to `ball`
/// than `keep`.
pub open spec fn spec_too_near(from: Vec2, target: Vec2, ball: Vec2, keep: u32) -> bool {
    let nearest = (Line { start: from, end: target }).spec_closest_point_on_segment(ball);
    ball.spec_dist2(nearest) < keep * keep
}

/// Where a robot at `from` is sent in place of `target` while it has to keep
/// `keep` away from the ball: to `target` if the straight way there keeps
/// that distance, else to the point at that distance from the ball a quarter
/// turn to the left of the robot as seen from the ball.
pub open spec fn spec_guarded_target(
    from: Vec2,
    target: Vec2,
    ball: Option<Vec2>,
    keep: Option<u32>,
) -> Vec2 {
    match (ball, keep) {
        (Some(at), Some(distance)) => if spec_too_near(from, target, at, distance) {
            spec_offset_along(at, at.spec_delta_to(from).spec_quarter_turn(), distance as int)
        } else {
            target
        },
        _ => target,
    }
}

/// Where a robot at `from` is sent in place of `target` while it has to keep
/// `keep` away from the ball.
pub fn guarded_target(from: &Vec2, target: &Vec2, ball: Option<Vec2>, keep: Option<u32>) -> (r: Vec2)
    ensures
        r == spec_guarded_target(*from, *target, ball, keep),
{
    match (ball, keep) {
        (Some(at), Some(distance)) => {
            let nearest = Line::new(*from, *target).closest_point_on_segment(&at);
            if closer_than(&at, &nearest, distance as i64) {
                offset_along(&at, &at.delta_to(from).quarter_turn(), distance as i64)
            } else {
                *target
            }
        },
        _ => *target,
    }
}

/// The intent with its target brought in line with the distance to keep from
/// the ball.
pub fn guarded(intent: &MoveTo, from: &Vec2, ball: Option<Vec2>, orders: &RefereeOrders) -> (r:
    MoveTo)
    ensures
        r == (MoveTo {
            target: spec_guarded_target(*from, intent.target, ball, orders.min_dist_from_ball),
            ..*intent
        }),
{
    MoveTo {
        target: guarded_target(from, &intent.target, ball, orders.min_dist_from_ball),
        orientation: intent.orientation,
        dribbler: intent.dribbler,
        charge: intent.charge,
        kick: intent.kick,
        avoidance: intent.avoidance,
    }
}

} // verus!
