//! The receiver: the robot that waits for a pass on the line that the passer
//! has announced.

use vstd::prelude::*;
use crate::action::ActionWrapper;
use crate::action::MoveTo;
use crate::actions::intercept;
use crate::actions::spec_intercept;
use crate::actions::DRIBBLE_RANGE;
use crate::actions::FAST_BALL_SPEED2;
use crate::math::Line;
use crate::message::MessageData;
use crate::world::World;

verus! {

/// The receiver: owns one robot.
pub struct Receiver {
    pub(crate) id: u8,
    pub(crate) passer_id: u8,
    pub(crate) passing_trajectory: Line,
    pub(crate) messages: Vec<MessageData>,
}

/// The move of the receiver `id` of a pass from `passer_id` along
/// `passing_trajectory`.
///
/// Without one of the two robots or without the ball, none. While the ball
/// is faster than 1 m/s, an interception. Else a move to the point of the
/// line nearest to the robot, facing the ball, with the dribbler on where
/// that point is within 0.2 m of the ball.
pub open spec fn spec_receiver_decision(
    world: World,
    id: u8,
    passer_id: u8,
    passing_trajectory: Line,
) -> Option<MoveTo> {
    match (world.allies_bot.spec_get(id), world.allies_bot.spec_get(passer_id), world.ball) {
        (Some(robot), Some(_), Some(ball)) => {
            if ball.velocity.spec_norm2() > FAST_BALL_SPEED2 {
                Some(spec_intercept(robot, ball))
            } else {
                let point = passing_trajectory.spec_closest_point_on_segment(robot.pose.position);
                Some(
                    MoveTo {
                        target: point,
                        orientation: robot.pose.position.spec_delta_to(ball.spec_position_2d()),
                        dribbler: if point.spec_dist2(ball.spec_position_2d()) < DRIBBLE_RANGE
                            * DRIBBLE_RANGE {
                            1
                        } else {
                            0
                        },
                        charge: false,
                        kick: None,
                        avoidance: true,
                    },
                )
            }
        },
        _ => None,
    }
}

/// The move of the receiver `id` of a pass from `passer_id` along
/// `passing_trajectory`.
pub fn receiver_decision(world: &World, id: u8, passer_id: u8, passing_trajectory: &Line) -> (r:
    Option<MoveTo>)
    ensures
        r == spec_receiver_decision(*world, id, passer_id, *passing_trajectory),
{
    let robot = match world.allies_bot.get(id) {
        Some(robot) => robot,
        None => {
            return None;
        },
    };
    if world.allies_bot.get(passer_id).is_none() {
        return None;
    }
    let ball = match &world.ball {
        Some(ball) => ball,
        None => {
            return None;
        },
    };
    if ball.velocity.norm2() > FAST_BALL_SPEED2 {
        return Some(intercept(robot, ball));
    }
    let ball_position = ball.position_2d();
    let point = passing_trajectory.closest_point_on_segment(&robot.pose.position);
    let dribbler: u32 = if point.within(&ball_position, DRIBBLE_RANGE) {
        1
    } else {
        0
    };
    Some(
        MoveTo::new(
            point,
            robot.pose.position.delta_to(&ball_position),
            dribbler,
            false,
            None,
            true,
        ),
    )
}

impl Receiver {
    /// The robot that the strategy owns.
    pub open(crate) spec fn spec_id(&self) -> u8 {
        self.id
    }

    /// The robot that passes.
    pub open(crate) spec fn spec_passer_id(&self) -> u8 {
        self.passer_id
    }

    /// The line on which the pass is expected.
    pub open(crate) spec fn spec_passing_trajectory(&self) -> Line {
        self.passing_trajectory
    }

    /// What the strategy has to tell since its last step.
    pub open(crate) spec fn spec_messages(&self) -> Seq<MessageData> {
        self.messages@
    }

    /// A receiver that owns the robot `id` and expects a pass from
    /// `passer_id` along `passing_trajectory`.
    pub fn new(id: u8, passer_id: u8, passing_trajectory: Line) -> (r: Receiver)
        ensures
            r.spec_id() == id,
            r.spec_passer_id() == passer_id,
            r.spec_passing_trajectory() == passing_trajectory,
            r.spec_messages() == Seq::<MessageData>::empty(),
    {
        Receiver { id, passer_id, passing_trajectory, messages: Vec::new() }
    }

    /// The name of the strategy.
    pub fn name(&self) -> (r: &'static str)
        ensures
            r@ == "Receiver"@,
    {
        "Receiver"
    }

    /// What the strategy has to tell since its last step.
    pub fn get_messages(&self) -> (r: &Vec<MessageData>)
        ensures
            r@ == self.spec_messages(),
    {
        &self.messages
    }

    /// The robots that the strategy owns.
    pub fn get_ids(&self) -> (r: Vec<u8>)
        ensures
            r@ == seq![self.spec_id()],
    {
        let mut ids: Vec<u8> = Vec::new();
        ids.push(self.id);
        assert(ids@ =~= seq![self.id]);
        ids
    }

    /// Hands the strategy another robot, if `ids` names exactly one.
    pub fn put_ids(&mut self, ids: Vec<u8>)
        ensures
            final(self).spec_id() == if ids@.len() == 1 {
                ids@[0]
            } else {
                old(self).spec_id()
            },
            final(self).spec_passer_id() == old(self).spec_passer_id(),
            final(self).spec_passing_trajectory() == old(self).spec_passing_trajectory(),
            final(self).spec_messages() == old(self).spec_messages(),
    {
        if ids.len() == 1 {
            self.id = ids[0];
        }
    }

    /// One tick of the strategy: the queue of its robot is emptied and gets
    /// the move that `spec_receiver_decision` tells. The strategy is never
    /// done and tells nothing.
    pub fn step(&mut self, world: &World, action_wrapper: &mut ActionWrapper) -> (done: bool)
        ensures
            !done,
            final(self).spec_id() == old(self).spec_id(),
            final(self).spec_passer_id() == old(self).spec_passer_id(),
            final(self).spec_passing_trajectory() == old(self).spec_passing_trajectory(),
            final(self).spec_messages() == old(self).spec_messages(),
            final(action_wrapper)@ == ActionWrapper::spec_replaced(
                old(action_wrapper)@,
                old(self).spec_id(),
                spec_receiver_decision(
                    *world,
                    old(self).spec_id(),
                    old(self).spec_passer_id(),
                    old(self).spec_passing_trajectory(),
                ),
            ),
    {
        let decision = receiver_decision(world, self.id, self.passer_id, &self.passing_trajectory);
        action_wrapper.replace(self.id, decision);
        false
    }
}

} // verus!
