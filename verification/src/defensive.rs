//! The strategies that keep the ball out of our goal: the goalkeeper, the
//! wall in front of the goal and the robot that contests the ball.

use vstd::prelude::*;
use crate::action::ActionWrapper;
use crate::action::MoveTo;
use crate::actions::closer_than;
use crate::actions::KICK_POWER;
use crate::actions::SLOW_BALL_SPEED2;
use crate::math::closest_point_on_ray;
use crate::math::offset_along;
use crate::math::ray_meets_upright;
use crate::math::spec_closest_point_on_ray;
use crate::math::spec_offset_along;
use crate::math::spec_ray_meets_upright;
use crate::math::Vec2;
use crate::math::METRE;
use crate::message::MessageData;
use crate::output::Kick;
use crate::world::World;
use crate::world::MAX_ROBOTS;

verus! {

/// The goalkeeper: owns one robot.
pub struct GoalKeeper {
    pub(crate) id: u8,
    pub(crate) messages: Vec<MessageData>,
}

/// The move of the goalkeeper `id`.
///
/// Without its robot or without the ball, none. Else it goes to the point of
/// our goal line nearest to where the path of the ball meets the line of the
/// goal, or nearest to the ball where the path does not meet that line. It
/// faces the ball, keeps the dribbler off and kicks straight where the ball
/// is within the radii of robot and ball of it and it faces the enemy half.
pub open spec fn spec_keeper_decision(world: World, id: u8) -> Option<MoveTo> {
    match (world.allies_bot.spec_get(id), world.ball) {
        (Some(robot), Some(ball)) => {
            let goal = world.geometry.ally_goal.spec_line();
            let ball_position = ball.spec_position_2d();
            let aim = match spec_ray_meets_upright(
                ball_position,
                ball.velocity.spec_xy().spec_as_delta(),
                goal.start.sx(),
            ) {
                Some(point) => point,
                None => ball_position,
            };
            let reach = world.geometry.robot_radius + world.geometry.ball_radius;
            let kicks = robot.spec_dist2_to(ball_position) < reach * reach
                && robot.pose.heading.sx() > 0;
            Some(
                MoveTo {
                    target: goal.spec_closest_point_on_segment(aim),
                    orientation: robot.pose.position.spec_delta_to(ball_position),
                    dribbler: 0,
                    charge: kicks,
                    kick: if kicks {
                        Some(Kick::StraightKick { power: KICK_POWER })
                    } else {
                        None
                    },
                    avoidance: false,
                },
            )
        },
        _ => None,
    }
}

/// The move of the goalkeeper `id`.
pub fn keeper_decision(world: &World, id: u8) -> (r: Option<MoveTo>)
    ensures
        r == spec_keeper_decision(*world, id),
{
    let robot = match world.allies_bot.get(id) {
        Some(robot) => robot,
        None => {
            return None;
        },
    };
    let ball = match &world.ball {
        Some(ball) => ball,
        None => {
            return None;
        },
    };
    let goal = world.geometry.ally_goal.line();
    let ball_position = ball.position_2d();
    let aim = match ray_meets_upright(
        &ball_position,
        &ball.velocity.xy().as_delta(),
        goal.start.x(),
    ) {
        Some(point) => point,
        None => ball_position,
    };
    let reach: i64 = world.geometry.robot_radius as i64 + world.geometry.ball_radius as i64;
    let kicks = closer_than(&robot.pose.position, &ball_position, reach) && robot.pose.heading.x()
        > 0;
    Some(
        MoveTo::new(
            goal.closest_point_on_segment(&aim),
            robot.pose.position.delta_to(&ball_position),
            0,
            kicks,
            if kicks {
                Some(Kick::StraightKick { power: KICK_POWER })
            } else {
                None
            },
            false,
        ),
    )
}

impl GoalKeeper {
    /// The robot that the strategy owns.
    pub open(crate) spec fn spec_id(&self) -> u8 {
        self.id
    }

    /// What the strategy has to tell since its last step.
    pub open(crate) spec fn spec_messages(&self) -> Seq<MessageData> {
        self.messages@
    }

    /// A goalkeeper that owns the robot `id`.
    pub fn new(id: u8) -> (r: GoalKeeper)
        ensures
            r.spec_id() == id,
            r.spec_messages() == Seq::<MessageData>::empty(),
    {
        GoalKeeper { id, messages: Vec::new() }
    }

    /// The name of the strategy.
    pub fn name(&self) -> (r: &'static str)
        ensures
            r@ == "GoalKeeper"@,
    {
        "GoalKeeper"
    }

    /// What the strategy has to tell since its last step.
    pub fn get_messages(&self) -> (r: &Vec<MessageData>)
        ensures
            r@ == self.spec_messages(),
    {
        &self.messages
    }

    /// The robots that the strategy owns.
    pub fn get_ids(&self) -> (r: Vec<u8>)
        ensures
            r@ == seq![self.spec_id()],
    {
        let mut ids: Vec<u8> = Vec::new();
        ids.push(self.id);
        assert(ids@ =~= seq![self.id]);
        ids
    }

    /// Hands the strategy another robot, if `ids` names exactly one.
    pub fn put_ids(&mut self, ids: Vec<u8>)
        ensures
            final(self).spec_id() == if ids@.len() == 1 {
                ids@[0]
            } else {
                old(self).spec_id()
            },
            final(self).spec_messages() == old(self).spec_messages(),
    {
        if ids.len() == 1 {
            self.id = ids[0];
        }
    }

    /// One tick of the strategy: the queue of its robot is emptied and gets
    /// the move that `spec_keeper_decision` tells. The strategy is never done
    /// and tells nothing.
    pub fn step(&mut self, world: &World, action_wrapper: &mut ActionWrapper) -> (done: bool)
        ensures
            !done,
            final(self).spec_id() == old(self).spec_id(),
            final(self).spec_messages() == old(self).spec_messages(),
            final(action_wrapper)@ == ActionWrapper::spec_replaced(
                old(action_wrapper)@,
                old(self).spec_id(),
                spec_keeper_decision(*world, old(self).spec_id()),
            ),
    {
        let decision = keeper_decision(world, self.id);
        action_wrapper.replace(self.id, decision);
        false
    }
}

/// The robot that contests the ball: owns one robot.
pub struct BotContesting {
    pub(crate) id: u8,
    pub(crate) messages: Vec<MessageData>,
}

/// The move of the robot `id` that contests the ball.
///
/// Without its robot or without the ball, none. While the ball is slower
/// than 0.4 m/s it goes to the point between the ball and the middle of our
/// goal at which it touches the ball, else to the point of the path of the
/// ball nearest to it. It faces the ball, has the dribbler on within 1 m of
/// the ball and does not kick.
pub open spec fn spec_contesting_decision(world: World, id: u8) -> Option<MoveTo> {
    match (world.allies_bot.spec_get(id), world.ball) {
        (Some(robot), Some(ball)) => {
            let ball_position = ball.spec_position_2d();
            let target = if ball.velocity.spec_norm2() < SLOW_BALL_SPEED2 {
                spec_offset_along(
                    ball_position,
                    ball_position.spec_delta_to(world.geometry.ally_goal.spec_line().spec_center()),
                    world.geometry.robot_radius + world.geometry.ball_radius,
                )
            } else {
                spec_closest_point_on_ray(
                    ball_position,
                    ball.velocity.spec_xy().spec_as_delta(),
                    robot.pose.position,
                )
            };
            Some(
                MoveTo {
                    target,
                    orientation: robot.pose.position.spec_delta_to(ball_position),
                    dribbler: if robot.spec_dist2_to(ball_position) < METRE * METRE {
                        1
                    } else {
                        0
                    },
                    charge: false,
                    kick: None,
                    avoidance: true,
                },
            )
        },
        _ => None,
    }
}

/// The move of the robot `id` that contests the ball.
pub fn contesting_decision(world: &World, id: u8) -> (r: Option<MoveTo>)
    ensures
        r == spec_contesting_decision(*world, id),
{
    let robot = match world.allies_bot.get(id) {
        Some(robot) => robot,
        None => {
            return None;
        },
    };
    let ball = match &world.ball {
        Some(ball) => ball,
        None => {
            return None;
        },
    };
    let ball_position = ball.position_2d();
    let target = if ball.velocity.norm2() < SLOW_BALL_SPEED2 {
        offset_along(
            &ball_position,
            &ball_position.delta_to(&world.geometry.ally_goal.line().center()),
            world.geometry.robot_radius as i64 + world.geometry.ball_radius as i64,
        )
    } else {
        closest_point_on_ray(&ball_position, &ball.velocity.xy().as_delta(), &robot.pose.position)
    };
    let dribbler: u32 = if robot.pose.position.within(&ball_position, METRE) {
        1
    } else {
        0
    };
    Some(
        MoveTo::new(
            target,
            robot.pose.position.delta_to(&ball_position),
            dribbler,
            false,
            None,
            true,
        ),
    )
}

impl BotContesting {
    /// The robot that the strategy owns.
    pub open(crate) spec fn spec_id(&self) -> u8 {
        self.id
    }

    /// What the strategy has to tell since its last step.
    pub open(crate) spec fn spec_messages(&self) -> Seq<MessageData> {
        self.messages@
    }

    /// A contester that owns the robot `id`.
    pub fn new(id: u8) -> (r: BotContesting)
        ensures
            r.spec_id() == id,
            r.spec_messages() == Seq::<MessageData>::empty(),
    {
        BotContesting { id, messages: Vec::new() }
    }

    /// The name of the strategy.
    pub fn name(&self) -> (r: &'static str)
        ensures
            r@ == "BotContesting"@,
    {
        "BotContesting"
    }

    /// What the strategy has to tell since its last step.
    pub fn get_messages(&self) -> (r: &Vec<MessageData>)
        ensures
            r@ == self.spec_messages(),
    {
        &self.messages
    }

    /// The robots that the strategy owns.
    pub fn get_ids(&self) -> (r: Vec<u8>)
        ensures
            r@ == seq![self.spec_id()],
    {
        let mut ids: Vec<u8> = Vec::new();
        ids.push(self.id);
        assert(ids@ =~= seq![self.id]);
        ids
    }

    /// Hands the strategy another robot, if `ids` names exactly one.
    pub fn put_ids(&mut self, ids: Vec<u8>)
        ensures
            final(self).spec_id() == if ids@.len() == 1 {
                ids@[0]
            } else {
                old(self).spec_id()
            },
            final(self).spec_messages() == old(self).spec_messages(),
    {
        if ids.len() == 1 {
            self.id = ids[0];
        }
    }

    /// One tick of the strategy: the queue of its robot is emptied and gets
    /// the move that `spec_contesting_decision` tells. The strategy is never
    /// done and tells nothing.
    pub fn step(&mut self, world: &World, action_wrapper: &mut ActionWrapper) -> (done: bool)
        ensures
            !done,
            final(self).spec_id() == old(self).spec_id(),
            final(self).spec_messages() == old(self).spec_messages(),
            final(action_wrapper)@ == ActionWrapper::spec_replaced(
                old(action_wrapper)@,
                old(self).spec_id(),
                spec_contesting_decision(*world, old(self).spec_id()),
            ),
    {
        let decision = contesting_decision(world, self.id);
        action_wrapper.replace(self.id, decision);
        false
    }
}

/// How far in front of the middle of our goal the wall stands unless it is
/// told otherwise (1 m).
pub const DEFAULT_WALL_DISTANCE: u32 = 1_000_000;

/// No robot of the wall stands farther than this from its middle.
pub const WALL_HALF_WIDTH_MAX: i64 = 10_000_000_000;

/// The wall in front of our goal: owns any number of robots, of which the
/// first sixteen take a place.
pub struct DefenseWall {
    pub(crate) ids: Vec<u8>,
    pub(crate) messages: Vec<MessageData>,
    pub(crate) distance: u32,
}

/// Number of robots of the wall that take a place.
pub open spec fn spec_wall_size(ids: Seq<u8>) -> int {
    if ids.len() > MAX_ROBOTS {
        MAX_ROBOTS as int
    } else {
        ids.len() as int
    }
}

/// How far from the middle of the wall its robot number `k` stands, counted
/// to the left as seen from our goal: the robots stand two radii apart,
/// as many on one side of the middle as on the other.
pub open spec fn spec_wall_shift(world: World, ids: Seq<u8>, k: int) -> int {
    (2 * k - (spec_wall_size(ids) - 1)) * world.geometry.robot_radius
}

/// Where the robot number `k` of the wall stands while the ball is at
/// `ball_position`: on the line across the way from the middle of our goal to
/// the ball, `distance` in front of the goal.
pub open spec fn spec_wall_place(
    world: World,
    ids: Seq<u8>,
    distance: u32,
    ball_position: Vec2,
    k: int,
) -> Vec2 {
    let center = world.geometry.ally_goal.spec_line().spec_center();
    let to_ball = center.spec_delta_to(ball_position);
    let middle = spec_offset_along(center, to_ball, distance as int);
    let shift = spec_wall_shift(world, ids, k);
    let wide = if shift >= 0 {
        shift
    } else {
        -shift
    };
    spec_offset_along(
        middle,
        if shift >= 0 {
            to_ball.spec_quarter_turn()
        } else {
            to_ball.spec_quarter_turn().spec_reversed()
        },
        if wide > WALL_HALF_WIDTH_MAX {
            WALL_HALF_WIDTH_MAX as int
        } else {
            wide
        },
    )
}

/// The move of the robot number `k` of the wall: to its place, facing the
/// ball, with the dribbler off. None without the ball or without the robot,
/// or for a robot beyond the sixteenth.
pub open spec fn spec_wall_decision(world: World, ids: Seq<u8>, distance: u32, k: int) -> Option<
    MoveTo,
> {
    if 0 <= k < spec_wall_size(ids) {
        match (world.ball, world.allies_bot.spec_get(ids[k])) {
            (Some(ball), Some(robot)) => Some(
                MoveTo {
                    target: spec_wall_place(world, ids, distance, ball.spec_position_2d(), k),
                    orientation: robot.pose.position.spec_delta_to(ball.spec_position_2d()),
                    dribbler: 0,
                    charge: false,
                    kick: None,
                    avoidance: true,
                },
            ),
            _ => None,
        }
    } else {
        None
    }
}

/// The move of the robot number `k` of the wall.
pub fn wall_decision(world: &World, ids: &Vec<u8>, distance: u32, k: usize) -> (r: Option<MoveTo>)
    requires
        k < ids@.len(),
    ensures
        r == spec_wall_decision(*world, ids@, distance, k as int),
{
    let size: usize = if ids.len() > MAX_ROBOTS {
        MAX_ROBOTS
    } else {
        ids.len()
    };
    if k >= size {
        return None;
    }
    let ball = match &world.ball {
        Some(ball) => ball,
        None => {
            return None;
        },
    };
    let robot = match world.allies_bot.get(ids[k]) {
        Some(robot) => robot,
        None => {
            return None;
        },
    };
    let ball_position = ball.position_2d();
    let center = world.geometry.ally_goal.line().center();
    let to_ball = center.delta_to(&ball_position);
    let middle = offset_along(&center, &to_ball, distance as i64);
    let steps: i64 = 2 * (k as i64) - (size as i64 - 1);
    assert(-15 <= steps <= 31);
    let radius = world.geometry.robot_radius as i64;
    assert(-15 * 0x1_0000_0000 <= steps * radius <= 31 * 0x1_0000_0000) by (nonlinear_arith)
        requires
            -15 <= steps <= 31,
            0 <= radius < 0x1_0000_0000,
    ;
    let shift: i64 = steps * radius;
    let wide: i64 = if shift >= 0 {
        shift
    } else {
        -shift
    };
    let across = if shift >= 0 {
        to_ball.quarter_turn()
    } else {
        to_ball.quarter_turn().reversed()
    };
    let place = offset_along(
        &middle,
        &across,
        if wide > WALL_HALF_WIDTH_MAX {
            WALL_HALF_WIDTH_MAX
        } else {
            wide
        },
    );
    Some(MoveTo::new(place, robot.pose.position.delta_to(&ball_position), 0, false, None, true))
}

/// The intents after the first `upto` robots of the wall have had their
/// queues emptied and got their moves.
pub open spec fn spec_wall_step(
    world: World,
    ids: Seq<u8>,
    distance: u32,
    actions: Seq<(u8, crate::action::Action)>,
    upto: int,
) -> Seq<(u8, crate::action::Action)>
    decreases upto,
{
    if upto <= 0 {
        actions
    } else {
        ActionWrapper::spec_replaced(
            spec_wall_step(world, ids, distance, actions, upto - 1),
            ids[upto - 1],
            spec_wall_decision(world, ids, distance, upto - 1),
        )
    }
}

impl DefenseWall {
    /// The robots that the strategy owns.
    pub open(crate) spec fn spec_ids(&self) -> Seq<u8> {
        self.ids@
    }

    /// How far in front of the goal the wall stands.
    pub open(crate) spec fn spec_distance(&self) -> u32 {
        self.distance
    }

    /// What the strategy has to tell since its last step.
    pub open(crate) spec fn spec_messages(&self) -> Seq<MessageData> {
        self.messages@
    }

    /// A wall of the robots `ids`, [`DEFAULT_WALL_DISTANCE`] in front of the
    /// goal.
    pub fn new(ids: Vec<u8>) -> (r: DefenseWall)
        ensures
            r.spec_ids() == ids@,
            r.spec_distance() == DEFAULT_WALL_DISTANCE,
            r.spec_messages() == Seq::<MessageData>::empty(),
    {
        DefenseWall { ids, messages: Vec::new(), distance: DEFAULT_WALL_DISTANCE }
    }

    /// A wall of the robots `ids`, `distance` in front of the goal.
    pub fn with_distance(ids: Vec<u8>, distance: u32) -> (r: DefenseWall)
        ensures
            r.spec_ids() == ids@,
            r.spec_distance() == distance,
            r.spec_messages() == Seq::<MessageData>::empty(),
    {
        DefenseWall { ids, messages: Vec::new(), distance }
    }

    /// The name of the strategy.
    pub fn name(&self) -> (r: &'static str)
        ensures
            r@ == "DefenseWall"@,
    {
        "DefenseWall"
    }

    /// What the strategy has to tell since its last step.
    pub fn get_messages(&self) -> (r: &Vec<MessageData>)
        ensures
            r@ == self.spec_messages(),
    {
        &self.messages
    }

    /// The robots that the strategy owns.
    pub fn get_ids(&self) -> (r: Vec<u8>)
        ensures
            r@ == self.spec_ids(),
    {
        self.ids.clone()
    }

    /// Hands the strategy other robots.
    pub fn put_ids(&mut self, ids: Vec<u8>)
        ensures
            final(self).spec_ids() == ids@,
            final(self).spec_distance() == old(self).spec_distance(),
            final(self).spec_messages() == old(self).spec_messages(),
    {
        self.ids = ids;
    }

    /// The intents after one tick of the wall: the queue of each of its
    /// robots is emptied, and with the ball on the field each gets the move
    /// that `spec_wall_decision` tells.
    pub open spec fn spec_step(
        world: World,
        ids: Seq<u8>,
        distance: u32,
        actions: Seq<(u8, crate::action::Action)>,
    ) -> Seq<(u8, crate::action::Action)> {
        if world.ball is Some {
            spec_wall_step(world, ids, distance, actions, ids.len() as int)
        } else {
            crate::action::spec_cleared(actions, ids, ids.len() as int)
        }
    }

    /// One tick of the strategy: the queue of each of its robots is emptied,
    /// and with the ball on the field each gets the move that
    /// `spec_wall_decision` tells. The strategy is never done and tells
    /// nothing.
    pub fn step(&mut self, world: &World, action_wrapper: &mut ActionWrapper) -> (done: bool)
        ensures
            !done,
            final(self).spec_ids() == old(self).spec_ids(),
            final(self).spec_distance() == old(self).spec_distance(),
            final(self).spec_messages() == old(self).spec_messages(),
            final(action_wrapper)@ == Self::spec_step(
                *world,
                old(self).spec_ids(),
                old(self).spec_distance(),
                old(action_wrapper)@,
            ),
    {
        if world.ball.is_none() {
            crate::action::clear_queues(action_wrapper, &self.ids);
            return false;
        }
        let mut k: usize = 0;
        while k < self.ids.len()
            invariant
                0 <= k <= self.ids.len(),
                *self == *old(self),
                action_wrapper@ == spec_wall_step(
                    *world,
                    self.ids@,
                    self.distance,
                    old(action_wrapper)@,
                    k as int,
                ),
            decreases self.ids.len() - k,
        {
            let decision = wall_decision(world, &self.ids, self.distance, k);
            action_wrapper.replace(self.ids[k], decision);
            k += 1;
        }
        false
    }
}

} // verus!
