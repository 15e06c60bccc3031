//! Marking: a robot that stays between an enemy robot and the ball.

use vstd::prelude::*;
use crate::action::ActionWrapper;
use crate::action::MoveTo;
use crate::actions::closer_than;
use crate::actions::SLOW_BALL_SPEED2;
use crate::math::closest_point_on_ray;
use crate::math::isqrt;
use crate::math::offset_along;
use crate::math::ray_hits_segment;
use crate::math::spec_closest_point_on_ray;
use crate::math::spec_isqrt;
use crate::math::spec_offset_along;
use crate::math::spec_ray_hits_segment;
use crate::math::Line;
use crate::math::Vec2;
use crate::math::METRE;
use crate::message::MessageData;
use crate::output::Kick;
use crate::utils::closest_bot_to_point;
use crate::utils::collect_refs;
use crate::utils::spec_closest_index;
use crate::utils::spec_refs;
use crate::world::AllyInfo;
use crate::world::Ball;
use crate::world::World;

verus! {

/// Distance to keep from our attacker, beyond the radius of a robot (0.5 m).
pub const DISTANCE_FROM_ATTACKER: i64 = 500_000;

/// Tolerance of the test that tells whether a point lies between the two
/// lines from our attacker to the enemy posts (0.01 m).
pub const INACCURACY: i64 = 10_000;

/// How far a marker steps aside to leave the way to the goal open (0.25 m).
pub const DISTANCE_FROM_GOAL_TRAJECTORY: i64 = 250_000;

/// The distance of the marker from its enemy, beyond the radius of a robot,
/// is this number divided by the distance from the enemy to the ball: 0.2 m
/// where the ball is 1 m away.
pub const MARKING_REACH: i64 = 200_000_000_000;

/// The distance of the marker from its enemy is never more than this.
pub const MARKING_REACH_MAX: i64 = 10_000_000_000;

/// Marking: owns one robot and holds the enemy that it marks.
pub struct BotMarking {
    pub(crate) id: u8,
    pub(crate) messages: Vec<MessageData>,
    pub(crate) enemy_id: u8,
}

/// How far from the enemy the marker stands, for an enemy at the distance
/// `to_ball` from the ball.
pub open spec fn spec_marking_distance(world: World, to_ball: int) -> int {
    if to_ball <= 0 {
        world.geometry.robot_radius as int
    } else {
        let d = world.geometry.robot_radius + (MARKING_REACH as int) / to_ball;
        if d > MARKING_REACH_MAX {
            MARKING_REACH_MAX as int
        } else {
            d
        }
    }
}

/// The distance between two points, rounded down to the micrometre.
pub open spec fn spec_distance(a: Vec2, b: Vec2) -> int {
    spec_isqrt(a.spec_dist2(b))
}

/// The distance between two points, rounded down to the micrometre.
pub fn distance(a: &Vec2, b: &Vec2) -> (r: i64)
    ensures
        r == spec_distance(*a, *b),
        0 <= r < 0x1_0000_0000,
{
    isqrt(a.dist2(b) as u64) as i64
}

/// `point` moved out of the way of our attacker at `attacker`: at least 0.5 m
/// and the radius of a robot away from it, and where it would stand between
/// the lines from the attacker to the two posts of the enemy goal, a quarter
/// of a metre aside, to the side of the nearer of the two lines.
pub open spec fn spec_clear_of_attacker(world: World, attacker: Vec2, point: Vec2) -> Vec2 {
    let keep_off = DISTANCE_FROM_ATTACKER + world.geometry.robot_radius;
    let apart = if attacker.spec_dist2(point) < keep_off * keep_off {
        spec_offset_along(attacker, attacker.spec_delta_to(point), keep_off)
    } else {
        point
    };
    let goal = world.geometry.enemy_goal.spec_line();
    let on_lower = (Line { start: attacker, end: goal.start }).spec_closest_point_on_segment(apart);
    let on_upper = (Line { start: attacker, end: goal.end }).spec_closest_point_on_segment(apart);
    let to_lower = spec_distance(apart, on_lower);
    let to_upper = spec_distance(apart, on_upper);
    let across = spec_distance(on_lower, on_upper);
    if to_lower + to_upper - INACCURACY < across && across < to_lower + to_upper + INACCURACY {
        if to_lower < to_upper {
            Vec2::spec_new(apart.sx(), apart.sy() - DISTANCE_FROM_GOAL_TRAJECTORY)
        } else {
            Vec2::spec_new(apart.sx(), apart.sy() + DISTANCE_FROM_GOAL_TRAJECTORY)
        }
    } else {
        apart
    }
}

/// `point` moved out of the way of our attacker at `attacker`.
pub fn clear_of_attacker(world: &World, attacker: &Vec2, point: &Vec2) -> (r: Vec2)
    ensures
        r == spec_clear_of_attacker(*world, *attacker, *point),
{
    let keep_off: i64 = DISTANCE_FROM_ATTACKER + world.geometry.robot_radius as i64;
    let apart = if closer_than(attacker, point, keep_off) {
        offset_along(attacker, &attacker.delta_to(point), keep_off)
    } else {
        *point
    };
    let goal = world.geometry.enemy_goal.line();
    let on_lower = Line::new(*attacker, goal.start).closest_point_on_segment(&apart);
    let on_upper = Line::new(*attacker, goal.end).closest_point_on_segment(&apart);
    let to_lower = distance(&apart, &on_lower);
    let to_upper = distance(&apart, &on_upper);
    let across = distance(&on_lower, &on_upper);
    if to_lower + to_upper - INACCURACY < across && across < to_lower + to_upper + INACCURACY {
        if to_lower < to_upper {
            Vec2::new(apart.x() as i64, apart.y() as i64 - DISTANCE_FROM_GOAL_TRAJECTORY)
        } else {
            Vec2::new(apart.x() as i64, apart.y() as i64 + DISTANCE_FROM_GOAL_TRAJECTORY)
        }
    } else {
        apart
    }
}

/// Whether the path of the ball passes within 1 m of `point`.
pub open spec fn spec_path_near(ball: Ball, point: Vec2) -> bool {
    let on_path = spec_closest_point_on_ray(
        ball.spec_position_2d(),
        ball.velocity.spec_xy().spec_as_delta(),
        point,
    );
    point.spec_dist2(on_path) < METRE * METRE
}

/// Whether the path of the ball passes within 1 m of `point`.
pub fn path_near(ball: &Ball, point: &Vec2) -> (r: bool)
    ensures
        r == spec_path_near(*ball, *point),
{
    let on_path = closest_point_on_ray(&ball.position_2d(), &ball.velocity.xy().as_delta(), point);
    point.within(&on_path, METRE)
}

/// The move of the marker `id` of the enemy `enemy_id`.
///
/// Without the ball or one of the two robots, none. Where the ball is faster
/// than 0.4 m/s, its path passes within 1 m of the enemy or of the marker and
/// does not end in the enemy goal: to the point of the path nearest to the
/// marker. Else to the point on the side of the enemy where the ball is, the
/// radius of a robot away from it and 0.2 m more for each metre at which the
/// ball is nearer than one metre in proportion, moved out of the way of our
/// attacker, which is the ally nearest to the ball, unless the marker is that
/// ally. Either way the marker faces the ball, has its dribbler on within 1 m
/// of the ball and holds a straight kick of no power.
pub open spec fn spec_marking_decision(world: World, id: u8, enemy_id: u8) -> Option<MoveTo> {
    match (world.ball, world.allies_bot.spec_get(id), world.enemies_bot.spec_get(enemy_id)) {
        (Some(ball), Some(robot), Some(enemy)) => {
            let ball_position = ball.spec_position_2d();
            let allies = spec_refs::<AllyInfo>(world.allies_bot@);
            let attacker = allies[spec_closest_index(allies, ball_position)];
            let path = ball.velocity.spec_xy().spec_as_delta();
            let target = if ball.velocity.spec_norm2() > SLOW_BALL_SPEED2 && (spec_path_near(
                ball,
                enemy.pose.position,
            ) || spec_path_near(ball, robot.pose.position)) && !spec_ray_hits_segment(
                ball_position,
                path,
                world.geometry.enemy_goal.spec_line(),
            ) {
                spec_closest_point_on_ray(ball_position, path, robot.pose.position)
            } else {
                let to_ball = enemy.pose.position.spec_delta_to(ball_position);
                let beside = spec_offset_along(
                    enemy.pose.position,
                    to_ball,
                    spec_marking_distance(world, spec_isqrt(to_ball.spec_norm2())),
                );
                if attacker.id != id {
                    spec_clear_of_attacker(world, attacker.pose.position, beside)
                } else {
                    beside
                }
            };
            Some(
                MoveTo {
                    target,
                    orientation: robot.pose.position.spec_delta_to(ball_position),
                    dribbler: if robot.spec_dist2_to(ball_position) < METRE * METRE {
                        1
                    } else {
                        0
                    },
                    charge: false,
                    kick: Some(Kick::StraightKick { power: 0 }),
                    avoidance: true,
                },
            )
        },
        _ => None,
    }
}

/// The move of the marker `id` of the enemy `enemy_id`.
pub fn marking_decision(world: &World, id: u8, enemy_id: u8) -> (r: Option<MoveTo>)
    ensures
        r == spec_marking_decision(*world, id, enemy_id),
{
    let ball = match &world.ball {
        Some(ball) => ball,
        None => {
            return None;
        },
    };
    let robot = match world.allies_bot.get(id) {
        Some(robot) => robot,
        None => {
            return None;
        },
    };
    let enemy = match world.enemies_bot.get(enemy_id) {
        Some(enemy) => enemy,
        None => {
            return None;
        },
    };
    let ball_position = ball.position_2d();
    proof {
        crate::world::lemma_position_of(world.allies_bot@, id);
    }
    let attacker = match closest_bot_to_point(collect_refs(world.allies_bot.values()), ball_position) {
        Some(attacker) => attacker,
        None => {
            return None;
        },
    };
    let path = ball.velocity.xy().as_delta();
    let goal = world.geometry.enemy_goal.line();
    let target = if ball.velocity.norm2() > SLOW_BALL_SPEED2 && (path_near(
        ball,
        &enemy.pose.position,
    ) || path_near(ball, &robot.pose.position)) && !ray_hits_segment(&ball_position, &path, &goal) {
        closest_point_on_ray(&ball_position, &path, &robot.pose.position)
    } else {
        let to_ball = enemy.pose.position.delta_to(&ball_position);
        let far = isqrt(to_ball.norm2() as u64) as i64;
        let reach: i64 = if far == 0 {
            world.geometry.robot_radius as i64
        } else {
            let d = world.geometry.robot_radius as i64 + MARKING_REACH / far;
            if d > MARKING_REACH_MAX {
                MARKING_REACH_MAX
            } else {
                d
            }
        };
        let beside = offset_along(&enemy.pose.position, &to_ball, reach);
        if attacker.id != id {
            clear_of_attacker(world, &attacker.pose.position, &beside)
        } else {
            beside
        }
    };
    let dribbler: u32 = if robot.pose.position.within(&ball_position, METRE) {
        1
    } else {
        0
    };
    Some(
        MoveTo::new(
            target,
            robot.pose.position.delta_to(&ball_position),
            dribbler,
            false,
            Some(Kick::StraightKick { power: 0 }),
            true,
        ),
    )
}

impl BotMarking {
    /// The robot that the strategy owns.
    pub open(crate) spec fn spec_id(&self) -> u8 {
        self.id
    }

    /// The enemy robot that is marked.
    pub open(crate) spec fn spec_enemy_id(&self) -> u8 {
        self.enemy_id
    }

    /// What the strategy has to tell since its last step.
    pub open(crate) spec fn spec_messages(&self) -> Seq<MessageData> {
        self.messages@
    }

    /// A marker that owns the robot `id` and marks the enemy `enemy_id`.
    pub fn new(id: u8, enemy_id: u8) -> (r: BotMarking)
        ensures
            r.spec_id() == id,
            r.spec_enemy_id() == enemy_id,
            r.spec_messages() == Seq::<MessageData>::empty(),
    {
        BotMarking { id, messages: Vec::new(), enemy_id }
    }

    /// The name of the strategy.
    pub fn name(&self) -> (r: &'static str)
        ensures
            r@ == "BotMarking"@,
    {
        "BotMarking"
    }

    /// What the strategy has to tell since its last step.
    pub fn get_messages(&self) -> (r: &Vec<MessageData>)
        ensures
            r@ == self.spec_messages(),
    {
        &self.messages
    }

    /// The robots that the strategy owns.
    pub fn get_ids(&self) -> (r: Vec<u8>)
        ensures
            r@ == seq![self.spec_id()],
    {
        let mut ids: Vec<u8> = Vec::new();
        ids.push(self.id);
        assert(ids@ =~= seq![self.id]);
        ids
    }

    /// The enemy robot that is marked.
    pub fn enemy_id(&self) -> (r: u8)
        ensures
            r == self.spec_enemy_id(),
    {
        self.enemy_id
    }

    /// Hands the strategy another robot, if `ids` names exactly one.
    pub fn put_ids(&mut self, ids: Vec<u8>)
        ensures
            final(self).spec_id() == if ids@.len() == 1 {
                ids@[0]
            } else {
                old(self).spec_id()
            },
            final(self).spec_enemy_id() == old(self).spec_enemy_id(),
            final(self).spec_messages() == old(self).spec_messages(),
    {
        if ids.len() == 1 {
            self.id = ids[0];
        }
    }

    /// One tick of the strategy: the queue of its robot is emptied and gets
    /// the move that `spec_marking_decision` tells. The strategy is never done
    /// and tells nothing.
    pub fn step(&mut self, world: &World, action_wrapper: &mut ActionWrapper) -> (done: bool)
        ensures
            !done,
            final(self).spec_id() == old(self).spec_id(),
            final(self).spec_enemy_id() == old(self).spec_enemy_id(),
            final(self).spec_messages() == old(self).spec_messages(),
            final(action_wrapper)@ == ActionWrapper::spec_replaced(
                old(action_wrapper)@,
                old(self).spec_id(),
                spec_marking_decision(*world, old(self).spec_id(), old(self).spec_enemy_id()),
            ),
    {
        let decision = marking_decision(world, self.id, self.enemy_id);
        action_wrapper.replace(self.id, decision);
        false
    }
}

} // verus!
