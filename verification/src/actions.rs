//! The moves that several strategies share: going for a rolling ball and
//! shooting at a point of the enemy goal.

use vstd::prelude::*;
use crate::action::MoveTo;
use crate::math::closest_point_on_ray;
use crate::math::offset_along;
use crate::math::ray_hits_segment;
use crate::math::spec_closest_point_on_ray;
use crate::math::spec_offset_along;
use crate::math::spec_ray_hits_segment;
use crate::math::Circle;
use crate::math::Line;
use crate::math::Vec2;
use crate::output::Kick;
use crate::world::AllyInfo;
use crate::world::Ball;
use crate::world::Robot;
use crate::world::World;

verus! {

/// Square of the speed below which the ball counts as lying still (0.4 m/s).
pub const SLOW_BALL_SPEED2: i64 = 160_000_000_000;

/// Square of the speed above which the ball counts as rolling fast (1 m/s).
pub const FAST_BALL_SPEED2: i64 = 1_000_000_000_000;

/// Distance to the ball below which the dribbler is switched on (0.2 m).
pub const DRIBBLE_RANGE: i64 = 200_000;

/// Distance behind the ball at which a shot is prepared (0.3 m).
pub const GO_BEHIND_BALL_DIST: i64 = 300_000;

/// What is added to the radii of the robot and of the ball to get the
/// distance at which the robot can kick (0.002 m).
pub const KICK_MARGIN: u32 = 2_000;

/// Speed given to a ball that is shot (4 m/s).
pub const KICK_POWER: u32 = 4_000_000;

/// Dribbler setting while the ball is held for a shot.
pub const SHOOT_DRIBBLER: u32 = 200;

/// What `intercept` decides.
pub open spec fn spec_intercept(robot: Robot<AllyInfo>, ball: Ball) -> MoveTo {
    let ball_position = ball.spec_position_2d();
    if ball.velocity.spec_norm2() < SLOW_BALL_SPEED2 {
        MoveTo {
            target: ball_position,
            orientation: robot.pose.heading.spec_as_delta(),
            dribbler: 0,
            charge: false,
            kick: None,
            avoidance: true,
        }
    } else {
        MoveTo {
            target: spec_closest_point_on_ray(
                ball_position,
                ball.velocity.spec_xy().spec_as_delta(),
                robot.pose.position,
            ),
            orientation: robot.pose.position.spec_delta_to(ball_position),
            dribbler: if robot.spec_dist2_to(ball_position) < DRIBBLE_RANGE * DRIBBLE_RANGE {
                1
            } else {
                0
            },
            charge: false,
            kick: None,
            avoidance: true,
        }
    }
}

/// Goes for the ball: to the ball itself while it is slower than 0.4 m/s,
/// else to the point of its path that is nearest to the robot, facing the
/// ball, with the dribbler on within 0.2 m of the ball.
pub fn intercept(robot: &Robot<AllyInfo>, ball: &Ball) -> (r: MoveTo)
    ensures
        r == spec_intercept(*robot, *ball),
{
    let ball_position = ball.position_2d();
    if ball.velocity.norm2() < SLOW_BALL_SPEED2 {
        return MoveTo::new(ball_position, robot.pose.heading.as_delta(), 0, false, None, true);
    }
    let path = ball.velocity.xy().as_delta();
    let target = closest_point_on_ray(&ball_position, &path, &robot.pose.position);
    let dribbler: u32 = if robot.pose.position.within(&ball_position, DRIBBLE_RANGE) {
        1
    } else {
        0
    };
    MoveTo::new(target, robot.pose.position.delta_to(&ball_position), dribbler, false, None, true)
}

/// Distance between the centres of robot and ball below which the robot can
/// kick.
pub open spec fn spec_kick_range(world: World) -> int {
    world.geometry.robot_radius + world.geometry.ball_radius + KICK_MARGIN
}

/// Whether the robot faces the ball within the cone of cosine 0.95 and its
/// heading, prolonged, meets the enemy goal.
pub open spec fn spec_lined_up(robot: Robot<AllyInfo>, ball: Ball, world: World) -> bool {
    let heading = robot.pose.heading.spec_as_delta();
    &&& heading.spec_within_cone(robot.pose.position.spec_delta_to(ball.spec_position_2d()), 19, 20)
    &&& spec_ray_hits_segment(robot.pose.position, heading, world.geometry.enemy_goal.spec_line())
}

/// What `shoot` decides.
pub open spec fn spec_shoot(
    robot: Robot<AllyInfo>,
    ball: Ball,
    target_shooting_position: Vec2,
    world: World,
) -> MoveTo {
    let ball_position = ball.spec_position_2d();
    let range = spec_kick_range(world);
    if spec_lined_up(robot, ball, world) && robot.spec_dist2_to(ball_position) < range * range {
        MoveTo {
            target: ball_position,
            orientation: robot.pose.position.spec_delta_to(target_shooting_position),
            dribbler: SHOOT_DRIBBLER,
            charge: true,
            kick: Some(Kick::StraightKick { power: KICK_POWER }),
            avoidance: true,
        }
    } else {
        MoveTo {
            target: spec_offset_along(
                ball_position,
                target_shooting_position.spec_delta_to(ball_position),
                GO_BEHIND_BALL_DIST as int,
            ),
            orientation: robot.pose.position.spec_delta_to(target_shooting_position),
            dribbler: 0,
            charge: false,
            kick: None,
            avoidance: true,
        }
    }
}

/// Shoots at `target_shooting_position`: a straight kick where the robot is
/// lined up with ball and goal and touches the ball, else a move to the point
/// 0.3 m behind the ball as seen from the target. Either way the robot is to
/// face the target.
pub fn shoot(
    robot: &Robot<AllyInfo>,
    ball: &Ball,
    target_shooting_position: &Vec2,
    world: &World,
) -> (r: MoveTo)
    ensures
        r == spec_shoot(*robot, *ball, *target_shooting_position, *world),
{
    let robot_position = robot.pose.position;
    let ball_position = ball.position_2d();
    let heading = robot.pose.heading.as_delta();
    let robot_to_ball = robot_position.delta_to(&ball_position);
    let goal = world.geometry.enemy_goal.line();
    let range: i64 = world.geometry.robot_radius as i64 + world.geometry.ball_radius as i64
        + KICK_MARGIN as i64;
    let lined_up = heading.within_cone(&robot_to_ball, 19, 20) && ray_hits_segment(
        &robot_position,
        &heading,
        &goal,
    );
    let facing = robot_position.delta_to(target_shooting_position);
    if lined_up && closer_than(&robot_position, &ball_position, range) {
        MoveTo::new(
            ball_position,
            facing,
            SHOOT_DRIBBLER,
            true,
            Some(Kick::StraightKick { power: KICK_POWER }),
            true,
        )
    } else {
        let behind = offset_along(
            &ball_position,
            &target_shooting_position.delta_to(&ball_position),
            GO_BEHIND_BALL_DIST,
        );
        MoveTo::new(behind, facing, 0, false, None, true)
    }
}

/// Whether `b` lies closer to `a` than `range`, for any `range` that is not
/// negative.
pub fn closer_than(a: &Vec2, b: &Vec2, range: i64) -> (r: bool)
    requires
        0 <= range,
    ensures
        r == (a.spec_dist2(*b) < range * range),
{
    if range > 400_000_000 {
        assert(range * range > 400_000_000 * 400_000_000) by (nonlinear_arith)
            requires
                range > 400_000_000,
        ;
        let d = a.dist2(b);
        true
    } else {
        a.within(b, range)
    }
}

/// Distance between the centres of two robots below which they touch.
pub open spec fn spec_clearance(world: World) -> int {
    2 * world.geometry.robot_radius
}

/// Whether the robot at `at` stands in the way from `from` to `to`.
pub open spec fn spec_in_the_way(world: World, from: Vec2, to: Vec2, at: Vec2) -> bool {
    let nearest = (Line { start: from, end: to }).spec_closest_point_on_segment(at);
    at.spec_dist2(nearest) < spec_clearance(world) * spec_clearance(world)
}

/// Whether the robot at `at` stands in the way from `from` to `to`: whether
/// a robot that goes straight from `from` to `to` would touch it.
pub fn in_the_way(world: &World, from: &Vec2, to: &Vec2, at: &Vec2) -> (r: bool)
    ensures
        r == spec_in_the_way(*world, *from, *to, *at),
{
    let nearest = Line::new(*from, *to).closest_point_on_segment(at);
    closer_than(at, &nearest, 2 * (world.geometry.robot_radius as i64))
}

/// The enemy robots that stand in the way from `from` to `to`, in order, each
/// as the disc that it covers.
pub open spec fn spec_enemies_in_the_way(world: World, from: Vec2, to: Vec2, upto: int) -> Seq<
    Circle,
>
    decreases upto,
{
    if upto <= 0 {
        Seq::empty()
    } else {
        let before = spec_enemies_in_the_way(world, from, to, upto - 1);
        let at = world.enemies_bot@[upto - 1].pose.position;
        if spec_in_the_way(world, from, to, at) {
            before.push(Circle { center: at, radius: world.geometry.robot_radius })
        } else {
            before
        }
    }
}

/// The allied robots other than `self_id` that stand in the way from `from`
/// to `to`, in order, each as the disc that it covers.
pub open spec fn spec_allies_in_the_way(
    world: World,
    self_id: u8,
    from: Vec2,
    to: Vec2,
    upto: int,
) -> Seq<Circle>
    decreases upto,
{
    if upto <= 0 {
        Seq::empty()
    } else {
        let before = spec_allies_in_the_way(world, self_id, from, to, upto - 1);
        let ally = world.allies_bot@[upto - 1];
        if ally.id != self_id && spec_in_the_way(world, from, to, ally.pose.position) {
            before.push(Circle { center: ally.pose.position, radius: world.geometry.robot_radius })
        } else {
            before
        }
    }
}

/// The ball as an obstacle on the way from `from` to `to`, if it is one.
pub open spec fn spec_ball_in_the_way(world: World, from: Vec2, to: Vec2) -> Seq<Circle> {
    match world.ball {
        Some(ball) => {
            let at = ball.spec_position_2d();
            let nearest = (Line { start: from, end: to }).spec_closest_point_on_segment(at);
            let reach = world.geometry.robot_radius + world.geometry.ball_radius;
            if at.spec_dist2(nearest) < reach * reach {
                seq![Circle { center: at, radius: world.geometry.ball_radius }]
            } else {
                Seq::empty()
            }
        },
        None => Seq::empty(),
    }
}

/// What `object_in_bot_trajectory` finds.
pub open spec fn spec_object_in_bot_trajectory(
    world: World,
    self_id: u8,
    target: Vec2,
    include_ball: bool,
    include_allies: bool,
    include_enemies: bool,
) -> Seq<Circle> {
    match world.allies_bot.spec_get(self_id) {
        None => Seq::empty(),
        Some(robot) => {
            let from = robot.pose.position;
            let ball = if include_ball {
                spec_ball_in_the_way(world, from, target)
            } else {
                Seq::empty()
            };
            let allies = if include_allies {
                spec_allies_in_the_way(world, self_id, from, target, world.allies_bot@.len() as int)
            } else {
                Seq::empty()
            };
            let enemies = if include_enemies {
                spec_enemies_in_the_way(world, from, target, world.enemies_bot@.len() as int)
            } else {
                Seq::empty()
            };
            ball + allies + enemies
        },
    }
}

/// What the robot `self_id` would touch on the straight way to `target`:
/// the ball, the other allied robots and the enemy robots, each kind if it is
/// asked for and in this order, each as the disc that it covers. Nothing
/// where the robot is not on the field.
pub fn object_in_bot_trajectory(
    world: &World,
    self_id: u8,
    target: Vec2,
    include_ball: bool,
    include_allies: bool,
    include_enemies: bool,
) -> (r: Vec<Circle>)
    ensures
        r@ == spec_object_in_bot_trajectory(
            *world,
            self_id,
            target,
            include_ball,
            include_allies,
            include_enemies,
        ),
{
    let mut out: Vec<Circle> = Vec::new();
    let robot = match world.allies_bot.get(self_id) {
        Some(robot) => robot,
        None => {
            return out;
        },
    };
    let from = robot.pose.position;
    let radius = world.geometry.robot_radius;
    if include_ball {
        match &world.ball {
            Some(ball) => {
                let at = ball.position_2d();
                let nearest = Line::new(from, target).closest_point_on_segment(&at);
                let reach = radius as i64 + world.geometry.ball_radius as i64;
                if closer_than(&at, &nearest, reach) {
                    out.push(Circle::new(at, world.geometry.ball_radius));
                }
            },
            None => {},
        }
    }
    let ghost ball_part = out@;
    assert(ball_part =~= if include_ball {
        spec_ball_in_the_way(*world, from, target)
    } else {
        Seq::empty()
    });
    if include_allies {
        let allies = world.allies_bot.values();
        let mut i: usize = 0;
        while i < allies.len()
            invariant
                0 <= i <= allies.len(),
                allies@ == world.allies_bot@,
                radius == world.geometry.robot_radius,
                out@ == ball_part + spec_allies_in_the_way(*world, self_id, from, target, i as int),
            decreases allies.len() - i,
        {
            if allies[i].id != self_id && in_the_way(world, &from, &target, &allies[i].pose.position) {
                out.push(Circle::new(allies[i].pose.position, radius));
            }
            i += 1;
            assert(out@ =~= ball_part + spec_allies_in_the_way(
                *world,
                self_id,
                from,
                target,
                i as int,
            ));
        }
    }
    let ghost allies_part = out@;
    assert(allies_part =~= ball_part + if include_allies {
        spec_allies_in_the_way(*world, self_id, from, target, world.allies_bot@.len() as int)
    } else {
        Seq::empty()
    });
    if include_enemies {
        let enemies = world.enemies_bot.values();
        let mut i: usize = 0;
        while i < enemies.len()
            invariant
                0 <= i <= enemies.len(),
                enemies@ == world.enemies_bot@,
                radius == world.geometry.robot_radius,
                out@ == allies_part + spec_enemies_in_the_way(*world, from, target, i as int),
            decreases enemies.len() - i,
        {
            if in_the_way(world, &from, &target, &enemies[i].pose.position) {
                out.push(Circle::new(enemies[i].pose.position, radius));
            }
            i += 1;
            assert(out@ =~= allies_part + spec_enemies_in_the_way(*world, from, target, i as int));
        }
    }
    assert(out@ =~= spec_object_in_bot_trajectory(
        *world,
        self_id,
        target,
        include_ball,
        include_allies,
        include_enemies,
    ));
    out
}

} // verus!
