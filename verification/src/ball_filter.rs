//! The filter that tells whose the ball is and who touched it last.

use vstd::prelude::*;
use crate::filter::FilterData;
use crate::game_state::GameState;
use crate::math::lemma_mul_bound;
use crate::utils::closest_bot_to_point;
use crate::utils::collect_refs;
use crate::utils::spec_closest_index;
use crate::utils::spec_refs;
use crate::world::AllyInfo;
use crate::world::Ball;
use crate::world::BallTouchInfo;
use crate::world::EnemyInfo;
use crate::world::Robot;
use crate::world::TeamColor;
use crate::world::World;

verus! {

/// The filter that tells whose the ball is.
#[derive(Clone, Copy, Debug, Default)]
pub struct BallFilter;

/// Square of the acceleration of the ball above which it counts as touched
/// (1 m/s^2).
pub const MIN_ACCELERATION_TO_SWITCH_POSSESSION2: i64 = 1_000_000_000_000;

/// How much nearer to the ball a robot has to be than the nearest of the
/// other team to get the ball by being nearer (0.1 m).
pub const MIN_DISTANCE_DIFFERENCE_TO_SWITCH_POSSESSION: i64 = 100_000;

/// Distance to the ball below which a robot can hold it (0.3 m).
pub const MAX_DISTANCE_DIFFERENCE_TO_SWITCH_POSSESSION: i64 = 300_000;

/// Difference between the speeds of robot and ball below which the robot can
/// hold the ball (0.1 m/s).
pub const MAX_DIFFERENCE_VELOCITY_TO_SWITCH_POSSESSION: i64 = 100_000;

/// Whether the robot holds the ball: it is within 0.3 m of it, moves within
/// 0.1 m/s of its speed, and the two move in directions whose cosine is above
/// 0.75.
pub open spec fn spec_holds<T>(bot: Robot<T>, ball: Ball) -> bool {
    &&& bot.spec_dist2_to(ball.spec_position_2d())
        < MAX_DISTANCE_DIFFERENCE_TO_SWITCH_POSSESSION
        * MAX_DISTANCE_DIFFERENCE_TO_SWITCH_POSSESSION
    &&& bot.velocity.linear.spec_dist2(ball.velocity.spec_xy())
        < MAX_DIFFERENCE_VELOCITY_TO_SWITCH_POSSESSION
        * MAX_DIFFERENCE_VELOCITY_TO_SWITCH_POSSESSION
    &&& ball.velocity.spec_xy().spec_as_delta().spec_within_cone(
        bot.velocity.linear.spec_as_delta(),
        3,
        4,
    )
}

/// Whether the robot holds the ball.
pub fn holds<T>(bot: &Robot<T>, ball: &Ball) -> (r: bool)
    ensures
        r == spec_holds(*bot, *ball),
{
    bot.pose.position.within(&ball.position_2d(), MAX_DISTANCE_DIFFERENCE_TO_SWITCH_POSSESSION)
        && bot.velocity.linear.within(
        &ball.velocity.xy(),
        MAX_DIFFERENCE_VELOCITY_TO_SWITCH_POSSESSION,
    ) && ball.velocity.xy().as_delta().within_cone(&bot.velocity.linear.as_delta(), 3, 4)
}

/// Whether the distance whose square is `near2`, with `margin` added, is at
/// most the distance whose square is `far2`.
pub open spec fn spec_closer_by(near2: int, far2: int, margin: int) -> bool {
    let t = far2 - near2 - margin * margin;
    t >= 0 && t * t >= 4 * (margin * margin) * near2
}

/// `spec_closer_by` compares the distances themselves.
pub proof fn lemma_closer_by(near: int, far: int, margin: int)
    by (nonlinear_arith)
    requires
        0 <= near,
        0 <= far,
        0 <= margin,
    ensures
        spec_closer_by(near * near, far * far, margin) <==> near + margin <= far,
{
    let t = far * far - near * near - margin * margin;
    if near + margin <= far {
        assert((near + margin) * (near + margin) <= far * far);
        assert(t >= 2 * margin * near);
        assert(t * t >= (2 * margin * near) * (2 * margin * near));
        assert((2 * margin * near) * (2 * margin * near) == 4 * (margin * margin) * (near * near));
    } else {
        assert(far < near + margin);
        assert(far * far < (near + margin) * (near + margin));
        assert(t < 2 * margin * near);
        if t >= 0 {
            assert(t * t < (2 * margin * near) * (2 * margin * near));
            assert((2 * margin * near) * (2 * margin * near) == 4 * (margin * margin) * (near
                * near));
        }
    }
}

/// Whether the distance whose square is `near2`, with `margin` added, is at
/// most the distance whose square is `far2`.
pub fn closer_by(near2: i64, far2: i64, margin: i64) -> (r: bool)
    requires
        0 <= near2 <= 80_000_000_000_000_000,
        0 <= far2 <= 80_000_000_000_000_000,
        0 <= margin <= 1_000_000_000,
    ensures
        r == spec_closer_by(near2 as int, far2 as int, margin as int),
{
    proof {
        lemma_mul_bound(margin as int, margin as int, 1_000_000_000, 1_000_000_000);
    }
    let m2: i128 = margin as i128 * margin as i128;
    let t: i128 = far2 as i128 - near2 as i128 - m2;
    proof {
        lemma_mul_bound(
            t as int,
            t as int,
            1_080_000_000_000_000_000,
            1_080_000_000_000_000_000,
        );
        lemma_mul_bound(
            4 * m2 as int,
            near2 as int,
            4_000_000_000_000_000_000,
            80_000_000_000_000_000,
        );
    }
    t >= 0 && t * t >= 4 * m2 * near2 as i128
}

/// Whose the ball is, from the state of the ball, the ball of the last tick,
/// the robots of the two teams, the state of play and the colour of our
/// team. The first rule that applies decides:
///
/// 1. In a free kick, a kick-off or a penalty the ball belongs to the team
///    that takes it.
/// 2. Without a robot of one of the teams on the field, to nobody.
/// 3. Where of the two robots nearest to the ball, one of each team, exactly
///    one holds the ball, to its team.
/// 4. Where the ball accelerates at more than 1 m/s^2, to the team whose
///    nearest robot is at least 0.1 m nearer than that of the other team.
/// 5. To the team to which it belonged at the last tick.
pub open spec fn spec_possession_of(
    ball: Ball,
    previous: Option<Ball>,
    allies: Seq<Robot<AllyInfo>>,
    enemies: Seq<Robot<EnemyInfo>>,
    state: GameState,
    ours: TeamColor,
) -> Option<TeamColor> {
    let before = match previous {
        Some(known) => known.possession,
        None => None,
    };
    match state.spec_awarded_team() {
        Some(team) => Some(team),
        None => if allies.len() == 0 || enemies.len() == 0 {
            None
        } else {
            let at = ball.spec_position_2d();
            let ally = spec_refs::<AllyInfo>(allies)[spec_closest_index(
                spec_refs::<AllyInfo>(allies),
                at,
            )];
            let enemy = spec_refs::<EnemyInfo>(enemies)[spec_closest_index(
                spec_refs::<EnemyInfo>(enemies),
                at,
            )];
            let with_us = spec_holds(*ally, ball);
            let with_them = spec_holds(*enemy, ball);
            if with_us && !with_them {
                Some(ours)
            } else if with_them && !with_us {
                Some(ours.spec_opposite())
            } else if ball.acceleration.spec_norm2() > MIN_ACCELERATION_TO_SWITCH_POSSESSION2 {
                if spec_closer_by(
                    ally.spec_dist2_to(at),
                    enemy.spec_dist2_to(at),
                    MIN_DISTANCE_DIFFERENCE_TO_SWITCH_POSSESSION as int,
                ) {
                    Some(ours)
                } else if spec_closer_by(
                    enemy.spec_dist2_to(at),
                    ally.spec_dist2_to(at),
                    MIN_DISTANCE_DIFFERENCE_TO_SWITCH_POSSESSION as int,
                ) {
                    Some(ours.spec_opposite())
                } else {
                    before
                }
            } else {
                before
            }
        },
    }
}

/// Whose the ball is, by the view of the field of the last tick.
pub open spec fn spec_possession(ball: Ball, world: World) -> Option<TeamColor> {
    spec_possession_of(
        ball,
        world.ball,
        world.allies_bot@,
        world.enemies_bot@,
        world.data.ref_orders.state,
        world.team_color,
    )
}

/// Who touched the ball last, from the state of the ball, the ball of the
/// last tick, the robots of the two teams and the colour of our team. At the
/// tick at which the acceleration of the ball comes to be above 1 m/s^2 it is
/// the robot nearest to the ball, ours if one of each team is as near; at
/// every other tick, and without a robot on the field, it is who it was.
pub open spec fn spec_last_touch_of(
    ball: Ball,
    previous: Option<Ball>,
    allies: Seq<Robot<AllyInfo>>,
    enemies: Seq<Robot<EnemyInfo>>,
    ours: TeamColor,
) -> Option<BallTouchInfo> {
    let before = match previous {
        Some(known) => known.last_touch,
        None => None,
    };
    let was_touched = match previous {
        Some(known) => known.acceleration.spec_norm2() > MIN_ACCELERATION_TO_SWITCH_POSSESSION2,
        None => false,
    };
    if ball.acceleration.spec_norm2() > MIN_ACCELERATION_TO_SWITCH_POSSESSION2 && !was_touched {
        let at = ball.spec_position_2d();
        let us = spec_refs::<AllyInfo>(allies);
        let them = spec_refs::<EnemyInfo>(enemies);
        let by_ally = us.len() > 0 && (them.len() == 0 || us[spec_closest_index(
            us,
            at,
        )].spec_dist2_to(at) <= them[spec_closest_index(them, at)].spec_dist2_to(at));
        if by_ally {
            Some(
                BallTouchInfo {
                    robot_id: us[spec_closest_index(us, at)].id,
                    team_color: ours,
                    timestamp: ball.timestamp,
                    position: ball.position,
                },
            )
        } else if them.len() > 0 {
            Some(
                BallTouchInfo {
                    robot_id: them[spec_closest_index(them, at)].id,
                    team_color: ours.spec_opposite(),
                    timestamp: ball.timestamp,
                    position: ball.position,
                },
            )
        } else {
            before
        }
    } else {
        before
    }
}

/// Who touched the ball last, by the view of the field of the last tick.
pub open spec fn spec_last_touch(ball: Ball, world: World) -> Option<BallTouchInfo> {
    spec_last_touch_of(ball, world.ball, world.allies_bot@, world.enemies_bot@, world.team_color)
}

/// The ball of the view of the field, made of the followed ball.
pub open spec fn spec_ball_of(
    followed: Option<Ball>,
    previous: Option<Ball>,
    allies: Seq<Robot<AllyInfo>>,
    enemies: Seq<Robot<EnemyInfo>>,
    state: GameState,
    ours: TeamColor,
) -> Option<Ball> {
    match followed {
        Some(ball) => Some(
            Ball {
                possession: spec_possession_of(ball, previous, allies, enemies, state, ours),
                last_touch: spec_last_touch_of(ball, previous, allies, enemies, ours),
                ..ball
            },
        ),
        None => None,
    }
}

/// In a free kick, a kick-off or a penalty the ball belongs to the team that
/// takes it.
pub proof fn lemma_possession_follows_state(ball: Ball, world: World, team: TeamColor)
    requires
        world.data.ref_orders.state.spec_awarded_team() == Some(team),
    ensures
        spec_possession(ball, world) == Some(team),
{
}

/// Tells whose `ball` is and who touched it last, from the view of the field
/// of the last tick.
pub fn calculated_possession(ball: &mut Ball, world: &World)
    ensures
        *final(ball) == (Ball {
            possession: spec_possession(*old(ball), *world),
            last_touch: spec_last_touch(*old(ball), *world),
            ..*old(ball)
        }),
        forall|team: TeamColor|
            world.data.ref_orders.state.spec_awarded_team() == Some(team) ==> final(ball).possession
                == Some(team),
{
    let at = ball.position_2d();
    let ours = world.team_color;
    let theirs = world.team_color.opposite();
    let (previous, previous_touch, was_touched) = match &world.ball {
        Some(known) => (
            known.possession,
            known.last_touch,
            known.acceleration.norm2() > MIN_ACCELERATION_TO_SWITCH_POSSESSION2,
        ),
        None => (None, None, false),
    };
    let ally = closest_bot_to_point(collect_refs(world.allies_bot.values()), at);
    let enemy = closest_bot_to_point(collect_refs(world.enemies_bot.values()), at);
    let touched = ball.acceleration.norm2() > MIN_ACCELERATION_TO_SWITCH_POSSESSION2;
    let possession = match world.data.ref_orders.state.awarded_team() {
        Some(team) => Some(team),
        None => match (ally, enemy) {
            (Some(a), Some(e)) => {
                let with_us = holds(a, ball);
                let with_them = holds(e, ball);
                if with_us && !with_them {
                    Some(ours)
                } else if with_them && !with_us {
                    Some(theirs)
                } else if touched {
                    let near_us = a.dist2_to(&at);
                    let near_them = e.dist2_to(&at);
                    if closer_by(near_us, near_them, MIN_DISTANCE_DIFFERENCE_TO_SWITCH_POSSESSION) {
                        Some(ours)
                    } else if closer_by(
                        near_them,
                        near_us,
                        MIN_DISTANCE_DIFFERENCE_TO_SWITCH_POSSESSION,
                    ) {
                        Some(theirs)
                    } else {
                        previous
                    }
                } else {
                    previous
                }
            },
            _ => None,
        },
    };
    let last_touch = if touched && !was_touched {
        match (ally, enemy) {
            (Some(a), Some(e)) => if a.dist2_to(&at) <= e.dist2_to(&at) {
                Some(
                    BallTouchInfo {
                        robot_id: a.id,
                        team_color: ours,
                        timestamp: ball.timestamp,
                        position: ball.position,
                    },
                )
            } else {
                Some(
                    BallTouchInfo {
                        robot_id: e.id,
                        team_color: theirs,
                        timestamp: ball.timestamp,
                        position: ball.position,
                    },
                )
            },
            (Some(a), None) => Some(
                BallTouchInfo {
                    robot_id: a.id,
                    team_color: ours,
                    timestamp: ball.timestamp,
                    position: ball.position,
                },
            ),
            (None, Some(e)) => Some(
                BallTouchInfo {
                    robot_id: e.id,
                    team_color: theirs,
                    timestamp: ball.timestamp,
                    position: ball.position,
                },
            ),
            (None, None) => previous_touch,
        }
    } else {
        previous_touch
    };
    ball.possession = possession;
    ball.last_touch = last_touch;
}

impl BallFilter {
    /// The ball of the view of the field after the filter: the followed
    /// ball with its owner and its last touch, or none where no ball is
    /// followed.
    pub open spec fn spec_step(filter_data: FilterData, world: World) -> Option<Ball> {
        spec_ball_of(
            match filter_data.spec_ball() {
                Some(followed) => Some(followed.data),
                None => None,
            },
            world.ball,
            world.allies_bot@,
            world.enemies_bot@,
            world.data.ref_orders.state,
            world.team_color,
        )
    }

    /// Puts the followed ball into the view of the field, with its owner and
    /// its last touch. Where no ball is followed the view holds none. In a
    /// free kick, a kick-off or a penalty the ball belongs to the team that
    /// takes it.
    pub fn step(&mut self, filter_data: &FilterData, world: &mut World)
        ensures
            final(world).ball == Self::spec_step(*filter_data, *old(world)),
            final(world).data == old(world).data,
            final(world).geometry == old(world).geometry,
            final(world).allies_bot == old(world).allies_bot,
            final(world).enemies_bot == old(world).enemies_bot,
            final(world).team_color == old(world).team_color,
            forall|team: TeamColor|
                final(world).data.ref_orders.state.spec_awarded_team() == Some(team)
                    && final(world).ball is Some ==> final(world).ball.unwrap().possession
                    == Some(team),
    {
        match &filter_data.ball {
            Some(followed) => {
                let mut ball = *followed.data();
                calculated_possession(&mut ball, world);
                world.ball = Some(ball);
            },
            None => {
                world.ball = None;
            },
        }
    }
}

} // verus!
