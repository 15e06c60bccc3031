//! The formations that the team takes while play is stopped.

use vstd::prelude::*;
use crate::action::Action;
use crate::action::ActionWrapper;
use crate::action::MoveTo;
use crate::actions::closer_than;
use crate::defensive::spec_wall_step;
use crate::defensive::DefenseWall;
use crate::defensive::DEFAULT_WALL_DISTANCE;
use crate::math::offset_along;
use crate::math::spec_offset_along;
use crate::math::Line;
use crate::math::Vec2;
use crate::math::METRE;
use crate::message::MessageData;
use crate::action::clear_queues;
use crate::action::spec_cleared;
use crate::utils::closest_bot_to_point;
use crate::utils::contains_id;
use crate::utils::filter_robots_in_ids;
use crate::utils::spec_filter_robots_in_ids;
use crate::utils::closest_bots_to_point;
use crate::utils::collect_refs;
use crate::utils::spec_closest_bots;
use crate::utils::spec_closest_index;
use crate::utils::spec_refs;
use crate::utils::DEFENDER1_ID;
use crate::utils::DEFENDER2_ID;
use crate::utils::KEEPER_ID;
use crate::world::AllyInfo;
use crate::world::Robot;
use crate::world::World;

verus! {

/// Number of robots in the wall against a free kick.
pub const SIZE_WALL: usize = 3;

/// A move to `(x, y)` that ends facing `ball`, with everything off.
pub open spec fn spec_stand_at(x: int, y: int, ball: Vec2) -> Action {
    Action::MoveTo(
        MoveTo {
            target: Vec2::spec_new(x, y),
            orientation: Vec2::spec_new(x, y).spec_delta_to(ball),
            dribbler: 0,
            charge: false,
            kick: None,
            avoidance: false,
        },
    )
}

/// A move to `(x, y)` that ends facing `ball`, with everything off.
pub fn stand_at(x: i64, y: i64, ball: &Vec2) -> (r: Action)
    ensures
        r == spec_stand_at(x as int, y as int, *ball),
{
    let place = Vec2::new(x, y);
    Action::MoveTo(MoveTo::new(place, place.delta_to(ball), 0, false, None, false))
}

/// The move that sends the robot `id` to `(x, y)`, if the formation owns the
/// robot; nothing else.
pub open spec fn spec_place(ids: Seq<u8>, id: u8, x: int, y: int, ball: Vec2) -> Seq<(u8, Action)> {
    if ids.contains(id) {
        seq![(id, spec_stand_at(x, y, ball))]
    } else {
        Seq::empty()
    }
}

/// Sends the robot `id` to `(x, y)`, if the formation owns the robot.
pub fn place(action_wrapper: &mut ActionWrapper, ids: &Vec<u8>, id: u8, x: i64, y: i64, ball: &Vec2)
    ensures
        final(action_wrapper)@ == old(action_wrapper)@ + spec_place(
            ids@,
            id,
            x as int,
            y as int,
            *ball,
        ),
{
    if contains_id(ids, id) {
        action_wrapper.push(id, stand_at(x, y, ball));
        assert(action_wrapper@ =~= old(action_wrapper)@ + seq![
            (id, spec_stand_at(x as int, y as int, *ball)),
        ]);
    } else {
        assert(action_wrapper@ =~= old(action_wrapper)@ + Seq::<(u8, Action)>::empty());
    }
}

/// The formation for a goal kick: ours if `ally`, else theirs.
pub struct PrepareGoalKick {
    pub(crate) ally: bool,
    pub(crate) messages: Vec<MessageData>,
    pub(crate) ids: Vec<u8>,
}

/// The moves of the formation for a goal kick while the ball is at `ball`.
/// Only robots that the formation owns are moved.
///
/// For our kick the robots 0 to 5 take fixed places. For theirs, and only
/// while both teams have a robot on the field, the ally nearest to the ball
/// stands 1 m behind it unless it is one of the two defenders, and the
/// defenders stand 0.2 m to either side of the point 3 m behind the origin.
pub open spec fn spec_goal_kick_moves(world: World, ids: Seq<u8>, ally: bool, ball: Vec2) -> Seq<
    (u8, Action),
> {
    if ally {
        spec_place(ids, 0, -1_000_000, 2_000_000, ball) + spec_place(
            ids,
            1,
            0,
            0,
            ball,
        ) + spec_place(ids, 2, -1_000_000, -2_000_000, ball) + spec_place(
            ids,
            3,
            -3_000_000,
            2_500_000,
            ball,
        ) + spec_place(ids, 4, -3_000_000, -2_500_000, ball) + spec_place(
            ids,
            5,
            -4_000_000,
            0,
            ball,
        )
    } else if world.enemies_bot@.len() > 0 && world.allies_bot@.len() > 0 {
        let allies = spec_refs::<AllyInfo>(world.allies_bot@);
        let nearest = allies[spec_closest_index(allies, ball)];
        let defenders = spec_place(ids, DEFENDER1_ID, -3_000_000, 200_000, ball)
            + spec_place(ids, DEFENDER2_ID, -3_000_000, -200_000, ball);
        if nearest.id != DEFENDER1_ID && nearest.id != DEFENDER2_ID {
            spec_place(ids, nearest.id, ball.sx() - METRE, ball.sy(), ball) + defenders
        } else {
            defenders
        }
    } else {
        Seq::empty()
    }
}

impl PrepareGoalKick {
    /// Whether the formation is for a kick of ours.
    pub open(crate) spec fn spec_ally(&self) -> bool {
        self.ally
    }

    /// The robots that the strategy owns.
    pub open(crate) spec fn spec_ids(&self) -> Seq<u8> {
        self.ids@
    }

    /// What the strategy has to tell since its last step.
    pub open(crate) spec fn spec_messages(&self) -> Seq<MessageData> {
        self.messages@
    }

    /// The formation for our goal kick if `ally`, else for theirs. It owns no
    /// robot yet.
    pub fn new(ally: bool) -> (r: PrepareGoalKick)
        ensures
            r.spec_ally() == ally,
            r.spec_ids() == Seq::<u8>::empty(),
            r.spec_messages() == Seq::<MessageData>::empty(),
    {
        PrepareGoalKick { ally, messages: Vec::new(), ids: Vec::new() }
    }

    /// The name of the strategy.
    pub fn name(&self) -> (r: &'static str)
        ensures
            r@ == "PrepareGoalKick"@,
    {
        "PrepareGoalKick"
    }

    /// What the strategy has to tell since its last step.
    pub fn get_messages(&self) -> (r: &Vec<MessageData>)
        ensures
            r@ == self.spec_messages(),
    {
        &self.messages
    }

    /// The robots that the strategy owns.
    pub fn get_ids(&self) -> (r: Vec<u8>)
        ensures
            r@ == self.spec_ids(),
    {
        self.ids.clone()
    }

    /// Hands the strategy other robots.
    pub fn put_ids(&mut self, ids: Vec<u8>)
        ensures
            final(self).spec_ids() == ids@,
            final(self).spec_ally() == old(self).spec_ally(),
            final(self).spec_messages() == old(self).spec_messages(),
    {
        self.ids = ids;
    }

    /// The intents after one tick of the formation: the queues of its robots
    /// are emptied; without the ball nothing more is done, else the moves of
    /// `spec_goal_kick_moves` are pushed.
    pub open spec fn spec_step(
        world: World,
        ids: Seq<u8>,
        ally: bool,
        actions: Seq<(u8, Action)>,
    ) -> Seq<(u8, Action)> {
        match world.ball {
            Some(ball) => spec_cleared(actions, ids, ids.len() as int) + spec_goal_kick_moves(
                world,
                ids,
                ally,
                ball.spec_position_2d(),
            ),
            None => spec_cleared(actions, ids, ids.len() as int),
        }
    }

    /// One tick of the formation: the queues of its robots are emptied;
    /// without the ball nothing more is done, else those of its robots that
    /// are on the field are sent to their places. The strategy is never done
    /// and tells nothing.
    pub fn step(&mut self, world: &World, action_wrapper: &mut ActionWrapper) -> (done: bool)
        ensures
            !done,
            final(self).spec_ids() == old(self).spec_ids(),
            final(self).spec_ally() == old(self).spec_ally(),
            final(self).spec_messages() == old(self).spec_messages(),
            final(action_wrapper)@ == Self::spec_step(
                *world,
                old(self).spec_ids(),
                old(self).spec_ally(),
                old(action_wrapper)@,
            ),
            world.ball is None ==> final(action_wrapper)@ == spec_cleared(
                old(action_wrapper)@,
                old(self).spec_ids(),
                old(self).spec_ids().len() as int,
            ),
    {
        clear_queues(action_wrapper, &self.ids);
        let ghost cleared = action_wrapper@;
        let ball = match &world.ball {
            Some(ball) => ball.position_2d(),
            None => {
                return false;
            },
        };
        if self.ally {
            place(action_wrapper, &self.ids, 0, -1_000_000, 2_000_000, &ball);
            place(action_wrapper, &self.ids, 1, 0, 0, &ball);
            place(action_wrapper, &self.ids, 2, -1_000_000, -2_000_000, &ball);
            place(action_wrapper, &self.ids, 3, -3_000_000, 2_500_000, &ball);
            place(action_wrapper, &self.ids, 4, -3_000_000, -2_500_000, &ball);
            place(action_wrapper, &self.ids, 5, -4_000_000, 0, &ball);
            assert(action_wrapper@ =~= cleared + spec_goal_kick_moves(
                *world,
                self.ids@,
                true,
                ball,
            ));
        } else if world.enemies_bot.len() > 0 {
            match closest_bot_to_point(collect_refs(world.allies_bot.values()), ball) {
                Some(nearest) => {
                    if nearest.id != DEFENDER1_ID && nearest.id != DEFENDER2_ID {
                        place(
                            action_wrapper,
                            &self.ids,
                            nearest.id,
                            ball.x() as i64 - METRE,
                            ball.y() as i64,
                            &ball,
                        );
                    }
                    place(action_wrapper, &self.ids, DEFENDER1_ID, -3_000_000, 200_000, &ball);
                    place(
                        action_wrapper,
                        &self.ids,
                        DEFENDER2_ID,
                        -3_000_000,
                        -200_000,
                        &ball,
                    );
                    assert(action_wrapper@ =~= cleared + spec_goal_kick_moves(
                        *world,
                        self.ids@,
                        false,
                        ball,
                    ));
                },
                None => {
                    assert(action_wrapper@ =~= cleared + spec_goal_kick_moves(
                        *world,
                        self.ids@,
                        false,
                        ball,
                    ));
                },
            }
        } else {
            assert(action_wrapper@ =~= cleared + spec_goal_kick_moves(
                *world,
                self.ids@,
                false,
                ball,
            ));
        }
        false
    }
}

/// The formation for a free kick: ours if `ally`, else theirs.
pub struct PrepareFreeKick {
    pub(crate) ally: bool,
    pub(crate) messages: Vec<MessageData>,
    pub(crate) ids: Vec<u8>,
}

/// The robots of the formation that are on the field, from the nearest to
/// `ball` to the farthest.
pub open spec fn spec_owned_by_distance<'a>(world: World, ids: Seq<u8>, ball: Vec2) -> Seq<
    &'a Robot<AllyInfo>,
> {
    spec_closest_bots(
        spec_filter_robots_in_ids(spec_refs::<AllyInfo>(world.allies_bot@), ids),
        ball,
    )
}

/// The moves of the formation for our free kick while the ball is at `ball`:
/// of the robots of the formation that are on the field, the nearest to the
/// ball stands 1 m behind it, the second nearest 1 m behind it and 2 m to the
/// side on which the field is wider.
pub open spec fn spec_free_kick_moves(world: World, ids: Seq<u8>, ball: Vec2) -> Seq<(u8, Action)> {
    let takers = spec_owned_by_distance(world, ids, ball);
    if takers.len() == 0 {
        Seq::empty()
    } else {
        let first = seq![(takers[0].id, spec_stand_at(ball.sx() - METRE, ball.sy(), ball))];
        if takers.len() == 1 {
            first
        } else if ball.sy() < 0 {
            first.push(
                (takers[1].id, spec_stand_at(ball.sx() - METRE, ball.sy() + 2 * METRE, ball)),
            )
        } else {
            first.push(
                (takers[1].id, spec_stand_at(ball.sx() - METRE, ball.sy() - 2 * METRE, ball)),
            )
        }
    }
}

/// The identifiers of the first [`SIZE_WALL`] of the first `upto` robots of
/// `bots`, the goalkeeper left out.
pub open spec fn spec_wall_ids<'a>(bots: Seq<&'a Robot<AllyInfo>>, upto: int) -> Seq<u8>
    decreases upto,
{
    if upto <= 0 {
        Seq::empty()
    } else {
        let before = spec_wall_ids(bots, upto - 1);
        if bots[upto - 1].id != KEEPER_ID && before.len() < SIZE_WALL {
            before.push(bots[upto - 1].id)
        } else {
            before
        }
    }
}

/// The robots that make the wall against their free kick while the ball is
/// at `ball`: of the robots of the formation that are on the field, the three
/// nearest to the ball, the goalkeeper left out.
pub open spec fn spec_free_kick_wall(world: World, ids: Seq<u8>, ball: Vec2) -> Seq<u8> {
    let nearest = spec_owned_by_distance(world, ids, ball);
    spec_wall_ids(nearest, nearest.len() as int)
}

impl PrepareFreeKick {
    /// Whether the formation is for a kick of ours.
    pub open(crate) spec fn spec_ally(&self) -> bool {
        self.ally
    }

    /// The robots that the strategy owns.
    pub open(crate) spec fn spec_ids(&self) -> Seq<u8> {
        self.ids@
    }

    /// What the strategy has to tell since its last step.
    pub open(crate) spec fn spec_messages(&self) -> Seq<MessageData> {
        self.messages@
    }

    /// The formation for our free kick if `ally`, else for theirs. It owns no
    /// robot yet.
    pub fn new(ally: bool) -> (r: PrepareFreeKick)
        ensures
            r.spec_ally() == ally,
            r.spec_ids() == Seq::<u8>::empty(),
            r.spec_messages() == Seq::<MessageData>::empty(),
    {
        PrepareFreeKick { ally, messages: Vec::new(), ids: Vec::new() }
    }

    /// The name of the strategy.
    pub fn name(&self) -> (r: &'static str)
        ensures
            r@ == "PrepareFreeKick"@,
    {
        "PrepareFreeKick"
    }

    /// What the strategy has to tell since its last step.
    pub fn get_messages(&self) -> (r: &Vec<MessageData>)
        ensures
            r@ == self.spec_messages(),
    {
        &self.messages
    }

    /// The robots that the strategy owns.
    pub fn get_ids(&self) -> (r: Vec<u8>)
        ensures
            r@ == self.spec_ids(),
    {
        self.ids.clone()
    }

    /// Hands the strategy other robots.
    pub fn put_ids(&mut self, ids: Vec<u8>)
        ensures
            final(self).spec_ids() == ids@,
            final(self).spec_ally() == old(self).spec_ally(),
            final(self).spec_messages() == old(self).spec_messages(),
    {
        self.ids = ids;
    }

    /// The intents after one tick of the formation: the queues of its robots
    /// are emptied; without the ball nothing more is done; else, for our
    /// kick, the moves of `spec_free_kick_moves` are pushed, and for theirs a
    /// wall of the robots `spec_free_kick_wall` makes its step.
    pub open spec fn spec_step(
        world: World,
        ids: Seq<u8>,
        ally: bool,
        actions: Seq<(u8, Action)>,
    ) -> Seq<(u8, Action)> {
        let cleared = spec_cleared(actions, ids, ids.len() as int);
        match world.ball {
            Some(ball) => if ally {
                cleared + spec_free_kick_moves(world, ids, ball.spec_position_2d())
            } else {
                spec_wall_step(
                    world,
                    spec_free_kick_wall(world, ids, ball.spec_position_2d()),
                    DEFAULT_WALL_DISTANCE,
                    cleared,
                    spec_free_kick_wall(world, ids, ball.spec_position_2d()).len() as int,
                )
            },
            None => cleared,
        }
    }

    /// One tick of the formation: the queues of its robots are emptied;
    /// without the ball nothing more is done; else, for our kick, its two
    /// robots nearest to the ball take their places, and for theirs its three
    /// robots nearest to the ball, the goalkeeper left out, make a wall. The
    /// strategy is never done and tells nothing.
    pub fn step(&mut self, world: &World, action_wrapper: &mut ActionWrapper) -> (done: bool)
        ensures
            !done,
            final(self).spec_ids() == old(self).spec_ids(),
            final(self).spec_ally() == old(self).spec_ally(),
            final(self).spec_messages() == old(self).spec_messages(),
            final(action_wrapper)@ == Self::spec_step(
                *world,
                old(self).spec_ids(),
                old(self).spec_ally(),
                old(action_wrapper)@,
            ),
            world.ball is None ==> final(action_wrapper)@ == spec_cleared(
                old(action_wrapper)@,
                old(self).spec_ids(),
                old(self).spec_ids().len() as int,
            ),
    {
        clear_queues(action_wrapper, &self.ids);
        let ghost cleared = action_wrapper@;
        let ball = match &world.ball {
            Some(ball) => ball.position_2d(),
            None => {
                return false;
            },
        };
        let owned = closest_bots_to_point(
            filter_robots_in_ids(collect_refs(world.allies_bot.values()), &self.ids),
            ball,
        );
        if self.ally {
            if owned.len() > 0 {
                action_wrapper.push(
                    owned[0].id,
                    stand_at(ball.x() as i64 - METRE, ball.y() as i64, &ball),
                );
                if owned.len() > 1 {
                    let side: i64 = if ball.y() < 0 {
                        ball.y() as i64 + 2 * METRE
                    } else {
                        ball.y() as i64 - 2 * METRE
                    };
                    action_wrapper.push(owned[1].id, stand_at(ball.x() as i64 - METRE, side, &ball));
                }
            }
            assert(action_wrapper@ =~= cleared + spec_free_kick_moves(*world, self.ids@, ball));
        } else {
            let mut ids: Vec<u8> = Vec::new();
            let mut i: usize = 0;
            while i < owned.len()
                invariant
                    0 <= i <= owned.len(),
                    ids@ == spec_wall_ids(owned@, i as int),
                decreases owned.len() - i,
            {
                if owned[i].id != KEEPER_ID && ids.len() < SIZE_WALL {
                    ids.push(owned[i].id);
                }
                i += 1;
            }
            let mut wall = DefenseWall::new(ids);
            wall.step(world, action_wrapper);
        }
        false
    }
}

/// Keeps its robots off the way on which the ball is placed.
pub struct MoveAwayBallPlacement {
    pub(crate) ids: Vec<u8>,
    pub(crate) target_ball_placement: Vec2,
    pub(crate) messages: Vec<MessageData>,
}

/// The move of a robot at `position` that has to leave the way of the ball
/// to `placement`: none without the ball, without an order to keep a distance
/// or for a robot that keeps it; else straight away from the nearest point of
/// the way, as far as the order says, keeping its heading.
pub open spec fn spec_move_away(world: World, placement: Vec2, robot: Robot<AllyInfo>) -> Option<
    MoveTo,
> {
    match (world.ball, world.data.ref_orders.min_dist_from_ball) {
        (Some(ball), Some(keep)) => {
            let way = Line { start: ball.spec_position_2d(), end: placement };
            let nearest = way.spec_closest_point_on_segment(robot.pose.position);
            if robot.pose.position.spec_dist2(nearest) < keep * keep {
                Some(
                    MoveTo {
                        target: spec_offset_along(
                            nearest,
                            nearest.spec_delta_to(robot.pose.position),
                            keep as int,
                        ),
                        orientation: robot.pose.heading.spec_as_delta(),
                        dribbler: 0,
                        charge: false,
                        kick: None,
                        avoidance: true,
                    },
                )
            } else {
                None
            }
        },
        _ => None,
    }
}

/// The move of a robot that has to leave the way of the ball to `placement`.
pub fn move_away(world: &World, placement: &Vec2, robot: &Robot<AllyInfo>) -> (r: Option<MoveTo>)
    ensures
        r == spec_move_away(*world, *placement, *robot),
{
    let ball = match &world.ball {
        Some(ball) => ball,
        None => {
            return None;
        },
    };
    let keep = match world.data.ref_orders.min_dist_from_ball {
        Some(keep) => keep as i64,
        None => {
            return None;
        },
    };
    let way = Line::new(ball.position_2d(), *placement);
    let nearest = way.closest_point_on_segment(&robot.pose.position);
    if closer_than(&robot.pose.position, &nearest, keep) {
        Some(
            MoveTo::new(
                offset_along(&nearest, &nearest.delta_to(&robot.pose.position), keep),
                robot.pose.heading.as_delta(),
                0,
                false,
                None,
                true,
            ),
        )
    } else {
        None
    }
}

/// The intents after the first `upto` robots of `ids` that are on the field
/// have had their queues emptied and got their moves away from the way of
/// the ball.
pub open spec fn spec_move_away_step(
    world: World,
    ids: Seq<u8>,
    placement: Vec2,
    actions: Seq<(u8, Action)>,
    upto: int,
) -> Seq<(u8, Action)>
    decreases upto,
{
    if upto <= 0 {
        actions
    } else {
        let before = spec_move_away_step(world, ids, placement, actions, upto - 1);
        match world.allies_bot.spec_get(ids[upto - 1]) {
            Some(robot) => ActionWrapper::spec_replaced(
                before,
                robot.id,
                spec_move_away(world, placement, robot),
            ),
            None => before,
        }
    }
}

impl MoveAwayBallPlacement {
    /// The robots that the strategy owns.
    pub open(crate) spec fn spec_ids(&self) -> Seq<u8> {
        self.ids@
    }

    /// Where the ball is to be placed.
    pub open(crate) spec fn spec_target(&self) -> Vec2 {
        self.target_ball_placement
    }

    /// What the strategy has to tell since its last step.
    pub open(crate) spec fn spec_messages(&self) -> Seq<MessageData> {
        self.messages@
    }

    /// The strategy for the robots `ids` while the ball is placed at
    /// `target_ball_placement`.
    pub fn new(ids: Vec<u8>, target_ball_placement: Vec2) -> (r: MoveAwayBallPlacement)
        ensures
            r.spec_ids() == ids@,
            r.spec_target() == target_ball_placement,
            r.spec_messages() == Seq::<MessageData>::empty(),
    {
        MoveAwayBallPlacement { ids, target_ball_placement, messages: Vec::new() }
    }

    /// The name of the strategy.
    pub fn name(&self) -> (r: &'static str)
        ensures
            r@ == "MoveAwayBallPlacement"@,
    {
        "MoveAwayBallPlacement"
    }

    /// What the strategy has to tell since its last step.
    pub fn get_messages(&self) -> (r: &Vec<MessageData>)
        ensures
            r@ == self.spec_messages(),
    {
        &self.messages
    }

    /// The robots that the strategy owns.
    pub fn get_ids(&self) -> (r: Vec<u8>)
        ensures
            r@ == self.spec_ids(),
    {
        self.ids.clone()
    }

    /// Hands the strategy other robots.
    pub fn put_ids(&mut self, ids: Vec<u8>)
        ensures
            final(self).spec_ids() == ids@,
            final(self).spec_target() == old(self).spec_target(),
            final(self).spec_messages() == old(self).spec_messages(),
    {
        self.ids = ids;
    }

    /// One tick of the strategy: without the ball the queues of its robots
    /// are emptied and nothing more is done; else each of its robots that is
    /// on the field has its queue emptied and gets the move of
    /// `spec_move_away`. The outbox is emptied. The strategy is never done.
    pub fn step(&mut self, world: &World, action_wrapper: &mut ActionWrapper) -> (done: bool)
        ensures
            !done,
            final(self).spec_ids() == old(self).spec_ids(),
            final(self).spec_target() == old(self).spec_target(),
            final(self).spec_messages() == Seq::<MessageData>::empty(),
            final(action_wrapper)@ == if world.ball is Some {
                spec_move_away_step(
                    *world,
                    old(self).spec_ids(),
                    old(self).spec_target(),
                    old(action_wrapper)@,
                    old(self).spec_ids().len() as int,
                )
            } else {
                spec_cleared(
                    old(action_wrapper)@,
                    old(self).spec_ids(),
                    old(self).spec_ids().len() as int,
                )
            },
    {
        self.messages = Vec::new();
        if world.ball.is_none() {
            clear_queues(action_wrapper, &self.ids);
            return false;
        }
        let mut k: usize = 0;
        while k < self.ids.len()
            invariant
                0 <= k <= self.ids.len(),
                self.ids == old(self).ids,
                self.target_ball_placement == old(self).target_ball_placement,
                self.messages@ == Seq::<MessageData>::empty(),
                action_wrapper@ == spec_move_away_step(
                    *world,
                    self.ids@,
                    self.target_ball_placement,
                    old(action_wrapper)@,
                    k as int,
                ),
            decreases self.ids.len() - k,
        {
            match world.allies_bot.get(self.ids[k]) {
                Some(robot) => {
                    let decision = move_away(world, &self.target_ball_placement, robot);
                    action_wrapper.replace(robot.id, decision);
                },
                None => {},
            }
            k += 1;
        }
        false
    }
}

} // verus!
