//! The filter that turns the field round where our goal stands on the side
//! of positive `x`, so that everything behind it sees our goal on the other
//! side. A state is turned once: only while it is newer than what the view of
//! the field holds.

use vstd::prelude::*;
use crate::filter::distinct_followed;
use crate::filter::own_window;
use crate::filter::FilterData;
use crate::filter::TrackedRobotMap;
use crate::filter::TrackedView;
use crate::filter::Filter;
use crate::tracking::TrackedEntity;
use crate::world::lemma_robot_put;
use crate::world::spec_robot_in;
use crate::world::spec_robot_put;
use crate::world::Ball;
use crate::world::Pose;
use crate::world::Robot;
use crate::world::RobotMap;
use crate::world::World;

verus! {

/// The filter that turns the field round.
#[derive(Clone, Copy, Debug, Default)]
pub struct TeamSideFilter;

/// The time from `t1` to `t2` in milliseconds, if `t2` is not before `t1`;
/// the greatest number that fits where the time does not.
pub open spec fn spec_duration_millis(t1: i64, t2: i64) -> Option<i64> {
    if t2 < t1 {
        None
    } else if t2 - t1 > i64::MAX {
        Some(i64::MAX)
    } else {
        Some((t2 - t1) as i64)
    }
}

/// The time from `t1` to `t2` in milliseconds, if `t2` is not before `t1`.
pub fn get_duration_millis(t1: i64, t2: i64) -> (r: Option<i64>)
    ensures
        r == spec_duration_millis(t1, t2),
{
    if t2 < t1 {
        return None;
    }
    let d = t2 as i128 - t1 as i128;
    if d > i64::MAX as i128 {
        Some(i64::MAX)
    } else {
        Some(d as i64)
    }
}

/// Whether a state seen at `seen` is newer than the one known from `known`.
pub open spec fn spec_newer(known: i64, seen: i64) -> bool {
    match spec_duration_millis(known, seen) {
        Some(millis) => millis > 0,
        None => false,
    }
}

/// The state of a robot with the field turned round: position and heading
/// change sign.
pub open spec fn spec_robot_turned<T>(robot: Robot<T>) -> Robot<T> {
    Robot {
        pose: Pose {
            position: robot.pose.position.spec_mirrored(),
            heading: robot.pose.heading.spec_mirrored(),
        },
        ..robot
    }
}

/// The state of a followed robot after the filter: turned round if the view
/// of the field knows the robot from an older state, else as it is.
pub open spec fn spec_robot_side<T>(data: Robot<T>, known: Option<Robot<T>>) -> Robot<T> {
    match known {
        Some(robot) => if spec_newer(robot.timestamp, data.timestamp) {
            spec_robot_turned(data)
        } else {
            data
        },
        None => data,
    }
}

/// The followed robots after the filter.
pub open spec fn spec_robots_side<T>(
    followed: Seq<TrackedView<Robot<T>>>,
    robots: Seq<Robot<T>>,
) -> Seq<TrackedView<Robot<T>>> {
    Seq::new(
        followed.len(),
        |i: int|
            TrackedView {
                data: spec_robot_side(followed[i].data, spec_robot_in(robots, followed[i].data.id)),
                ..followed[i]
            },
    )
}

/// The state of the ball with the field turned round: its place on the
/// ground changes sign.
pub open spec fn spec_ball_turned(ball: Ball) -> Ball {
    Ball { position: ball.position.spec_mirrored(), ..ball }
}

/// The state of the followed ball after the filter: turned round if the view
/// of the field holds an older state of the ball, else as it is.
pub open spec fn spec_ball_side(data: Ball, known: Option<Ball>) -> Ball {
    match known {
        Some(ball) => if spec_newer(ball.timestamp, data.timestamp) {
            spec_ball_turned(data)
        } else {
            data
        },
        None => data,
    }
}

/// The robots of the view of the field after the states of the first `upto`
/// followed robots were put into it.
pub open spec fn spec_published<T>(
    robots: Seq<Robot<T>>,
    followed: Seq<TrackedView<Robot<T>>>,
    upto: int,
) -> Seq<Robot<T>>
    decreases upto,
{
    if upto <= 0 {
        robots
    } else {
        spec_robot_put(spec_published(robots, followed, upto - 1), followed[upto - 1].data)
    }
}

/// Once the states of followed robots with distinct identifiers were put
/// into the view of the field, each is found there under its identifier.
pub proof fn lemma_published<T>(
    robots: Seq<Robot<T>>,
    followed: Seq<TrackedView<Robot<T>>>,
    upto: int,
)
    requires
        0 <= upto <= followed.len(),
        distinct_followed(followed),
    ensures
        forall|i: int|
            0 <= i < upto ==> spec_robot_in(
                spec_published(robots, followed, upto),
                (#[trigger] followed[i]).data.id,
            ) == Some(followed[i].data),
    decreases upto,
{
    if upto > 0 {
        lemma_published(robots, followed, upto - 1);
        let before = spec_published(robots, followed, upto - 1);
        assert forall|i: int| 0 <= i < upto implies spec_robot_in(
            spec_published(robots, followed, upto),
            (#[trigger] followed[i]).data.id,
        ) == Some(followed[i].data) by {
            lemma_robot_put(before, followed[upto - 1].data, followed[i].data.id);
        }
    }
}

/// Turning the field round a second time changes nothing: once the states
/// that the filter gave were put into the view of the field, the filter
/// leaves every one of them as it is.
pub proof fn lemma_side_filter_once<T>(
    followed: Seq<TrackedView<Robot<T>>>,
    robots: Seq<Robot<T>>,
)
    requires
        distinct_followed(followed),
    ensures
        spec_robots_side(
            spec_robots_side(followed, robots),
            spec_published(
                robots,
                spec_robots_side(followed, robots),
                spec_robots_side(followed, robots).len() as int,
            ),
        ) == spec_robots_side(followed, robots),
{
    let turned = spec_robots_side(followed, robots);
    let known = spec_published(robots, turned, turned.len() as int);
    assert(distinct_followed(turned)) by {
        assert forall|i: int, j: int| 0 <= i < j < turned.len() implies (
        #[trigger] turned[i]).data.id != (#[trigger] turned[j]).data.id by {
            assert(followed[i].data.id != followed[j].data.id);
        }
    }
    lemma_published(robots, turned, turned.len() as int);
    let again = spec_robots_side(turned, known);
    assert forall|i: int| 0 <= i < turned.len() implies again[i] == turned[i] by {
        assert(spec_robot_in(known, turned[i].data.id) == Some(turned[i].data));
    }
    assert(again =~= turned);
}

/// Turning the state of the ball round a second time changes nothing: once
/// the state that the filter gave is the one that the view of the field
/// holds, the filter leaves it as it is.
pub proof fn lemma_ball_side_once(data: Ball, known: Option<Ball>)
    ensures
        spec_ball_side(spec_ball_side(data, known), Some(spec_ball_side(data, known)))
            == spec_ball_side(data, known),
{
}

/// Turns round the state of each followed robot that the view of the field
/// knows from an older state.
pub fn change_robots_side<T: Copy>(followed: &mut TrackedRobotMap<T>, robots: &RobotMap<T>)
    requires
        old(followed).wf(),
    ensures
        final(followed).wf(),
        final(followed)@ == spec_robots_side(old(followed)@, robots@),
{
    let n = followed.entries.len();
    let mut i: usize = 0;
    while i < n
        invariant
            0 <= i <= n,
            followed.entries@.len() == n,
            old(followed)@.len() == n,
            followed.wf(),
            forall|j: int|
                0 <= j < i ==> (#[trigger] followed@[j]) == spec_robots_side(
                    old(followed)@,
                    robots@,
                )[j],
            forall|j: int| i <= j < n ==> (#[trigger] followed@[j]) == old(followed)@[j],
        decreases n - i,
    {
        let ghost before = followed@;
        let ghost entries = followed.entries@;
        let mut entry = followed.entries.remove(i);
        assert(entry.wf()) by {
            assert(entries[i as int].wf());
        }
        assert(entry@ == before[i as int]);
        let data = *entry.data();
        match robots.get(data.id) {
            Some(robot) => {
                match get_duration_millis(robot.timestamp, data.timestamp) {
                    Some(millis) => {
                        if millis > 0 {
                            let turned = Robot {
                                id: data.id,
                                pose: Pose {
                                    position: data.pose.position.mirrored(),
                                    heading: data.pose.heading.mirrored(),
                                },
                                velocity: data.velocity,
                                acceleration: data.acceleration,
                                has_ball: data.has_ball,
                                timestamp: data.timestamp,
                                robot_info: data.robot_info,
                            };
                            let at = entry.last_update();
                            entry.set_data(turned, at);
                        }
                    },
                    None => {},
                }
            },
            None => {},
        }
        let ghost after = entry@;
        assert(after == spec_robots_side(old(followed)@, robots@)[i as int]);
        followed.entries.insert(i, entry);
        proof {
            assert(followed@[i as int] == after);
            assert forall|j: int| 0 <= j < n && j != i implies (#[trigger] followed@[j])
                == before[j] by {
                assert(followed.entries@[j] == entries[j]);
            }
            assert forall|j: int| 0 <= j < n implies (#[trigger] followed.entries@[j]).wf() by {
                if j != i {
                    assert(followed.entries@[j] == entries[j]);
                    assert(entries[j].wf());
                }
            }
        }
        i += 1;
    }
    assert(followed@ =~= spec_robots_side(old(followed)@, robots@));
    proof {
        let out = followed@;
        let was = old(followed)@;
        assert forall|j: int| 0 <= j < out.len() implies own_window(#[trigger] out[j]) by {
            assert(own_window(was[j]));
        }
        assert forall|a: int, b: int| 0 <= a < b < out.len() implies (#[trigger] out[a]).data.id
            != (#[trigger] out[b]).data.id by {
            assert(was[a].data.id != was[b].data.id);
        }
    }
}

/// Turns round the state of the followed ball if the view of the field holds
/// an older state of the ball.
pub fn change_ball_side(followed: &mut TrackedEntity<Ball>, ball: &Ball)
    requires
        old(followed).wf(),
    ensures
        final(followed).wf(),
        final(followed)@ == (TrackedView {
            data: spec_ball_side(old(followed)@.data, Some(*ball)),
            ..old(followed)@
        }),
{
    let data = *followed.data();
    match get_duration_millis(ball.timestamp, data.timestamp) {
        Some(millis) => {
            if millis > 0 {
                let turned = Ball {
                    position: data.position.mirrored(),
                    timestamp: data.timestamp,
                    velocity: data.velocity,
                    acceleration: data.acceleration,
                    possession: data.possession,
                    last_touch: data.last_touch,
                };
                let at = followed.last_update();
                followed.set_data(turned, at);
            }
        },
        None => {},
    }
}

/// Puts the states of the followed robots into the view of the field.
pub fn publish_robots<T: Copy>(followed: &TrackedRobotMap<T>, robots: &mut RobotMap<T>)
    ensures
        final(robots)@ == spec_published(old(robots)@, followed@, followed@.len() as int),
        old(robots).wf() ==> final(robots).wf(),
{
    let mut i: usize = 0;
    while i < followed.len()
        invariant
            0 <= i <= followed@.len(),
            robots@ == spec_published(old(robots)@, followed@, i as int),
            old(robots).wf() ==> robots.wf(),
        decreases followed@.len() - i,
    {
        let data = *followed.get(i).data();
        robots.insert(data);
        i += 1;
    }
}

impl Filter for TeamSideFilter {
    /// Turns the followed states round where our team is the one whose goal
    /// stands on the side of positive `x`; does nothing where it is not.
    fn step(&mut self, filter_data: &mut FilterData, world: &World)
        ensures
            final(filter_data).referee == old(filter_data).referee,
            world.team_color != world.data.positive_half ==> *final(filter_data)
                == *old(filter_data),
            world.team_color == world.data.positive_half ==> {
                &&& final(filter_data).allies@ == spec_robots_side(
                    old(filter_data).allies@,
                    world.allies_bot@,
                )
                &&& final(filter_data).enemies@ == spec_robots_side(
                    old(filter_data).enemies@,
                    world.enemies_bot@,
                )
                &&& final(filter_data).spec_ball() == match old(filter_data).spec_ball() {
                    Some(followed) => Some(
                        TrackedView {
                            data: spec_ball_side(followed.data, world.ball),
                            ..followed
                        },
                    ),
                    None => None,
                }
            },
    {
        if !(world.team_color == world.data.positive_half) {
            return;
        }
        change_robots_side(&mut filter_data.allies, &world.allies_bot);
        change_robots_side(&mut filter_data.enemies, &world.enemies_bot);
        match &world.ball {
            Some(ball) => {
                match filter_data.ball.take() {
                    Some(mut followed) => {
                        change_ball_side(&mut followed, ball);
                        filter_data.ball = Some(followed);
                    },
                    None => {},
                }
            },
            None => {},
        }
    }
}

} // verus!
