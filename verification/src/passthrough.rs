//! The plainest filter: the state of each thing is its newest raw detection,
//! at rest.

use vstd::prelude::*;
use crate::filter::own_window;
use crate::filter::Filter;
use crate::filter::FilterData;
use crate::filter::TrackedRobotMap;
use crate::filter::TrackedView;
use crate::math::Vec2;
use crate::math::Vec3;
use crate::tracking::Detection;
use crate::tracking::TrackedEntity;
use crate::world::Acceleration;
use crate::world::Ball;
use crate::world::Pose;
use crate::world::Robot;
use crate::world::Velocity;
use crate::world::World;

verus! {

/// The robot that a raw detection shows, at rest; of what was known of the
/// robot only the mark of its team stays.
pub open spec fn spec_robot_from<T>(known: Robot<T>, packet: Detection) -> Robot<T> {
    Robot {
        id: packet.id,
        pose: Pose { position: packet.position.spec_xy(), heading: packet.heading },
        has_ball: false,
        robot_info: known.robot_info,
        velocity: Velocity { linear: Vec2::spec_new(0, 0), angular: 0 },
        acceleration: Acceleration { linear: Vec2::spec_new(0, 0), angular: 0 },
        timestamp: packet.t_capture,
    }
}

/// A followed robot after the filter: where its window held detections, its
/// state is made of the newest and the window is empty.
pub open spec fn spec_robot_passed<T>(robot: TrackedView<Robot<T>>) -> TrackedView<Robot<T>> {
    if robot.packets.len() > 0 {
        TrackedView {
            packets: Seq::empty(),
            data: spec_robot_from(robot.data, robot.packets.last()),
            last_update: robot.packets.last().t_capture,
        }
    } else {
        robot
    }
}

/// The ball that a raw detection shows, at rest and nobody's.
pub open spec fn spec_ball_from(packet: Detection) -> Ball {
    Ball {
        position: packet.position,
        timestamp: packet.t_capture,
        velocity: Vec3::spec_new(0, 0, 0),
        acceleration: Vec3::spec_new(0, 0, 0),
        possession: None,
        last_touch: None,
    }
}

/// The followed ball after the filter: where its window held detections, its
/// state is made of the newest and the window is empty; a ball of which no
/// detection has come in is followed no longer.
pub open spec fn spec_ball_passed(ball: Option<TrackedView<Ball>>) -> Option<TrackedView<Ball>> {
    match ball {
        Some(followed) => if followed.packets.len() > 0 {
            Some(
                TrackedView {
                    packets: Seq::empty(),
                    data: spec_ball_from(followed.packets.last()),
                    last_update: followed.packets.last().t_capture,
                },
            )
        } else {
            None
        },
        None => None,
    }
}

/// Makes the state of each robot of its newest raw detection and empties the
/// windows.
pub fn robot_passthrough<T: Copy>(robots: &mut TrackedRobotMap<T>)
    requires
        old(robots).wf(),
    ensures
        final(robots).wf(),
        final(robots)@.len() == old(robots)@.len(),
        forall|i: int|
            0 <= i < old(robots)@.len() ==> (#[trigger] final(robots)@[i]) == spec_robot_passed(
                old(robots)@[i],
            ),
{
    let n = robots.entries.len();
    let mut i: usize = 0;
    while i < n
        invariant
            0 <= i <= n,
            robots.entries@.len() == n,
            old(robots)@.len() == n,
            robots.wf(),
            old(robots).wf(),
            forall|j: int| 0 <= j < i ==> (#[trigger] robots@[j]) == spec_robot_passed(old(robots)@[j]),
            forall|j: int| i <= j < n ==> (#[trigger] robots@[j]) == old(robots)@[j],
            forall|j: int| 0 <= j < n ==> (#[trigger] robots@[j]).data.id == old(robots)@[j].data.id,
        decreases n - i,
    {
        let ghost before = robots@;
        let ghost entries = robots.entries@;
        let mut entry = robots.entries.remove(i);
        assert(entry.wf()) by {
            assert(entries[i as int].wf());
        }
        match entry.take_last_packet() {
            Some(packet) => {
                let known = *entry.data();
                let seen = Robot {
                    id: packet.id,
                    pose: Pose { position: packet.position.xy(), heading: packet.heading },
                    has_ball: false,
                    robot_info: known.robot_info,
                    velocity: Velocity { linear: Vec2::zero(), angular: 0 },
                    acceleration: Acceleration { linear: Vec2::zero(), angular: 0 },
                    timestamp: packet.t_capture,
                };
                entry.set_data(seen, packet.t_capture);
                assert(entry@.packets =~= Seq::<Detection>::empty());
                assert(entry@ == spec_robot_passed(before[i as int]));
            },
            None => {
                assert(entry@.packets =~= before[i as int].packets);
                assert(entry@ == spec_robot_passed(before[i as int]));
            },
        }
        let ghost passed = entry@;
        robots.entries.insert(i, entry);
        proof {
            assert(own_window(before[i as int]));
            assert(passed.data.id == before[i as int].data.id) by {
                let held = before[i as int].packets;
                if held.len() > 0 {
                    assert(held[held.len() - 1].id == before[i as int].data.id);
                }
            }
            assert(own_window(passed));
            assert(robots@[i as int] == passed);
            assert forall|j: int| 0 <= j < n && j != i implies (#[trigger] robots@[j])
                == before[j] by {
                assert(robots.entries@[j] == entries[j]);
            }
            assert forall|j: int| 0 <= j < n && j != i implies (#[trigger] robots.entries@[j])
                == entries[j] by {}
            assert forall|j: int| 0 <= j < n implies (#[trigger] robots.entries@[j]).wf() by {
                if j != i {
                    assert(entries[j].wf());
                }
            }
            assert forall|j: int| 0 <= j < n implies own_window(#[trigger] robots@[j]) by {
                if j != i {
                    assert(own_window(before[j]));
                }
            }
            assert forall|j: int| 0 <= j < n implies (#[trigger] robots@[j]).data.id
                == before[j].data.id by {}
            assert forall|a: int, b: int| 0 <= a < b < n implies (#[trigger] robots@[a]).data.id
                != (#[trigger] robots@[b]).data.id by {
                assert(before[a].data.id != before[b].data.id);
            }
        }
        i += 1;
    }
}

/// Makes the state of the ball of its newest raw detection and empties its
/// window; a ball of which no detection has come in is followed no longer.
pub fn ball_passthrough(ball: &mut Option<TrackedEntity<Ball>>)
    requires
        match *old(ball) {
            Some(followed) => followed.wf(),
            None => true,
        },
    ensures
        match *final(ball) {
            Some(followed) => followed.wf(),
            None => true,
        },
        (match *final(ball) {
            Some(followed) => Some(followed@),
            None => None,
        }) == spec_ball_passed(
            match *old(ball) {
                Some(followed) => Some(followed@),
                None => None,
            },
        ),
{
    match ball.take() {
        Some(mut followed) => {
            match followed.take_last_packet() {
                Some(packet) => {
                    followed.set_data(
                        Ball {
                            position: packet.position,
                            timestamp: packet.t_capture,
                            velocity: Vec3::zero(),
                            acceleration: Vec3::zero(),
                            possession: None,
                            last_touch: None,
                        },
                        packet.t_capture,
                    );
                    *ball = Some(followed);
                },
                None => {},
            }
        },
        None => {},
    }
}

/// The plainest filter.
#[derive(Clone, Copy, Debug, Default)]
pub struct PassthroughFilter;

impl Filter for PassthroughFilter {
    /// Makes the state of each robot and of the ball of its newest raw
    /// detection and empties the windows.
    fn step(&mut self, filter_data: &mut FilterData, world: &World)
        ensures
            final(filter_data).allies@.len() == old(filter_data).allies@.len(),
            forall|i: int|
                0 <= i < old(filter_data).allies@.len() ==> (
                #[trigger] final(filter_data).allies@[i]) == spec_robot_passed(
                    old(filter_data).allies@[i],
                ),
            final(filter_data).enemies@.len() == old(filter_data).enemies@.len(),
            forall|i: int|
                0 <= i < old(filter_data).enemies@.len() ==> (
                #[trigger] final(filter_data).enemies@[i]) == spec_robot_passed(
                    old(filter_data).enemies@[i],
                ),
            final(filter_data).spec_ball() == spec_ball_passed(old(filter_data).spec_ball()),
            final(filter_data).referee == old(filter_data).referee,
    {
        robot_passthrough(&mut filter_data.allies);
        robot_passthrough(&mut filter_data.enemies);
        ball_passthrough(&mut filter_data.ball);
    }
}

} // verus!
