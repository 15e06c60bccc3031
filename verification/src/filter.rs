//! The filter stage: what comes in from the cameras is laid down in the
//! windows of the things it shows, and the filters make the view of the
//! field from it.

use vstd::prelude::*;
use crate::math::Vec2;
use crate::math::Vec3;
use crate::referee::Referee;
use crate::tracking::spec_pushed;
use crate::tracking::Detection;
use crate::tracking::TrackedEntity;
use crate::world::Acceleration;
use crate::world::AllyInfo;
use crate::world::Ball;
use crate::world::EnemyInfo;
use crate::world::Pose;
use crate::world::Robot;
use crate::world::Velocity;
use crate::world::World;
use crate::world::MAX_ROBOTS;

verus! {

/// What can be set for the filters. Nothing yet.
#[derive(Clone, Copy, Debug, Default)]
pub struct FilterConfig {}

/// What is set for every stage.
#[derive(Clone, Copy, Debug, Default)]
pub struct CommonConfig {
    /// Whether our team plays in yellow.
    pub yellow: bool,
    /// Whether the commands go to real robots.
    pub real: bool,
}

/// A robot as one camera frame shows it. Lengths are in micrometres.
#[derive(Clone, Copy, Debug)]
pub struct SslDetectionRobot {
    pub robot_id: Option<u32>,
    pub x: i64,
    pub y: i64,
    /// Which way the robot faces, if the camera tells.
    pub orientation: Option<Vec2>,
}

/// A ball as one camera frame shows it. Lengths are in micrometres.
#[derive(Clone, Copy, Debug)]
pub struct SslDetectionBall {
    pub x: i64,
    pub y: i64,
    pub z: Option<i64>,
}

/// One frame of one camera.
#[derive(Clone, Debug)]
pub struct SslDetectionFrame {
    pub camera_id: u32,
    pub frame_number: u32,
    /// Capture time.
    pub t_capture: i64,
    pub robots_yellow: Vec<SslDetectionRobot>,
    pub robots_blue: Vec<SslDetectionRobot>,
    pub balls: Vec<SslDetectionBall>,
}

/// One packet of the vision.
#[derive(Clone, Debug)]
pub struct VisionPacket {
    pub detection: Option<SslDetectionFrame>,
}

/// What has come in since the last tick.
#[derive(Clone, Debug)]
pub struct InboundData {
    pub vision_packet: Vec<VisionPacket>,
    pub gc_packet: Vec<Referee>,
}

/// The heading of a robot of which the camera tells none: along the first
/// axis.
pub open spec fn spec_default_heading() -> Vec2 {
    Vec2::spec_new(1_000_000, 0)
}

/// The raw detection made of a robot in a frame; none for a robot without an
/// identifier or with one that no robot can bear.
pub open spec fn spec_map_camera_robot(
    robot: SslDetectionRobot,
    camera_id: u32,
    frame_number: u32,
    time: i64,
) -> Option<Detection> {
    match robot.robot_id {
        Some(id) => if id < MAX_ROBOTS {
            Some(
                Detection {
                    id: id as u8,
                    camera_id,
                    frame_number,
                    t_capture: time,
                    position: Vec3::spec_new(robot.x as int, robot.y as int, 0),
                    heading: match robot.orientation {
                        Some(heading) => heading,
                        None => spec_default_heading(),
                    },
                },
            )
        } else {
            None
        },
        None => None,
    }
}

/// The raw detections made of the first `upto` of `robots`, in order.
pub open spec fn spec_map_camera_robots(
    robots: Seq<SslDetectionRobot>,
    camera_id: u32,
    frame_number: u32,
    time: i64,
    upto: int,
) -> Seq<Detection>
    decreases upto,
{
    if upto <= 0 {
        Seq::empty()
    } else {
        let before = spec_map_camera_robots(robots, camera_id, frame_number, time, upto - 1);
        match spec_map_camera_robot(robots[upto - 1], camera_id, frame_number, time) {
            Some(detection) => before.push(detection),
            None => before,
        }
    }
}

/// The raw detections made of the robots of a frame, in order; robots
/// without an identifier, or with one that no robot can bear, are left out.
pub fn map_camera_robots(
    robots: &Vec<SslDetectionRobot>,
    camera_id: u32,
    frame_number: u32,
    time: i64,
) -> (r: Vec<Detection>)
    ensures
        r@ == spec_map_camera_robots(robots@, camera_id, frame_number, time, robots@.len() as int),
{
    let mut out: Vec<Detection> = Vec::new();
    let mut i: usize = 0;
    while i < robots.len()
        invariant
            0 <= i <= robots.len(),
            out@ == spec_map_camera_robots(robots@, camera_id, frame_number, time, i as int),
        decreases robots.len() - i,
    {
        let robot = &robots[i];
        match robot.robot_id {
            Some(id) => {
                if id < MAX_ROBOTS as u32 {
                    let heading = match robot.orientation {
                        Some(heading) => heading,
                        None => Vec2::new(1_000_000, 0),
                    };
                    out.push(
                        Detection {
                            id: id as u8,
                            camera_id,
                            frame_number,
                            t_capture: time,
                            position: Vec3::new(robot.x, robot.y, 0),
                            heading,
                        },
                    );
                }
            },
            None => {},
        }
        i += 1;
    }
    out
}

/// The raw detection made of a ball in a frame; a ball without a height lies
/// on the ground.
pub open spec fn spec_map_camera_ball(
    ball: SslDetectionBall,
    camera_id: u32,
    frame_number: u32,
    time: i64,
) -> Detection {
    Detection {
        id: 0,
        camera_id,
        frame_number,
        t_capture: time,
        position: Vec3::spec_new(
            ball.x as int,
            ball.y as int,
            match ball.z {
                Some(z) => z as int,
                None => 0,
            },
        ),
        heading: spec_default_heading(),
    }
}

/// The raw detection made of a ball in a frame.
pub fn map_camera_ball(ball: &SslDetectionBall, camera_id: u32, frame_number: u32, time: i64) -> (r:
    Detection)
    ensures
        r == spec_map_camera_ball(*ball, camera_id, frame_number, time),
{
    Detection {
        id: 0,
        camera_id,
        frame_number,
        t_capture: time,
        position: Vec3::new(
            ball.x,
            ball.y,
            match ball.z {
                Some(z) => z,
                None => 0,
            },
        ),
        heading: Vec2::new(1_000_000, 0),
    }
}

/// A followed thing as the contracts see it.
pub struct TrackedView<T> {
    pub packets: Seq<Detection>,
    pub data: T,
    pub last_update: i64,
}

impl<T> TrackedEntity<T> {
    /// The thing as the contracts see it.
    pub open(crate) spec fn view(&self) -> TrackedView<T> {
        TrackedView {
            packets: self.spec_packets(),
            data: self.spec_data(),
            last_update: self.spec_last_update(),
        }
    }
}

/// A robot of which nothing is known but its identifier: at the origin,
/// facing along the first axis, at rest, seen at the time zero.
pub open spec fn spec_unseen<T>(id: u8, info: T) -> Robot<T> {
    Robot {
        id,
        pose: Pose { position: Vec2::spec_new(0, 0), heading: spec_default_heading() },
        velocity: Velocity { linear: Vec2::spec_new(0, 0), angular: 0 },
        acceleration: Acceleration { linear: Vec2::spec_new(0, 0), angular: 0 },
        has_ball: false,
        timestamp: 0,
        robot_info: info,
    }
}

/// A robot of which nothing is known but its identifier.
pub fn unseen<T>(id: u8, info: T) -> (r: Robot<T>)
    ensures
        r == spec_unseen(id, info),
{
    Robot {
        id,
        pose: Pose { position: Vec2::zero(), heading: Vec2::new(1_000_000, 0) },
        velocity: Velocity { linear: Vec2::zero(), angular: 0 },
        acceleration: Acceleration { linear: Vec2::zero(), angular: 0 },
        has_ball: false,
        timestamp: 0,
        robot_info: info,
    }
}

/// No two followed robots bear the same identifier.
pub open spec fn distinct_followed<T>(followed: Seq<TrackedView<Robot<T>>>) -> bool {
    forall|i: int, j: int|
        0 <= i < j < followed.len() ==> (#[trigger] followed[i]).data.id != (
        #[trigger] followed[j]).data.id
}

/// The window of a followed robot holds detections of that robot only.
pub open spec fn own_window<T>(followed: TrackedView<Robot<T>>) -> bool {
    forall|k: int|
        0 <= k < followed.packets.len() ==> (#[trigger] followed.packets[k]).id == followed.data.id
}

/// The followed robots of one team, in the order in which they were first
/// seen. Every filter walks them and changes each in its place, and the
/// robots of the world come out in the same order.
pub struct TrackedRobotMap<T> {
    pub(crate) entries: Vec<TrackedEntity<Robot<T>>>,
}

/// Position of the first of `robots` with the identifier `id`, or their
/// number if there is none.
pub open spec fn spec_entry_of<T>(robots: Seq<TrackedView<Robot<T>>>, id: u8) -> int
    decreases robots.len(),
{
    if robots.len() == 0 {
        0
    } else if robots[0].data.id == id {
        0
    } else {
        1 + spec_entry_of(robots.skip(1), id)
    }
}

/// `spec_entry_of` finds the first entry with the identifier, if there is
/// one.
pub proof fn lemma_entry_of<T>(robots: Seq<TrackedView<Robot<T>>>, id: u8)
    ensures
        0 <= spec_entry_of(robots, id) <= robots.len(),
        spec_entry_of(robots, id) < robots.len() ==> robots[spec_entry_of(robots, id)].data.id == id,
        forall|k: int| 0 <= k < spec_entry_of(robots, id) ==> (#[trigger] robots[k]).data.id != id,
    decreases robots.len(),
{
    if robots.len() > 0 && robots[0].data.id != id {
        let rest = robots.skip(1);
        lemma_entry_of(rest, id);
        let h = spec_entry_of(rest, id);
        assert forall|k: int| 0 <= k < 1 + h implies (#[trigger] robots[k]).data.id != id by {
            if k > 0 {
                assert(rest[k - 1] == robots[k]);
            }
        }
        if h < rest.len() {
            assert(rest[h] == robots[h + 1]);
        }
    }
}

/// The followed robots after one raw detection was laid down: in the window
/// of the robot that it shows, which is made if it is not followed yet.
pub open spec fn spec_robot_seen<T>(
    robots: Seq<TrackedView<Robot<T>>>,
    detection: Detection,
    info: T,
    now: i64,
) -> Seq<TrackedView<Robot<T>>> {
    let at = spec_entry_of(robots, detection.id);
    if at < robots.len() {
        robots.update(
            at,
            TrackedView { packets: spec_pushed(robots[at].packets, detection), ..robots[at] },
        )
    } else {
        robots.push(
            TrackedView {
                packets: seq![detection],
                data: spec_unseen(detection.id, info),
                last_update: now,
            },
        )
    }
}

/// The followed robots after the first `upto` of `detections` were laid
/// down, in order.
pub open spec fn spec_robots_seen<T>(
    robots: Seq<TrackedView<Robot<T>>>,
    detections: Seq<Detection>,
    info: T,
    now: i64,
    upto: int,
) -> Seq<TrackedView<Robot<T>>>
    decreases upto,
{
    if upto <= 0 {
        robots
    } else {
        spec_robot_seen(
            spec_robots_seen(robots, detections, info, now, upto - 1),
            detections[upto - 1],
            info,
            now,
        )
    }
}

impl<T: Copy> TrackedRobotMap<T> {
    /// The followed robots, in the order in which they were first seen.
    pub open(crate) spec fn view(&self) -> Seq<TrackedView<Robot<T>>> {
        Seq::new(self.entries@.len(), |i: int| self.entries@[i]@)
    }

    /// No window holds more than fifty detections, every window holds
    /// detections of its own robot only, and no two followed robots bear the
    /// same identifier.
    pub open(crate) spec fn wf(&self) -> bool {
        &&& forall|i: int| 0 <= i < self.entries@.len() ==> (#[trigger] self.entries@[i]).wf()
        &&& forall|i: int| 0 <= i < self@.len() ==> own_window(#[trigger] self@[i])
        &&& distinct_followed(self@)
    }

    /// Every window holds detections of its own robot only, and no two
    /// followed robots bear the same identifier.
    pub proof fn lemma_own_windows(&self)
        requires
            self.wf(),
        ensures
            forall|i: int| 0 <= i < self@.len() ==> own_window(#[trigger] self@[i]),
            distinct_followed(self@),
    {
    }

    /// No robot is followed yet.
    pub fn new() -> (r: TrackedRobotMap<T>)
        ensures
            r.wf(),
            r@ == Seq::<TrackedView<Robot<T>>>::empty(),
    {
        let r = TrackedRobotMap { entries: Vec::new() };
        assert(r@ =~= Seq::<TrackedView<Robot<T>>>::empty());
        r
    }

    /// Number of followed robots.
    pub fn len(&self) -> (n: usize)
        ensures
            n == self@.len(),
    {
        self.entries.len()
    }

    /// The followed robot at `index`.
    pub fn get(&self, index: usize) -> (r: &TrackedEntity<Robot<T>>)
        requires
            index < self@.len(),
        ensures
            r@ == self@[index as int],
            self.wf() ==> r.wf(),
    {
        &self.entries[index]
    }

    /// No window holds more than fifty detections.
    pub proof fn lemma_windows_bounded(&self)
        requires
            self.wf(),
        ensures
            forall|i: int| 0 <= i < self@.len() ==> (#[trigger] self@[i]).packets.len() <= 50,
    {
        assert forall|i: int| 0 <= i < self@.len() implies (#[trigger] self@[i]).packets.len()
            <= 50 by {
            assert(self.entries@[i].wf());
        }
    }

    /// Position of the entry of the robot `id`.
    pub fn entry_of(&self, id: u8) -> (r: Option<usize>)
        ensures
            match r {
                Some(i) => i == spec_entry_of(self@, id) && i < self@.len(),
                None => spec_entry_of(self@, id) == self@.len(),
            },
    {
        proof {
            lemma_entry_of(self@, id);
        }
        let mut i: usize = 0;
        while i < self.entries.len()
            invariant
                0 <= i <= self.entries.len(),
                forall|k: int| 0 <= k < i ==> (#[trigger] self@[k]).data.id != id,
                0 <= spec_entry_of(self@, id) <= self@.len(),
                spec_entry_of(self@, id) < self@.len() ==> self@[spec_entry_of(self@, id)].data.id
                    == id,
                forall|k: int|
                    0 <= k < spec_entry_of(self@, id) ==> (#[trigger] self@[k]).data.id != id,
            decreases self.entries.len() - i,
        {
            let here = self.entries[i].data().id;
            assert(here == self@[i as int].data.id);
            if here == id {
                return Some(i);
            }
            i += 1;
        }
        None
    }

    /// Lays one raw detection down in the window of the robot that it shows,
    /// which is made if the robot is not followed yet.
    pub fn see(&mut self, detection: Detection, info: T, now: i64)
        requires
            old(self).wf(),
        ensures
            final(self).wf(),
            final(self)@ == spec_robot_seen(old(self)@, detection, info, now),
    {
        proof {
            lemma_entry_of(self@, detection.id);
        }
        let ghost was = self@;
        let ghost entries = self.entries@;
        match self.entry_of(detection.id) {
            Some(at) => {
                let mut entry = self.entries.remove(at);
                assert(entry.wf()) by {
                    assert(entries[at as int].wf());
                }
                assert(entry@ == was[at as int]);
                entry.handle_packet(detection);
                let ghost grown = entry@;
                self.entries.insert(at, entry);
                assert(self@ =~= spec_robot_seen(old(self)@, detection, info, now));
                proof {
                    assert forall|j: int| 0 <= j < self.entries@.len() implies (
                    #[trigger] self.entries@[j]).wf() by {
                        if j != at {
                            assert(self.entries@[j] == entries[j]);
                            assert(entries[j].wf());
                        }
                    }
                    assert(own_window(grown)) by {
                        assert(own_window(was[at as int]));
                        assert forall|k: int| 0 <= k < grown.packets.len() implies (
                        #[trigger] grown.packets[k]).id == grown.data.id by {
                            let held = was[at as int].packets;
                            if held.len() < 50 {
                                if k < held.len() {
                                    assert(grown.packets[k] == held[k]);
                                }
                            } else {
                                if k < held.len() - 1 {
                                    assert(grown.packets[k] == held[k + 1]);
                                }
                            }
                        }
                    }
                    assert forall|j: int| 0 <= j < self@.len() implies own_window(
                        #[trigger] self@[j],
                    ) by {
                        if j != at {
                            assert(self@[j] == was[j]);
                            assert(own_window(was[j]));
                        }
                    }
                    assert forall|a: int, b: int| 0 <= a < b < self@.len() implies (
                    #[trigger] self@[a]).data.id != (#[trigger] self@[b]).data.id by {
                        assert(self@[a].data.id == was[a].data.id);
                        assert(self@[b].data.id == was[b].data.id);
                    }
                }
            },
            None => {
                let mut entry = TrackedEntity::new(unseen(detection.id, info), now);
                entry.handle_packet(detection);
                assert(entry@.packets =~= seq![detection]);
                let ghost fresh = entry@;
                self.entries.push(entry);
                assert(self@ =~= spec_robot_seen(old(self)@, detection, info, now));
                proof {
                    assert forall|j: int| 0 <= j < self.entries@.len() implies (
                    #[trigger] self.entries@[j]).wf() by {
                        if j < entries.len() {
                            assert(self.entries@[j] == entries[j]);
                            assert(entries[j].wf());
                        }
                    }
                    assert forall|j: int| 0 <= j < self@.len() implies own_window(
                        #[trigger] self@[j],
                    ) by {
                        if j < was.len() {
                            assert(self@[j] == was[j]);
                            assert(own_window(was[j]));
                        } else {
                            assert(self@[j] == fresh);
                        }
                    }
                    assert forall|a: int, b: int| 0 <= a < b < self@.len() implies (
                    #[trigger] self@[a]).data.id != (#[trigger] self@[b]).data.id by {
                        assert(self@[a] == was[a]);
                        if b < was.len() {
                            assert(self@[b] == was[b]);
                        } else {
                            assert(self@[b] == fresh);
                        }
                    }
                }
            },
        }
    }
}

/// Lays the raw detections of the robots of one team down, in order, each
/// in the window of the robot that it shows.
pub fn handle_camera_robots<T: Copy>(
    robots: &mut TrackedRobotMap<T>,
    cam_robots: &Vec<Detection>,
    info: T,
    now: i64,
)
    requires
        old(robots).wf(),
    ensures
        final(robots).wf(),
        final(robots)@ == spec_robots_seen(
            old(robots)@,
            cam_robots@,
            info,
            now,
            cam_robots@.len() as int,
        ),
{
    let mut i: usize = 0;
    while i < cam_robots.len()
        invariant
            0 <= i <= cam_robots.len(),
            robots.wf(),
            robots@ == spec_robots_seen(old(robots)@, cam_robots@, info, now, i as int),
        decreases cam_robots.len() - i,
    {
        robots.see(cam_robots[i], info, now);
        i += 1;
    }
}

/// A ball of which nothing is known: at the origin, at rest, seen at the
/// time zero, nobody's.
pub open spec fn spec_unseen_ball() -> Ball {
    Ball {
        position: Vec3::spec_new(0, 0, 0),
        timestamp: 0,
        velocity: Vec3::spec_new(0, 0, 0),
        acceleration: Vec3::spec_new(0, 0, 0),
        possession: None,
        last_touch: None,
    }
}

/// The followed ball after one raw detection of it was laid down; the ball
/// is followed from its first detection on.
pub open spec fn spec_ball_seen(
    ball: Option<TrackedView<Ball>>,
    detection: Detection,
    now: i64,
) -> Option<TrackedView<Ball>> {
    match ball {
        Some(followed) => Some(
            TrackedView { packets: spec_pushed(followed.packets, detection), ..followed },
        ),
        None => Some(
            TrackedView { packets: seq![detection], data: spec_unseen_ball(), last_update: now },
        ),
    }
}

/// What the filters keep between two ticks.
pub struct FilterData {
    pub allies: TrackedRobotMap<AllyInfo>,
    pub enemies: TrackedRobotMap<EnemyInfo>,
    pub ball: Option<TrackedEntity<Ball>>,
    /// The packets of the referee that came in with the last tick.
    pub referee: Vec<Referee>,
}

impl FilterData {
    /// The followed ball as the contracts see it.
    pub open spec fn spec_ball(&self) -> Option<TrackedView<Ball>> {
        match self.ball {
            Some(ball) => Some(ball@),
            None => None,
        }
    }

    /// No window holds more than fifty detections.
    pub open spec fn wf(&self) -> bool {
        &&& self.allies.wf()
        &&& self.enemies.wf()
        &&& match self.ball {
            Some(ball) => ball.wf(),
            None => true,
        }
    }

    /// Nothing is followed yet.
    pub fn new() -> (r: FilterData)
        ensures
            r.wf(),
            r.allies@ == Seq::<TrackedView<Robot<AllyInfo>>>::empty(),
            r.enemies@ == Seq::<TrackedView<Robot<EnemyInfo>>>::empty(),
            r.ball is None,
            r.referee@ == Seq::<Referee>::empty(),
    {
        FilterData {
            allies: TrackedRobotMap::new(),
            enemies: TrackedRobotMap::new(),
            ball: None,
            referee: Vec::new(),
        }
    }

    /// Lays one raw detection of the ball down.
    pub fn see_ball(&mut self, detection: Detection, now: i64)
        requires
            old(self).wf(),
        ensures
            final(self).wf(),
            final(self).spec_ball() == spec_ball_seen(old(self).spec_ball(), detection, now),
            final(self).allies == old(self).allies,
            final(self).enemies == old(self).enemies,
            final(self).referee == old(self).referee,
    {
        let mut ball = match self.ball.take() {
            Some(ball) => ball,
            None => TrackedEntity::new(unseen_ball(), now),
        };
        ball.handle_packet(detection);
        proof {
            if old(self).ball is None {
                assert(ball@.packets =~= seq![detection]);
            }
        }
        self.ball = Some(ball);
    }
}

/// A ball of which nothing is known.
pub fn unseen_ball() -> (r: Ball)
    ensures
        r == spec_unseen_ball(),
{
    Ball {
        position: Vec3::zero(),
        timestamp: 0,
        velocity: Vec3::zero(),
        acceleration: Vec3::zero(),
        possession: None,
        last_touch: None,
    }
}

/// A filter of the filter stage: it works on what is kept between the ticks
/// and reads the view of the field of the last tick.
pub trait Filter {
    fn step(&mut self, filter_data: &mut FilterData, world: &World)
        requires
            old(filter_data).wf(),
        ensures
            final(filter_data).wf(),
    ;
}

} // verus!
