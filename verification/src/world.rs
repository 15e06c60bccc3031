//! The consolidated view of the field that the filters write and the
//! strategies read.

use vstd::prelude::*;
use crate::math::Circle;
use crate::math::Line;
use crate::math::Rectangle;
use crate::math::Vec2;
use crate::math::Vec3;
use crate::referee::RefereeOrders;

verus! {

/// Number of robot identifiers of a team: they run from 0 to 15.
pub const MAX_ROBOTS: usize = 16;

/// Colour of a team's markers.
#[derive(Clone, Copy, Debug, PartialEq, Eq, Structural)]
pub enum TeamColor {
    Blue,
    Yellow,
}

impl TeamColor {
    /// The colour of the other team.
    pub open spec fn spec_opposite(self) -> TeamColor {
        match self {
            TeamColor::Blue => TeamColor::Yellow,
            TeamColor::Yellow => TeamColor::Blue,
        }
    }

    /// The colour of the other team.
    pub fn opposite(self) -> (r: TeamColor)
        ensures
            r == self.spec_opposite(),
    {
        match self {
            TeamColor::Blue => TeamColor::Yellow,
            TeamColor::Yellow => TeamColor::Blue,
        }
    }
}

/// What is known of one team.
#[derive(Clone, Debug)]
pub struct Team {
    pub color: TeamColor,
    pub name: String,
    pub score: u32,
}

/// Marks a robot of our team.
#[derive(Clone, Copy, Debug, Default)]
pub struct AllyInfo;

/// Marks a robot of the other team.
#[derive(Clone, Copy, Debug, Default)]
pub struct EnemyInfo;

/// Where a robot stands and which way it faces.
#[derive(Clone, Copy, Debug, PartialEq, Eq, Structural)]
pub struct Pose {
    pub position: Vec2,
    /// The direction the robot faces: the angle `a` stands as
    /// `(cos a, sin a)` at any positive scale.
    pub heading: Vec2,
}

/// Linear and angular speed.
#[derive(Clone, Copy, Debug, PartialEq, Eq, Structural)]
pub struct Velocity {
    pub linear: Vec2,
    /// In microradians per second.
    pub angular: i32,
}

/// Linear and angular acceleration.
#[derive(Clone, Copy, Debug, PartialEq, Eq, Structural)]
pub struct Acceleration {
    pub linear: Vec2,
    /// In microradians per second squared.
    pub angular: i32,
}

/// One robot as last seen.
#[derive(Clone, Copy, Debug)]
pub struct Robot<T> {
    pub id: u8,
    pub pose: Pose,
    pub velocity: Velocity,
    pub acceleration: Acceleration,
    pub has_ball: bool,
    /// Capture time of the detection that the record was made from.
    pub timestamp: i64,
    pub robot_info: T,
}

impl<T> Robot<T> {
    /// Square of the distance from the robot to `point`.
    pub open spec fn spec_dist2_to(self, point: Vec2) -> int {
        self.pose.position.spec_dist2(point)
    }

    /// Square of the distance from the robot to `point`.
    pub fn dist2_to(&self, point: &Vec2) -> (r: i64)
        ensures
            r == self.spec_dist2_to(*point),
            0 <= r <= 80_000_000_000_000_000,
    {
        self.pose.position.dist2(point)
    }
}

/// The robots of one team, in the order in which they were first seen. A map
/// that is filled through `insert` alone holds at most one robot for each
/// identifier.
///
/// The robots are kept in a vector and not in a hash map. Every decision
/// walks a team, and where two robots are equally near to a point the one
/// that the walk meets first wins: with a fixed order the same world gives
/// the same strategies and the same intents on every run, and the contracts
/// can say which.
pub struct RobotMap<T> {
    pub(crate) robots: Vec<Robot<T>>,
}

/// No identifier occurs twice in `robots`.
pub open spec fn distinct_ids<T>(robots: Seq<Robot<T>>) -> bool {
    forall|i: int, j: int| 0 <= i < j < robots.len() ==> robots[i].id != robots[j].id
}

/// Position of the robot `id` in `robots`, or their number if it is absent.
pub open spec fn spec_position_of<T>(robots: Seq<Robot<T>>, id: u8) -> int
    decreases robots.len(),
{
    if robots.len() == 0 {
        0
    } else if robots[0].id == id {
        0
    } else {
        1 + spec_position_of(robots.skip(1), id)
    }
}

/// `spec_position_of` finds the first robot with the identifier, if there is
/// one.
pub proof fn lemma_position_of<T>(robots: Seq<Robot<T>>, id: u8)
    ensures
        0 <= spec_position_of(robots, id) <= robots.len(),
        spec_position_of(robots, id) < robots.len() ==> robots[spec_position_of(robots, id)].id
            == id,
        forall|k: int| 0 <= k < spec_position_of(robots, id) ==> robots[k].id != id,
    decreases robots.len(),
{
    if robots.len() > 0 && robots[0].id != id {
        lemma_position_of(robots.skip(1), id);
        let p = spec_position_of(robots.skip(1), id);
        assert forall|k: int| 0 <= k < 1 + p implies robots[k].id != id by {
            if k > 0 {
                assert(robots.skip(1)[k - 1] == robots[k]);
            }
        }
        if p < robots.skip(1).len() {
            assert(robots.skip(1)[p] == robots[p + 1]);
        }
    }
}

/// The first of `robots` with the identifier `id`, if there is one.
pub open spec fn spec_robot_in<T>(robots: Seq<Robot<T>>, id: u8) -> Option<Robot<T>> {
    let p = spec_position_of(robots, id);
    if p < robots.len() {
        Some(robots[p])
    } else {
        None
    }
}

/// `robots` with `robot` in the place of the first robot with the same
/// identifier, or behind the others if there is none.
pub open spec fn spec_robot_put<T>(robots: Seq<Robot<T>>, robot: Robot<T>) -> Seq<Robot<T>> {
    let p = spec_position_of(robots, robot.id);
    if p < robots.len() {
        robots.update(p, robot)
    } else {
        robots.push(robot)
    }
}

/// A robot that was put is found under its identifier, and every other
/// identifier finds what it found before.
pub proof fn lemma_robot_put<T>(robots: Seq<Robot<T>>, robot: Robot<T>, id: u8)
    ensures
        spec_robot_in(spec_robot_put(robots, robot), id) == if id == robot.id {
            Some(robot)
        } else {
            spec_robot_in(robots, id)
        },
{
    let out = spec_robot_put(robots, robot);
    lemma_position_of(robots, robot.id);
    lemma_position_of(robots, id);
    lemma_position_of(out, id);
    let p = spec_position_of(robots, robot.id);
    let q = spec_position_of(robots, id);
    let w = spec_position_of(out, id);
    if id == robot.id {
        assert(out[p].id == id);
        assert forall|k: int| 0 <= k < p implies out[k].id != id by {
            assert(out[k] == robots[k]);
        }
        assert(w == p) by {
            if w < p {
                assert(out[w].id == id);
            }
        }
    } else {
        assert forall|k: int| 0 <= k < out.len() && k != p implies out[k] == robots[k] by {}
        if q < robots.len() {
            assert(q != p);
            assert(out[q] == robots[q]);
            assert(w == q) by {
                if w < q {
                    assert(out[w].id == id);
                    if w != p {
                        assert(robots[w].id == id);
                    }
                }
            }
        } else {
            if w < out.len() {
                assert(out[w].id == id);
                assert(w != p);
                assert(robots[w].id == id);
            }
        }
    }
}

impl<T> RobotMap<T> {
    /// No identifier occurs twice.
    pub open spec fn wf(&self) -> bool {
        distinct_ids(self@)
    }

    /// The robots, in the order in which they were first seen.
    pub open(crate) spec fn view(&self) -> Seq<Robot<T>> {
        self.robots@
    }

    /// The robot with the identifier `id`, if the team has one.
    pub open spec fn spec_get(&self, id: u8) -> Option<Robot<T>> {
        spec_robot_in(self@, id)
    }

    /// A team without robots.
    pub fn new() -> (r: RobotMap<T>)
        ensures
            r@ == Seq::<Robot<T>>::empty(),
            r.wf(),
    {
        RobotMap { robots: Vec::new() }
    }

    /// Number of robots.
    pub fn len(&self) -> (n: usize)
        ensures
            n == self@.len(),
    {
        self.robots.len()
    }

    /// The robots, in the order in which they were first seen.
    pub fn values(&self) -> (r: &Vec<Robot<T>>)
        ensures
            r@ == self@,
    {
        &self.robots
    }

    /// Position of the robot `id`, if the team has one.
    pub fn position(&self, id: u8) -> (r: Option<usize>)
        ensures
            match r {
                Some(i) => i == spec_position_of(self@, id) && i < self@.len(),
                None => spec_position_of(self@, id) == self@.len(),
            },
    {
        let mut i: usize = 0;
        proof {
            lemma_position_of(self@, id);
        }
        while i < self.robots.len()
            invariant
                0 <= i <= self.robots.len(),
                forall|k: int| 0 <= k < i ==> self.robots@[k].id != id,
                0 <= spec_position_of(self@, id) <= self@.len(),
                spec_position_of(self@, id) < self@.len() ==> self@[spec_position_of(
                    self@,
                    id,
                )].id == id,
                forall|k: int| 0 <= k < spec_position_of(self@, id) ==> self@[k].id != id,
            decreases self.robots.len() - i,
        {
            if self.robots[i].id == id {
                return Some(i);
            }
            i += 1;
        }
        None
    }

    /// The robot with the identifier `id`, if the team has one.
    pub fn get(&self, id: u8) -> (r: Option<&Robot<T>>)
        ensures
            match r {
                Some(robot) => self.spec_get(id) == Some(*robot),
                None => self.spec_get(id) is None,
            },
    {
        proof {
            lemma_position_of(self@, id);
        }
        match self.position(id) {
            Some(i) => Some(&self.robots[i]),
            None => None,
        }
    }

    /// Puts `robot` in the place of the robot with the same identifier, or
    /// after the others if there is none.
    pub open spec fn spec_insert(&self, robot: Robot<T>) -> Seq<Robot<T>> {
        spec_robot_put(self@, robot)
    }

    /// Puts `robot` in the place of the robot with the same identifier, or
    /// after the others if there is none.
    pub fn insert(&mut self, robot: Robot<T>)
        ensures
            final(self)@ == old(self).spec_insert(robot),
            old(self).wf() ==> final(self).wf(),
    {
        proof {
            lemma_position_of(self@, robot.id);
        }
        match self.position(robot.id) {
            Some(i) => {
                self.robots.set(i, robot);
            },
            None => {
                self.robots.push(robot);
            },
        }
    }
}

/// The last robot known to have touched the ball.
#[derive(Clone, Copy, Debug, PartialEq, Eq, Structural)]
pub struct BallTouchInfo {
    pub robot_id: u8,
    pub team_color: TeamColor,
    pub timestamp: i64,
    pub position: Vec3,
}

/// The ball as last seen.
#[derive(Clone, Copy, Debug, PartialEq, Eq, Structural)]
pub struct Ball {
    pub position: Vec3,
    pub timestamp: i64,
    pub velocity: Vec3,
    pub acceleration: Vec3,
    /// The team believed to control the ball.
    pub possession: Option<TeamColor>,
    pub last_touch: Option<BallTouchInfo>,
}

impl Ball {
    /// Where the ball is on the ground plane.
    pub open spec fn spec_position_2d(self) -> Vec2 {
        self.position.spec_xy()
    }

    /// Where the ball is on the ground plane.
    pub fn position_2d(&self) -> (r: Vec2)
        ensures
            r == self.spec_position_2d(),
    {
        self.position.xy()
    }
}

/// A goal: a stretch of a line parallel to the second axis.
#[derive(Clone, Copy, Debug)]
pub struct Goal {
    pub(crate) line: Line,
    pub(crate) depth: u32,
}

impl Goal {
    /// The goal line runs parallel to the second axis, from its lower to its upper post.
    #[verifier::type_invariant]
    pub open(crate) spec fn upright(self) -> bool {
        &&& self.line.start.sx() == self.line.end.sx()
        &&& self.line.start.sy() <= self.line.end.sy()
    }

    /// The goal line, from its lower to its upper post.
    pub open(crate) spec fn spec_line(self) -> Line {
        self.line
    }

    /// The goal on the line at `x` between the posts at `y_a` and `y_b`.
    pub fn new(x: i64, y_a: i64, y_b: i64, depth: u32) -> (r: Goal)
        ensures
            r.spec_line().start == Vec2::spec_new(x as int, if y_a <= y_b {
                y_a as int
            } else {
                y_b as int
            }),
            r.spec_line().end == Vec2::spec_new(x as int, if y_a <= y_b {
                y_b as int
            } else {
                y_a as int
            }),
            r.spec_line().start.sx() == r.spec_line().end.sx(),
            r.spec_line().start.sy() <= r.spec_line().end.sy(),
            r.spec_depth() == depth,
    {
        let (lo, hi) = if y_a <= y_b {
            (y_a, y_b)
        } else {
            (y_b, y_a)
        };
        Goal { line: Line { start: Vec2::new(x, lo), end: Vec2::new(x, hi) }, depth }
    }

    /// The goal line, from its lower to its upper post.
    pub fn line(&self) -> (r: Line)
        ensures
            r == self.spec_line(),
            r.start.sx() == r.end.sx(),
            r.start.sy() <= r.end.sy(),
    {
        proof {
            use_type_invariant(self);
        }
        self.line
    }

    /// How deep the goal is behind its line.
    pub open(crate) spec fn spec_depth(self) -> u32 {
        self.depth
    }

    /// How deep the goal is behind its line.
    pub fn depth(&self) -> (r: u32)
        ensures
            r == self.spec_depth(),
    {
        self.depth
    }
}

/// The playing surface, centred on the origin.
#[derive(Clone, Copy, Debug, PartialEq, Eq, Structural)]
pub struct Field {
    pub width: u32,
    pub length: u32,
}

/// The lines of the field and the sizes of what moves on it.
#[derive(Clone, Copy, Debug)]
pub struct Geometry {
    pub field: Field,
    pub ally_goal: Goal,
    pub enemy_goal: Goal,
    pub ally_penalty: Rectangle,
    pub enemy_penalty: Rectangle,
    pub center: Circle,
    pub robot_radius: u32,
    pub ball_radius: u32,
}

/// What the referee and the match tell about the two teams.
#[derive(Clone, Debug)]
pub struct GameData {
    pub ally: Team,
    pub enemy: Team,
    /// The team whose goal stands on the side of positive `x`.
    pub positive_half: TeamColor,
    pub ref_orders: RefereeOrders,
    /// Whether the ball was put in play at least once.
    pub kicked_off_once: bool,
}

/// The consolidated view of the field at one tick.
pub struct World {
    pub data: GameData,
    pub geometry: Geometry,
    pub allies_bot: RobotMap<AllyInfo>,
    pub enemies_bot: RobotMap<EnemyInfo>,
    pub ball: Option<Ball>,
    /// Colour of our team.
    pub team_color: TeamColor,
}

} // verus!
