//! Strategies for trying out single robots on the field.

use vstd::prelude::*;
use crate::action::Action;
use crate::action::clear_queues;
use crate::action::spec_cleared;
use crate::action::ActionWrapper;
use crate::action::MoveTo;
use crate::math::Delta;
use crate::math::Vec2;
use crate::math::METRE;
use crate::message::MessageData;
use crate::world::AllyInfo;
use crate::world::Robot;
use crate::world::World;

verus! {

/// Holds one robot on the left; it gives its robot no move.
pub struct GoLeft {
    pub(crate) id: u8,
    pub(crate) messages: Vec<MessageData>,
}

/// Holds one robot on the right; it gives its robot no move.
pub struct GoRight {
    pub(crate) id: u8,
    pub(crate) messages: Vec<MessageData>,
}

/// Holds the robots that asked to be aligned; it gives its robots no move.
pub struct Aligned {
    pub(crate) ids: Vec<u8>,
    pub(crate) messages: Vec<MessageData>,
}

impl GoLeft {
    /// The robot that the strategy owns.
    pub open(crate) spec fn spec_id(&self) -> u8 {
        self.id
    }

    /// What the strategy has to tell since its last step.
    pub open(crate) spec fn spec_messages(&self) -> Seq<MessageData> {
        self.messages@
    }

    /// A strategy that holds the robot `id` on the left.
    pub fn new(id: u8) -> (r: GoLeft)
        ensures
            r.spec_id() == id,
            r.spec_messages() == Seq::<MessageData>::empty(),
    {
        GoLeft { id, messages: Vec::new() }
    }

    /// The name of the strategy.
    pub fn name(&self) -> (r: &'static str)
        ensures
            r@ == "GoLeft"@,
    {
        "GoLeft"
    }

    /// What the strategy has to tell since its last step.
    pub fn get_messages(&self) -> (r: &Vec<MessageData>)
        ensures
            r@ == self.spec_messages(),
    {
        &self.messages
    }

    /// The robots that the strategy owns.
    pub fn get_ids(&self) -> (r: Vec<u8>)
        ensures
            r@ == seq![self.spec_id()],
    {
        let mut ids: Vec<u8> = Vec::new();
        ids.push(self.id);
        assert(ids@ =~= seq![self.id]);
        ids
    }

    /// Hands the strategy another robot, if `ids` names exactly one.
    pub fn put_ids(&mut self, ids: Vec<u8>)
        ensures
            final(self).spec_id() == if ids@.len() == 1 {
                ids@[0]
            } else {
                old(self).spec_id()
            },
            final(self).spec_messages() == old(self).spec_messages(),
    {
        if ids.len() == 1 {
            self.id = ids[0];
        }
    }

    /// One tick: the queue of the robot is emptied.
    pub fn step(&mut self, world: &World, action_wrapper: &mut ActionWrapper) -> (done: bool)
        ensures
            !done,
            final(self).spec_id() == old(self).spec_id(),
            final(self).spec_messages() == old(self).spec_messages(),
            final(action_wrapper)@ == ActionWrapper::spec_replaced(
                old(action_wrapper)@,
                old(self).spec_id(),
                None,
            ),
    {
        action_wrapper.replace(self.id, None);
        false
    }
}

impl GoRight {
    /// The robot that the strategy owns.
    pub open(crate) spec fn spec_id(&self) -> u8 {
        self.id
    }

    /// What the strategy has to tell since its last step.
    pub open(crate) spec fn spec_messages(&self) -> Seq<MessageData> {
        self.messages@
    }

    /// A strategy that holds the robot `id` on the right.
    pub fn new(id: u8) -> (r: GoRight)
        ensures
            r.spec_id() == id,
            r.spec_messages() == Seq::<MessageData>::empty(),
    {
        GoRight { id, messages: Vec::new() }
    }

    /// The name of the strategy.
    pub fn name(&self) -> (r: &'static str)
        ensures
            r@ == "GoRight"@,
    {
        "GoRight"
    }

    /// What the strategy has to tell since its last step.
    pub fn get_messages(&self) -> (r: &Vec<MessageData>)
        ensures
            r@ == self.spec_messages(),
    {
        &self.messages
    }

    /// The robots that the strategy owns.
    pub fn get_ids(&self) -> (r: Vec<u8>)
        ensures
            r@ == seq![self.spec_id()],
    {
        let mut ids: Vec<u8> = Vec::new();
        ids.push(self.id);
        assert(ids@ =~= seq![self.id]);
        ids
    }

    /// Hands the strategy another robot, if `ids` names exactly one.
    pub fn put_ids(&mut self, ids: Vec<u8>)
        ensures
            final(self).spec_id() == if ids@.len() == 1 {
                ids@[0]
            } else {
                old(self).spec_id()
            },
            final(self).spec_messages() == old(self).spec_messages(),
    {
        if ids.len() == 1 {
            self.id = ids[0];
        }
    }

    /// One tick: the queue of the robot is emptied.
    pub fn step(&mut self, world: &World, action_wrapper: &mut ActionWrapper) -> (done: bool)
        ensures
            !done,
            final(self).spec_id() == old(self).spec_id(),
            final(self).spec_messages() == old(self).spec_messages(),
            final(action_wrapper)@ == ActionWrapper::spec_replaced(
                old(action_wrapper)@,
                old(self).spec_id(),
                None,
            ),
    {
        action_wrapper.replace(self.id, None);
        false
    }
}

impl Aligned {
    /// The robots that the strategy owns.
    pub open(crate) spec fn spec_ids(&self) -> Seq<u8> {
        self.ids@
    }

    /// What the strategy has to tell since its last step.
    pub open(crate) spec fn spec_messages(&self) -> Seq<MessageData> {
        self.messages@
    }

    /// A strategy that holds the robots `ids`.
    pub fn new(ids: Vec<u8>) -> (r: Aligned)
        ensures
            r.spec_ids() == ids@,
            r.spec_messages() == Seq::<MessageData>::empty(),
    {
        Aligned { ids, messages: Vec::new() }
    }

    /// The name of the strategy.
    pub fn name(&self) -> (r: &'static str)
        ensures
            r@ == "Aligned"@,
    {
        "Aligned"
    }

    /// What the strategy has to tell since its last step.
    pub fn get_messages(&self) -> (r: &Vec<MessageData>)
        ensures
            r@ == self.spec_messages(),
    {
        &self.messages
    }

    /// The robots that the strategy owns.
    pub fn get_ids(&self) -> (r: Vec<u8>)
        ensures
            r@ == self.spec_ids(),
    {
        self.ids.clone()
    }

    /// Hands the strategy other robots.
    pub fn put_ids(&mut self, ids: Vec<u8>)
        ensures
            final(self).spec_ids() == ids@,
            final(self).spec_messages() == old(self).spec_messages(),
    {
        self.ids = ids;
    }

    /// One tick: the queues of the robots are emptied.
    pub fn step(&mut self, world: &World, action_wrapper: &mut ActionWrapper) -> (done: bool)
        ensures
            !done,
            final(self).spec_ids() == old(self).spec_ids(),
            final(self).spec_messages() == old(self).spec_messages(),
            final(action_wrapper)@ == spec_cleared(
                old(action_wrapper)@,
                old(self).spec_ids(),
                old(self).spec_ids().len() as int,
            ),
    {
        clear_queues(action_wrapper, &self.ids);
        false
    }
}

/// Distance to its target below which a robot counts as arrived (0.1 m).
pub const DIST_TARGET_REACHED: i64 = 100_000;

/// Where a trial of moves by vision stands.
#[derive(Clone, Copy, Debug, PartialEq, Eq, Structural)]
pub enum TestVisionMoveToStatus {
    Placement,
    MovingForward,
    MovingBackwards,
}

/// Sends its robots forth and back between two lines, each on its own
/// column, to try out the moves by vision.
pub struct TestVisionMoveTo {
    pub(crate) ids: Vec<u8>,
    pub(crate) messages: Vec<MessageData>,
    pub(crate) status: TestVisionMoveToStatus,
}

/// The direction at `steps` twelfths of a full turn from the first axis, with
/// the length of a million.
pub open spec fn spec_twelfth(steps: int) -> Delta {
    let s = steps % 12;
    if s == 0 {
        Delta { dx: 1_000_000, dy: 0 }
    } else if s == 1 {
        Delta { dx: 866_025, dy: 500_000 }
    } else if s == 2 {
        Delta { dx: 500_000, dy: 866_025 }
    } else if s == 3 {
        Delta { dx: 0, dy: 1_000_000 }
    } else if s == 4 {
        Delta { dx: -500_000i64, dy: 866_025 }
    } else if s == 5 {
        Delta { dx: -866_025i64, dy: 500_000 }
    } else if s == 6 {
        Delta { dx: -1_000_000i64, dy: 0 }
    } else if s == 7 {
        Delta { dx: -866_025i64, dy: -500_000i64 }
    } else if s == 8 {
        Delta { dx: -500_000i64, dy: -866_025i64 }
    } else if s == 9 {
        Delta { dx: 0, dy: -1_000_000i64 }
    } else if s == 10 {
        Delta { dx: 500_000, dy: -866_025i64 }
    } else {
        Delta { dx: 866_025, dy: -500_000i64 }
    }
}

/// The direction at `steps` twelfths of a full turn from the first axis.
pub fn twelfth(steps: u8) -> (r: Delta)
    ensures
        r == spec_twelfth(steps as int),
{
    let s = steps % 12;
    if s == 0 {
        Delta { dx: 1_000_000, dy: 0 }
    } else if s == 1 {
        Delta { dx: 866_025, dy: 500_000 }
    } else if s == 2 {
        Delta { dx: 500_000, dy: 866_025 }
    } else if s == 3 {
        Delta { dx: 0, dy: 1_000_000 }
    } else if s == 4 {
        Delta { dx: -500_000i64, dy: 866_025 }
    } else if s == 5 {
        Delta { dx: -866_025i64, dy: 500_000 }
    } else if s == 6 {
        Delta { dx: -1_000_000i64, dy: 0 }
    } else if s == 7 {
        Delta { dx: -866_025i64, dy: -500_000i64 }
    } else if s == 8 {
        Delta { dx: -500_000i64, dy: -866_025i64 }
    } else if s == 9 {
        Delta { dx: 0, dy: -1_000_000i64 }
    } else if s == 10 {
        Delta { dx: 500_000, dy: -866_025i64 }
    } else {
        Delta { dx: 866_025, dy: -500_000i64 }
    }
}

/// The line that the robots make for in a status.
pub open spec fn spec_line_of(status: TestVisionMoveToStatus) -> int {
    match status {
        TestVisionMoveToStatus::Placement => 0,
        TestVisionMoveToStatus::MovingForward => METRE as int,
        TestVisionMoveToStatus::MovingBackwards => -(METRE as int),
    }
}

/// Where the robot `id` is sent in a status: half a metre to the left of the
/// origin for each unit of its identifier, on the line of the status.
pub open spec fn spec_trial_target(id: u8, status: TestVisionMoveToStatus) -> Vec2 {
    Vec2::spec_new(-(id as int) * 500_000, spec_line_of(status))
}

/// The move of the robot `id` in a status.
pub open spec fn spec_trial_move(id: u8, status: TestVisionMoveToStatus) -> MoveTo {
    MoveTo {
        target: spec_trial_target(id, status),
        orientation: spec_twelfth(id as int),
        dribbler: 0,
        charge: false,
        kick: None,
        avoidance: false,
    }
}

/// Number of robots of `ids` among the first `upto` allies that stand no
/// higher than 0.1 m above the first axis.
pub open spec fn spec_placed(allies: Seq<Robot<AllyInfo>>, ids: Seq<u8>, upto: int) -> int
    decreases upto,
{
    if upto <= 0 {
        0
    } else {
        spec_placed(allies, ids, upto - 1) + if ids.contains(allies[upto - 1].id) && allies[upto
            - 1].pose.position.sy() <= DIST_TARGET_REACHED {
            1int
        } else {
            0int
        }
    }
}

/// Whether each robot of `ids` among the first `upto` allies is within 0.1 m
/// of where the status sends it.
pub open spec fn spec_all_arrived(
    allies: Seq<Robot<AllyInfo>>,
    ids: Seq<u8>,
    status: TestVisionMoveToStatus,
    upto: int,
) -> bool
    decreases upto,
{
    if upto <= 0 {
        true
    } else {
        spec_all_arrived(allies, ids, status, upto - 1) && (ids.contains(allies[upto - 1].id)
            ==> spec_trial_target(allies[upto - 1].id, status).spec_dist2(
            allies[upto - 1].pose.position,
        ) <= DIST_TARGET_REACHED * DIST_TARGET_REACHED)
    }
}

/// The moves of the robots of `ids` among the first `upto` allies, in the
/// order of the allies.
pub open spec fn spec_trial_moves(
    allies: Seq<Robot<AllyInfo>>,
    ids: Seq<u8>,
    status: TestVisionMoveToStatus,
    upto: int,
) -> Seq<(u8, Action)>
    decreases upto,
{
    if upto <= 0 {
        Seq::empty()
    } else {
        let before = spec_trial_moves(allies, ids, status, upto - 1);
        let id = allies[upto - 1].id;
        if ids.contains(id) {
            before.push((id, Action::MoveTo(spec_trial_move(id, status))))
        } else {
            before
        }
    }
}

/// The status that follows `status` once every robot has arrived.
pub open spec fn spec_next_status(
    allies: Seq<Robot<AllyInfo>>,
    ids: Seq<u8>,
    status: TestVisionMoveToStatus,
) -> TestVisionMoveToStatus {
    match status {
        TestVisionMoveToStatus::Placement => if spec_placed(allies, ids, allies.len() as int)
            == ids.len() {
            TestVisionMoveToStatus::MovingForward
        } else {
            TestVisionMoveToStatus::Placement
        },
        TestVisionMoveToStatus::MovingForward => TestVisionMoveToStatus::MovingBackwards,
        TestVisionMoveToStatus::MovingBackwards => TestVisionMoveToStatus::MovingForward,
    }
}

impl TestVisionMoveTo {
    /// The robots that the strategy owns.
    pub open(crate) spec fn spec_ids(&self) -> Seq<u8> {
        self.ids@
    }

    /// What the strategy has to tell since its last step.
    pub open(crate) spec fn spec_messages(&self) -> Seq<MessageData> {
        self.messages@
    }

    /// Where the trial stands.
    pub open(crate) spec fn spec_status(&self) -> TestVisionMoveToStatus {
        self.status
    }

    /// A trial with the robots `ids`, which first take their places.
    pub fn new(ids: Vec<u8>) -> (r: TestVisionMoveTo)
        ensures
            r.spec_ids() == ids@,
            r.spec_messages() == Seq::<MessageData>::empty(),
            r.spec_status() == TestVisionMoveToStatus::Placement,
    {
        TestVisionMoveTo { ids, messages: Vec::new(), status: TestVisionMoveToStatus::Placement }
    }

    /// The name of the strategy.
    pub fn name(&self) -> (r: &'static str)
        ensures
            r@ == "TestVisionMoveTo"@,
    {
        "TestVisionMoveTo"
    }

    /// What the strategy has to tell since its last step.
    pub fn get_messages(&self) -> (r: &Vec<MessageData>)
        ensures
            r@ == self.spec_messages(),
    {
        &self.messages
    }

    /// The robots that the strategy owns.
    pub fn get_ids(&self) -> (r: Vec<u8>)
        ensures
            r@ == self.spec_ids(),
    {
        self.ids.clone()
    }

    /// Where the trial stands.
    pub fn status(&self) -> (r: TestVisionMoveToStatus)
        ensures
            r == self.spec_status(),
    {
        self.status
    }

    /// Hands the strategy other robots, if `ids` names exactly one.
    pub fn put_ids(&mut self, ids: Vec<u8>)
        ensures
            final(self).spec_ids() == if ids@.len() == 1 {
                ids@
            } else {
                old(self).spec_ids()
            },
            final(self).spec_messages() == old(self).spec_messages(),
            final(self).spec_status() == old(self).spec_status(),
    {
        if ids.len() == 1 {
            self.ids = ids;
        }
    }

    /// The intents after one tick of the trial. With the ball on the field
    /// every queue is emptied, so that no stale intent is left, and each
    /// robot of the trial that is on the field gets the move of the status.
    /// Without the ball the trial skips: only the queues of its robots are
    /// emptied.
    pub open spec fn spec_step(
        world: World,
        ids: Seq<u8>,
        status: TestVisionMoveToStatus,
        actions: Seq<(u8, Action)>,
    ) -> Seq<(u8, Action)> {
        if world.ball is Some {
            spec_trial_moves(world.allies_bot@, ids, status, world.allies_bot@.len() as int)
        } else {
            spec_cleared(actions, ids, ids.len() as int)
        }
    }

    /// The status after one tick of the trial: it moves on once every robot
    /// of the trial that is on the field has arrived; without the ball it
    /// stays.
    pub open spec fn spec_status_after(
        world: World,
        ids: Seq<u8>,
        status: TestVisionMoveToStatus,
    ) -> TestVisionMoveToStatus {
        if world.ball is Some && spec_all_arrived(
            world.allies_bot@,
            ids,
            status,
            world.allies_bot@.len() as int,
        ) {
            spec_next_status(world.allies_bot@, ids, status)
        } else {
            status
        }
    }

    /// One tick of the trial. Without the ball it skips: the queues of its
    /// robots are emptied and nothing more is done. Else every queue is
    /// emptied, each robot of the trial that is on the field gets the move of
    /// the status, and the status moves on once all of these have arrived.
    /// The strategy is never done.
    pub fn step(&mut self, world: &World, action_wrapper: &mut ActionWrapper) -> (done: bool)
        ensures
            !done,
            final(self).spec_ids() == old(self).spec_ids(),
            final(self).spec_messages() == old(self).spec_messages(),
            final(action_wrapper)@ == Self::spec_step(
                *world,
                old(self).spec_ids(),
                old(self).spec_status(),
                old(action_wrapper)@,
            ),
            final(self).spec_status() == Self::spec_status_after(
                *world,
                old(self).spec_ids(),
                old(self).spec_status(),
            ),
    {
        if world.ball.is_none() {
            clear_queues(action_wrapper, &self.ids);
            return false;
        }
        action_wrapper.clear_all();
        let allies = world.allies_bot.values();
        let status = self.status;
        let line: i64 = match status {
            TestVisionMoveToStatus::Placement => 0,
            TestVisionMoveToStatus::MovingForward => METRE,
            TestVisionMoveToStatus::MovingBackwards => -METRE,
        };
        let mut placed: usize = 0;
        let mut arrived = true;
        let mut i: usize = 0;
        assert(action_wrapper@ =~= spec_trial_moves(allies@, self.ids@, status, 0));
        while i < allies.len()
            invariant
                0 <= i <= allies.len(),
                allies@ == world.allies_bot@,
                *self == *old(self),
                status == self.status,
                line == spec_line_of(status),
                placed == spec_placed(allies@, self.ids@, i as int),
                placed <= i,
                arrived == spec_all_arrived(allies@, self.ids@, status, i as int),
                action_wrapper@ == spec_trial_moves(allies@, self.ids@, status, i as int),
            decreases allies.len() - i,
        {
            let ally = &allies[i];
            if crate::utils::contains_id(&self.ids, ally.id) {
                if ally.pose.position.y() as i64 <= DIST_TARGET_REACHED {
                    placed += 1;
                }
                let target = Vec2::new(-(ally.id as i64) * 500_000, line);
                action_wrapper.push(
                    ally.id,
                    Action::MoveTo(MoveTo::new(target, twelfth(ally.id), 0, false, None, false)),
                );
                let near = target.dist2(&ally.pose.position) <= DIST_TARGET_REACHED
                    * DIST_TARGET_REACHED;
                arrived = arrived && near;
            }
            i += 1;
            assert(action_wrapper@ =~= spec_trial_moves(allies@, self.ids@, status, i as int));
        }
        if arrived {
            self.status = match status {
                TestVisionMoveToStatus::Placement => if placed == self.ids.len() {
                    TestVisionMoveToStatus::MovingForward
                } else {
                    TestVisionMoveToStatus::Placement
                },
                TestVisionMoveToStatus::MovingForward => TestVisionMoveToStatus::MovingBackwards,
                TestVisionMoveToStatus::MovingBackwards => TestVisionMoveToStatus::MovingForward,
            };
        }
        false
    }
}

} // verus!
