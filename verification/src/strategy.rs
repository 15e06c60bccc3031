//! The strategies as the manager holds them: one type for all of them, with
//! a mathematical view of what each is and owns.

use vstd::prelude::*;
use crate::action::Action;
use crate::action::ActionWrapper;
use crate::attacker::spec_attacker_decision;
use crate::attacker::spec_messages_of;
use crate::attacker::Attacker;
use crate::bot_marking::spec_marking_decision;
use crate::bot_marking::BotMarking;
use crate::defensive::spec_contesting_decision;
use crate::defensive::spec_keeper_decision;
use crate::defensive::BotContesting;
use crate::defensive::DefenseWall;
use crate::defensive::GoalKeeper;
use crate::formations::spec_move_away_step;
use crate::formations::MoveAwayBallPlacement;
use crate::formations::PrepareFreeKick;
use crate::formations::PrepareGoalKick;
use crate::math::Line;
use crate::math::Vec2;
use crate::message::MessageData;
use crate::receiver::spec_receiver_decision;
use crate::receiver::Receiver;
use crate::action::spec_cleared;
use crate::testing::Aligned;
use crate::testing::GoLeft;
use crate::testing::GoRight;
use crate::testing::TestVisionMoveTo;
use crate::testing::TestVisionMoveToStatus;
use crate::world::World;

verus! {

/// What a strategy is, with what it holds besides its robots and its outbox.
#[derive(Clone, Copy, Debug, PartialEq, Eq, Structural)]
pub enum StrategyKind {
    GoalKeeper,
    DefenseWall { distance: u32 },
    BotMarking { enemy_id: u8 },
    BotContesting,
    Attacker,
    Receiver { passer_id: u8, passing_trajectory: Line },
    GoLeft,
    GoRight,
    Aligned,
    PrepareFreeKick { ally: bool },
    PrepareGoalKick { ally: bool },
    MoveAwayBallPlacement { target_ball_placement: Vec2 },
    TestVisionMoveTo { status: TestVisionMoveToStatus },
}

/// What a strategy is, without what it holds.
#[derive(Clone, Copy, Debug, PartialEq, Eq, Structural)]
pub enum Role {
    GoalKeeper,
    DefenseWall,
    BotMarking,
    BotContesting,
    Attacker,
    Receiver,
    GoLeft,
    GoRight,
    Aligned,
    PrepareFreeKick,
    PrepareGoalKick,
    MoveAwayBallPlacement,
    TestVisionMoveTo,
}

impl StrategyKind {
    /// The kind without what it holds.
    pub open spec fn spec_role(self) -> Role {
        match self {
            StrategyKind::GoalKeeper => Role::GoalKeeper,
            StrategyKind::DefenseWall { .. } => Role::DefenseWall,
            StrategyKind::BotMarking { .. } => Role::BotMarking,
            StrategyKind::BotContesting => Role::BotContesting,
            StrategyKind::Attacker => Role::Attacker,
            StrategyKind::Receiver { .. } => Role::Receiver,
            StrategyKind::GoLeft => Role::GoLeft,
            StrategyKind::GoRight => Role::GoRight,
            StrategyKind::Aligned => Role::Aligned,
            StrategyKind::PrepareFreeKick { .. } => Role::PrepareFreeKick,
            StrategyKind::PrepareGoalKick { .. } => Role::PrepareGoalKick,
            StrategyKind::MoveAwayBallPlacement { .. } => Role::MoveAwayBallPlacement,
            StrategyKind::TestVisionMoveTo { .. } => Role::TestVisionMoveTo,
        }
    }

    /// The kind without what it holds.
    pub fn role(&self) -> (r: Role)
        ensures
            r == self.spec_role(),
    {
        match self {
            StrategyKind::GoalKeeper => Role::GoalKeeper,
            StrategyKind::DefenseWall { .. } => Role::DefenseWall,
            StrategyKind::BotMarking { .. } => Role::BotMarking,
            StrategyKind::BotContesting => Role::BotContesting,
            StrategyKind::Attacker => Role::Attacker,
            StrategyKind::Receiver { .. } => Role::Receiver,
            StrategyKind::GoLeft => Role::GoLeft,
            StrategyKind::GoRight => Role::GoRight,
            StrategyKind::Aligned => Role::Aligned,
            StrategyKind::PrepareFreeKick { .. } => Role::PrepareFreeKick,
            StrategyKind::PrepareGoalKick { .. } => Role::PrepareGoalKick,
            StrategyKind::MoveAwayBallPlacement { .. } => Role::MoveAwayBallPlacement,
            StrategyKind::TestVisionMoveTo { .. } => Role::TestVisionMoveTo,
        }
    }

    /// Whether a strategy of this kind owns exactly one robot at any time.
    pub open spec fn spec_single(self) -> bool {
        match self {
            StrategyKind::GoalKeeper => true,
            StrategyKind::BotMarking { .. } => true,
            StrategyKind::BotContesting => true,
            StrategyKind::Attacker => true,
            StrategyKind::Receiver { .. } => true,
            StrategyKind::GoLeft => true,
            StrategyKind::GoRight => true,
            _ => false,
        }
    }

    /// Whether a strategy of this kind takes `ids` when they are put to it:
    /// one that owns a single robot takes a list of one, and so does the
    /// trial of moves by vision; the others take any list.
    pub open spec fn spec_accepts(self, ids: Seq<u8>) -> bool {
        if self.spec_single() || self is TestVisionMoveTo {
            ids.len() == 1
        } else {
            true
        }
    }

    /// The name of the kind.
    pub open spec fn spec_name(self) -> Seq<char> {
        match self {
            StrategyKind::GoalKeeper => "GoalKeeper"@,
            StrategyKind::DefenseWall { .. } => "DefenseWall"@,
            StrategyKind::BotMarking { .. } => "BotMarking"@,
            StrategyKind::BotContesting => "BotContesting"@,
            StrategyKind::Attacker => "Attacker"@,
            StrategyKind::Receiver { .. } => "Receiver"@,
            StrategyKind::GoLeft => "GoLeft"@,
            StrategyKind::GoRight => "GoRight"@,
            StrategyKind::Aligned => "Aligned"@,
            StrategyKind::PrepareFreeKick { .. } => "PrepareFreeKick"@,
            StrategyKind::PrepareGoalKick { .. } => "PrepareGoalKick"@,
            StrategyKind::MoveAwayBallPlacement { .. } => "MoveAwayBallPlacement"@,
            StrategyKind::TestVisionMoveTo { .. } => "TestVisionMoveTo"@,
        }
    }
}

/// A strategy as the contracts see it.
pub struct StrategyView {
    pub kind: StrategyKind,
    /// The robots that the strategy owns, in order.
    pub ids: Seq<u8>,
    /// What the strategy has to tell since its last step.
    pub messages: Seq<MessageData>,
}

impl StrategyView {
    /// The strategy once `ids` were put to it.
    pub open spec fn spec_put_ids(self, ids: Seq<u8>) -> StrategyView {
        if self.kind.spec_accepts(ids) {
            StrategyView { ids, ..self }
        } else {
            self
        }
    }

    /// The strategy after one step in `world`.
    pub open spec fn spec_stepped(self, world: World) -> StrategyView {
        match self.kind {
            StrategyKind::Attacker => StrategyView {
                messages: spec_messages_of(spec_attacker_decision(world, self.ids[0]), self.ids[0]),
                ..self
            },
            StrategyKind::MoveAwayBallPlacement { .. } => StrategyView {
                messages: Seq::empty(),
                ..self
            },
            StrategyKind::TestVisionMoveTo { status } => StrategyView {
                kind: StrategyKind::TestVisionMoveTo {
                    status: TestVisionMoveTo::spec_status_after(world, self.ids, status),
                },
                ..self
            },
            _ => self,
        }
    }

    /// The intents after one step of the strategy while the ball is on the
    /// field.
    pub open spec fn spec_play(self, world: World, actions: Seq<(u8, Action)>) -> Seq<
        (u8, Action),
    > {
        match self.kind {
            StrategyKind::GoalKeeper => ActionWrapper::spec_replaced(
                actions,
                self.ids[0],
                spec_keeper_decision(world, self.ids[0]),
            ),
            StrategyKind::DefenseWall { distance } => DefenseWall::spec_step(
                world,
                self.ids,
                distance,
                actions,
            ),
            StrategyKind::BotMarking { enemy_id } => ActionWrapper::spec_replaced(
                actions,
                self.ids[0],
                spec_marking_decision(world, self.ids[0], enemy_id),
            ),
            StrategyKind::BotContesting => ActionWrapper::spec_replaced(
                actions,
                self.ids[0],
                spec_contesting_decision(world, self.ids[0]),
            ),
            StrategyKind::Attacker => ActionWrapper::spec_replaced(
                actions,
                self.ids[0],
                spec_attacker_decision(world, self.ids[0]).intent,
            ),
            StrategyKind::Receiver { passer_id, passing_trajectory } => ActionWrapper::spec_replaced(
                actions,
                self.ids[0],
                spec_receiver_decision(world, self.ids[0], passer_id, passing_trajectory),
            ),
            StrategyKind::GoLeft => spec_cleared(actions, self.ids, self.ids.len() as int),
            StrategyKind::GoRight => spec_cleared(actions, self.ids, self.ids.len() as int),
            StrategyKind::Aligned => spec_cleared(actions, self.ids, self.ids.len() as int),
            StrategyKind::PrepareFreeKick { ally } => PrepareFreeKick::spec_step(
                world,
                self.ids,
                ally,
                actions,
            ),
            StrategyKind::PrepareGoalKick { ally } => PrepareGoalKick::spec_step(
                world,
                self.ids,
                ally,
                actions,
            ),
            StrategyKind::MoveAwayBallPlacement { target_ball_placement } => spec_move_away_step(
                world,
                self.ids,
                target_ball_placement,
                actions,
                self.ids.len() as int,
            ),
            StrategyKind::TestVisionMoveTo { status } => TestVisionMoveTo::spec_step(
                world,
                self.ids,
                status,
                actions,
            ),
        }
    }

    /// The intents after one step of the strategy in `world`. Without the
    /// ball every strategy skips: the queues of its robots are emptied and
    /// nothing is pushed.
    pub open spec fn spec_step_actions(self, world: World, actions: Seq<(u8, Action)>) -> Seq<
        (u8, Action),
    > {
        if world.ball is Some {
            self.spec_play(world, actions)
        } else {
            spec_cleared(actions, self.ids, self.ids.len() as int)
        }
    }
}

/// Any of the strategies.
pub enum Strategy {
    GoalKeeper(GoalKeeper),
    DefenseWall(DefenseWall),
    BotMarking(BotMarking),
    BotContesting(BotContesting),
    Attacker(Attacker),
    Receiver(Receiver),
    GoLeft(GoLeft),
    GoRight(GoRight),
    Aligned(Aligned),
    PrepareFreeKick(PrepareFreeKick),
    PrepareGoalKick(PrepareGoalKick),
    MoveAwayBallPlacement(MoveAwayBallPlacement),
    TestVisionMoveTo(TestVisionMoveTo),
}

impl Strategy {
    /// What the strategy is, owns and has to tell.
    pub open(crate) spec fn view(&self) -> StrategyView {
        match self {
            Strategy::GoalKeeper(s) => StrategyView {
                kind: StrategyKind::GoalKeeper,
                ids: seq![s.id],
                messages: s.messages@,
            },
            Strategy::DefenseWall(s) => StrategyView {
                kind: StrategyKind::DefenseWall { distance: s.distance },
                ids: s.ids@,
                messages: s.messages@,
            },
            Strategy::BotMarking(s) => StrategyView {
                kind: StrategyKind::BotMarking { enemy_id: s.enemy_id },
                ids: seq![s.id],
                messages: s.messages@,
            },
            Strategy::BotContesting(s) => StrategyView {
                kind: StrategyKind::BotContesting,
                ids: seq![s.id],
                messages: s.messages@,
            },
            Strategy::Attacker(s) => StrategyView {
                kind: StrategyKind::Attacker,
                ids: seq![s.id],
                messages: s.messages@,
            },
            Strategy::Receiver(s) => StrategyView {
                kind: StrategyKind::Receiver {
                    passer_id: s.passer_id,
                    passing_trajectory: s.passing_trajectory,
                },
                ids: seq![s.id],
                messages: s.messages@,
            },
            Strategy::GoLeft(s) => StrategyView {
                kind: StrategyKind::GoLeft,
                ids: seq![s.id],
                messages: s.messages@,
            },
            Strategy::GoRight(s) => StrategyView {
                kind: StrategyKind::GoRight,
                ids: seq![s.id],
                messages: s.messages@,
            },
            Strategy::Aligned(s) => StrategyView {
                kind: StrategyKind::Aligned,
                ids: s.ids@,
                messages: s.messages@,
            },
            Strategy::PrepareFreeKick(s) => StrategyView {
                kind: StrategyKind::PrepareFreeKick { ally: s.ally },
                ids: s.ids@,
                messages: s.messages@,
            },
            Strategy::PrepareGoalKick(s) => StrategyView {
                kind: StrategyKind::PrepareGoalKick { ally: s.ally },
                ids: s.ids@,
                messages: s.messages@,
            },
            Strategy::MoveAwayBallPlacement(s) => StrategyView {
                kind: StrategyKind::MoveAwayBallPlacement {
                    target_ball_placement: s.target_ball_placement,
                },
                ids: s.ids@,
                messages: s.messages@,
            },
            Strategy::TestVisionMoveTo(s) => StrategyView {
                kind: StrategyKind::TestVisionMoveTo { status: s.status },
                ids: s.ids@,
                messages: s.messages@,
            },
        }
    }

    /// What the strategy is.
    pub fn kind(&self) -> (r: StrategyKind)
        ensures
            r == self@.kind,
    {
        match self {
            Strategy::GoalKeeper(_) => StrategyKind::GoalKeeper,
            Strategy::DefenseWall(s) => StrategyKind::DefenseWall { distance: s.distance },
            Strategy::BotMarking(s) => StrategyKind::BotMarking { enemy_id: s.enemy_id },
            Strategy::BotContesting(_) => StrategyKind::BotContesting,
            Strategy::Attacker(_) => StrategyKind::Attacker,
            Strategy::Receiver(s) => StrategyKind::Receiver {
                passer_id: s.passer_id,
                passing_trajectory: s.passing_trajectory,
            },
            Strategy::GoLeft(_) => StrategyKind::GoLeft,
            Strategy::GoRight(_) => StrategyKind::GoRight,
            Strategy::Aligned(_) => StrategyKind::Aligned,
            Strategy::PrepareFreeKick(s) => StrategyKind::PrepareFreeKick { ally: s.ally },
            Strategy::PrepareGoalKick(s) => StrategyKind::PrepareGoalKick { ally: s.ally },
            Strategy::MoveAwayBallPlacement(s) => StrategyKind::MoveAwayBallPlacement {
                target_ball_placement: s.target_ball_placement,
            },
            Strategy::TestVisionMoveTo(s) => StrategyKind::TestVisionMoveTo { status: s.status },
        }
    }

    /// The name of the strategy.
    pub fn name(&self) -> (r: &'static str)
        ensures
            r@ == self@.kind.spec_name(),
    {
        match self {
            Strategy::GoalKeeper(s) => s.name(),
            Strategy::DefenseWall(s) => s.name(),
            Strategy::BotMarking(s) => s.name(),
            Strategy::BotContesting(s) => s.name(),
            Strategy::Attacker(s) => s.name(),
            Strategy::Receiver(s) => s.name(),
            Strategy::GoLeft(s) => s.name(),
            Strategy::GoRight(s) => s.name(),
            Strategy::Aligned(s) => s.name(),
            Strategy::PrepareFreeKick(s) => s.name(),
            Strategy::PrepareGoalKick(s) => s.name(),
            Strategy::MoveAwayBallPlacement(s) => s.name(),
            Strategy::TestVisionMoveTo(s) => s.name(),
        }
    }

    /// The robots that the strategy owns.
    pub fn get_ids(&self) -> (r: Vec<u8>)
        ensures
            r@ == self@.ids,
    {
        match self {
            Strategy::GoalKeeper(s) => s.get_ids(),
            Strategy::DefenseWall(s) => s.get_ids(),
            Strategy::BotMarking(s) => s.get_ids(),
            Strategy::BotContesting(s) => s.get_ids(),
            Strategy::Attacker(s) => s.get_ids(),
            Strategy::Receiver(s) => s.get_ids(),
            Strategy::GoLeft(s) => s.get_ids(),
            Strategy::GoRight(s) => s.get_ids(),
            Strategy::Aligned(s) => s.get_ids(),
            Strategy::PrepareFreeKick(s) => s.get_ids(),
            Strategy::PrepareGoalKick(s) => s.get_ids(),
            Strategy::MoveAwayBallPlacement(s) => s.get_ids(),
            Strategy::TestVisionMoveTo(s) => s.get_ids(),
        }
    }

    /// What the strategy has to tell since its last step.
    pub fn get_messages(&self) -> (r: &Vec<MessageData>)
        ensures
            r@ == self@.messages,
    {
        match self {
            Strategy::GoalKeeper(s) => s.get_messages(),
            Strategy::DefenseWall(s) => s.get_messages(),
            Strategy::BotMarking(s) => s.get_messages(),
            Strategy::BotContesting(s) => s.get_messages(),
            Strategy::Attacker(s) => s.get_messages(),
            Strategy::Receiver(s) => s.get_messages(),
            Strategy::GoLeft(s) => s.get_messages(),
            Strategy::GoRight(s) => s.get_messages(),
            Strategy::Aligned(s) => s.get_messages(),
            Strategy::PrepareFreeKick(s) => s.get_messages(),
            Strategy::PrepareGoalKick(s) => s.get_messages(),
            Strategy::MoveAwayBallPlacement(s) => s.get_messages(),
            Strategy::TestVisionMoveTo(s) => s.get_messages(),
        }
    }

    /// Puts `ids` to the strategy, which takes them or leaves them as its
    /// kind tells.
    pub fn put_ids(&mut self, ids: Vec<u8>)
        ensures
            final(self)@ == old(self)@.spec_put_ids(ids@),
    {
        let ghost before = self@;
        match self {
            Strategy::GoalKeeper(s) => {
                s.put_ids(ids);
            },
            Strategy::DefenseWall(s) => {
                s.put_ids(ids);
            },
            Strategy::BotMarking(s) => {
                s.put_ids(ids);
            },
            Strategy::BotContesting(s) => {
                s.put_ids(ids);
            },
            Strategy::Attacker(s) => {
                s.put_ids(ids);
            },
            Strategy::Receiver(s) => {
                s.put_ids(ids);
            },
            Strategy::GoLeft(s) => {
                s.put_ids(ids);
            },
            Strategy::GoRight(s) => {
                s.put_ids(ids);
            },
            Strategy::Aligned(s) => {
                s.put_ids(ids);
            },
            Strategy::PrepareFreeKick(s) => {
                s.put_ids(ids);
            },
            Strategy::PrepareGoalKick(s) => {
                s.put_ids(ids);
            },
            Strategy::MoveAwayBallPlacement(s) => {
                s.put_ids(ids);
            },
            Strategy::TestVisionMoveTo(s) => {
                s.put_ids(ids);
            },
        }
        proof {
            assert(self@.ids =~= before.spec_put_ids(ids@).ids);
        }
    }

    /// One tick of the strategy. Returns whether the strategy is done.
    pub fn step(&mut self, world: &World, action_wrapper: &mut ActionWrapper) -> (done: bool)
        ensures
            !done,
            final(self)@ == old(self)@.spec_stepped(*world),
            final(action_wrapper)@ == old(self)@.spec_step_actions(*world, old(action_wrapper)@),
    {
        let ghost before = self@;
        let done = match self {
            Strategy::GoalKeeper(s) => s.step(world, action_wrapper),
            Strategy::DefenseWall(s) => s.step(world, action_wrapper),
            Strategy::BotMarking(s) => s.step(world, action_wrapper),
            Strategy::BotContesting(s) => s.step(world, action_wrapper),
            Strategy::Attacker(s) => s.step(world, action_wrapper),
            Strategy::Receiver(s) => s.step(world, action_wrapper),
            Strategy::GoLeft(s) => s.step(world, action_wrapper),
            Strategy::GoRight(s) => s.step(world, action_wrapper),
            Strategy::Aligned(s) => s.step(world, action_wrapper),
            Strategy::PrepareFreeKick(s) => s.step(world, action_wrapper),
            Strategy::PrepareGoalKick(s) => s.step(world, action_wrapper),
            Strategy::MoveAwayBallPlacement(s) => s.step(world, action_wrapper),
            Strategy::TestVisionMoveTo(s) => s.step(world, action_wrapper),
        };
        proof {
            assert(self@.ids =~= before.ids);
            assert(self@.messages =~= before.spec_stepped(*world).messages);
            reveal_with_fuel(spec_cleared, 2);
            if before.kind.spec_single() {
                assert(before.ids.len() == 1);
                assert(spec_cleared(old(action_wrapper)@, before.ids, 1)
                    == ActionWrapper::spec_replaced(old(action_wrapper)@, before.ids[0], None));
            }
        }
        done
    }
}

} // verus!
