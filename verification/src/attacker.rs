//! The attacker: the robot that goes for the ball and tries to score, by
//! itself or through a pass.

use vstd::prelude::*;
use crate::action::ActionWrapper;
use crate::action::MoveTo;
use crate::actions::intercept;
use crate::actions::object_in_bot_trajectory;
use crate::actions::shoot;
use crate::actions::spec_intercept;
use crate::actions::spec_object_in_bot_trajectory;
use crate::actions::spec_shoot;
use crate::actions::FAST_BALL_SPEED2;
use crate::math::Line;
use crate::math::Vec2;
use crate::message::AttackerMessage;
use crate::message::Message;
use crate::message::MessageData;
use crate::shoot_window::get_open_shoot_window;
use crate::shoot_window::longest_window;
use crate::shoot_window::shoot_windows_total_length;
use crate::shoot_window::spec_longest_index;
use crate::shoot_window::spec_open_shoot_windows;
use crate::shoot_window::spec_shadow_radius;
use crate::shoot_window::spec_total_length_capped;
use crate::world::AllyInfo;
use crate::world::Robot;
use crate::world::World;

verus! {

/// Square of the acceleration of the ball above which a pass counts as played
/// (4 m/s^2).
pub const PASS_PLAYED_ACCELERATION2: i64 = 16_000_000_000_000;

/// The attacker: owns one robot.
pub struct Attacker {
    pub(crate) id: u8,
    pub(crate) messages: Vec<MessageData>,
}

/// What the attacker does in one tick: the move, if any, and what it tells
/// the manager.
pub struct AttackerDecision {
    pub intent: Option<MoveTo>,
    pub message: Option<Message>,
}

/// The windows of the enemy goal that are open from `from`.
pub open spec fn spec_windows_from(world: World, from: Vec2) -> Seq<Line> {
    spec_open_shoot_windows(
        from,
        world.enemies_bot@,
        spec_shadow_radius(world.geometry),
        world.geometry.enemy_goal.spec_line(),
    )
}

/// Whether the ally can be passed to by the robot `id`: it stands in the
/// enemy half and is another robot.
pub open spec fn spec_is_pass_candidate(ally: Robot<AllyInfo>, id: u8) -> bool {
    ally.pose.position.sx() > 0 && ally.id != id
}

/// The first `upto` allies seen, with the best to pass to and the total
/// width of goal that it sees. The best is the first candidate until one is
/// found that no enemy stands in the way to and that sees more of the goal
/// than any before it. None where there is no candidate.
pub open spec fn spec_best_mate(world: World, id: u8, upto: int) -> Option<(int, int)>
    decreases upto,
{
    if upto <= 0 {
        None
    } else {
        let before = spec_best_mate(world, id, upto - 1);
        let ally = world.allies_bot@[upto - 1];
        if !spec_is_pass_candidate(ally, id) {
            before
        } else {
            let open = spec_total_length_capped(spec_windows_from(world, ally.pose.position));
            let free = spec_object_in_bot_trajectory(
                world,
                id,
                ally.pose.position,
                false,
                false,
                true,
            ).len() == 0;
            match before {
                None => if free && open > 0 {
                    Some((upto - 1, open))
                } else {
                    Some((upto - 1, 0))
                },
                Some((best, width)) => if free && open > width {
                    Some((upto - 1, open))
                } else {
                    before
                },
            }
        }
    }
}

/// Position in the team of the ally that the robot `id` would pass to.
pub open spec fn spec_pass_target(world: World, id: u8) -> Option<int> {
    match spec_best_mate(world, id, world.allies_bot@.len() as int) {
        Some((best, _)) => Some(best),
        None => None,
    }
}

/// What the attacker `id` does in `world`.
///
/// Without its robot or without the ball, nothing. With no open window and an
/// ally to pass to: a shot at that ally, announced as a wish to pass or,
/// where the ball accelerates at more than 4 m/s^2, as a pass played. Else,
/// where the ball is faster than 1 m/s and lies ahead of the robot on its way
/// to the enemy goal: an interception. Else, where a window is open: a shot
/// at the middle of the longest window.
pub open spec fn spec_attacker_decision(world: World, id: u8) -> AttackerDecision {
    match (world.allies_bot.spec_get(id), world.ball) {
        (Some(robot), Some(ball)) => {
            let windows = spec_windows_from(world, ball.spec_position_2d());
            let mate = spec_pass_target(world, id);
            let to_goal = robot.pose.position.spec_delta_to(
                world.geometry.enemy_goal.spec_line().spec_center(),
            );
            let to_ball = robot.pose.position.spec_delta_to(ball.spec_position_2d());
            if windows.len() == 0 && mate is Some {
                let ally = world.allies_bot@[mate.unwrap()];
                let told = if ball.acceleration.spec_norm2() > PASS_PLAYED_ACCELERATION2 {
                    AttackerMessage::BallPassed(ally.id)
                } else {
                    AttackerMessage::WantToPassBallTo(
                        ally.id,
                        Line { start: robot.pose.position, end: ally.pose.position },
                    )
                };
                AttackerDecision {
                    intent: Some(spec_shoot(robot, ball, ally.pose.position, world)),
                    message: Some(Message::AttackerMessage(told)),
                }
            } else if ball.velocity.spec_norm2() > FAST_BALL_SPEED2 && to_ball.spec_dot(to_goal)
                > 0 {
                AttackerDecision { intent: Some(spec_intercept(robot, ball)), message: None }
            } else if windows.len() > 0 {
                let target = windows[spec_longest_index(windows)].spec_center();
                AttackerDecision {
                    intent: Some(spec_shoot(robot, ball, target, world)),
                    message: Some(Message::AttackerMessage(AttackerMessage::NoNeedReceiver)),
                }
            } else {
                AttackerDecision { intent: None, message: None }
            }
        },
        _ => AttackerDecision { intent: None, message: None },
    }
}

/// The messages that carry what `decision` tells.
pub open spec fn spec_messages_of(decision: AttackerDecision, id: u8) -> Seq<MessageData> {
    match decision.message {
        Some(message) => seq![MessageData { message, id }],
        None => Seq::empty(),
    }
}

/// Position in the team of the ally that the robot `id` would pass to.
pub fn pass_target(world: &World, id: u8) -> (r: Option<usize>)
    ensures
        match r {
            Some(i) => spec_pass_target(*world, id) == Some(i as int) && i < world.allies_bot@.len(),
            None => spec_pass_target(*world, id) is None,
        },
{
    let allies = world.allies_bot.values();
    let mut best: Option<(usize, u64)> = None;
    let mut i: usize = 0;
    while i < allies.len()
        invariant
            0 <= i <= allies.len(),
            allies@ == world.allies_bot@,
            match best {
                Some((b, w)) => spec_best_mate(*world, id, i as int) == Some((b as int, w as int))
                    && b < i,
                None => spec_best_mate(*world, id, i as int) is None,
            },
        decreases allies.len() - i,
    {
        let ally = &allies[i];
        if ally.pose.position.x() > 0 && ally.id != id {
            let free = object_in_bot_trajectory(
                world,
                id,
                ally.pose.position,
                false,
                false,
                true,
            ).len() == 0;
            let windows = get_open_shoot_window(&ally.pose.position, world);
            let open = shoot_windows_total_length(&windows);
            best = match best {
                None => if free && open > 0 {
                    Some((i, open))
                } else {
                    Some((i, 0))
                },
                Some((b, w)) => if free && open > w {
                    Some((i, open))
                } else {
                    Some((b, w))
                },
            };
        }
        i += 1;
    }
    match best {
        Some((b, _)) => Some(b),
        None => None,
    }
}

/// What the attacker `id` does in `world`.
pub fn attacker_decision(world: &World, id: u8) -> (r: AttackerDecision)
    ensures
        r == spec_attacker_decision(*world, id),
{
    let robot = match world.allies_bot.get(id) {
        Some(robot) => robot,
        None => {
            return AttackerDecision { intent: None, message: None };
        },
    };
    let ball = match &world.ball {
        Some(ball) => ball,
        None => {
            return AttackerDecision { intent: None, message: None };
        },
    };
    let ball_position = ball.position_2d();
    let windows = get_open_shoot_window(&ball_position, world);
    let mate = pass_target(world, id);
    let goal_center = world.geometry.enemy_goal.line().center();
    let to_goal = robot.pose.position.delta_to(&goal_center);
    let to_ball = robot.pose.position.delta_to(&ball_position);
    if windows.len() == 0 && mate.is_some() {
        let ally = &world.allies_bot.values()[mate.unwrap()];
        let told = if ball.acceleration.norm2() > PASS_PLAYED_ACCELERATION2 {
            AttackerMessage::BallPassed(ally.id)
        } else {
            AttackerMessage::WantToPassBallTo(
                ally.id,
                Line::new(robot.pose.position, ally.pose.position),
            )
        };
        AttackerDecision {
            intent: Some(shoot(robot, ball, &ally.pose.position, world)),
            message: Some(Message::AttackerMessage(told)),
        }
    } else if ball.velocity.norm2() > FAST_BALL_SPEED2 && to_ball.dot(&to_goal) > 0 {
        AttackerDecision { intent: Some(intercept(robot, ball)), message: None }
    } else if windows.len() > 0 {
        let target = longest_window(&windows).unwrap().center();
        AttackerDecision {
            intent: Some(shoot(robot, ball, &target, world)),
            message: Some(Message::AttackerMessage(AttackerMessage::NoNeedReceiver)),
        }
    } else {
        AttackerDecision { intent: None, message: None }
    }
}

impl Attacker {
    /// The robot that the strategy owns.
    pub open(crate) spec fn spec_id(&self) -> u8 {
        self.id
    }

    /// What the strategy has to tell since its last step.
    pub open(crate) spec fn spec_messages(&self) -> Seq<MessageData> {
        self.messages@
    }

    /// An attacker that owns the robot `id`.
    pub fn new(id: u8) -> (r: Attacker)
        ensures
            r.spec_id() == id,
            r.spec_messages() == Seq::<MessageData>::empty(),
    {
        Attacker { id, messages: Vec::new() }
    }

    /// The name of the strategy.
    pub fn name(&self) -> (r: &'static str)
        ensures
            r@ == "Attacker"@,
    {
        "Attacker"
    }

    /// What the strategy has to tell since its last step.
    pub fn get_messages(&self) -> (r: &Vec<MessageData>)
        ensures
            r@ == self.spec_messages(),
    {
        &self.messages
    }

    /// The robots that the strategy owns.
    pub fn get_ids(&self) -> (r: Vec<u8>)
        ensures
            r@ == seq![self.spec_id()],
    {
        let mut ids: Vec<u8> = Vec::new();
        ids.push(self.id);
        assert(ids@ =~= seq![self.id]);
        ids
    }

    /// Hands the strategy another robot, if `ids` names exactly one.
    pub fn put_ids(&mut self, ids: Vec<u8>)
        ensures
            final(self).spec_id() == if ids@.len() == 1 {
                ids@[0]
            } else {
                old(self).spec_id()
            },
            final(self).spec_messages() == old(self).spec_messages(),
    {
        if ids.len() == 1 {
            self.id = ids[0];
        }
    }

    /// One tick of the strategy: the queue of its robot is emptied and gets
    /// the move that `spec_attacker_decision` tells, the outbox holds what it
    /// tells. The strategy is never done.
    pub fn step(&mut self, world: &World, action_wrapper: &mut ActionWrapper) -> (done: bool)
        ensures
            !done,
            final(self).spec_id() == old(self).spec_id(),
            final(self).spec_messages() == spec_messages_of(
                spec_attacker_decision(*world, old(self).spec_id()),
                old(self).spec_id(),
            ),
            final(action_wrapper)@ == ActionWrapper::spec_replaced(
                old(action_wrapper)@,
                old(self).spec_id(),
                spec_attacker_decision(*world, old(self).spec_id()).intent,
            ),
    {
        let decision = attacker_decision(world, self.id);
        action_wrapper.replace(self.id, decision.intent);
        let mut messages: Vec<MessageData> = Vec::new();
        match decision.message {
            Some(message) => {
                messages.push(MessageData::new(message, self.id));
                assert(messages@ =~= seq![MessageData { message, id: self.id }]);
            },
            None => {},
        }
        self.messages = messages;
        false
    }
}

} // verus!
