//! The states of play that the referee's commands lead to.

use vstd::prelude::*;
use crate::world::TeamColor;

verus! {

/// No robot may move.
#[derive(Clone, Copy, Debug, PartialEq, Eq, Structural)]
pub enum HaltedState {
    /// No command has been received yet.
    GameNotStarted,
    Halt,
    /// The given team gets ready to kick off.
    PrepareKickoff(TeamColor),
    /// The given team gets ready to take a penalty.
    PreparePenalty(TeamColor),
    /// The given team has called a timeout.
    Timeout(TeamColor),
}

/// Robots move slowly and keep away from the ball.
#[derive(Clone, Copy, Debug, PartialEq, Eq, Structural)]
pub enum StoppedState {
    Stop,
    /// The given team places the ball.
    BallPlacement(TeamColor),
}

/// The ball is in play or about to be.
#[derive(Clone, Copy, Debug, PartialEq, Eq, Structural)]
pub enum RunningState {
    NormalPlay,
    KickOff(TeamColor),
    FreeKick(TeamColor),
    Penalty(TeamColor),
    BallPlacement(TeamColor),
}

/// The state of play. Exactly one sub-state is active.
#[derive(Clone, Copy, Debug, PartialEq, Eq, Structural)]
pub enum GameState {
    Halted(HaltedState),
    Stopped(StoppedState),
    Running(RunningState),
}

impl GameState {
    /// The team to which the running state hands the ball, if it does.
    pub open spec fn spec_awarded_team(self) -> Option<TeamColor> {
        match self {
            GameState::Running(RunningState::FreeKick(t)) => Some(t),
            GameState::Running(RunningState::KickOff(t)) => Some(t),
            GameState::Running(RunningState::Penalty(t)) => Some(t),
            _ => None,
        }
    }

    /// The team to which the running state hands the ball, if it does.
    pub fn awarded_team(&self) -> (r: Option<TeamColor>)
        ensures
            r == self.spec_awarded_team(),
    {
        match self {
            GameState::Running(RunningState::FreeKick(t)) => Some(*t),
            GameState::Running(RunningState::KickOff(t)) => Some(*t),
            GameState::Running(RunningState::Penalty(t)) => Some(*t),
            _ => None,
        }
    }
}

} // verus!
