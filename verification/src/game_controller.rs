//! The filter that turns the commands of the referee into the state of
//! play.

use vstd::prelude::*;
use crate::filter::FilterData;
use crate::game_state::GameState;
use crate::game_state::HaltedState;
use crate::game_state::RunningState;
use crate::game_state::StoppedState;
use crate::referee::spec_last_event;
use crate::referee::Referee;
use crate::referee::RefereeCommand;
use crate::referee::RefereeOrders;
use crate::world::TeamColor;
use crate::world::World;

verus! {

/// How long a kick-off or a penalty lasts at most, in milliseconds.
pub const KICKOFF_TIMER: i64 = 10_000;

/// How long a free kick lasts at most, in milliseconds.
pub const FREEKICK_TIMER: i64 = 5_000;

/// What is remembered of the match from tick to tick.
#[derive(Clone, Copy, Debug, PartialEq, Eq, Structural)]
pub struct StateData {
    /// The command of the last packet that was dealt with.
    pub last_ref_cmd: RefereeCommand,
    /// The command before the last change of command.
    pub prev_ref_cmd: RefereeCommand,
    pub ally_score: u32,
    pub enemy_score: u32,
    /// Whether the ball was put in play by a forced start at least once.
    pub kicked_off_once: bool,
}

impl StateData {
    /// What is remembered before any packet: no command, no goal.
    pub open spec fn spec_initial() -> StateData {
        StateData {
            last_ref_cmd: RefereeCommand::Deprecated,
            prev_ref_cmd: RefereeCommand::Deprecated,
            ally_score: 0,
            enemy_score: 0,
            kicked_off_once: false,
        }
    }

    /// What is remembered before any packet: no command, no goal.
    pub fn initial() -> (r: StateData)
        ensures
            r == StateData::spec_initial(),
    {
        StateData {
            last_ref_cmd: RefereeCommand::Deprecated,
            prev_ref_cmd: RefereeCommand::Deprecated,
            ally_score: 0,
            enemy_score: 0,
            kicked_off_once: false,
        }
    }
}

impl Default for StateData {
    fn default() -> (r: StateData)
        ensures
            r == StateData::spec_initial(),
    {
        StateData::initial()
    }
}

/// What a command of the referee leads to.
#[derive(Clone, Copy, Debug, PartialEq, Eq, Structural)]
pub enum GameStateBranch {
    Halt,
    Stop,
    NormalStart,
    ForceStart,
    PrepareKickoff(TeamColor),
    PreparePenalty(TeamColor),
    Freekick(TeamColor),
    Timeout(TeamColor),
    BallPlacement(TeamColor),
    /// A command that changes nothing.
    Deprecated,
}

/// What a branch gives: the state of play, and what becomes of the timer and
/// of the memory of a forced start.
pub struct BranchOutcome {
    pub state: GameState,
    /// When the running timer was started, if one runs.
    pub timer: Option<i64>,
    pub kicked_off_once: bool,
}

/// The branch that a command leads to.
pub open spec fn spec_resolve_branch(command: RefereeCommand) -> GameStateBranch {
    match command {
        RefereeCommand::Halt => GameStateBranch::Halt,
        RefereeCommand::Stop => GameStateBranch::Stop,
        RefereeCommand::NormalStart => GameStateBranch::NormalStart,
        RefereeCommand::ForceStart => GameStateBranch::ForceStart,
        RefereeCommand::PrepareKickoff(team) => GameStateBranch::PrepareKickoff(team),
        RefereeCommand::PreparePenalty(team) => GameStateBranch::PreparePenalty(team),
        RefereeCommand::DirectFree(team) => GameStateBranch::Freekick(team),
        RefereeCommand::Timeout(team) => GameStateBranch::Timeout(team),
        RefereeCommand::BallPlacement(team) => GameStateBranch::BallPlacement(team),
        RefereeCommand::Goal(_) => GameStateBranch::Deprecated,
        RefereeCommand::IndirectFree(_) => GameStateBranch::Deprecated,
        RefereeCommand::Deprecated => GameStateBranch::Deprecated,
    }
}

/// What a phase of play with a time limit gives. When its command comes the
/// timer starts and the phase begins. At a later tick the phase goes on while
/// the timer runs and has not reached the limit, and normal play begins once
/// it has; without a timer nothing changes.
pub open spec fn spec_timed(
    phase: RunningState,
    limit: int,
    prior: GameState,
    timer: Option<i64>,
    fresh: bool,
    now: i64,
) -> (GameState, Option<i64>) {
    if fresh {
        (GameState::Running(phase), Some(now))
    } else {
        match timer {
            Some(start) => if now - start >= limit {
                (GameState::Running(RunningState::NormalPlay), None)
            } else {
                (GameState::Running(phase), timer)
            },
            None => (prior, None),
        }
    }
}

/// What a branch gives.
///
/// `prior` is the state of play so far, `previous` the command before the
/// last change of command, `fresh` tells whether the command of the branch
/// has just come.
pub open spec fn spec_process_state(
    branch: GameStateBranch,
    prior: GameState,
    previous: RefereeCommand,
    timer: Option<i64>,
    kicked_off_once: bool,
    fresh: bool,
    now: i64,
) -> BranchOutcome {
    match branch {
        GameStateBranch::Halt => BranchOutcome {
            state: GameState::Halted(HaltedState::Halt),
            timer: None,
            kicked_off_once,
        },
        GameStateBranch::Stop => BranchOutcome {
            state: GameState::Stopped(StoppedState::Stop),
            timer: None,
            kicked_off_once,
        },
        GameStateBranch::NormalStart => match previous {
            RefereeCommand::PrepareKickoff(team) => {
                let (state, timer) = spec_timed(
                    RunningState::KickOff(team),
                    KICKOFF_TIMER as int,
                    prior,
                    timer,
                    fresh,
                    now,
                );
                BranchOutcome { state, timer, kicked_off_once }
            },
            RefereeCommand::PreparePenalty(team) => {
                let (state, timer) = spec_timed(
                    RunningState::Penalty(team),
                    KICKOFF_TIMER as int,
                    prior,
                    timer,
                    fresh,
                    now,
                );
                BranchOutcome { state, timer, kicked_off_once }
            },
            _ => BranchOutcome {
                state: GameState::Running(RunningState::NormalPlay),
                timer,
                kicked_off_once,
            },
        },
        GameStateBranch::ForceStart => BranchOutcome {
            state: GameState::Running(RunningState::NormalPlay),
            timer,
            kicked_off_once: true,
        },
        GameStateBranch::PrepareKickoff(team) => BranchOutcome {
            state: GameState::Halted(HaltedState::PrepareKickoff(team)),
            timer,
            kicked_off_once,
        },
        GameStateBranch::PreparePenalty(team) => BranchOutcome {
            state: GameState::Halted(HaltedState::PreparePenalty(team)),
            timer,
            kicked_off_once,
        },
        GameStateBranch::Freekick(team) => {
            let (state, timer) = spec_timed(
                RunningState::FreeKick(team),
                FREEKICK_TIMER as int,
                prior,
                timer,
                fresh,
                now,
            );
            BranchOutcome { state, timer, kicked_off_once }
        },
        GameStateBranch::Timeout(team) => BranchOutcome {
            state: GameState::Halted(HaltedState::Timeout(team)),
            timer,
            kicked_off_once,
        },
        GameStateBranch::BallPlacement(team) => BranchOutcome {
            state: GameState::Stopped(StoppedState::BallPlacement(team)),
            timer,
            kicked_off_once,
        },
        GameStateBranch::Deprecated => BranchOutcome { state: prior, timer, kicked_off_once },
    }
}

/// From any state, with any timer, a halt leads to the halted state of that
/// name and stops the timer.
pub proof fn lemma_halt_halts(
    prior: GameState,
    previous: RefereeCommand,
    timer: Option<i64>,
    kicked_off_once: bool,
    fresh: bool,
    now: i64,
)
    ensures
        spec_process_state(
            spec_resolve_branch(RefereeCommand::Halt),
            prior,
            previous,
            timer,
            kicked_off_once,
            fresh,
            now,
        ).state == GameState::Halted(HaltedState::Halt),
        spec_process_state(
            spec_resolve_branch(RefereeCommand::Halt),
            prior,
            previous,
            timer,
            kicked_off_once,
            fresh,
            now,
        ).timer is None,
{
}

/// A phase of play with a time limit.
fn timed(
    phase: RunningState,
    limit: i64,
    prior: GameState,
    timer: &mut Option<i64>,
    fresh: bool,
    now: i64,
) -> (state: GameState)
    ensures
        (state, *final(timer)) == spec_timed(phase, limit as int, prior, *old(timer), fresh, now),
{
    if fresh {
        *timer = Some(now);
        return GameState::Running(phase);
    }
    match *timer {
        Some(start) => {
            if now as i128 - start as i128 >= limit as i128 {
                *timer = None;
                GameState::Running(RunningState::NormalPlay)
            } else {
                GameState::Running(phase)
            }
        },
        None => prior,
    }
}

impl GameStateBranch {
    /// The state of play that the branch leads to from the state of play of
    /// `world`; the timer and the memory of the match are brought up to date.
    pub fn process_state(
        &self,
        world: &World,
        referee: &Referee,
        timer: &mut Option<i64>,
        state_data: &mut StateData,
        fresh: bool,
        now: i64,
    ) -> (state: GameState)
        ensures
            (BranchOutcome {
                state,
                timer: *final(timer),
                kicked_off_once: final(state_data).kicked_off_once,
            }) == spec_process_state(
                *self,
                world.data.ref_orders.state,
                old(state_data).prev_ref_cmd,
                *old(timer),
                old(state_data).kicked_off_once,
                fresh,
                now,
            ),
            final(state_data).last_ref_cmd == old(state_data).last_ref_cmd,
            final(state_data).prev_ref_cmd == old(state_data).prev_ref_cmd,
            final(state_data).ally_score == old(state_data).ally_score,
            final(state_data).enemy_score == old(state_data).enemy_score,
            *self == GameStateBranch::Halt ==> state == GameState::Halted(HaltedState::Halt),
    {
        let prior = world.data.ref_orders.state;
        match self {
            GameStateBranch::Halt => {
                *timer = None;
                GameState::Halted(HaltedState::Halt)
            },
            GameStateBranch::Stop => {
                *timer = None;
                GameState::Stopped(StoppedState::Stop)
            },
            GameStateBranch::NormalStart => match state_data.prev_ref_cmd {
                RefereeCommand::PrepareKickoff(team) => timed(
                    RunningState::KickOff(team),
                    KICKOFF_TIMER,
                    prior,
                    timer,
                    fresh,
                    now,
                ),
                RefereeCommand::PreparePenalty(team) => timed(
                    RunningState::Penalty(team),
                    KICKOFF_TIMER,
                    prior,
                    timer,
                    fresh,
                    now,
                ),
                _ => GameState::Running(RunningState::NormalPlay),
            },
            GameStateBranch::ForceStart => {
                state_data.kicked_off_once = true;
                GameState::Running(RunningState::NormalPlay)
            },
            GameStateBranch::PrepareKickoff(team) => GameState::Halted(
                HaltedState::PrepareKickoff(*team),
            ),
            GameStateBranch::PreparePenalty(team) => GameState::Halted(
                HaltedState::PreparePenalty(*team),
            ),
            GameStateBranch::Freekick(team) => timed(
                RunningState::FreeKick(*team),
                FREEKICK_TIMER,
                prior,
                timer,
                fresh,
                now,
            ),
            GameStateBranch::Timeout(team) => GameState::Halted(HaltedState::Timeout(*team)),
            GameStateBranch::BallPlacement(team) => GameState::Stopped(
                StoppedState::BallPlacement(*team),
            ),
            GameStateBranch::Deprecated => prior,
        }
    }
}

/// Turns the commands of the referee into the state of play.
pub struct GameControllerPostFilter {
    /// When the running timer was started, if one runs.
    pub(crate) timer: Option<i64>,
    pub(crate) state_data: StateData,
}

/// The filter and what it has made of the view of the field.
pub struct ControllerOutcome {
    pub timer: Option<i64>,
    pub state_data: StateData,
    pub ref_orders: RefereeOrders,
    pub positive_half: TeamColor,
    pub kicked_off_once: bool,
    pub ally_score: u32,
    pub enemy_score: u32,
}

/// The memory of the match once the command of a packet was noted: the
/// command before a change of command is kept.
pub open spec fn spec_noted(state_data: StateData, command: RefereeCommand) -> StateData {
    StateData {
        prev_ref_cmd: if command != state_data.last_ref_cmd {
            state_data.last_ref_cmd
        } else {
            state_data.prev_ref_cmd
        },
        last_ref_cmd: command,
        ..state_data
    }
}

impl GameControllerPostFilter {
    /// When the running timer was started, if one runs.
    pub open(crate) spec fn spec_timer(&self) -> Option<i64> {
        self.timer
    }

    /// What the filter remembers of the match.
    pub open(crate) spec fn spec_state_data(&self) -> StateData {
        self.state_data
    }

    /// A filter that has seen no packet yet.
    pub fn new() -> (r: GameControllerPostFilter)
        ensures
            r.spec_timer() is None,
            r.spec_state_data() == StateData::spec_initial(),
    {
        GameControllerPostFilter { timer: None, state_data: StateData::initial() }
    }

    /// When the running timer was started, if one runs.
    pub fn timer(&self) -> (r: Option<i64>)
        ensures
            r == self.spec_timer(),
    {
        self.timer
    }

    /// What the filter remembers of the match.
    pub fn state_data(&self) -> (r: StateData)
        ensures
            r == self.spec_state_data(),
    {
        self.state_data
    }

    /// Updates the team scores of both teams.
    pub fn update_team_scores(&mut self, referee: &Referee)
        ensures
            final(self).spec_state_data() == (StateData {
                ally_score: referee.ally.score,
                enemy_score: referee.enemy.score,
                ..old(self).spec_state_data()
            }),
            final(self).spec_timer() == old(self).spec_timer(),
    {
        self.state_data.ally_score = referee.ally.score;
        self.state_data.enemy_score = referee.enemy.score;
    }

    /// Notes the command of a packet; the command before a change of command
    /// is kept.
    pub fn update_latest_state_data(&mut self, referee: &Referee)
        ensures
            final(self).spec_state_data() == spec_noted(
                old(self).spec_state_data(),
                referee.command,
            ),
            final(self).spec_timer() == old(self).spec_timer(),
    {
        if referee.command != self.state_data.last_ref_cmd {
            self.state_data.prev_ref_cmd = self.state_data.last_ref_cmd;
        }
        self.state_data.last_ref_cmd = referee.command;
    }

    /// The branch that a command leads to.
    pub fn resolve_branch(&mut self, referee_command: &RefereeCommand) -> (r: GameStateBranch)
        ensures
            r == spec_resolve_branch(*referee_command),
            *final(self) == *old(self),
    {
        match referee_command {
            RefereeCommand::Halt => GameStateBranch::Halt,
            RefereeCommand::Stop => GameStateBranch::Stop,
            RefereeCommand::NormalStart => GameStateBranch::NormalStart,
            RefereeCommand::ForceStart => GameStateBranch::ForceStart,
            RefereeCommand::PrepareKickoff(for_team) => GameStateBranch::PrepareKickoff(*for_team),
            RefereeCommand::PreparePenalty(for_team) => GameStateBranch::PreparePenalty(*for_team),
            RefereeCommand::DirectFree(for_team) => GameStateBranch::Freekick(*for_team),
            RefereeCommand::Timeout(for_team) => GameStateBranch::Timeout(*for_team),
            RefereeCommand::BallPlacement(by_team) => GameStateBranch::BallPlacement(*by_team),
            RefereeCommand::Goal(_) => GameStateBranch::Deprecated,
            RefereeCommand::IndirectFree(_) => GameStateBranch::Deprecated,
            RefereeCommand::Deprecated => GameStateBranch::Deprecated,
        }
    }

    /// What one tick of the filter gives, for the last packet of the referee
    /// that came in. The state of play changes only where the command is new
    /// or a timer runs; the side of the teams is taken over where the packet
    /// tells it.
    pub open spec fn spec_step(
        timer: Option<i64>,
        state_data: StateData,
        referee: Referee,
        world: World,
        now: i64,
    ) -> ControllerOutcome {
        let positive_half = match referee.positive_half {
            Some(team) => team,
            None => world.data.positive_half,
        };
        if state_data.last_ref_cmd != referee.command || timer is Some {
            let noted = spec_noted(state_data, referee.command);
            let outcome = spec_process_state(
                spec_resolve_branch(referee.command),
                world.data.ref_orders.state,
                noted.prev_ref_cmd,
                timer,
                noted.kicked_off_once,
                state_data.last_ref_cmd != referee.command,
                now,
            );
            ControllerOutcome {
                timer: outcome.timer,
                state_data: StateData {
                    kicked_off_once: outcome.kicked_off_once,
                    ally_score: referee.ally.score,
                    enemy_score: referee.enemy.score,
                    ..noted
                },
                ref_orders: RefereeOrders {
                    state: outcome.state,
                    event: spec_last_event(referee.game_events@),
                    speed_limit: RefereeOrders::spec_speed_limit_during(outcome.state),
                    min_dist_from_ball: RefereeOrders::spec_min_dist_from_ball_during(
                        outcome.state,
                    ),
                    designated_position: referee.designated_position,
                },
                positive_half,
                kicked_off_once: outcome.kicked_off_once,
                ally_score: referee.ally.score,
                enemy_score: referee.enemy.score,
            }
        } else {
            ControllerOutcome {
                timer,
                state_data,
                ref_orders: world.data.ref_orders,
                positive_half,
                kicked_off_once: world.data.kicked_off_once,
                ally_score: world.data.ally.score,
                enemy_score: world.data.enemy.score,
            }
        }
    }

    /// One tick of the filter. Without a packet of the referee nothing
    /// changes. Else the last packet decides, as `spec_step` tells.
    ///
    /// The orders stay consistent: the speed limit is the one of the state.
    /// A halt that is new leads to the halted state of that name.
    pub fn step(&mut self, filter_data: &FilterData, world: &mut World, now: i64)
        ensures
            filter_data.referee@.len() == 0 ==> *final(self) == *old(self) && *final(world)
                == *old(world),
            filter_data.referee@.len() > 0 ==> {
                let outcome = Self::spec_step(
                    old(self).spec_timer(),
                    old(self).spec_state_data(),
                    filter_data.referee@.last(),
                    *old(world),
                    now,
                );
                &&& final(self).spec_timer() == outcome.timer
                &&& final(self).spec_state_data() == outcome.state_data
                &&& final(world).data.ref_orders == outcome.ref_orders
                &&& final(world).data.positive_half == outcome.positive_half
                &&& final(world).data.kicked_off_once == outcome.kicked_off_once
                &&& final(world).data.ally.score == outcome.ally_score
                &&& final(world).data.enemy.score == outcome.enemy_score
            },
            final(world).data.ally.color == old(world).data.ally.color,
            final(world).data.ally.name == old(world).data.ally.name,
            final(world).data.enemy.color == old(world).data.enemy.color,
            final(world).data.enemy.name == old(world).data.enemy.name,
            final(world).geometry == old(world).geometry,
            final(world).allies_bot == old(world).allies_bot,
            final(world).enemies_bot == old(world).enemies_bot,
            final(world).ball == old(world).ball,
            final(world).team_color == old(world).team_color,
            old(world).data.ref_orders.consistent() ==> final(world).data.ref_orders.consistent(),
            filter_data.referee@.len() > 0 && filter_data.referee@.last().command
                == RefereeCommand::Halt && old(self).spec_state_data().last_ref_cmd
                != RefereeCommand::Halt ==> final(world).data.ref_orders.state == GameState::Halted(
                HaltedState::Halt,
            ),
    {
        let n = filter_data.referee.len();
        if n == 0 {
            return;
        }
        let referee = &filter_data.referee[n - 1];
        let fresh = self.state_data.last_ref_cmd != referee.command;
        if fresh || self.timer.is_some() {
            self.update_latest_state_data(referee);
            let branch = self.resolve_branch(&referee.command);
            let new_state = branch.process_state(
                world,
                referee,
                &mut self.timer,
                &mut self.state_data,
                fresh,
                now,
            );
            self.update_team_scores(referee);
            world.data.ref_orders.update(new_state, referee);
            world.data.kicked_off_once = self.state_data.kicked_off_once;
            world.data.ally.score = self.state_data.ally_score;
            world.data.enemy.score = self.state_data.enemy_score;
        }
        match referee.positive_half {
            Some(team_on_positive_half) => {
                world.data.positive_half = team_on_positive_half;
            },
            None => {},
        }
    }
}

} // verus!
