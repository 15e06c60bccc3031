//! What the referee sends and the orders that follow from it.

use vstd::prelude::*;
use crate::game_state::GameState;
use crate::game_state::HaltedState;
use crate::math::Vec2;
use crate::world::TeamColor;

verus! {

/// A command of the referee.
#[derive(Clone, Copy, Debug, PartialEq, Eq, Structural)]
pub enum RefereeCommand {
    Halt,
    Stop,
    NormalStart,
    ForceStart,
    PrepareKickoff(TeamColor),
    PreparePenalty(TeamColor),
    DirectFree(TeamColor),
    IndirectFree(TeamColor),
    Timeout(TeamColor),
    Goal(TeamColor),
    BallPlacement(TeamColor),
    /// Any command that is no longer in use, or that is not known.
    Deprecated,
}

/// Something that happened on the field, as the referee numbers it.
#[derive(Clone, Copy, Debug, PartialEq, Eq, Structural)]
pub struct GameEvent {
    pub code: u32,
}

/// What the referee tells of one team.
#[derive(Clone, Copy, Debug, PartialEq, Eq, Structural)]
pub struct TeamInfo {
    pub score: u32,
    pub red_cards: u32,
    pub yellow_cards: u32,
}

/// One decoded packet of the referee.
#[derive(Clone, Debug)]
pub struct Referee {
    pub command: RefereeCommand,
    pub next_command: Option<RefereeCommand>,
    pub ally: TeamInfo,
    pub enemy: TeamInfo,
    /// Where the ball is to be placed, if a placement is under way.
    pub designated_position: Option<Vec2>,
    /// The team whose goal stands on the side of positive `x`, if it is told.
    pub positive_half: Option<TeamColor>,
    pub game_events: Vec<GameEvent>,
}

/// Speed limit while the game is halted, in micrometres per second.
pub const MAX_SPEED_HALTED: u32 = 0;

/// Speed limit while the game is stopped, in micrometres per second.
pub const MAX_SPEED_STOPPED: u32 = 1_500_000;

/// Speed limit while the game runs, in micrometres per second.
pub const MAX_SPEED_RUNNING: u32 = 6_000_000;

/// Distance to keep from the ball while the game is stopped, in micrometres.
pub const MIN_DIST_FROM_BALL_STOPPED: u32 = 1_500_000;

/// What the robots have to respect at the moment.
#[derive(Clone, Copy, Debug, PartialEq, Eq, Structural)]
pub struct RefereeOrders {
    pub state: GameState,
    /// The last event of the last packet that changed the orders.
    pub event: Option<GameEvent>,
    /// In micrometres per second.
    pub speed_limit: u32,
    /// In micrometres.
    pub min_dist_from_ball: Option<u32>,
    pub designated_position: Option<Vec2>,
}

/// The last element of `events`, if there is one.
pub open spec fn spec_last_event(events: Seq<GameEvent>) -> Option<GameEvent> {
    if events.len() > 0 {
        Some(events.last())
    } else {
        None
    }
}

impl RefereeOrders {
    /// The speed limit that goes with a state.
    pub open spec fn spec_speed_limit_during(game_state: GameState) -> u32 {
        match game_state {
            GameState::Halted(_) => MAX_SPEED_HALTED,
            GameState::Stopped(_) => MAX_SPEED_STOPPED,
            GameState::Running(_) => MAX_SPEED_RUNNING,
        }
    }

    /// The distance to keep from the ball that goes with a state.
    pub open spec fn spec_min_dist_from_ball_during(game_state: GameState) -> Option<u32> {
        match game_state {
            GameState::Halted(_) => None,
            GameState::Stopped(_) => Some(MIN_DIST_FROM_BALL_STOPPED),
            GameState::Running(_) => None,
        }
    }

    /// The speed limit is the one that goes with the state.
    pub open spec fn consistent(self) -> bool {
        self.speed_limit == Self::spec_speed_limit_during(self.state)
    }

    /// The speed limit that goes with a state: none at all while halted, 1.5
    /// m/s while stopped, more than nothing while running.
    pub fn get_speed_limit_during(game_state: GameState) -> (r: u32)
        ensures
            r == Self::spec_speed_limit_during(game_state),
            game_state is Halted ==> r == 0,
            game_state is Stopped ==> r == 1_500_000,
            game_state is Running ==> r > 0,
    {
        match game_state {
            GameState::Halted(_) => MAX_SPEED_HALTED,
            GameState::Stopped(_) => MAX_SPEED_STOPPED,
            GameState::Running(_) => MAX_SPEED_RUNNING,
        }
    }

    /// The distance to keep from the ball that goes with a state.
    pub fn get_min_dist_from_ball_during(game_state: GameState) -> (r: Option<u32>)
        ensures
            r == Self::spec_min_dist_from_ball_during(game_state),
    {
        match game_state {
            GameState::Halted(_) => None,
            GameState::Stopped(_) => Some(MIN_DIST_FROM_BALL_STOPPED),
            GameState::Running(_) => None,
        }
    }

    /// The orders at the entry into `game_state`.
    pub fn new(game_state: GameState, game_event: Option<GameEvent>) -> (r: RefereeOrders)
        ensures
            r == (RefereeOrders {
                state: game_state,
                event: game_event,
                speed_limit: Self::spec_speed_limit_during(game_state),
                min_dist_from_ball: None,
                designated_position: None,
            }),
            r.consistent(),
    {
        RefereeOrders {
            state: game_state,
            event: game_event,
            speed_limit: Self::get_speed_limit_during(game_state),
            min_dist_from_ball: None,
            designated_position: None,
        }
    }

    /// The orders before any command has arrived.
    pub fn initial() -> (r: RefereeOrders)
        ensures
            r == (RefereeOrders {
                state: GameState::Halted(HaltedState::GameNotStarted),
                event: None,
                speed_limit: MAX_SPEED_HALTED,
                min_dist_from_ball: None,
                designated_position: None,
            }),
            r.consistent(),
    {
        RefereeOrders {
            state: GameState::Halted(HaltedState::GameNotStarted),
            event: None,
            speed_limit: MAX_SPEED_HALTED,
            min_dist_from_ball: None,
            designated_position: None,
        }
    }

    /// Brings the orders in line with `game_state` and with what `referee`
    /// tells besides.
    pub fn update(&mut self, game_state: GameState, referee: &Referee)
        ensures
            *final(self) == (RefereeOrders {
                state: game_state,
                event: spec_last_event(referee.game_events@),
                speed_limit: Self::spec_speed_limit_during(game_state),
                min_dist_from_ball: Self::spec_min_dist_from_ball_during(game_state),
                designated_position: referee.designated_position,
            }),
            final(self).consistent(),
    {
        self.state = game_state;
        self.speed_limit = Self::get_speed_limit_during(game_state);
        self.min_dist_from_ball = Self::get_min_dist_from_ball_during(game_state);
        let n = referee.game_events.len();
        self.event = if n > 0 {
            Some(referee.game_events[n - 1])
        } else {
            None
        };
        self.designated_position = referee.designated_position;
    }
}

impl Default for RefereeOrders {
    fn default() -> (r: RefereeOrders)
        ensures
            r == (RefereeOrders {
                state: GameState::Halted(HaltedState::GameNotStarted),
                event: None,
                speed_limit: MAX_SPEED_HALTED,
                min_dist_from_ball: None,
                designated_position: None,
            }),
    {
        RefereeOrders::initial()
    }
}

/// While the orders are consistent the speed limit is zero in a halted
/// state, 1.5 m/s in a stopped state and positive in a running state.
pub proof fn lemma_speed_limit_by_state(orders: RefereeOrders)
    requires
        orders.consistent(),
    ensures
        orders.state is Halted ==> orders.speed_limit == 0,
        orders.state is Stopped ==> orders.speed_limit == 1_500_000,
        orders.state is Running ==> orders.speed_limit > 0,
{
}

} // verus!
