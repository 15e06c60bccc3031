//! Decision core of a robot-soccer team controller: sensor tracking, the
//! referee-driven game state, the strategy manager and the strategies that
//! turn a view of the field into motion intents.
//!
//! Every physical quantity is a fixed-point integer: lengths in micrometres,
//! speeds in micrometres per second, accelerations in micrometres per second
//! squared, instants in milliseconds. An orientation is held as a direction
//! vector, so that a half turn is a change of sign.
//!
//! The stages, in the order of a tick:
//!
//! - [`filter`], [`tracking`], [`passthrough`], [`team_side`], [`ball_filter`],
//!   [`game_controller`] and [`pipeline`]: from what the cameras and the
//!   referee send to the [`world`];
//! - [`bigbro`], [`assignment`], [`partition`], [`origin`] and [`tick`]: the
//!   manager of the strategies, its rule that no robot has two of them, and
//!   where the robots of its strategies come from;
//! - [`strategy`] and the strategies themselves, with [`actions`] and
//!   [`shoot_window`]: from the world to the intents of the robots;
//! - [`executor`], [`output`] and [`transport`]: from the intents to what goes
//!   over the link.

pub mod action;
pub mod actions;
pub mod assignment;
pub mod attacker;
pub mod ball_filter;
pub mod bigbro;
pub mod bot_marking;
pub mod config;
pub mod defensive;
pub mod executor;
pub mod filter;
pub mod formations;
pub mod game_controller;
pub mod game_state;
pub mod math;
pub mod message;
pub mod origin;
pub mod output;
pub mod partition;
pub mod passthrough;
pub mod pipeline;
pub mod receiver;
pub mod referee;
pub mod shoot_window;
pub mod strategy;
pub mod team_side;
pub mod testing;
pub mod tick;
pub mod tracking;
pub mod transport;
pub mod utils;
pub mod world;
