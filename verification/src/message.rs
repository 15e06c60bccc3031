//! What a strategy can tell the manager.

use vstd::prelude::*;
use crate::math::Line;

verus! {

/// What the attacker tells about a pass.
#[derive(Clone, Copy, Debug, PartialEq, Eq, Structural)]
pub enum AttackerMessage {
    /// The attacker wants to pass to the given robot along the given line.
    WantToPassBallTo(u8, Line),
    /// The ball has left for the given robot.
    BallPassed(u8),
    /// The attacker shoots by itself.
    NoNeedReceiver,
}

/// A request of a strategy to the manager.
#[derive(Clone, Copy, Debug, PartialEq, Eq, Structural)]
pub enum Message {
    WantToGoRight,
    WantToGoLeft,
    WantToBeAligned,
    AttackerMessage(AttackerMessage),
}

/// A message with the robot that it comes from.
#[derive(Clone, Copy, Debug, PartialEq, Eq, Structural)]
pub struct MessageData {
    pub message: Message,
    pub id: u8,
}

impl MessageData {
    /// The message `message` of the robot `id`.
    pub fn new(message: Message, id: u8) -> (r: MessageData)
        ensures
            r == (MessageData { message, id }),
    {
        MessageData { message, id }
    }
}

} // verus!
