//! What goes over the radio link: the packet of commands for the robots, the
//! feedback that comes back, and the framing of both.

use vstd::prelude::*;
use crate::output::Command;
use crate::output::Kick;
use crate::output::MAX_ID_ROBOTS;
use crate::world::AllyInfo;
use crate::world::Robot;
use crate::world::RobotMap;

verus! {

/// The kick that a robot is told to make.
#[derive(Clone, Copy, Debug, PartialEq, Eq, Structural)]
pub enum Kicker {
    NoKick,
    Flat,
    Chip,
}

/// What one robot is told, as it goes over the link.
#[derive(Clone, Copy, Debug, PartialEq, Eq, Structural)]
pub struct BaseCommand {
    pub robot_id: u32,
    pub normal_velocity: i32,
    pub tangential_velocity: i32,
    pub angular_velocity: i32,
    pub kick: Kicker,
    pub kick_power: u32,
    pub charge: bool,
    pub dribbler: u32,
}

/// The packet that goes to the robots.
#[derive(Clone, Debug)]
pub struct PcToBase {
    pub commands: Vec<BaseCommand>,
}

/// What one robot tells back, as it comes over the link.
#[derive(Clone, Copy, Debug, PartialEq, Eq, Structural)]
pub struct BaseFeedback {
    pub robot_id: u32,
    /// Whether the infrared sensor sees the ball.
    pub ir: bool,
    pub voltage: u32,
}

/// The packet that comes back from the robots.
#[derive(Clone, Debug)]
pub struct BaseToPc {
    pub feedbacks: Vec<BaseFeedback>,
}

/// What is known of one robot from its feedback.
#[derive(Clone, Copy, Debug, PartialEq, Eq, Structural)]
pub struct Feedback {
    pub has_ball: bool,
    pub voltage: u32,
}

/// What leaves for one robot, made of its command.
pub open spec fn spec_base_command(id: u8, command: Command) -> BaseCommand {
    BaseCommand {
        robot_id: id as u32,
        normal_velocity: command.forward_velocity,
        tangential_velocity: command.left_velocity,
        angular_velocity: command.angular_velocity,
        kick: match command.kick {
            None => Kicker::NoKick,
            Some(Kick::StraightKick { .. }) => Kicker::Flat,
            Some(Kick::ChipKick { .. }) => Kicker::Chip,
        },
        kick_power: match command.kick {
            None => 0,
            Some(Kick::StraightKick { power }) => power,
            Some(Kick::ChipKick { power }) => power,
        },
        charge: command.charge,
        dribbler: command.dribbler,
    }
}

/// What leaves for one robot, made of its command.
pub fn base_command(id: u8, command: &Command) -> (r: BaseCommand)
    ensures
        r == spec_base_command(id, *command),
{
    let (kick, kick_power) = match command.kick {
        None => (Kicker::NoKick, 0),
        Some(Kick::StraightKick { power }) => (Kicker::Flat, power),
        Some(Kick::ChipKick { power }) => (Kicker::Chip, power),
    };
    BaseCommand {
        robot_id: id as u32,
        normal_velocity: command.forward_velocity,
        tangential_velocity: command.left_velocity,
        angular_velocity: command.angular_velocity,
        kick,
        kick_power,
        charge: command.charge,
        dribbler: command.dribbler,
    }
}

/// The packet made of the commands, one entry for each command, in order.
pub fn prepare_packet(commands: &Vec<(u8, Command)>) -> (packet: PcToBase)
    ensures
        packet.commands@.len() == commands@.len(),
        forall|i: int|
            0 <= i < commands@.len() ==> (#[trigger] packet.commands@[i]) == spec_base_command(
                commands@[i].0,
                commands@[i].1,
            ),
{
    let mut out: Vec<BaseCommand> = Vec::new();
    let mut i: usize = 0;
    while i < commands.len()
        invariant
            0 <= i <= commands.len(),
            out@.len() == i,
            forall|k: int|
                0 <= k < i ==> (#[trigger] out@[k]) == spec_base_command(
                    commands@[k].0,
                    commands@[k].1,
                ),
        decreases commands.len() - i,
    {
        out.push(base_command(commands[i].0, &commands[i].1));
        i += 1;
    }
    PcToBase { commands: out }
}

/// The packet to send for the commands of a tick; none where there are more
/// commands than robots can be addressed.
pub fn packet_for(commands: &Vec<(u8, Command)>) -> (packet: Option<PcToBase>)
    ensures
        packet is Some <==> commands@.len() <= MAX_ID_ROBOTS,
        packet matches Some(p) ==> {
            &&& p.commands@.len() == commands@.len()
            &&& forall|i: int|
                0 <= i < commands@.len() ==> (#[trigger] p.commands@[i]) == spec_base_command(
                    commands@[i].0,
                    commands@[i].1,
                )
        },
{
    if commands.len() > MAX_ID_ROBOTS {
        None
    } else {
        Some(prepare_packet(commands))
    }
}

/// The commands that bring every robot to rest: one for each identifier from
/// 0 to 15, in order. They are sent twice when the link is closed.
pub fn stop_commands() -> (commands: Vec<(u8, Command)>)
    ensures
        commands@.len() == MAX_ID_ROBOTS,
        forall|i: int|
            0 <= i < MAX_ID_ROBOTS ==> (#[trigger] commands@[i]) == (i as u8, Command::spec_zero()),
{
    let mut out: Vec<(u8, Command)> = Vec::new();
    let mut id: u8 = 0;
    while id < 16
        invariant
            0 <= id <= 16,
            out@.len() == id,
            forall|k: int| 0 <= k < id ==> (#[trigger] out@[k]) == (k as u8, Command::spec_zero()),
        decreases 16 - id,
    {
        out.push((id, Command::zero()));
        id += 1;
    }
    out
}

/// The feedback of each robot after the first `upto` entries of a packet:
/// for each robot its last entry, in the order in which the robots first
/// occur.
pub open spec fn spec_feedback_map(feedbacks: Seq<BaseFeedback>, upto: int) -> Seq<(u32, Feedback)>
    decreases upto,
{
    if upto <= 0 {
        Seq::empty()
    } else {
        let before = spec_feedback_map(feedbacks, upto - 1);
        let entry = feedbacks[upto - 1];
        let told = (entry.robot_id, Feedback { has_ball: entry.ir, voltage: entry.voltage });
        let at = spec_feedback_of(before, entry.robot_id);
        if at < before.len() {
            before.update(at, told)
        } else {
            before.push(told)
        }
    }
}

/// Position of the feedback of the robot `id`, or the number of entries if
/// there is none.
pub open spec fn spec_feedback_of(map: Seq<(u32, Feedback)>, id: u32) -> int
    decreases map.len(),
{
    if map.len() == 0 {
        0
    } else if map[0].0 == id {
        0
    } else {
        1 + spec_feedback_of(map.skip(1), id)
    }
}

/// `spec_feedback_of` finds the first entry of the robot, if there is one.
pub proof fn lemma_feedback_of(map: Seq<(u32, Feedback)>, id: u32)
    ensures
        0 <= spec_feedback_of(map, id) <= map.len(),
        spec_feedback_of(map, id) < map.len() ==> map[spec_feedback_of(map, id)].0 == id,
        forall|k: int| 0 <= k < spec_feedback_of(map, id) ==> (#[trigger] map[k]).0 != id,
    decreases map.len(),
{
    if map.len() > 0 && map[0].0 != id {
        let rest = map.skip(1);
        lemma_feedback_of(rest, id);
        let h = spec_feedback_of(rest, id);
        assert forall|k: int| 0 <= k < 1 + h implies (#[trigger] map[k]).0 != id by {
            if k > 0 {
                assert(rest[k - 1] == map[k]);
            }
        }
        if h < rest.len() {
            assert(rest[h] == map[h + 1]);
        }
    }
}

/// The feedback of each robot that a packet tells of.
pub fn feedback_map(packet: &BaseToPc) -> (map: Vec<(u32, Feedback)>)
    ensures
        map@ == spec_feedback_map(packet.feedbacks@, packet.feedbacks@.len() as int),
{
    let mut out: Vec<(u32, Feedback)> = Vec::new();
    let mut i: usize = 0;
    while i < packet.feedbacks.len()
        invariant
            0 <= i <= packet.feedbacks.len(),
            out@ == spec_feedback_map(packet.feedbacks@, i as int),
        decreases packet.feedbacks.len() - i,
    {
        let entry = packet.feedbacks[i];
        let told = (entry.robot_id, Feedback { has_ball: entry.ir, voltage: entry.voltage });
        proof {
            lemma_feedback_of(out@, entry.robot_id);
        }
        let mut at: usize = 0;
        while at < out.len() && out[at].0 != entry.robot_id
            invariant
                0 <= at <= out.len(),
                forall|k: int| 0 <= k < at ==> (#[trigger] out@[k]).0 != entry.robot_id,
            decreases out.len() - at,
        {
            at += 1;
        }
        assert(at == spec_feedback_of(out@, entry.robot_id));
        if at < out.len() {
            out.set(at, told);
        } else {
            out.push(told);
        }
        i += 1;
    }
    out
}

/// The robot with what its feedback tells: whether it has the ball is taken
/// from the feedback of the robot, if there is one.
pub open spec fn spec_with_feedback(robot: Robot<AllyInfo>, map: Seq<(u32, Feedback)>) -> Robot<
    AllyInfo,
> {
    let at = spec_feedback_of(map, robot.id as u32);
    if at < map.len() {
        Robot { has_ball: map[at].1.has_ball, ..robot }
    } else {
        robot
    }
}

/// Notes for each of our robots whether its feedback tells that it has the
/// ball; a robot without feedback stays as it is.
pub fn apply_feedback(robots: &mut RobotMap<AllyInfo>, map: &Vec<(u32, Feedback)>)
    ensures
        final(robots)@.len() == old(robots)@.len(),
        forall|i: int|
            0 <= i < old(robots)@.len() ==> (#[trigger] final(robots)@[i]) == spec_with_feedback(
                old(robots)@[i],
                map@,
            ),
        old(robots).wf() ==> final(robots).wf(),
{
    let n = robots.robots.len();
    let mut i: usize = 0;
    while i < n
        invariant
            0 <= i <= n,
            robots@.len() == n,
            old(robots)@.len() == n,
            forall|j: int|
                0 <= j < i ==> (#[trigger] robots@[j]) == spec_with_feedback(old(robots)@[j], map@),
            forall|j: int| i <= j < n ==> (#[trigger] robots@[j]) == old(robots)@[j],
            forall|j: int| 0 <= j < n ==> (#[trigger] robots@[j]).id == old(robots)@[j].id,
        decreases n - i,
    {
        let id = robots.robots[i].id as u32;
        proof {
            lemma_feedback_of(map@, id);
        }
        let mut at: usize = 0;
        while at < map.len() && map[at].0 != id
            invariant
                0 <= at <= map.len(),
                forall|k: int| 0 <= k < at ==> (#[trigger] map@[k]).0 != id,
            decreases map.len() - at,
        {
            at += 1;
        }
        assert(at == spec_feedback_of(map@, id));
        if at < map.len() {
            let ghost before = robots@;
            let mut robot = robots.robots.remove(i);
            robot.has_ball = map[at].1.has_ball;
            robots.robots.insert(i, robot);
            assert forall|j: int| 0 <= j < n && j != i implies (#[trigger] robots@[j])
                == before[j] by {}
        }
        i += 1;
    }
    proof {
        if old(robots).wf() {
            assert forall|a: int, b: int| 0 <= a < b < robots@.len() implies robots@[a].id
                != robots@[b].id by {
                assert(old(robots)@[a].id != old(robots)@[b].id);
            }
        }
    }
}

/// Why what was read from the link holds no feedback.
#[derive(Clone, Copy, Debug, PartialEq, Eq, Structural)]
pub enum ReadError {
    /// Nothing was read.
    NoBytes,
    /// The first byte tells that no robot answered in time.
    NoFeedback,
}

impl ReadError {
    /// What the error means, in words.
    pub fn message(&self) -> (r: &'static str)
        ensures
            r@ == match self {
                ReadError::NoBytes => "No bytes could be read from device"@,
                ReadError::NoFeedback =>
                    "No feedback was received from any robot, or they took too long to respond"@,
            },
    {
        match self {
            ReadError::NoBytes => "No bytes could be read from device",
            ReadError::NoFeedback =>
                "No feedback was received from any robot, or they took too long to respond",
        }
    }
}

/// What goes over the link for an encoded packet: one byte with its length,
/// of which only the lowest eight bits fit, then the packet.
pub open spec fn spec_framed(payload: Seq<u8>) -> Seq<u8> {
    seq![(payload.len() % 256) as u8] + payload
}

/// What goes over the link for an encoded packet.
pub fn frame(payload: &Vec<u8>) -> (r: Vec<u8>)
    ensures
        r@ == spec_framed(payload@),
{
    let mut buf: Vec<u8> = Vec::new();
    buf.push((payload.len() % 256) as u8);
    let mut i: usize = 0;
    while i < payload.len()
        invariant
            0 <= i <= payload.len(),
            buf@ == seq![(payload@.len() % 256) as u8] + payload@.take(i as int),
        decreases payload.len() - i,
    {
        buf.push(payload[i]);
        assert(payload@.take(i as int + 1) =~= payload@.take(i as int).push(payload@[i as int]));
        i += 1;
    }
    assert(payload@.take(payload.len() as int) =~= payload@);
    buf
}

/// The encoded packet in what was read from the link: the first
/// `bytes_read` bytes of `buffer` without the first.
pub open spec fn spec_unframed(buffer: Seq<u8>, bytes_read: int) -> Result<Seq<u8>, ReadError> {
    if bytes_read == 0 {
        Err(ReadError::NoBytes)
    } else if buffer[0] == 0 {
        Err(ReadError::NoFeedback)
    } else {
        Ok(buffer.subrange(1, bytes_read))
    }
}

/// The encoded packet in what was read from the link.
pub fn unframe(buffer: &Vec<u8>, bytes_read: usize) -> (r: Result<Vec<u8>, ReadError>)
    requires
        bytes_read <= buffer@.len(),
    ensures
        match r {
            Ok(payload) => spec_unframed(buffer@, bytes_read as int) == Ok::<Seq<u8>, ReadError>(
                payload@,
            ),
            Err(error) => spec_unframed(buffer@, bytes_read as int) == Err::<Seq<u8>, ReadError>(
                error,
            ),
        },
{
    if bytes_read == 0 {
        return Err(ReadError::NoBytes);
    }
    if buffer[0] == 0 {
        return Err(ReadError::NoFeedback);
    }
    let mut out: Vec<u8> = Vec::new();
    let mut i: usize = 1;
    while i < bytes_read
        invariant
            1 <= i <= bytes_read <= buffer@.len(),
            out@ == buffer@.subrange(1, i as int),
        decreases bytes_read - i,
    {
        out.push(buffer[i]);
        assert(buffer@.subrange(1, i as int + 1) =~= buffer@.subrange(1, i as int).push(
            buffer@[i as int],
        ));
        i += 1;
    }
    Ok(out)
}

/// What is read from the link after what was framed: the frame taken off a
/// frame gives the packet back, if the packet is not empty and its length is
/// no multiple of 256.
pub proof fn lemma_frame_unframe(payload: Seq<u8>)
    requires
        payload.len() % 256 != 0,
    ensures
        spec_unframed(spec_framed(payload), spec_framed(payload).len() as int) == Ok::<
            Seq<u8>,
            ReadError,
        >(payload),
{
    let framed = spec_framed(payload);
    assert(framed[0] == (payload.len() % 256) as u8);
    assert(framed.subrange(1, framed.len() as int) =~= payload);
}

} // verus!
