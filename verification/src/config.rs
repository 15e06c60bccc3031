//! What can be set from the command line, and the stages that are made of
//! it.

use vstd::prelude::*;
use crate::filter::CommonConfig;
use crate::filter::FilterConfig;
use crate::filter::InboundData;
use crate::output::Command;
use crate::output::METRE_PER_SECOND;
use crate::world::World;

verus! {

/// Where the vision is listened to.
#[derive(Clone, Debug)]
pub struct VisionConfig {
    pub vision_ip: String,
    pub vision_port: u32,
}

/// Where the game controller is listened to.
#[derive(Clone, Debug)]
pub struct GameControllerConfig {
    pub gc_ip: String,
    pub gc_port: u32,
}

/// What can be set for the input stage.
#[derive(Clone, Debug)]
pub struct DataReceiverConfig {
    /// Whether the game controller is listened to.
    pub gc: bool,
    pub vision_cfg: VisionConfig,
    pub gc_cfg: GameControllerConfig,
}

/// What can be set for the link to real robots.
#[derive(Clone, Debug)]
pub struct RealConfig {
    pub usb_port: String,
    pub usb_baud: u32,
}

/// What can be set for the decision stage. Nothing yet.
#[derive(Clone, Copy, Debug, Default)]
pub struct DecisionConfig {}

/// Everything that can be set from the command line.
#[derive(Clone, Debug)]
pub struct Cli {
    pub common: CommonConfig,
    pub input_config: DataReceiverConfig,
    pub filter_config: FilterConfig,
}

/// A source of the input stage.
#[derive(Clone, Copy, Debug, PartialEq, Eq, Structural)]
pub enum ReceiverKind {
    Vision,
    GameController,
}

impl DataReceiverConfig {
    /// The sources that the input stage listens to: the vision always, the
    /// game controller if it is asked for.
    pub fn receivers(&self) -> (r: Vec<ReceiverKind>)
        ensures
            r@ == if self.gc {
                seq![ReceiverKind::Vision, ReceiverKind::GameController]
            } else {
                seq![ReceiverKind::Vision]
            },
    {
        let mut tasks: Vec<ReceiverKind> = Vec::new();
        tasks.push(ReceiverKind::Vision);
        if self.gc {
            tasks.push(ReceiverKind::GameController);
            assert(tasks@ =~= seq![ReceiverKind::Vision, ReceiverKind::GameController]);
        } else {
            assert(tasks@ =~= seq![ReceiverKind::Vision]);
        }
        tasks
    }
}

/// A source of the input stage: it adds what has come in to the bundle of
/// the tick.
pub trait ReceiverTask {
    fn fetch(&mut self, input: &mut InboundData);

    fn close(&mut self);
}

/// The input stage: it asks each of its sources in turn.
pub struct DataReceiverPipeline<R: ReceiverTask> {
    pub receivers: Vec<R>,
}

impl<R: ReceiverTask> DataReceiverPipeline<R> {
    /// The input stage with the given sources.
    pub fn with_receivers(receivers: Vec<R>) -> (r: DataReceiverPipeline<R>)
        ensures
            r.receivers == receivers,
    {
        DataReceiverPipeline { receivers }
    }

    /// Number of sources.
    pub fn len(&self) -> (n: usize)
        ensures
            n == self.receivers@.len(),
    {
        self.receivers.len()
    }
}

/// A decision stage that drives one robot by hand: robot 3 goes forward at
/// one metre per second.
#[derive(Clone, Copy, Debug, Default)]
pub struct ManualDecisionPipeline {}

/// The robot that is driven by hand.
pub const MANUAL_ROBOT_ID: u8 = 3;

impl ManualDecisionPipeline {
    /// The stage that drives by hand; nothing can be set for it.
    pub fn with_config(_decision_config: DecisionConfig, _common_cfg: &CommonConfig) -> (r:
        ManualDecisionPipeline)
        ensures
            r == (ManualDecisionPipeline {  }),
    {
        ManualDecisionPipeline {  }
    }

    /// The commands of a tick: robot 3 goes forward at one metre per second.
    pub fn step(&mut self, _data: &World) -> (commands: Vec<(u8, Command)>)
        ensures
            commands@ == seq![
                (
                    MANUAL_ROBOT_ID,
                    Command { forward_velocity: METRE_PER_SECOND, ..Command::spec_zero() },
                ),
            ],
    {
        let mut command_map: Vec<(u8, Command)> = Vec::new();
        let forward_command = Command {
            forward_velocity: METRE_PER_SECOND,
            left_velocity: 0,
            angular_velocity: 0,
            charge: false,
            kick: None,
            dribbler: 0,
        };
        command_map.push((MANUAL_ROBOT_ID, forward_command));
        assert(command_map@ =~= seq![(MANUAL_ROBOT_ID, forward_command)]);
        command_map
    }
}

} // verus!
