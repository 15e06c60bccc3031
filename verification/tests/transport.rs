use crabe::action::Action;
use crabe::action::MoveTo;
use crabe::config::DataReceiverConfig;
use crabe::config::DecisionConfig;
use crabe::config::GameControllerConfig;
use crabe::config::ManualDecisionPipeline;
use crabe::config::ReceiverKind;
use crabe::config::VisionConfig;
use crabe::executor::command_for;
use crabe::executor::guarded;
use crabe::executor::guarded_target;
use crabe::executor::Twist;
use crabe::filter::CommonConfig;
use crabe::game_state::GameState;
use crabe::game_state::HaltedState;
use crabe::game_state::RunningState;
use crabe::game_state::StoppedState;
use crabe::math::Circle;
use crabe::math::Delta;
use crabe::math::Rectangle;
use crabe::math::Vec2;
use crabe::output::Command;
use crabe::output::Kick;
use crabe::referee::RefereeOrders;
use crabe::transport::apply_feedback;
use crabe::transport::base_command;
use crabe::world::Acceleration;
use crabe::world::AllyInfo;
use crabe::world::Field;
use crabe::world::GameData;
use crabe::world::Geometry;
use crabe::world::Goal;
use crabe::world::Pose;
use crabe::world::Robot;
use crabe::world::RobotMap;
use crabe::world::Team;
use crabe::world::TeamColor;
use crabe::world::Velocity;
use crabe::world::World;
use crabe::transport::feedback_map;
use crabe::transport::frame;
use crabe::transport::packet_for;
use crabe::transport::prepare_packet;
use crabe::transport::stop_commands;
use crabe::transport::unframe;
use crabe::transport::BaseFeedback;
use crabe::transport::BaseToPc;
use crabe::transport::Feedback;
use crabe::transport::Kicker;
use crabe::transport::ReadError;

fn command(forward: i32, left: i32, kick: Option<Kick>) -> Command {
    Command {
        forward_velocity: forward,
        left_velocity: left,
        angular_velocity: 7,
        charge: true,
        kick,
        dribbler: 200,
    }
}

#[test]
fn command_becomes_base_command() {
    let flat = base_command(4, &command(1, 2, Some(Kick::StraightKick { power: 4_000_000 })));
    assert_eq!(flat.robot_id, 4);
    assert_eq!(flat.normal_velocity, 1);
    assert_eq!(flat.tangential_velocity, 2);
    assert_eq!(flat.angular_velocity, 7);
    assert_eq!(flat.kick, Kicker::Flat);
    assert_eq!(flat.kick_power, 4_000_000);
    assert!(flat.charge);
    assert_eq!(flat.dribbler, 200);
    let chip = base_command(5, &command(1, 2, Some(Kick::ChipKick { power: 3 })));
    assert_eq!((chip.kick, chip.kick_power), (Kicker::Chip, 3));
    let none = base_command(6, &command(1, 2, None));
    assert_eq!((none.kick, none.kick_power), (Kicker::NoKick, 0));
}

#[test]
fn packet_keeps_the_order_of_the_commands() {
    let commands = vec![(3u8, command(1, 0, None)), (1u8, command(2, 0, None))];
    let packet = prepare_packet(&commands);
    assert_eq!(packet.commands.len(), 2);
    assert_eq!(packet.commands[0].robot_id, 3);
    assert_eq!(packet.commands[1].robot_id, 1);
    assert_eq!(packet.commands[1].normal_velocity, 2);
}

#[test]
fn too_many_commands_give_no_packet() {
    let mut commands = stop_commands();
    assert!(packet_for(&commands).is_some());
    commands.push((16, Command::zero()));
    assert!(packet_for(&commands).is_none());
}

#[test]
fn stop_commands_address_every_robot() {
    let commands = stop_commands();
    assert_eq!(commands.len(), 16);
    for (i, (id, c)) in commands.iter().enumerate() {
        assert_eq!(*id as usize, i);
        assert_eq!(*c, Command::zero());
    }
    assert_eq!(Command::zero().forward_velocity, 0);
    assert_eq!(Command::zero().kick, None);
}

#[test]
fn feedback_keeps_the_last_word_of_each_robot() {
    let packet = BaseToPc {
        feedbacks: vec![
            BaseFeedback { robot_id: 2, ir: false, voltage: 10 },
            BaseFeedback { robot_id: 5, ir: true, voltage: 11 },
            BaseFeedback { robot_id: 2, ir: true, voltage: 12 },
        ],
    };
    let map = feedback_map(&packet);
    assert_eq!(
        map,
        vec![
            (2, Feedback { has_ball: true, voltage: 12 }),
            (5, Feedback { has_ball: true, voltage: 11 }),
        ]
    );
    assert_eq!(feedback_map(&BaseToPc { feedbacks: vec![] }), vec![]);
}

#[test]
fn frame_puts_the_length_first() {
    assert_eq!(frame(&vec![9, 8, 7]), vec![3, 9, 8, 7]);
    assert_eq!(frame(&vec![]), vec![0]);
    let long = vec![1u8; 300];
    let framed = frame(&long);
    assert_eq!(framed.len(), 301);
    assert_eq!(framed[0], 44);
}

#[test]
fn unframe_gives_the_packet_back() {
    let framed = frame(&vec![9, 8, 7]);
    assert_eq!(unframe(&framed, framed.len()), Ok(vec![9, 8, 7]));
    // only what was read counts
    assert_eq!(unframe(&vec![3, 9, 8, 7, 0, 0], 3), Ok(vec![9, 8]));
    assert_eq!(unframe(&vec![1], 1), Ok(vec![]));
}

#[test]
fn unframe_tells_why_there_is_no_packet() {
    assert_eq!(unframe(&vec![3, 9, 8, 7], 0), Err(ReadError::NoBytes));
    assert_eq!(unframe(&vec![], 0), Err(ReadError::NoBytes));
    assert_eq!(unframe(&vec![0, 9, 8, 7], 4), Err(ReadError::NoFeedback));
    assert_eq!(ReadError::NoBytes.message(), "No bytes could be read from device");
    assert_eq!(
        ReadError::NoFeedback.message(),
        "No feedback was received from any robot, or they took too long to respond"
    );
}

#[test]
fn speed_limits_by_state() {
    assert_eq!(RefereeOrders::get_speed_limit_during(GameState::Halted(HaltedState::Halt)), 0);
    assert_eq!(RefereeOrders::get_speed_limit_during(GameState::Halted(HaltedState::GameNotStarted)), 0);
    assert_eq!(RefereeOrders::get_speed_limit_during(GameState::Stopped(StoppedState::Stop)), 1_500_000);
    assert_eq!(RefereeOrders::get_speed_limit_during(GameState::Running(RunningState::NormalPlay)), 6_000_000);
    assert_eq!(RefereeOrders::get_min_dist_from_ball_during(GameState::Halted(HaltedState::Halt)), None);
    assert_eq!(RefereeOrders::get_min_dist_from_ball_during(GameState::Stopped(StoppedState::Stop)), Some(1_500_000));
    assert_eq!(RefereeOrders::get_min_dist_from_ball_during(GameState::Running(RunningState::NormalPlay)), None);
    let orders = RefereeOrders::new(GameState::Stopped(StoppedState::Stop), None);
    assert_eq!(orders.speed_limit, 1_500_000);
    assert_eq!(orders.min_dist_from_ball, None);
    let first = RefereeOrders::initial();
    assert_eq!(first.state, GameState::Halted(HaltedState::GameNotStarted));
    assert_eq!(first.speed_limit, 0);
    assert_eq!(RefereeOrders::default(), first);
}

#[test]
fn speed_is_brought_down_to_the_limit() {
    let fast = command(3_000_000, 4_000_000, None);
    let slowed = fast.limit_speed(2_500_000);
    assert_eq!(slowed.forward_velocity, 1_500_000);
    assert_eq!(slowed.left_velocity, 2_000_000);
    assert_eq!(slowed.angular_velocity, 7);
    assert_eq!(slowed.dribbler, 200);
    // a speed within the limit stays
    assert_eq!(fast.limit_speed(5_000_000), fast);
    // the length is rounded up before scaling: never above the limit
    let odd = command(3, 3, None).limit_speed(4);
    assert_eq!((odd.forward_velocity, odd.left_velocity), (2, 2));
    let back = command(-3_000_000, -4_000_000, None).limit_speed(2_500_000);
    assert_eq!((back.forward_velocity, back.left_velocity), (-1_500_000, -2_000_000));
    let halted = fast.limit_speed(0);
    assert_eq!((halted.forward_velocity, halted.left_velocity), (0, 0));
}

fn intent() -> MoveTo {
    MoveTo::new(
        Vec2::new(1, 2),
        Delta { dx: 1, dy: 0 },
        1,
        true,
        Some(Kick::StraightKick { power: 4_000_000 }),
        true,
    )
}

#[test]
fn executor_combines_intent_and_speeds() {
    let twist = Twist { forward_velocity: 3_000_000, left_velocity: 4_000_000, angular_velocity: 9 };
    let running = RefereeOrders::new(GameState::Running(RunningState::NormalPlay), None);
    let c = command_for(Some(Action::MoveTo(intent())), &twist, &running);
    assert_eq!(c.forward_velocity, 3_000_000);
    assert_eq!(c.left_velocity, 4_000_000);
    assert_eq!(c.angular_velocity, 9);
    assert_eq!(c.dribbler, 1);
    assert!(c.charge);
    assert_eq!(c.kick, Some(Kick::StraightKick { power: 4_000_000 }));
    let stopped = RefereeOrders::new(GameState::Stopped(StoppedState::Stop), None);
    let c = command_for(Some(Action::MoveTo(intent())), &twist, &stopped);
    assert_eq!((c.forward_velocity, c.left_velocity), (900_000, 1_200_000));
    let halted = RefereeOrders::new(GameState::Halted(HaltedState::Halt), None);
    let c = command_for(Some(Action::MoveTo(intent())), &twist, &halted);
    assert_eq!((c.forward_velocity, c.left_velocity), (0, 0));
    let raw = command_for(Some(Action::RawOrder(command(1, 2, None))), &twist, &running);
    assert_eq!(raw, command(1, 2, None));
}

#[test]
fn executor_sends_rest_without_an_intent() {
    let twist = Twist { forward_velocity: 3_000_000, left_velocity: 4_000_000, angular_velocity: 9 };
    let running = RefereeOrders::new(GameState::Running(RunningState::NormalPlay), None);
    assert_eq!(command_for(None, &twist, &running), Command::zero());
}

#[test]
fn executor_keeps_away_from_the_ball() {
    let from = Vec2::new(-2_000_000, 0);
    let target = Vec2::new(2_000_000, 0);
    let ball = Vec2::new(0, 100_000);
    // no order, or no ball: the target stays
    assert_eq!(guarded_target(&from, &target, Some(ball), None), target);
    assert_eq!(guarded_target(&from, &target, None, Some(1_500_000)), target);
    // the way passes 0.1 m from the ball: a point 1.5 m from the ball a quarter
    // turn to the left of where the robot is seen from the ball
    let escape = guarded_target(&from, &target, Some(ball), Some(1_500_000));
    assert_eq!(escape, Vec2::new(74_906, -1_398_128));
    // the way keeps the distance: the target stays
    let far = Vec2::new(0, 5_000_000);
    assert_eq!(guarded_target(&from, &target, Some(far), Some(1_500_000)), target);
    let mut orders = RefereeOrders::new(GameState::Stopped(StoppedState::Stop), None);
    orders.min_dist_from_ball = Some(1_500_000);
    let moved = guarded(&intent(), &from, Some(Vec2::new(0, 0)), &orders);
    assert_eq!(moved.dribbler, 1);
    assert!(moved.target != intent().target);
}

#[test]
fn input_stage_sources() {
    let mut config = DataReceiverConfig {
        gc: false,
        vision_cfg: VisionConfig { vision_ip: String::from("224.5.23.2"), vision_port: 10020 },
        gc_cfg: GameControllerConfig { gc_ip: String::from("224.5.23.1"), gc_port: 10003 },
    };
    assert_eq!(config.receivers(), vec![ReceiverKind::Vision]);
    config.gc = true;
    assert_eq!(config.receivers(), vec![ReceiverKind::Vision, ReceiverKind::GameController]);
}

#[test]
fn manual_pipeline_drives_robot_three() {
    let common = CommonConfig { yellow: false, real: false };
    let mut manual = ManualDecisionPipeline::with_config(DecisionConfig {}, &common);
    let world = support_world();
    let commands = manual.step(&world);
    assert_eq!(commands.len(), 1);
    assert_eq!(commands[0].0, 3);
    assert_eq!(commands[0].1.forward_velocity, 1_000_000);
    assert_eq!(commands[0].1.left_velocity, 0);
}

fn support_world() -> World {
    World {
        data: GameData {
            ally: Team { color: TeamColor::Blue, name: String::from("us"), score: 0 },
            enemy: Team { color: TeamColor::Yellow, name: String::from("them"), score: 0 },
            positive_half: TeamColor::Yellow,
            ref_orders: RefereeOrders::new(GameState::Running(RunningState::NormalPlay), None),
            kicked_off_once: false,
        },
        geometry: Geometry {
            field: Field { width: 6_000_000, length: 9_000_000 },
            ally_goal: Goal::new(-4_500_000, -500_000, 500_000, 180_000),
            enemy_goal: Goal::new(4_500_000, -500_000, 500_000, 180_000),
            ally_penalty: Rectangle::new(1_000_000, 2_000_000, Vec2::new(-4_500_000, -1_000_000)),
            enemy_penalty: Rectangle::new(1_000_000, 2_000_000, Vec2::new(3_500_000, -1_000_000)),
            center: Circle::new(Vec2::new(0, 0), 500_000),
            robot_radius: 90_000,
            ball_radius: 21_500,
        },
        allies_bot: RobotMap::new(),
        enemies_bot: RobotMap::new(),
        ball: None,
        team_color: TeamColor::Blue,
    }
}

#[test]
fn feedback_tells_who_has_the_ball() {
    let mut w = support_world();
    for id in [1u8, 2, 3] {
        w.allies_bot.insert(Robot {
            id,
            pose: Pose { position: Vec2::new(0, 0), heading: Vec2::new(1, 0) },
            velocity: Velocity { linear: Vec2::zero(), angular: 0 },
            acceleration: Acceleration { linear: Vec2::zero(), angular: 0 },
            has_ball: id == 3,
            timestamp: 0,
            robot_info: AllyInfo,
        });
    }
    let map = vec![
        (2, Feedback { has_ball: true, voltage: 12 }),
        (3, Feedback { has_ball: false, voltage: 11 }),
        (300, Feedback { has_ball: true, voltage: 11 }),
    ];
    apply_feedback(&mut w.allies_bot, &map);
    assert_eq!(w.allies_bot.get(1).map(|r| r.has_ball), Some(false));
    assert_eq!(w.allies_bot.get(2).map(|r| r.has_ball), Some(true));
    assert_eq!(w.allies_bot.get(3).map(|r| r.has_ball), Some(false));
    assert_eq!(w.allies_bot.len(), 3);
}
