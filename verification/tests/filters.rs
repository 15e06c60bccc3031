use crabe::ball_filter::calculated_possession;
use crabe::ball_filter::closer_by;
use crabe::ball_filter::holds;
use crabe::ball_filter::BallFilter;
use crabe::bigbro::BigBro;
use crabe::action::ActionWrapper;
use crabe::executor::command_for;
use crabe::executor::Twist;
use crabe::filter::handle_camera_robots;
use crabe::filter::map_camera_ball;
use crabe::filter::map_camera_robots;
use crabe::filter::CommonConfig;
use crabe::filter::FilterConfig;
use crabe::filter::FilterData;
use crabe::filter::InboundData;
use crabe::filter::SslDetectionBall;
use crabe::filter::SslDetectionFrame;
use crabe::filter::SslDetectionRobot;
use crabe::filter::TrackedRobotMap;
use crabe::filter::VisionPacket;
use crabe::game_controller::GameControllerPostFilter;
use crabe::game_controller::GameStateBranch;
use crabe::game_controller::StateData;
use crabe::game_state::GameState;
use crabe::game_state::HaltedState;
use crabe::game_state::RunningState;
use crabe::game_state::StoppedState;
use crabe::math::Circle;
use crabe::math::Rectangle;
use crabe::math::Vec2;
use crabe::math::Vec3;
use crabe::output::Command;
use crabe::passthrough::ball_passthrough;
use crabe::passthrough::robot_passthrough;
use crabe::filter::Filter;
use crabe::passthrough::PassthroughFilter;
use crabe::pipeline::FilterPipeline;
use crabe::referee::GameEvent;
use crabe::referee::Referee;
use crabe::referee::RefereeCommand;
use crabe::referee::RefereeOrders;
use crabe::referee::TeamInfo;
use crabe::team_side::change_ball_side;
use crabe::team_side::get_duration_millis;
use crabe::team_side::publish_robots;
use crabe::team_side::TeamSideFilter;
use crabe::tracking::Detection;
use crabe::tracking::TrackedEntity;
use crabe::world::Acceleration;
use crabe::world::AllyInfo;
use crabe::world::Ball;
use crabe::world::BallTouchInfo;
use crabe::world::EnemyInfo;
use crabe::world::Field;
use crabe::world::GameData;
use crabe::world::Geometry;
use crabe::world::Goal;
use crabe::world::Pose;
use crabe::world::Robot;
use crabe::world::RobotMap;
use crabe::world::Team;
use crabe::world::TeamColor;
use crabe::world::Velocity;
use crabe::world::World;

fn world() -> World {
    World {
        data: GameData {
            ally: Team { color: TeamColor::Blue, name: String::from("us"), score: 0 },
            enemy: Team { color: TeamColor::Yellow, name: String::from("them"), score: 0 },
            positive_half: TeamColor::Yellow,
            ref_orders: RefereeOrders::initial(),
            kicked_off_once: false,
        },
        geometry: Geometry {
            field: Field { width: 6_000_000, length: 9_000_000 },
            ally_goal: Goal::new(-4_500_000, -500_000, 500_000, 180_000),
            enemy_goal: Goal::new(4_500_000, -500_000, 500_000, 180_000),
            ally_penalty: Rectangle::new(1_000_000, 2_000_000, Vec2::new(-4_500_000, -1_000_000)),
            enemy_penalty: Rectangle::new(1_000_000, 2_000_000, Vec2::new(3_500_000, -1_000_000)),
            center: Circle::new(Vec2::new(0, 0), 500_000),
            robot_radius: 90_000,
            ball_radius: 21_500,
        },
        allies_bot: RobotMap::new(),
        enemies_bot: RobotMap::new(),
        ball: None,
        team_color: TeamColor::Blue,
    }
}

fn detection(id: u8, x: i64, y: i64, t: i64) -> Detection {
    Detection {
        id,
        camera_id: 1,
        frame_number: 7,
        t_capture: t,
        position: Vec3::new(x, y, 0),
        heading: Vec2::new(0, 1_000_000),
    }
}

fn ally(id: u8, x: i64, y: i64, vx: i64, vy: i64) -> Robot<AllyInfo> {
    Robot {
        id,
        pose: Pose { position: Vec2::new(x, y), heading: Vec2::new(1_000_000, 0) },
        velocity: Velocity { linear: Vec2::new(vx, vy), angular: 0 },
        acceleration: Acceleration { linear: Vec2::zero(), angular: 0 },
        has_ball: false,
        timestamp: 0,
        robot_info: AllyInfo,
    }
}

fn enemy(id: u8, x: i64, y: i64, vx: i64, vy: i64) -> Robot<EnemyInfo> {
    Robot {
        id,
        pose: Pose { position: Vec2::new(x, y), heading: Vec2::new(-1_000_000, 0) },
        velocity: Velocity { linear: Vec2::new(vx, vy), angular: 0 },
        acceleration: Acceleration { linear: Vec2::zero(), angular: 0 },
        has_ball: false,
        timestamp: 0,
        robot_info: EnemyInfo,
    }
}

fn ball(x: i64, y: i64, vx: i64, vy: i64, ax: i64) -> Ball {
    Ball {
        position: Vec3::new(x, y, 0),
        timestamp: 5,
        velocity: Vec3::new(vx, vy, 0),
        acceleration: Vec3::new(ax, 0, 0),
        possession: None,
        last_touch: None,
    }
}

fn referee(command: RefereeCommand) -> Referee {
    Referee {
        command,
        next_command: None,
        ally: TeamInfo { score: 2, red_cards: 0, yellow_cards: 0 },
        enemy: TeamInfo { score: 1, red_cards: 0, yellow_cards: 0 },
        designated_position: None,
        positive_half: None,
        game_events: vec![GameEvent { code: 3 }, GameEvent { code: 9 }],
    }
}

fn frame(t: i64, blue: Vec<(u32, i64, i64)>, yellow: Vec<(u32, i64, i64)>, balls: Vec<(i64, i64)>) -> InboundData {
    let robots = |v: Vec<(u32, i64, i64)>| {
        v.into_iter()
            .map(|(id, x, y)| SslDetectionRobot { robot_id: Some(id), x, y, orientation: None })
            .collect::<Vec<SslDetectionRobot>>()
    };
    InboundData {
        vision_packet: vec![VisionPacket {
            detection: Some(SslDetectionFrame {
                camera_id: 0,
                frame_number: 1,
                t_capture: t,
                robots_yellow: robots(yellow),
                robots_blue: robots(blue),
                balls: balls.into_iter().map(|(x, y)| SslDetectionBall { x, y, z: None }).collect(),
            }),
        }],
        gc_packet: vec![],
    }
}

fn nothing() -> InboundData {
    InboundData { vision_packet: vec![VisionPacket { detection: None }], gc_packet: vec![] }
}

#[test]
fn window_holds_at_most_fifty_detections() {
    let mut followed = TrackedEntity::new(0u8, 3);
    assert_eq!(followed.packets_len(), 0);
    assert_eq!(followed.take_last_packet(), None);
    for i in 0..60 {
        followed.handle_packet(detection(1, i, 0, i));
        assert!(followed.packets_len() <= 50);
        assert_eq!(followed.packets_len() as i64, std::cmp::min(i + 1, 50));
    }
    assert_eq!(*followed.data(), 0);
    assert_eq!(followed.last_update(), 3);
    // the newest detection comes out, and the window is empty afterwards
    assert_eq!(followed.take_last_packet(), Some(detection(1, 59, 0, 59)));
    assert_eq!(followed.packets_len(), 0);
    assert_eq!(followed.take_last_packet(), None);
    followed.handle_packets(&vec![detection(1, 5, 5, 5), detection(1, 6, 6, 6)]);
    assert_eq!(followed.packets_len(), 2);
    assert_eq!(followed.take_last_packet(), Some(detection(1, 6, 6, 6)));
    followed.set_data(9, 4);
    assert_eq!((*followed.data(), followed.last_update()), (9, 4));
}

#[test]
fn renewed_window_holds_the_same_detections() {
    let mut followed = TrackedEntity::new(0u8, 3);
    for i in 0..53 {
        followed.handle_packet(detection(1, i, 0, i));
    }
    followed.renew();
    assert_eq!(followed.packets_len(), 50);
    followed.handle_packet(detection(1, 99, 0, 99));
    assert_eq!(followed.packets_len(), 50);
    assert_eq!(followed.take_last_packet(), Some(detection(1, 99, 0, 99)));
    followed.handle_packets(&vec![detection(1, 5, 5, 5), detection(1, 6, 6, 6)]);
    followed.renew();
    assert_eq!(followed.packets_len(), 2);
    assert_eq!(followed.take_last_packet(), Some(detection(1, 6, 6, 6)));
    followed.renew();
    assert_eq!(followed.packets_len(), 0);
}

#[test]
fn camera_robots_become_detections() {
    let robots = vec![
        SslDetectionRobot { robot_id: Some(3), x: 1_500_000, y: -2_000_000, orientation: None },
        SslDetectionRobot { robot_id: None, x: 1, y: 1, orientation: None },
        SslDetectionRobot { robot_id: Some(16), x: 1, y: 1, orientation: None },
        SslDetectionRobot { robot_id: Some(15), x: 0, y: 0, orientation: Some(Vec2::new(0, -1_000_000)) },
    ];
    let seen = map_camera_robots(&robots, 2, 40, 1234);
    assert_eq!(seen.len(), 2);
    assert_eq!(
        seen[0],
        Detection {
            id: 3,
            camera_id: 2,
            frame_number: 40,
            t_capture: 1234,
            position: Vec3::new(1_500_000, -2_000_000, 0),
            heading: Vec2::new(1_000_000, 0),
        }
    );
    assert_eq!(seen[1].id, 15);
    assert_eq!(seen[1].heading, Vec2::new(0, -1_000_000));
    let ball = map_camera_ball(&SslDetectionBall { x: 5, y: 6, z: None }, 2, 40, 1234);
    assert_eq!(ball.position, Vec3::new(5, 6, 0));
    let high = map_camera_ball(&SslDetectionBall { x: 5, y: 6, z: Some(70) }, 2, 40, 1234);
    assert_eq!(high.position, Vec3::new(5, 6, 70));
}

#[test]
fn detections_go_to_the_window_of_their_robot() {
    let mut robots: TrackedRobotMap<AllyInfo> = TrackedRobotMap::new();
    handle_camera_robots(
        &mut robots,
        &vec![detection(4, 1, 1, 10), detection(2, 2, 2, 10), detection(4, 3, 3, 11)],
        AllyInfo,
        77,
    );
    assert_eq!(robots.len(), 2);
    assert_eq!(robots.get(0).data().id, 4);
    assert_eq!(robots.get(0).packets_len(), 2);
    assert_eq!(robots.get(0).last_update(), 77);
    assert_eq!(robots.get(1).data().id, 2);
    assert_eq!(robots.get(1).packets_len(), 1);
    assert_eq!(robots.entry_of(2), Some(1));
    assert_eq!(robots.entry_of(3), None);
    // the plainest filter makes the state of the newest detection
    robot_passthrough(&mut robots);
    assert_eq!(robots.get(0).packets_len(), 0);
    assert_eq!(robots.get(0).data().pose.position, Vec2::new(3, 3));
    assert_eq!(robots.get(0).data().pose.heading, Vec2::new(0, 1_000_000));
    assert_eq!(robots.get(0).data().timestamp, 11);
    assert_eq!(robots.get(0).last_update(), 11);
    assert_eq!(robots.get(1).data().pose.position, Vec2::new(2, 2));
    // without a new detection the state stays
    robot_passthrough(&mut robots);
    assert_eq!(robots.get(0).data().pose.position, Vec2::new(3, 3));
}

#[test]
fn ball_without_detection_is_followed_no_longer() {
    let mut data = FilterData::new();
    assert!(data.ball.is_none());
    data.see_ball(detection(0, 10, 20, 100), 1);
    data.see_ball(detection(0, 11, 21, 101), 1);
    assert_eq!(data.ball.as_ref().map(|b| b.packets_len()), Some(2));
    ball_passthrough(&mut data.ball);
    assert_eq!(data.ball.as_ref().map(|b| b.data().position), Some(Vec3::new(11, 21, 0)));
    assert_eq!(data.ball.as_ref().map(|b| b.data().timestamp), Some(101));
    ball_passthrough(&mut data.ball);
    assert!(data.ball.is_none());
    let mut filter = PassthroughFilter;
    filter.step(&mut data, &world());
    assert!(data.ball.is_none());
}

#[test]
fn durations() {
    assert_eq!(get_duration_millis(100, 250), Some(150));
    assert_eq!(get_duration_millis(100, 100), Some(0));
    assert_eq!(get_duration_millis(100, 99), None);
    assert_eq!(get_duration_millis(i64::MIN, i64::MAX), Some(i64::MAX));
}

#[test]
fn side_filter_turns_a_state_once() {
    let mut w = world();
    w.data.positive_half = TeamColor::Blue;
    let mut data = FilterData::new();
    let mut passthrough = PassthroughFilter;
    let mut side = TeamSideFilter;
    // a robot that the view of the field does not know yet is left as it is
    data.allies.see(detection(1, 1_000_000, 2_000_000, 100), AllyInfo, 0);
    passthrough.step(&mut data, &w);
    side.step(&mut data, &w);
    assert_eq!(data.allies.get(0).data().pose.position, Vec2::new(1_000_000, 2_000_000));
    publish_robots(&data.allies, &mut w.allies_bot);
    // a newer state is turned round
    data.allies.see(detection(1, 1_000_000, 2_000_000, 200), AllyInfo, 0);
    passthrough.step(&mut data, &w);
    side.step(&mut data, &w);
    assert_eq!(data.allies.get(0).data().pose.position, Vec2::new(-1_000_000, -2_000_000));
    assert_eq!(data.allies.get(0).data().pose.heading, Vec2::new(0, -1_000_000));
    publish_robots(&data.allies, &mut w.allies_bot);
    assert_eq!(w.allies_bot.get(1).map(|r| r.pose.position), Some(Vec2::new(-1_000_000, -2_000_000)));
    // a second run on the same state changes nothing
    side.step(&mut data, &w);
    assert_eq!(data.allies.get(0).data().pose.position, Vec2::new(-1_000_000, -2_000_000));
    side.step(&mut data, &w);
    assert_eq!(data.allies.get(0).data().pose.position, Vec2::new(-1_000_000, -2_000_000));
    assert_eq!(data.allies.get(0).data().pose.heading, Vec2::new(0, -1_000_000));
}

#[test]
fn side_filter_rests_while_our_goal_is_on_the_negative_side() {
    let mut w = world();
    w.allies_bot.insert(ally(1, 0, 0, 0, 0));
    let mut data = FilterData::new();
    data.allies.see(detection(1, 1_000_000, 2_000_000, 100), AllyInfo, 0);
    PassthroughFilter.step(&mut data, &w);
    TeamSideFilter.step(&mut data, &w);
    assert_eq!(data.allies.get(0).data().pose.position, Vec2::new(1_000_000, 2_000_000));
}

#[test]
fn ball_side_is_turned_once() {
    let mut followed = TrackedEntity::new(ball(1_000_000, -2_000_000, 0, 0, 0), 0);
    let mut known = ball(0, 0, 0, 0, 0);
    known.timestamp = 4;
    change_ball_side(&mut followed, &known);
    assert_eq!(followed.data().position, Vec3::new(-1_000_000, 2_000_000, 0));
    let now_known = *followed.data();
    change_ball_side(&mut followed, &now_known);
    assert_eq!(followed.data().position, Vec3::new(-1_000_000, 2_000_000, 0));
}

#[test]
fn possession_follows_the_state_of_play() {
    let mut w = world();
    w.allies_bot.insert(ally(1, 100_000, 0, 1_000_000, 0));
    w.enemies_bot.insert(enemy(1, 3_000_000, 0, 0, 0));
    let rolling = ball(0, 0, 1_000_000, 0, 0);
    // our robot holds the ball
    w.data.ref_orders = RefereeOrders::new(GameState::Running(RunningState::NormalPlay), None);
    let mut b = rolling;
    calculated_possession(&mut b, &w);
    assert_eq!(b.possession, Some(TeamColor::Blue));
    // but in their free kick, kick-off or penalty the ball is theirs
    for state in [
        RunningState::FreeKick(TeamColor::Yellow),
        RunningState::KickOff(TeamColor::Yellow),
        RunningState::Penalty(TeamColor::Yellow),
    ] {
        w.data.ref_orders = RefereeOrders::new(GameState::Running(state), None);
        let mut b = rolling;
        calculated_possession(&mut b, &w);
        assert_eq!(b.possession, Some(TeamColor::Yellow));
    }
    // also with nobody on the field
    let mut empty = world();
    empty.data.ref_orders = RefereeOrders::new(GameState::Running(RunningState::KickOff(TeamColor::Blue)), None);
    let mut b = rolling;
    calculated_possession(&mut b, &empty);
    assert_eq!(b.possession, Some(TeamColor::Blue));
    assert_eq!(GameState::Running(RunningState::Penalty(TeamColor::Blue)).awarded_team(), Some(TeamColor::Blue));
    assert_eq!(GameState::Running(RunningState::NormalPlay).awarded_team(), None);
    assert_eq!(GameState::Stopped(StoppedState::BallPlacement(TeamColor::Blue)).awarded_team(), None);
}

#[test]
fn possession_by_holding_the_ball() {
    let mut w = world();
    w.data.ref_orders = RefereeOrders::new(GameState::Running(RunningState::NormalPlay), None);
    w.allies_bot.insert(ally(1, 100_000, 0, 1_000_000, 0));
    w.enemies_bot.insert(enemy(1, 0, 200_000, 1_000_000, 0));
    let rolling = ball(0, 0, 1_000_000, 0, 0);
    assert!(holds(w.allies_bot.get(1).unwrap(), &rolling));
    // both hold the ball: it stays whose it was
    let mut known = rolling;
    known.possession = Some(TeamColor::Yellow);
    w.ball = Some(known);
    let mut b = rolling;
    calculated_possession(&mut b, &w);
    assert_eq!(b.possession, Some(TeamColor::Yellow));
    // only their robot holds it
    w.allies_bot.insert(ally(1, 300_000, 0, 1_000_000, 0));
    let mut b = rolling;
    calculated_possession(&mut b, &w);
    assert_eq!(b.possession, Some(TeamColor::Yellow));
    // a robot that moves across the ball does not hold it
    assert!(!holds(&ally(2, 100_000, 0, 0, 1_000_000), &rolling));
    // nor one that is much faster
    assert!(!holds(&ally(2, 100_000, 0, 1_100_000, 0), &rolling));
    // without a robot of one team the ball is nobody's
    let mut half = world();
    half.data.ref_orders = RefereeOrders::new(GameState::Running(RunningState::NormalPlay), None);
    half.allies_bot.insert(ally(1, 100_000, 0, 1_000_000, 0));
    half.ball = Some(known);
    let mut b = rolling;
    calculated_possession(&mut b, &half);
    assert_eq!(b.possession, None);
}

#[test]
fn possession_by_being_nearer_when_the_ball_is_touched() {
    let mut w = world();
    w.data.ref_orders = RefereeOrders::new(GameState::Running(RunningState::NormalPlay), None);
    w.allies_bot.insert(ally(1, 500_000, 0, 0, 0));
    w.enemies_bot.insert(enemy(1, -600_000, 0, 0, 0));
    let mut known = ball(0, 0, 0, 0, 0);
    known.possession = Some(TeamColor::Yellow);
    w.ball = Some(known);
    let touched = ball(0, 0, 0, 0, 1_000_001);
    // our robot is 0.1 m nearer: the ball is ours
    let mut b = touched;
    calculated_possession(&mut b, &w);
    assert_eq!(b.possession, Some(TeamColor::Blue));
    // the first touch is noted, with the robot nearest to the ball
    assert_eq!(
        b.last_touch,
        Some(BallTouchInfo {
            robot_id: 1,
            team_color: TeamColor::Blue,
            timestamp: 5,
            position: Vec3::new(0, 0, 0),
        })
    );
    // not quite 0.1 m nearer: it stays whose it was
    w.enemies_bot.insert(enemy(1, -599_999, 0, 0, 0));
    let mut b = touched;
    calculated_possession(&mut b, &w);
    assert_eq!(b.possession, Some(TeamColor::Yellow));
    // their robot is nearer by the margin
    w.enemies_bot.insert(enemy(1, -400_000, 0, 0, 0));
    let mut b = touched;
    calculated_possession(&mut b, &w);
    assert_eq!(b.possession, Some(TeamColor::Yellow));
    assert_eq!(b.last_touch.map(|t| (t.robot_id, t.team_color)), Some((1, TeamColor::Yellow)));
    // a ball that is not touched stays whose it was, and so does the last touch
    let mut b = ball(0, 0, 0, 0, 1_000_000);
    calculated_possession(&mut b, &w);
    assert_eq!(b.possession, Some(TeamColor::Yellow));
    assert_eq!(b.last_touch, None);
    // a ball that was touched at the last tick already gets no new last touch
    w.ball = Some(touched);
    let mut b = touched;
    calculated_possession(&mut b, &w);
    assert_eq!(b.last_touch, None);
    assert!(closer_by(25, 49, 2));
    assert!(!closer_by(25, 49, 3));
    assert!(!closer_by(49, 25, 0));
}

#[test]
fn ball_filter_clears_the_ball_that_is_not_followed() {
    let mut w = world();
    w.ball = Some(ball(0, 0, 0, 0, 0));
    let data = FilterData::new();
    BallFilter.step(&data, &mut w);
    assert_eq!(w.ball, None);
    let mut seen = FilterData::new();
    seen.see_ball(detection(0, 10, 20, 100), 1);
    ball_passthrough(&mut seen.ball);
    BallFilter.step(&seen, &mut w);
    assert_eq!(w.ball.map(|b| b.position), Some(Vec3::new(10, 20, 0)));
}

#[test]
fn halt_from_any_state() {
    for prior in [
        GameState::Halted(HaltedState::GameNotStarted),
        GameState::Halted(HaltedState::Timeout(TeamColor::Blue)),
        GameState::Stopped(StoppedState::Stop),
        GameState::Stopped(StoppedState::BallPlacement(TeamColor::Yellow)),
        GameState::Running(RunningState::NormalPlay),
        GameState::Running(RunningState::KickOff(TeamColor::Blue)),
        GameState::Running(RunningState::FreeKick(TeamColor::Yellow)),
        GameState::Running(RunningState::Penalty(TeamColor::Yellow)),
    ] {
        let mut w = world();
        w.data.ref_orders = RefereeOrders::new(prior, None);
        let mut timer = Some(5);
        let mut memory = StateData::initial();
        let state = GameStateBranch::Halt.process_state(
            &w,
            &referee(RefereeCommand::Halt),
            &mut timer,
            &mut memory,
            true,
            100,
        );
        assert_eq!(state, GameState::Halted(HaltedState::Halt));
        assert_eq!(timer, None);

        let mut filter = GameControllerPostFilter::new();
        let mut data = FilterData::new();
        data.referee = vec![referee(RefereeCommand::Halt)];
        filter.step(&data, &mut w, 100);
        assert_eq!(w.data.ref_orders.state, GameState::Halted(HaltedState::Halt));
        assert_eq!(w.data.ref_orders.speed_limit, 0);
    }
}

fn command(filter: &mut GameControllerPostFilter, w: &mut World, command: RefereeCommand, now: i64) -> GameState {
    let mut data = FilterData::new();
    data.referee = vec![referee(RefereeCommand::Deprecated), referee(command)];
    filter.step(&data, w, now);
    w.data.ref_orders.state
}

#[test]
fn kickoff_runs_for_ten_seconds() {
    let mut w = world();
    let mut filter = GameControllerPostFilter::new();
    assert_eq!(
        command(&mut filter, &mut w, RefereeCommand::PrepareKickoff(TeamColor::Blue), 0),
        GameState::Halted(HaltedState::PrepareKickoff(TeamColor::Blue))
    );
    assert_eq!(w.data.ref_orders.speed_limit, 0);
    assert_eq!(
        command(&mut filter, &mut w, RefereeCommand::NormalStart, 1_000),
        GameState::Running(RunningState::KickOff(TeamColor::Blue))
    );
    assert_eq!(filter.timer(), Some(1_000));
    assert_eq!(w.data.ref_orders.speed_limit, 6_000_000);
    assert_eq!(
        command(&mut filter, &mut w, RefereeCommand::NormalStart, 10_999),
        GameState::Running(RunningState::KickOff(TeamColor::Blue))
    );
    assert_eq!(
        command(&mut filter, &mut w, RefereeCommand::NormalStart, 11_000),
        GameState::Running(RunningState::NormalPlay)
    );
    assert_eq!(filter.timer(), None);
    // and normal play goes on
    assert_eq!(
        command(&mut filter, &mut w, RefereeCommand::NormalStart, 50_000),
        GameState::Running(RunningState::NormalPlay)
    );
    assert_eq!(filter.state_data().prev_ref_cmd, RefereeCommand::PrepareKickoff(TeamColor::Blue));
    assert_eq!(filter.state_data().last_ref_cmd, RefereeCommand::NormalStart);
    assert_eq!(filter.state_data().ally_score, 2);
    assert_eq!(filter.state_data().enemy_score, 1);
    assert_eq!(w.data.ally.score, 2);
    assert_eq!(w.data.ref_orders.event, Some(GameEvent { code: 9 }));
}

#[test]
fn commands_of_the_referee() {
    let mut w = world();
    let mut filter = GameControllerPostFilter::new();
    assert_eq!(command(&mut filter, &mut w, RefereeCommand::Stop, 0), GameState::Stopped(StoppedState::Stop));
    assert_eq!(w.data.ref_orders.speed_limit, 1_500_000);
    assert_eq!(w.data.ref_orders.min_dist_from_ball, Some(1_500_000));
    assert_eq!(
        command(&mut filter, &mut w, RefereeCommand::NormalStart, 0),
        GameState::Running(RunningState::NormalPlay)
    );
    assert_eq!(filter.timer(), None);
    assert_eq!(
        command(&mut filter, &mut w, RefereeCommand::DirectFree(TeamColor::Yellow), 100),
        GameState::Running(RunningState::FreeKick(TeamColor::Yellow))
    );
    assert_eq!(
        command(&mut filter, &mut w, RefereeCommand::DirectFree(TeamColor::Yellow), 5_099),
        GameState::Running(RunningState::FreeKick(TeamColor::Yellow))
    );
    assert_eq!(
        command(&mut filter, &mut w, RefereeCommand::DirectFree(TeamColor::Yellow), 5_100),
        GameState::Running(RunningState::NormalPlay)
    );
    assert_eq!(
        command(&mut filter, &mut w, RefereeCommand::PreparePenalty(TeamColor::Yellow), 6_000),
        GameState::Halted(HaltedState::PreparePenalty(TeamColor::Yellow))
    );
    assert_eq!(
        command(&mut filter, &mut w, RefereeCommand::NormalStart, 6_000),
        GameState::Running(RunningState::Penalty(TeamColor::Yellow))
    );
    assert_eq!(
        command(&mut filter, &mut w, RefereeCommand::Timeout(TeamColor::Blue), 6_100),
        GameState::Halted(HaltedState::Timeout(TeamColor::Blue))
    );
    // commands that are out of use change nothing
    for idle in [
        RefereeCommand::Goal(TeamColor::Blue),
        RefereeCommand::IndirectFree(TeamColor::Blue),
        RefereeCommand::Deprecated,
    ] {
        assert_eq!(command(&mut filter, &mut w, idle, 6_200), GameState::Halted(HaltedState::Timeout(TeamColor::Blue)));
    }
    assert!(!w.data.kicked_off_once);
    assert_eq!(
        command(&mut filter, &mut w, RefereeCommand::ForceStart, 6_300),
        GameState::Running(RunningState::NormalPlay)
    );
    assert!(w.data.kicked_off_once);
    let mut data = FilterData::new();
    let mut placement = referee(RefereeCommand::BallPlacement(TeamColor::Blue));
    placement.designated_position = Some(Vec2::new(1, 2));
    placement.positive_half = Some(TeamColor::Blue);
    data.referee = vec![placement];
    filter.step(&data, &mut w, 7_000);
    assert_eq!(w.data.ref_orders.state, GameState::Stopped(StoppedState::BallPlacement(TeamColor::Blue)));
    assert_eq!(w.data.ref_orders.designated_position, Some(Vec2::new(1, 2)));
    assert_eq!(w.data.positive_half, TeamColor::Blue);
    // without a packet nothing changes
    filter.step(&FilterData::new(), &mut w, 8_000);
    assert_eq!(w.data.ref_orders.state, GameState::Stopped(StoppedState::BallPlacement(TeamColor::Blue)));
    let mut again = GameControllerPostFilter::new();
    assert_eq!(again.resolve_branch(&RefereeCommand::DirectFree(TeamColor::Blue)), GameStateBranch::Freekick(TeamColor::Blue));
    assert_eq!(again.resolve_branch(&RefereeCommand::Goal(TeamColor::Blue)), GameStateBranch::Deprecated);
    assert_eq!(StateData::default(), StateData::initial());
}

#[test]
fn pipeline_makes_the_view_of_the_field() {
    let common = CommonConfig { yellow: false, real: false };
    let mut pipeline = FilterPipeline::with_config_boxed(FilterConfig {}, &common);
    let mut w = world();
    let out = pipeline.step(
        frame(100, vec![(1, 1_000_000, 0), (20, 5, 5)], vec![(2, 2_000_000, 0)], vec![(30, 40)]),
        &mut w,
        0,
    );
    assert!(out.is_none());
    assert_eq!(w.allies_bot.len(), 1);
    assert_eq!(w.allies_bot.get(1).map(|r| r.pose.position), Some(Vec2::new(1_000_000, 0)));
    assert_eq!(w.allies_bot.get(1).map(|r| r.timestamp), Some(100));
    assert_eq!(w.enemies_bot.get(2).map(|r| r.pose.position), Some(Vec2::new(2_000_000, 0)));
    assert_eq!(w.ball.map(|b| b.position), Some(Vec3::new(30, 40, 0)));
    assert_eq!(w.ball.map(|b| b.possession), Some(None));
    // in yellow the teams change places
    let yellow = CommonConfig { yellow: true, real: false };
    let mut other = FilterPipeline::with_config_boxed(FilterConfig {}, &yellow);
    let mut v = world();
    other.step(frame(100, vec![(1, 1_000_000, 0)], vec![(2, 2_000_000, 0)], vec![]), &mut v, 0);
    assert!(v.allies_bot.get(2).is_some());
    assert!(v.enemies_bot.get(1).is_some());
    assert_eq!(v.ball, None);
}

#[test]
fn pipeline_gives_the_ball_to_the_team_that_takes_the_kick() {
    let common = CommonConfig { yellow: false, real: false };
    let mut pipeline = FilterPipeline::with_config_boxed(FilterConfig {}, &common);
    let mut w = world();
    let mut data = frame(100, vec![(1, 1_000_000, 0)], vec![(2, 2_000_000, 0)], vec![(30, 40)]);
    data.gc_packet = vec![referee(RefereeCommand::DirectFree(TeamColor::Yellow))];
    pipeline.step(data, &mut w, 0);
    assert_eq!(w.data.ref_orders.state, GameState::Running(RunningState::FreeKick(TeamColor::Yellow)));
    assert_eq!(w.ball.map(|b| b.possession), Some(Some(TeamColor::Yellow)));
    assert_eq!(w.data.ref_orders.speed_limit, 6_000_000);
}

#[test]
fn ball_absent_for_two_ticks() {
    let common = CommonConfig { yellow: false, real: false };
    let mut pipeline = FilterPipeline::with_config_boxed(FilterConfig {}, &common);
    let mut w = world();
    w.data.ref_orders = RefereeOrders::new(GameState::Running(RunningState::NormalPlay), None);
    let blue = vec![(0, -4_400_000, 0), (1, -1_000_000, 0), (2, -2_000_000, 500_000), (3, 1_000_000, 0)];
    pipeline.step(frame(100, blue.clone(), vec![], vec![(0, 0)]), &mut w, 0);
    assert!(w.ball.is_some());
    let mut manager = BigBro::new();
    let mut wrapper = ActionWrapper::new();
    manager.step(&w, &mut wrapper);
    assert!(wrapper.len() > 0);
    pipeline.step(nothing(), &mut w, 16);
    pipeline.step(frame(132, blue, vec![], vec![]), &mut w, 32);
    assert_eq!(w.ball, None);
    assert_eq!(w.allies_bot.len(), 4);
    manager.step(&w, &mut wrapper);
    let twist = Twist { forward_velocity: 1, left_velocity: 1, angular_velocity: 1 };
    for id in 0..16 {
        assert_eq!(wrapper.front(id), None);
        assert_eq!(command_for(wrapper.front(id), &twist, &w.data.ref_orders), Command::zero());
    }
}
