use crabe::action::Action;
use crabe::action::ActionWrapper;
use crabe::action::MoveTo;
use crabe::attacker::Attacker;
use crabe::bigbro::BigBro;
use crabe::bot_marking::BotMarking;
use crabe::defensive::DefenseWall;
use crabe::formations::PrepareFreeKick;
use crabe::formations::PrepareGoalKick;
use crabe::game_state::GameState;
use crabe::game_state::RunningState;
use crabe::math::Circle;
use crabe::math::Delta;
use crabe::math::Line;
use crabe::math::Rectangle;
use crabe::math::Vec2;
use crabe::math::Vec3;
use crabe::message::AttackerMessage;
use crabe::message::Message;
use crabe::message::MessageData;
use crabe::referee::RefereeOrders;
use crabe::strategy::Role;
use crabe::strategy::Strategy;
use crabe::strategy::StrategyKind;
use crabe::testing::Aligned;
use crabe::testing::TestVisionMoveTo;
use crabe::tick::all_distinct;
use crabe::utils::closest_bot_to_point;
use crabe::utils::closest_bots_to_point;
use crabe::utils::collect_refs;
use crabe::utils::filter_robots_behind_point;
use crabe::utils::filter_robots_in_ids;
use crabe::utils::filter_robots_not_in_ids;
use crabe::utils::KEEPER_ID;
use crabe::world::Acceleration;
use crabe::world::AllyInfo;
use crabe::world::Ball;
use crabe::world::EnemyInfo;
use crabe::world::Field;
use crabe::world::GameData;
use crabe::world::Geometry;
use crabe::world::Goal;
use crabe::world::Pose;
use crabe::world::Robot;
use crabe::world::RobotMap;
use crabe::world::Team;
use crabe::world::TeamColor;
use crabe::world::Velocity;
use crabe::world::World;

fn world() -> World {
    World {
        data: GameData {
            ally: Team { color: TeamColor::Blue, name: String::from("us"), score: 0 },
            enemy: Team { color: TeamColor::Yellow, name: String::from("them"), score: 0 },
            positive_half: TeamColor::Yellow,
            ref_orders: RefereeOrders::new(GameState::Running(RunningState::NormalPlay), None),
            kicked_off_once: false,
        },
        geometry: Geometry {
            field: Field { width: 6_000_000, length: 9_000_000 },
            ally_goal: Goal::new(-4_500_000, -500_000, 500_000, 180_000),
            enemy_goal: Goal::new(4_500_000, -500_000, 500_000, 180_000),
            ally_penalty: Rectangle::new(1_000_000, 2_000_000, Vec2::new(-4_500_000, -1_000_000)),
            enemy_penalty: Rectangle::new(1_000_000, 2_000_000, Vec2::new(3_500_000, -1_000_000)),
            center: Circle::new(Vec2::new(0, 0), 500_000),
            robot_radius: 90_000,
            ball_radius: 21_500,
        },
        allies_bot: RobotMap::new(),
        enemies_bot: RobotMap::new(),
        ball: None,
        team_color: TeamColor::Blue,
    }
}

fn ally(id: u8, x: i64, y: i64) -> Robot<AllyInfo> {
    Robot {
        id,
        pose: Pose { position: Vec2::new(x, y), heading: Vec2::new(1_000_000, 0) },
        velocity: Velocity { linear: Vec2::zero(), angular: 0 },
        acceleration: Acceleration { linear: Vec2::zero(), angular: 0 },
        has_ball: false,
        timestamp: 0,
        robot_info: AllyInfo,
    }
}

fn enemy(id: u8, x: i64, y: i64) -> Robot<EnemyInfo> {
    Robot {
        id,
        pose: Pose { position: Vec2::new(x, y), heading: Vec2::new(-1_000_000, 0) },
        velocity: Velocity { linear: Vec2::zero(), angular: 0 },
        acceleration: Acceleration { linear: Vec2::zero(), angular: 0 },
        has_ball: false,
        timestamp: 0,
        robot_info: EnemyInfo,
    }
}

fn ball(x: i64, y: i64, vx: i64, vy: i64, possession: Option<TeamColor>) -> Ball {
    Ball {
        position: Vec3::new(x, y, 0),
        timestamp: 0,
        velocity: Vec3::new(vx, vy, 0),
        acceleration: Vec3::zero(),
        possession,
        last_touch: None,
    }
}

fn owners(manager: &BigBro) -> Vec<(String, Vec<u8>)> {
    let mut out = Vec::new();
    for i in 0..manager.len() {
        let s = manager.get(i);
        out.push((String::from(s.name()), s.get_ids()));
    }
    out
}

fn named(name: &str, ids: &[u8]) -> (String, Vec<u8>) {
    (String::from(name), ids.to_vec())
}

fn no_robot_twice(manager: &BigBro) -> bool {
    let mut seen: Vec<u8> = Vec::new();
    for i in 0..manager.len() {
        for id in manager.get(i).get_ids() {
            if seen.contains(&id) {
                return false;
            }
            seen.push(id);
        }
    }
    true
}

fn move_of(wrapper: &ActionWrapper, id: u8) -> crabe::action::MoveTo {
    match wrapper.front(id) {
        Some(Action::MoveTo(m)) => m,
        other => panic!("robot {} has no move: {:?}", id, other),
    }
}

#[test]
fn new_manager_holds_the_keeper() {
    let manager = BigBro::new();
    assert_eq!(owners(&manager), vec![named("GoalKeeper", &[KEEPER_ID])]);
    assert_eq!(manager.get(0).kind(), StrategyKind::GoalKeeper);
    assert_eq!(manager.get(0).kind().role(), Role::GoalKeeper);
    assert!(manager.get(0).get_messages().is_empty());
}

#[test]
fn empty_field_ball_at_origin() {
    let mut w = world();
    w.ball = Some(ball(0, 0, 0, 0, None));
    let mut manager = BigBro::new();
    let mut wrapper = ActionWrapper::new();
    manager.step(&w, &mut wrapper);
    assert_eq!(owners(&manager), vec![named("GoalKeeper", &[KEEPER_ID])]);
    assert_eq!(wrapper.len(), 0);
    for id in 0..16 {
        assert_eq!(wrapper.front(id), None);
    }
}

#[test]
fn ally_facing_the_enemy_goal_attacks() {
    let mut w = world();
    w.allies_bot.insert(ally(1, -4_000_000, 0));
    w.allies_bot.insert(ally(2, -4_200_000, 300_000));
    w.allies_bot.insert(ally(3, -4_200_000, -300_000));
    w.ball = Some(ball(-3_500_000, 0, 0, 0, None));
    let mut manager = BigBro::new();
    let mut wrapper = ActionWrapper::new();
    manager.step(&w, &mut wrapper);
    assert_eq!(
        owners(&manager),
        vec![named("GoalKeeper", &[0]), named("DefenseWall", &[2, 3]), named("Attacker", &[1])]
    );
    let shot = move_of(&wrapper, 1);
    // the whole goal is open: the shot goes at its middle, and the robot is to
    // face along the first axis
    assert_eq!(shot.orientation, Delta { dx: 8_500_000, dy: 0 });
    assert_eq!(shot.orientation.dy, 0);
    // the ball is half a metre away: the robot goes 0.3 m behind the ball
    assert_eq!(shot.target, Vec2::new(-3_800_000, 0));
    assert_eq!(shot.dribbler, 0);
    assert_eq!(shot.kick, None);
    assert!(!shot.charge);
    // the attacker tells that it needs no receiver
    assert_eq!(
        manager.get(2).get_messages().clone(),
        vec![MessageData::new(Message::AttackerMessage(AttackerMessage::NoNeedReceiver), 1)]
    );
    assert!(no_robot_twice(&manager));
}

#[test]
fn single_ally_goes_to_the_wall() {
    let mut w = world();
    w.allies_bot.insert(ally(1, -4_000_000, 0));
    w.ball = Some(ball(-3_500_000, 0, 0, 0, None));
    let mut manager = BigBro::new();
    let mut wrapper = ActionWrapper::new();
    manager.step(&w, &mut wrapper);
    assert_eq!(owners(&manager), vec![named("GoalKeeper", &[0]), named("DefenseWall", &[1])]);
}

#[test]
fn enemy_ball_is_contested_from_behind() {
    let mut w = world();
    w.allies_bot.insert(ally(1, -1_000_000, 500_000));
    w.allies_bot.insert(ally(2, -2_000_000, 1_000_000));
    w.allies_bot.insert(ally(3, 1_000_000, 0));
    w.ball = Some(ball(0, 0, -3_000_000, 0, Some(TeamColor::Yellow)));
    let mut manager = BigBro::new();
    let mut wrapper = ActionWrapper::new();
    manager.step(&w, &mut wrapper);
    assert_eq!(
        owners(&manager),
        vec![named("GoalKeeper", &[0]), named("DefenseWall", &[2]), named("BotContesting", &[1])]
    );
    let go = move_of(&wrapper, 1);
    // the point lies on the path of the ball, which runs along the first axis
    // toward our goal
    assert_eq!(go.target, Vec2::new(-1_000_000, 0));
    assert!(go.target.x() <= 0 && go.target.y() == 0);
    // and nearer to our goal than the robot is
    let goal = Vec2::new(-4_500_000, 0);
    assert!(goal.dist2(&go.target) < goal.dist2(&Vec2::new(-1_000_000, 500_000)));
    assert_eq!(go.kick, None);
    assert!(no_robot_twice(&manager));
}

#[test]
fn ball_absent_all_strategies_skip() {
    let mut w = world();
    w.allies_bot.insert(ally(0, -4_400_000, 0));
    w.allies_bot.insert(ally(1, -1_000_000, 500_000));
    w.allies_bot.insert(ally(2, -2_000_000, 1_000_000));
    w.allies_bot.insert(ally(3, 1_000_000, 0));
    w.ball = Some(ball(0, 0, 0, 0, None));
    let mut manager = BigBro::new();
    let mut wrapper = ActionWrapper::new();
    manager.step(&w, &mut wrapper);
    assert!(wrapper.len() > 0);
    let before = owners(&manager);
    w.ball = None;
    manager.step(&w, &mut wrapper);
    manager.step(&w, &mut wrapper);
    assert_eq!(owners(&manager), before);
    assert_eq!(wrapper.len(), 0);
}

#[test]
fn attacker_gives_way_to_a_nearer_robot() {
    let mut w = world();
    w.allies_bot.insert(ally(1, 0, 0));
    w.allies_bot.insert(ally(2, -4_200_000, 300_000));
    w.allies_bot.insert(ally(3, -4_200_000, -300_000));
    w.allies_bot.insert(ally(4, 3_000_000, 0));
    w.enemies_bot.insert(enemy(0, 4_400_000, 0));
    w.enemies_bot.insert(enemy(7, 2_000_000, 1_000_000));
    w.ball = Some(ball(100_000, 0, 0, 0, Some(TeamColor::Blue)));
    let mut manager = BigBro::new();
    let mut wrapper = ActionWrapper::new();
    manager.step(&w, &mut wrapper);
    assert_eq!(
        owners(&manager),
        vec![
            named("GoalKeeper", &[0]),
            named("DefenseWall", &[2, 3]),
            named("Attacker", &[1]),
            named("BotMarking", &[4]),
        ]
    );
    assert_eq!(manager.get(3).kind(), StrategyKind::BotMarking { enemy_id: 7 });
    // the ball is now 2.9 m from the attacker and robot 4 is nearer: they swap
    w.ball = Some(ball(2_900_000, 0, 0, 0, Some(TeamColor::Blue)));
    manager.step(&w, &mut wrapper);
    assert_eq!(
        owners(&manager),
        vec![
            named("GoalKeeper", &[0]),
            named("DefenseWall", &[2, 3]),
            named("BotMarking", &[1]),
            named("Attacker", &[4]),
        ]
    );
    // within 1.2 m of the ball the attacker stays although another is nearer
    w.ball = Some(ball(2_000_000, 0, 0, 0, Some(TeamColor::Blue)));
    w.allies_bot.insert(ally(1, 1_900_000, 0));
    manager.step(&w, &mut wrapper);
    assert_eq!(manager.get(3).get_ids(), vec![4]);
    assert_eq!(manager.get(3).name(), "Attacker");
    assert!(no_robot_twice(&manager));
}

#[test]
fn markers_take_the_nearest_unmarked_enemy() {
    let mut w = world();
    w.allies_bot.insert(ally(5, 0, 0));
    w.allies_bot.insert(ally(6, 0, 1_000_000));
    w.allies_bot.insert(ally(7, 0, 2_000_000));
    w.enemies_bot.insert(enemy(0, 100_000, 0));
    w.enemies_bot.insert(enemy(3, 500_000, 0));
    w.enemies_bot.insert(enemy(4, 0, 1_100_000));
    let mut manager = BigBro::new();
    let allies = w.allies_bot.values();
    manager.attribute_marking_bots(&w, vec![&allies[0], &allies[1], &allies[2]]);
    // enemy 0 is their keeper and is never marked; robot 7 finds the last enemy
    // left
    assert_eq!(
        owners(&manager),
        vec![named("GoalKeeper", &[0]), named("BotMarking", &[5]), named("BotMarking", &[6])]
    );
    assert_eq!(manager.get(1).kind(), StrategyKind::BotMarking { enemy_id: 3 });
    assert_eq!(manager.get(2).kind(), StrategyKind::BotMarking { enemy_id: 4 });
}

#[test]
fn wall_that_exists_stays() {
    let mut w = world();
    w.allies_bot.insert(ally(1, -4_000_000, 0));
    w.allies_bot.insert(ally(2, -4_200_000, 300_000));
    w.allies_bot.insert(ally(3, -4_200_000, -300_000));
    let mut manager = BigBro::new();
    assert_eq!(manager.attribute_defense_wall(&w), vec![2, 3]);
    w.allies_bot.insert(ally(2, 4_000_000, 0));
    assert_eq!(manager.attribute_defense_wall(&w), vec![2, 3]);
    assert_eq!(manager.len(), 2);
    // without a robot but the keeper there is no wall
    let mut alone = BigBro::new();
    let mut empty = world();
    empty.allies_bot.insert(ally(0, -4_400_000, 0));
    assert_eq!(alone.attribute_defense_wall(&empty), Vec::<u8>::new());
    assert_eq!(alone.len(), 1);
}

#[test]
fn wall_takes_its_robots_out_of_their_strategies() {
    let mut w = world();
    w.allies_bot.insert(ally(1, -4_000_000, 0));
    w.allies_bot.insert(ally(2, -4_200_000, 300_000));
    let mut manager = BigBro::new();
    manager.move_bot_to_new_strategy(1, Strategy::Attacker(Attacker::new(1)));
    manager.move_bot_to_new_strategy(2, Strategy::Aligned(Aligned::new(vec![2, 9])));
    assert_eq!(manager.attribute_defense_wall(&w), vec![2, 1]);
    assert_eq!(
        owners(&manager),
        vec![named("GoalKeeper", &[0]), named("Aligned", &[9]), named("DefenseWall", &[2, 1])]
    );
    assert!(no_robot_twice(&manager));
}

#[test]
fn move_to_new_strategy() {
    let mut manager = BigBro::new();
    // a robot that belongs to nobody: the strategy comes last
    manager.move_bot_to_new_strategy(4, Strategy::Attacker(Attacker::new(4)));
    assert_eq!(owners(&manager), vec![named("GoalKeeper", &[0]), named("Attacker", &[4])]);
    // a robot alone in its strategy: the new strategy takes the place
    manager.move_bot_to_new_strategy(4, Strategy::BotMarking(BotMarking::new(4, 2)));
    assert_eq!(owners(&manager), vec![named("GoalKeeper", &[0]), named("BotMarking", &[4])]);
    // a robot among others: it leaves them and the new strategy comes last
    manager.move_bot_to_new_strategy(8, Strategy::DefenseWall(DefenseWall::new(vec![8, 9])));
    manager.move_bot_to_new_strategy(8, Strategy::Attacker(Attacker::new(8)));
    assert_eq!(
        owners(&manager),
        vec![
            named("GoalKeeper", &[0]),
            named("BotMarking", &[4]),
            named("DefenseWall", &[9]),
            named("Attacker", &[8]),
        ]
    );
    assert!(no_robot_twice(&manager));
}

#[test]
fn move_to_existing_strategy() {
    let mut manager = BigBro::new();
    manager.move_bot_to_new_strategy(5, Strategy::Aligned(Aligned::new(vec![5])));
    manager.move_bot_to_new_strategy(6, Strategy::Attacker(Attacker::new(6)));
    manager.move_bot_to_new_strategy(7, Strategy::DefenseWall(DefenseWall::new(vec![7, 8])));
    // alone in its strategy: the strategy goes
    manager.move_bot_to_existing_strategy(6, 1);
    assert_eq!(
        owners(&manager),
        vec![named("GoalKeeper", &[0]), named("Aligned", &[5, 6]), named("DefenseWall", &[7, 8])]
    );
    // among others: it leaves them
    manager.move_bot_to_existing_strategy(7, 1);
    assert_eq!(
        owners(&manager),
        vec![named("GoalKeeper", &[0]), named("Aligned", &[5, 6, 7]), named("DefenseWall", &[8])]
    );
    // an orphan simply joins
    manager.move_bot_to_existing_strategy(11, 2);
    assert_eq!(manager.get(2).get_ids(), vec![8, 11]);
    // a strategy of one robot takes no second: the robot loses its strategy
    manager.move_bot_to_existing_strategy(11, 0);
    assert_eq!(
        owners(&manager),
        vec![named("GoalKeeper", &[0]), named("Aligned", &[5, 6, 7]), named("DefenseWall", &[8])]
    );
    assert!(no_robot_twice(&manager));
}

#[test]
fn messages_are_processed() {
    let mut manager = BigBro::new();
    let line = Line::new(Vec2::new(0, 0), Vec2::new(1_000_000, 0));
    manager.process_messages(vec![
        MessageData::new(Message::WantToGoRight, 1),
        MessageData::new(Message::WantToGoLeft, 2),
        MessageData::new(Message::WantToBeAligned, 3),
        MessageData::new(Message::WantToBeAligned, 4),
        MessageData::new(Message::AttackerMessage(AttackerMessage::WantToPassBallTo(5, line)), 9),
    ]);
    assert_eq!(
        owners(&manager),
        vec![
            named("GoalKeeper", &[0]),
            named("GoRight", &[1]),
            named("GoLeft", &[2]),
            named("Aligned", &[3, 4]),
            named("Receiver", &[5]),
        ]
    );
    assert_eq!(
        manager.get(4).kind(),
        StrategyKind::Receiver { passer_id: 9, passing_trajectory: line }
    );
    manager.process_messages(vec![MessageData::new(
        Message::AttackerMessage(AttackerMessage::BallPassed(5)),
        9,
    )]);
    assert_eq!(manager.get(4).name(), "Attacker");
    assert_eq!(manager.get(4).get_ids(), vec![5]);
    manager.process_messages(vec![
        MessageData::new(Message::AttackerMessage(AttackerMessage::WantToPassBallTo(1, line)), 5),
        MessageData::new(Message::AttackerMessage(AttackerMessage::WantToPassBallTo(2, line)), 5),
        MessageData::new(Message::AttackerMessage(AttackerMessage::NoNeedReceiver), 5),
    ]);
    assert_eq!(
        owners(&manager),
        vec![named("GoalKeeper", &[0]), named("Aligned", &[3, 4]), named("Attacker", &[5])]
    );
    assert!(no_robot_twice(&manager));
}

#[test]
fn a_message_can_move_the_keeper() {
    let mut manager = BigBro::new();
    assert!(manager.keeper_is_pinned());
    manager.process_messages(vec![MessageData::new(Message::WantToGoLeft, KEEPER_ID)]);
    assert_eq!(owners(&manager), vec![named("GoLeft", &[0])]);
    assert!(!manager.keeper_is_pinned());
    // the next time the robots are given their strategies the keeper is back
    let mut w = world();
    w.ball = Some(ball(0, 0, 0, 0, None));
    let mut wrapper = ActionWrapper::new();
    manager.step(&w, &mut wrapper);
    assert_eq!(owners(&manager), vec![named("GoalKeeper", &[0])]);
    assert!(manager.keeper_is_pinned());
    manager.pin_keeper();
    assert_eq!(manager.len(), 1);
}

#[test]
fn lookups() {
    let mut manager = BigBro::new();
    manager.move_bot_to_new_strategy(5, Strategy::Aligned(Aligned::new(vec![5, 6])));
    manager.move_bot_to_new_strategy(7, Strategy::Attacker(Attacker::new(7)));
    assert_eq!(manager.get_index_strategy_with_name("Aligned"), Some(1));
    assert_eq!(manager.get_index_strategy_with_name("Attacker"), Some(2));
    assert_eq!(manager.get_index_strategy_with_name("GoalKeeper"), Some(0));
    assert_eq!(manager.get_index_strategy_with_name("Receiver"), None);
    assert_eq!(manager.first_in_role(Role::Attacker), Some(2));
    assert_eq!(manager.first_in_role(Role::DefenseWall), None);
    assert_eq!(manager.holder(6), Some(1));
    assert_eq!(manager.holder(9), None);
    assert_eq!(manager.get_bot_current_strategy(6).map(|s| s.name()), Some("Aligned"));
    assert_eq!(manager.get_bot_current_strategy(7).map(|s| s.get_ids()), Some(vec![7]));
    assert!(manager.get_bot_current_strategy(9).is_none());
    manager.detach(6);
    assert_eq!(manager.get(1).get_ids(), vec![5]);
    manager.detach(5);
    assert_eq!(owners(&manager), vec![named("GoalKeeper", &[0]), named("Attacker", &[7])]);
}

#[test]
fn put_ids_by_kind() {
    let mut one = Strategy::Attacker(Attacker::new(4));
    one.put_ids(vec![5]);
    assert_eq!(one.get_ids(), vec![5]);
    one.put_ids(vec![6, 7]);
    assert_eq!(one.get_ids(), vec![5]);
    one.put_ids(vec![]);
    assert_eq!(one.get_ids(), vec![5]);
    let mut many = Strategy::DefenseWall(DefenseWall::new(vec![1]));
    many.put_ids(vec![2, 3, 4]);
    assert_eq!(many.get_ids(), vec![2, 3, 4]);
    let mut trial = Strategy::TestVisionMoveTo(TestVisionMoveTo::new(vec![1, 2]));
    trial.put_ids(vec![3, 4]);
    assert_eq!(trial.get_ids(), vec![1, 2]);
    trial.put_ids(vec![3]);
    assert_eq!(trial.get_ids(), vec![3]);
}

#[test]
fn robots_by_distance() {
    let mut w = world();
    w.allies_bot.insert(ally(1, 3_000_000, 0));
    w.allies_bot.insert(ally(2, -1_000_000, 0));
    w.allies_bot.insert(ally(3, 0, 1_000_000));
    w.allies_bot.insert(ally(4, 500_000, 0));
    let at = Vec2::new(0, 0);
    let ids = |v: Vec<&Robot<AllyInfo>>| v.iter().map(|r| r.id).collect::<Vec<u8>>();
    let sorted = closest_bots_to_point(collect_refs(w.allies_bot.values()), at);
    // robots 2 and 3 are equally far: they keep their order
    assert_eq!(ids(sorted), vec![4, 2, 3, 1]);
    let nearest = closest_bot_to_point(collect_refs(w.allies_bot.values()), Vec2::new(0, 500_000));
    assert_eq!(nearest.map(|r| r.id), Some(3));
    let first_of_equals = closest_bot_to_point(collect_refs(w.allies_bot.values()), Vec2::new(-500_000, 500_000));
    assert_eq!(first_of_equals.map(|r| r.id), Some(2));
    assert!(closest_bot_to_point(Vec::<&Robot<AllyInfo>>::new(), at).is_none());
    let all = || collect_refs(w.allies_bot.values());
    assert_eq!(ids(filter_robots_in_ids(all(), &vec![3, 1, 9])), vec![1, 3]);
    assert_eq!(ids(filter_robots_not_in_ids(all(), &vec![3, 1, 9])), vec![2, 4]);
    assert_eq!(ids(filter_robots_behind_point(all(), &Vec2::new(500_000, 0))), vec![2, 3]);
    assert_eq!(w.allies_bot.get(3).map(|r| r.pose.position), Some(Vec2::new(0, 1_000_000)));
    assert!(w.allies_bot.get(9).is_none());
    assert_eq!(w.allies_bot.len(), 4);
}

#[test]
fn offenders_are_dropped() {
    let mut manager = BigBro::new();
    // robot 9 belongs to nobody, so the new strategy simply comes last: robot
    // 5 is now named by two strategies, and robot 7 twice by one
    manager.move_bot_to_new_strategy(5, Strategy::DefenseWall(DefenseWall::new(vec![4, 5])));
    manager.move_bot_to_new_strategy(9, Strategy::Attacker(Attacker::new(5)));
    manager.move_bot_to_new_strategy(8, Strategy::Aligned(Aligned::new(vec![7, 7])));
    manager.move_bot_to_new_strategy(6, Strategy::BotMarking(BotMarking::new(6, 1)));
    assert!(!no_robot_twice(&manager));
    manager.drop_offenders();
    assert_eq!(
        owners(&manager),
        vec![named("GoalKeeper", &[0]), named("DefenseWall", &[4, 5]), named("BotMarking", &[6])]
    );
    assert!(no_robot_twice(&manager));
    // a manager under its rule loses nothing
    manager.drop_offenders();
    assert_eq!(manager.len(), 3);
    assert!(all_distinct(&vec![1, 2, 3]));
    assert!(all_distinct(&vec![]));
    assert!(!all_distinct(&vec![1, 2, 1]));
}

#[test]
fn tick_restores_the_rule() {
    let w = world();
    let mut manager = BigBro::new();
    manager.move_bot_to_new_strategy(5, Strategy::DefenseWall(DefenseWall::new(vec![4, 5])));
    manager.move_bot_to_new_strategy(9, Strategy::Attacker(Attacker::new(5)));
    let mut wrapper = ActionWrapper::new();
    manager.step(&w, &mut wrapper);
    assert_eq!(owners(&manager), vec![named("GoalKeeper", &[0]), named("DefenseWall", &[4, 5])]);
    // the messages of the strategies are gathered in the order of the strategies
    assert!(manager.collect_messages().is_empty());
    manager.remove_idle();
    assert_eq!(manager.len(), 2);
}

#[test]
fn every_strategy_skips_without_the_ball() {
    let mut w = world();
    for id in 0..8u8 {
        w.allies_bot.insert(ally(id, -1_000_000 - id as i64 * 100_000, 0));
    }
    w.enemies_bot.insert(enemy(3, 1_000_000, 0));
    let mut goal_kick = PrepareGoalKick::new(true);
    goal_kick.put_ids(vec![1]);
    let mut free_kick = PrepareFreeKick::new(false);
    free_kick.put_ids(vec![2, 3]);
    let mut manager = BigBro::new();
    manager.move_bot_to_new_strategy(1, Strategy::PrepareGoalKick(goal_kick));
    manager.move_bot_to_new_strategy(2, Strategy::PrepareFreeKick(free_kick));
    manager.move_bot_to_new_strategy(4, Strategy::TestVisionMoveTo(TestVisionMoveTo::new(vec![4])));
    manager.move_bot_to_new_strategy(5, Strategy::Attacker(Attacker::new(5)));
    manager.move_bot_to_new_strategy(6, Strategy::DefenseWall(DefenseWall::new(vec![6, 7])));
    let before = owners(&manager);
    let stale = Action::MoveTo(MoveTo::new(Vec2::new(1, 1), Delta { dx: 0, dy: 0 }, 0, false, None, false));
    let mut wrapper = ActionWrapper::new();
    for id in 0..10u8 {
        wrapper.push(id, stale);
    }
    manager.step(&w, &mut wrapper);
    manager.step(&w, &mut wrapper);
    // no strategy is made, changed or sent away
    assert_eq!(owners(&manager), before);
    // nothing is left for any robot that a strategy owns, and nothing was
    // pushed: what is left are the old intents of the robots of nobody
    for id in 0..8u8 {
        assert_eq!(wrapper.front(id), None);
    }
    assert_eq!(wrapper.len(), 2);
    assert_eq!(wrapper.front(8), Some(stale));
    assert_eq!(wrapper.front(9), Some(stale));
}

#[test]
fn new_wall_is_made_of_the_two_nearest_to_our_goal() {
    let mut w = world();
    w.allies_bot.insert(ally(0, -4_450_000, 0));
    w.allies_bot.insert(ally(1, 1_000_000, 0));
    w.allies_bot.insert(ally(2, -3_000_000, 500_000));
    w.allies_bot.insert(ally(3, -2_000_000, -500_000));
    w.allies_bot.insert(ally(4, -3_500_000, 0));
    let mut manager = BigBro::new();
    manager.move_bot_to_new_strategy(4, Strategy::Attacker(Attacker::new(4)));
    let wall = manager.attribute_defense_wall(&w);
    // two robots, none of them the goalkeeper though it stands nearest, and
    // no other ally stands nearer to the middle of our goal
    assert_eq!(wall, vec![4, 2]);
    let goal = Vec2::new(-4_500_000, 0);
    for id in [1u8, 3] {
        for picked in wall.iter() {
            let near = w.allies_bot.get(*picked).unwrap().pose.position;
            let far = w.allies_bot.get(id).unwrap().pose.position;
            assert!(goal.dist2(&near) <= goal.dist2(&far));
        }
    }
    // the wall is there and owns them, and nobody else does
    assert_eq!(owners(&manager), vec![named("GoalKeeper", &[0]), named("DefenseWall", &[4, 2])]);
    // with one ally beside the goalkeeper the wall has one robot, with none
    // there is no wall
    let mut w = world();
    w.allies_bot.insert(ally(0, -4_450_000, 0));
    let mut manager = BigBro::new();
    assert_eq!(manager.attribute_defense_wall(&w), Vec::<u8>::new());
    assert_eq!(owners(&manager), vec![named("GoalKeeper", &[0])]);
    w.allies_bot.insert(ally(5, 0, 0));
    assert_eq!(manager.attribute_defense_wall(&w), vec![5]);
}

#[test]
fn strategies_are_given_to_robots_on_the_field() {
    let mut w = world();
    for (id, x, y) in [(1u8, -1_000_000, 500_000), (2, -2_000_000, 1_000_000), (3, 1_000_000, 0), (4, -400_000, -1_000_000), (5, 2_000_000, 1_000_000)] {
        w.allies_bot.insert(ally(id, x, y));
    }
    w.enemies_bot.insert(enemy(0, 4_400_000, 0));
    w.enemies_bot.insert(enemy(6, 1_500_000, 200_000));
    w.enemies_bot.insert(enemy(7, -800_000, -900_000));
    let b = ball(0, 0, -3_000_000, 0, Some(TeamColor::Yellow));
    w.ball = Some(b);
    let mut manager = BigBro::new();
    // robot 9 is not on the field: it keeps the strategy it has, and no
    // strategy is made for it
    manager.move_bot_to_new_strategy(9, Strategy::Aligned(Aligned::new(vec![9])));
    manager.attribute_strategies(&w, &b);
    assert!(no_robot_twice(&manager));
    let mut contesters: Vec<Vec<u8>> = Vec::new();
    let mut marked: Vec<u8> = Vec::new();
    for k in 0..manager.len() {
        let strategy = manager.get(k);
        let ids = strategy.get_ids();
        match strategy {
            Strategy::GoalKeeper(_) => assert_eq!(ids, vec![KEEPER_ID]),
            Strategy::Aligned(_) => assert_eq!(ids, vec![9]),
            Strategy::BotMarking(marking) => {
                assert!(w.enemies_bot.get(marking.enemy_id()).is_some());
                assert_ne!(marking.enemy_id(), 0);
                marked.push(marking.enemy_id());
                assert!(ids.iter().all(|id| w.allies_bot.get(*id).is_some()));
            }
            Strategy::BotContesting(_) => {
                contesters.push(ids.clone());
                assert!(ids.iter().all(|id| w.allies_bot.get(*id).is_some()));
            }
            _ => assert!(ids.iter().all(|id| w.allies_bot.get(*id).is_some())),
        }
    }
    // the contester is the ally behind the ball that is nearest to it, and it
    // is still there after the markers were given their enemies
    assert_eq!(contesters, vec![vec![4]]);
    marked.sort();
    assert_eq!(marked, vec![6, 7]);
}

#[test]
fn tick_brings_only_robots_of_the_field() {
    let mut w = world();
    for (id, x, y) in [(1u8, -1_000_000, 500_000), (2, -2_000_000, 1_000_000), (3, 1_000_000, 0), (6, 2_500_000, -300_000)] {
        w.allies_bot.insert(ally(id, x, y));
    }
    w.enemies_bot.insert(enemy(4, 3_000_000, 0));
    w.ball = Some(ball(500_000, 0, 0, 0, None));
    let mut manager = BigBro::new();
    // robot 9 is owned before the tick and is not on the field
    manager.move_bot_to_new_strategy(9, Strategy::Aligned(Aligned::new(vec![9])));
    let mut wrapper = ActionWrapper::new();
    for _ in 0..3 {
        manager.step(&w, &mut wrapper);
        for k in 0..manager.len() {
            for id in manager.get(k).get_ids() {
                assert!(id == KEEPER_ID || id == 9 || w.allies_bot.get(id).is_some());
            }
        }
        assert!(no_robot_twice(&manager));
    }
    // each ally on the field has a strategy
    for id in [1u8, 2, 3, 6] {
        assert!(manager.get_bot_current_strategy(id).is_some());
    }
}
