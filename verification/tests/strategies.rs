use crabe::action::Action;
use crabe::action::ActionWrapper;
use crabe::action::MoveTo;
use crabe::actions::intercept;
use crabe::actions::object_in_bot_trajectory;
use crabe::actions::shoot;
use crabe::attacker::attacker_decision;
use crabe::attacker::pass_target;
use crabe::attacker::Attacker;
use crabe::bot_marking::clear_of_attacker;
use crabe::bot_marking::distance;
use crabe::bot_marking::marking_decision;
use crabe::bot_marking::BotMarking;
use crabe::defensive::contesting_decision;
use crabe::defensive::keeper_decision;
use crabe::defensive::BotContesting;
use crabe::defensive::DefenseWall;
use crabe::defensive::GoalKeeper;
use crabe::formations::MoveAwayBallPlacement;
use crabe::formations::PrepareFreeKick;
use crabe::formations::PrepareGoalKick;
use crabe::game_state::GameState;
use crabe::game_state::RunningState;
use crabe::game_state::StoppedState;
use crabe::math::Circle;
use crabe::math::Delta;
use crabe::math::Line;
use crabe::math::Rectangle;
use crabe::math::Vec2;
use crabe::math::Vec3;
use crabe::message::AttackerMessage;
use crabe::message::Message;
use crabe::output::Kick;
use crabe::receiver::Receiver;
use crabe::referee::RefereeOrders;
use crabe::shoot_window::get_open_shoot_window;
use crabe::shoot_window::longest_window;
use crabe::shoot_window::shoot_windows_total_length;
use crabe::testing::twelfth;
use crabe::testing::GoLeft;
use crabe::testing::TestVisionMoveTo;
use crabe::testing::TestVisionMoveToStatus;
use crabe::world::Acceleration;
use crabe::world::AllyInfo;
use crabe::world::Ball;
use crabe::world::EnemyInfo;
use crabe::world::Field;
use crabe::world::GameData;
use crabe::world::Geometry;
use crabe::world::Goal;
use crabe::world::Pose;
use crabe::world::Robot;
use crabe::world::RobotMap;
use crabe::world::Team;
use crabe::world::TeamColor;
use crabe::world::Velocity;
use crabe::world::World;

fn world() -> World {
    World {
        data: GameData {
            ally: Team { color: TeamColor::Blue, name: String::from("us"), score: 0 },
            enemy: Team { color: TeamColor::Yellow, name: String::from("them"), score: 0 },
            positive_half: TeamColor::Yellow,
            ref_orders: RefereeOrders::new(GameState::Running(RunningState::NormalPlay), None),
            kicked_off_once: false,
        },
        geometry: Geometry {
            field: Field { width: 6_000_000, length: 9_000_000 },
            ally_goal: Goal::new(-4_500_000, -500_000, 500_000, 180_000),
            enemy_goal: Goal::new(4_500_000, 500_000, -500_000, 180_000),
            ally_penalty: Rectangle::new(1_000_000, 2_000_000, Vec2::new(-4_500_000, -1_000_000)),
            enemy_penalty: Rectangle::new(1_000_000, 2_000_000, Vec2::new(3_500_000, -1_000_000)),
            center: Circle::new(Vec2::new(0, 0), 500_000),
            robot_radius: 90_000,
            ball_radius: 21_500,
        },
        allies_bot: RobotMap::new(),
        enemies_bot: RobotMap::new(),
        ball: None,
        team_color: TeamColor::Blue,
    }
}

fn ally(id: u8, x: i64, y: i64, hx: i64, hy: i64) -> Robot<AllyInfo> {
    Robot {
        id,
        pose: Pose { position: Vec2::new(x, y), heading: Vec2::new(hx, hy) },
        velocity: Velocity { linear: Vec2::zero(), angular: 0 },
        acceleration: Acceleration { linear: Vec2::zero(), angular: 0 },
        has_ball: false,
        timestamp: 0,
        robot_info: AllyInfo,
    }
}

fn enemy(id: u8, x: i64, y: i64) -> Robot<EnemyInfo> {
    Robot {
        id,
        pose: Pose { position: Vec2::new(x, y), heading: Vec2::new(-1_000_000, 0) },
        velocity: Velocity { linear: Vec2::zero(), angular: 0 },
        acceleration: Acceleration { linear: Vec2::zero(), angular: 0 },
        has_ball: false,
        timestamp: 0,
        robot_info: EnemyInfo,
    }
}

fn ball(x: i64, y: i64, vx: i64, vy: i64) -> Ball {
    Ball {
        position: Vec3::new(x, y, 0),
        timestamp: 0,
        velocity: Vec3::new(vx, vy, 0),
        acceleration: Vec3::zero(),
        possession: None,
        last_touch: None,
    }
}

fn p(x: i64, y: i64) -> Vec2 {
    Vec2::new(x, y)
}

fn seg(ax: i64, ay: i64, bx: i64, by: i64) -> Line {
    Line::new(p(ax, ay), p(bx, by))
}

fn move_of(wrapper: &ActionWrapper, id: u8) -> MoveTo {
    match wrapper.front(id) {
        Some(Action::MoveTo(m)) => m,
        other => panic!("robot {} has no move: {:?}", id, other),
    }
}

#[test]
fn goal_posts_are_put_in_order() {
    let w = world();
    assert_eq!(w.geometry.enemy_goal.line(), seg(4_500_000, -500_000, 4_500_000, 500_000));
    assert_eq!(w.geometry.enemy_goal.depth(), 180_000);
}

#[test]
fn open_goal_is_one_window() {
    let w = world();
    let windows = get_open_shoot_window(&p(-3_500_000, 0), &w);
    assert_eq!(windows, vec![seg(4_500_000, -500_000, 4_500_000, 500_000)]);
    assert_eq!(longest_window(&windows).map(|l| l.center()), Some(p(4_500_000, 0)));
    assert_eq!(shoot_windows_total_length(&windows), 1_000_000);
}

#[test]
fn two_enemies_leave_two_equal_windows() {
    let mut w = world();
    w.enemies_bot.insert(enemy(1, 4_000_000, 100_000));
    w.enemies_bot.insert(enemy(2, 4_000_000, -100_000));
    let windows = get_open_shoot_window(&p(0, 0), &w);
    assert_eq!(
        windows,
        vec![
            seg(4_500_000, -500_000, 4_500_000, -249_333),
            seg(4_500_000, 249_333, 4_500_000, 500_000),
        ]
    );
    assert_eq!(windows[0].norm2(), windows[1].norm2());
    // of two windows of the same length the first is taken
    assert_eq!(longest_window(&windows), Some(windows[0]));
    assert_eq!(shoot_windows_total_length(&windows), 2 * 250_667);
    // the attacker shoots at the middle of that window
    w.allies_bot.insert(ally(4, -1_000_000, 0, 1_000_000, 0));
    w.ball = Some(ball(0, 0, 0, 0));
    let decision = attacker_decision(&w, 4);
    let shot = decision.intent.unwrap();
    assert_eq!(shot.orientation, p(-1_000_000, 0).delta_to(&p(4_500_000, -374_666)));
}

#[test]
fn windows_are_disjoint_parts_of_the_goal() {
    let mut w = world();
    w.enemies_bot.insert(enemy(1, 4_000_000, 0));
    w.enemies_bot.insert(enemy(2, 2_000_000, 600_000));
    w.enemies_bot.insert(enemy(3, 1_000_000, -200_000));
    w.enemies_bot.insert(enemy(4, -3_000_000, 0));
    w.enemies_bot.insert(enemy(5, 0, 0));
    let windows = get_open_shoot_window(&p(0, 0), &w);
    assert!(!windows.is_empty());
    let mut last = -500_001;
    for window in &windows {
        assert_eq!(window.start.x(), 4_500_000);
        assert_eq!(window.end.x(), 4_500_000);
        assert!(last < window.start.y());
        assert!(window.start.y() <= window.end.y());
        last = window.end.y();
    }
    assert!(last <= 500_000);
}

#[test]
fn enemy_in_front_of_the_goal() {
    let mut w = world();
    w.enemies_bot.insert(enemy(1, 4_000_000, 0));
    let windows = get_open_shoot_window(&p(0, 0), &w);
    assert_eq!(
        windows,
        vec![
            seg(4_500_000, -500_000, 4_500_000, -136_687),
            seg(4_500_000, 136_687, 4_500_000, 500_000),
        ]
    );
    // an enemy behind the shooter, or on the shooter, hides nothing
    let mut behind = world();
    behind.enemies_bot.insert(enemy(1, -1_000_000, 0));
    behind.enemies_bot.insert(enemy(2, 0, 0));
    assert_eq!(get_open_shoot_window(&p(0, 0), &behind).len(), 1);
    assert_eq!(longest_window(&Vec::new()), None);
    assert_eq!(shoot_windows_total_length(&Vec::new()), 0);
}

#[test]
fn intercept_a_slow_and_a_fast_ball() {
    let robot = ally(1, -1_000_000, 500_000, 0, 1_000_000);
    let slow = intercept(&robot, &ball(0, 0, 399_999, 0));
    assert_eq!(slow.target, p(0, 0));
    assert_eq!(slow.orientation, Delta { dx: 0, dy: 1_000_000 });
    assert_eq!(slow.dribbler, 0);
    assert!(slow.avoidance && !slow.charge && slow.kick.is_none());
    let fast = intercept(&robot, &ball(0, 0, -3_000_000, 0));
    assert_eq!(fast.target, p(-1_000_000, 0));
    assert_eq!(fast.orientation, Delta { dx: 1_000_000, dy: -500_000 });
    assert_eq!(fast.dribbler, 0);
    // at exactly 0.4 m/s the ball is no longer slow
    let edge = intercept(&robot, &ball(0, 0, -400_000, 0));
    assert_eq!(edge.target, p(-1_000_000, 0));
    // within 0.2 m of the ball the dribbler runs
    let near = ally(1, -100_000, 100_000, 0, 1_000_000);
    assert_eq!(intercept(&near, &ball(0, 0, -3_000_000, 0)).dribbler, 1);
}

#[test]
fn shoot_kicks_only_when_lined_up_and_touching() {
    let w = world();
    let target = p(4_500_000, 0);
    // lined up and touching: a straight kick
    let robot = ally(1, -100_000, 0, 1_000_000, 0);
    let kick = shoot(&robot, &ball(0, 0, 0, 0), &target, &w);
    assert_eq!(kick.target, p(0, 0));
    assert_eq!(kick.kick, Some(Kick::StraightKick { power: 4_000_000 }));
    assert_eq!(kick.dribbler, 200);
    assert!(kick.charge);
    assert_eq!(kick.orientation, Delta { dx: 4_600_000, dy: 0 });
    // at 113.5 mm the ball is just out of reach
    let robot = ally(1, -113_500, 0, 1_000_000, 0);
    let wait = shoot(&robot, &ball(0, 0, 0, 0), &target, &w);
    assert_eq!(wait.kick, None);
    assert_eq!(wait.target, p(-300_000, 0));
    assert_eq!(wait.dribbler, 0);
    assert!(!wait.charge);
    // touching but facing away: no kick
    let robot = ally(1, -100_000, 0, 0, 1_000_000);
    assert_eq!(shoot(&robot, &ball(0, 0, 0, 0), &target, &w).kick, None);
    // lined up with the ball but looking past the goal: no kick
    let robot = ally(1, 0, 2_900_000, 0, -1_000_000);
    assert_eq!(shoot(&robot, &ball(0, 2_800_000, 0, 0), &target, &w).kick, None);
}

#[test]
fn attacker_without_robot_or_ball_does_nothing() {
    let mut w = world();
    let mut wrapper = ActionWrapper::new();
    wrapper.push(4, Action::MoveTo(MoveTo::new(p(1, 1), Delta { dx: 0, dy: 0 }, 0, false, None, false)));
    wrapper.push(5, Action::MoveTo(MoveTo::new(p(2, 2), Delta { dx: 0, dy: 0 }, 0, false, None, false)));
    let mut attacker = Attacker::new(4);
    assert!(!attacker.step(&w, &mut wrapper));
    // the queue of the robot is emptied, the others stay
    assert_eq!(wrapper.front(4), None);
    assert_eq!(move_of(&wrapper, 5).target, p(2, 2));
    assert!(attacker.get_messages().is_empty());
    w.allies_bot.insert(ally(4, 0, 0, 1_000_000, 0));
    assert!(!attacker.step(&w, &mut wrapper));
    assert_eq!(wrapper.len(), 1);
    assert_eq!(attacker.name(), "Attacker");
    assert_eq!(attacker.get_ids(), vec![4]);
}

#[test]
fn attacker_intercepts_a_fast_ball_ahead() {
    let mut w = world();
    w.allies_bot.insert(ally(4, -1_000_000, 500_000, 1_000_000, 0));
    w.ball = Some(ball(0, 0, -3_000_000, 0));
    let decision = attacker_decision(&w, 4);
    assert_eq!(decision.message, None);
    assert_eq!(decision.intent.unwrap().target, p(-1_000_000, 0));
    // a fast ball behind the robot is shot at, not intercepted
    let mut behind = world();
    behind.allies_bot.insert(ally(4, 1_000_000, 0, 1_000_000, 0));
    behind.ball = Some(ball(0, 0, -3_000_000, 0));
    let decision = attacker_decision(&behind, 4);
    assert_eq!(decision.message, Some(Message::AttackerMessage(AttackerMessage::NoNeedReceiver)));
}

#[test]
fn attacker_passes_when_the_goal_is_shut() {
    let mut w = world();
    // a row of enemies right in front of the ball hides the whole goal
    w.enemies_bot.insert(enemy(1, 300_000, 0));
    w.enemies_bot.insert(enemy(2, 300_000, 150_000));
    w.enemies_bot.insert(enemy(3, 300_000, -150_000));
    w.allies_bot.insert(ally(4, -500_000, 0, 1_000_000, 0));
    w.allies_bot.insert(ally(5, 1_000_000, 2_000_000, 1_000_000, 0));
    w.allies_bot.insert(ally(6, -2_000_000, 0, 1_000_000, 0));
    w.ball = Some(ball(0, 0, 0, 0));
    assert!(get_open_shoot_window(&p(0, 0), &w).is_empty());
    assert_eq!(pass_target(&w, 4), Some(1));
    let decision = attacker_decision(&w, 4);
    assert_eq!(
        decision.message,
        Some(Message::AttackerMessage(AttackerMessage::WantToPassBallTo(
            5,
            seg(-500_000, 0, 1_000_000, 2_000_000)
        )))
    );
    assert_eq!(decision.intent.unwrap().orientation, Delta { dx: 1_500_000, dy: 2_000_000 });
    // once the ball accelerates hard the pass counts as played
    let mut played = ball(0, 0, 0, 0);
    played.acceleration = Vec3::new(4_000_001, 0, 0);
    w.ball = Some(played);
    assert_eq!(
        attacker_decision(&w, 4).message,
        Some(Message::AttackerMessage(AttackerMessage::BallPassed(5)))
    );
    // without an ally in the enemy half there is nobody to pass to
    let mut alone = world();
    alone.enemies_bot.insert(enemy(1, 300_000, 0));
    alone.enemies_bot.insert(enemy(2, 300_000, 150_000));
    alone.enemies_bot.insert(enemy(3, 300_000, -150_000));
    alone.allies_bot.insert(ally(4, -500_000, 0, 1_000_000, 0));
    alone.ball = Some(ball(0, 0, 0, 0));
    assert_eq!(pass_target(&alone, 4), None);
    let decision = attacker_decision(&alone, 4);
    assert_eq!(decision.intent, None);
    assert_eq!(decision.message, None);
}

#[test]
fn obstacles_on_the_way() {
    let mut w = world();
    w.allies_bot.insert(ally(4, 0, 0, 1_000_000, 0));
    w.allies_bot.insert(ally(5, 1_000_000, 100_000, 1_000_000, 0));
    w.enemies_bot.insert(enemy(1, 500_000, -100_000));
    w.enemies_bot.insert(enemy(2, 500_000, 500_000));
    w.ball = Some(ball(1_500_000, 0, 0, 0));
    let target = p(2_000_000, 0);
    let all = object_in_bot_trajectory(&w, 4, target, true, true, true);
    assert_eq!(
        all,
        vec![
            Circle::new(p(1_500_000, 0), 21_500),
            Circle::new(p(1_000_000, 100_000), 90_000),
            Circle::new(p(500_000, -100_000), 90_000),
        ]
    );
    assert_eq!(object_in_bot_trajectory(&w, 4, target, false, false, true).len(), 1);
    assert_eq!(object_in_bot_trajectory(&w, 4, target, false, false, false).len(), 0);
    // a robot that is not on the field meets nothing
    assert_eq!(object_in_bot_trajectory(&w, 9, target, true, true, true).len(), 0);
}

#[test]
fn receiver_waits_on_the_line() {
    let mut w = world();
    w.allies_bot.insert(ally(4, 0, 0, 1_000_000, 0));
    w.allies_bot.insert(ally(5, 1_000_000, 500_000, 1_000_000, 0));
    w.ball = Some(ball(0, 0, 0, 0));
    let line = seg(0, 0, 2_000_000, 0);
    let mut receiver = Receiver::new(5, 4, line);
    let mut wrapper = ActionWrapper::new();
    assert!(!receiver.step(&w, &mut wrapper));
    let wait = move_of(&wrapper, 5);
    assert_eq!(wait.target, p(1_000_000, 0));
    assert_eq!(wait.orientation, Delta { dx: -1_000_000, dy: -500_000 });
    assert_eq!(wait.dribbler, 0);
    // a fast ball is intercepted
    w.ball = Some(ball(0, 0, 0, 2_000_000));
    receiver.step(&w, &mut wrapper);
    assert_eq!(move_of(&wrapper, 5).target, p(0, 500_000));
    // the dribbler runs where the waiting point is within 0.2 m of the ball
    w.ball = Some(ball(1_100_000, 0, 0, 0));
    receiver.step(&w, &mut wrapper);
    assert_eq!(move_of(&wrapper, 5).dribbler, 1);
    // without the passer nothing is done
    let mut lonely = Receiver::new(5, 9, line);
    lonely.step(&w, &mut wrapper);
    assert_eq!(wrapper.front(5), None);
    assert_eq!(receiver.name(), "Receiver");
    assert_eq!(receiver.get_ids(), vec![5]);
}

#[test]
fn marker_stands_between_enemy_and_ball() {
    let mut w = world();
    w.allies_bot.insert(ally(4, 0, 2_000_000, 1_000_000, 0));
    w.enemies_bot.insert(enemy(7, 2_000_000, 0));
    w.ball = Some(ball(1_000_000, 0, 0, 0));
    let go = marking_decision(&w, 4, 7).unwrap();
    // robot 4 is the ally nearest to the ball: it does not avoid itself
    assert_eq!(go.target, p(1_710_000, 0));
    assert_eq!(go.orientation, Delta { dx: 1_000_000, dy: -2_000_000 });
    assert_eq!(go.kick, Some(Kick::StraightKick { power: 0 }));
    assert_eq!(go.dribbler, 0);
    // without the enemy there is nothing to mark
    assert_eq!(marking_decision(&w, 4, 8), None);
    let mut marking = BotMarking::new(4, 7);
    let mut wrapper = ActionWrapper::new();
    assert!(!marking.step(&w, &mut wrapper));
    assert_eq!(move_of(&wrapper, 4).target, p(1_710_000, 0));
    assert_eq!(marking.enemy_id(), 7);
    assert_eq!(marking.name(), "BotMarking");
}

#[test]
fn marker_keeps_out_of_the_way_of_the_attacker() {
    let w = world();
    let attacker = p(0, 0);
    // half a metre from the attacker is too near: 0.59 m on the same line
    assert_eq!(clear_of_attacker(&w, &attacker, &p(300_000, 400_000)), p(354_000, 472_000));
    // between the lines from the attacker to the posts: a quarter of a metre
    // aside, to the side of the nearer line
    assert_eq!(clear_of_attacker(&w, &attacker, &p(2_000_000, 100_000)), p(2_000_000, 350_000));
    assert_eq!(clear_of_attacker(&w, &attacker, &p(2_000_000, -100_000)), p(2_000_000, -350_000));
    // far from the attacker and beside the way to the goal: the point stays
    assert_eq!(clear_of_attacker(&w, &attacker, &p(2_000_000, 2_000_000)), p(2_000_000, 2_000_000));
    assert_eq!(distance(&p(0, 0), &p(3, 4)), 5);
    assert_eq!(distance(&p(0, 0), &p(1, 1)), 1);
    // with another ally nearer to the ball the marker keeps clear of it
    let mut w = world();
    w.allies_bot.insert(ally(4, 0, 2_000_000, 1_000_000, 0));
    w.allies_bot.insert(ally(5, 1_200_000, 0, 1_000_000, 0));
    w.enemies_bot.insert(enemy(7, 2_000_000, 0));
    w.ball = Some(ball(1_000_000, 0, 0, 0));
    let go = marking_decision(&w, 4, 7).unwrap();
    assert_eq!(go.target, clear_of_attacker(&w, &p(1_200_000, 0), &p(1_710_000, 0)));
    assert!(go.target != p(1_710_000, 0));
}

#[test]
fn marker_goes_for_a_ball_that_passes_by() {
    let mut w = world();
    w.allies_bot.insert(ally(4, 0, 500_000, 1_000_000, 0));
    w.enemies_bot.insert(enemy(7, 3_000_000, 3_000_000));
    // the ball rolls along the first axis toward our goal, half a metre from
    // the marker, and not into the enemy goal
    w.ball = Some(ball(1_000_000, 0, -1_000_000, 0));
    let go = marking_decision(&w, 4, 7).unwrap();
    assert_eq!(go.target, p(0, 0));
    assert_eq!(go.dribbler, 0);
    // a ball that rolls into the enemy goal is left alone
    w.ball = Some(ball(1_000_000, 0, 1_000_000, 0));
    let stay = marking_decision(&w, 4, 7).unwrap();
    assert!(stay.target != p(0, 0));
}

#[test]
fn keeper_stands_where_the_ball_comes() {
    let mut w = world();
    w.allies_bot.insert(ally(0, -4_400_000, 0, 1_000_000, 0));
    w.ball = Some(ball(0, 1_000_000, -2_000_000, -500_000));
    let go = keeper_decision(&w, 0).unwrap();
    assert_eq!(go.target, p(-4_500_000, -125_000));
    assert_eq!(go.dribbler, 0);
    assert_eq!(go.kick, None);
    // a ball that comes in beside the goal: the post on that side
    w.ball = Some(ball(0, 0, -1_000_000, 1_000_000));
    assert_eq!(keeper_decision(&w, 0).unwrap().target, p(-4_500_000, 500_000));
    // a ball that rolls away: the point of the goal line nearest to the ball
    w.ball = Some(ball(0, 200_000, 1_000_000, 0));
    assert_eq!(keeper_decision(&w, 0).unwrap().target, p(-4_500_000, 200_000));
    // the ball at the feet of the keeper: it is kicked away
    w.ball = Some(ball(-4_300_000, 0, 0, 0));
    let clear = keeper_decision(&w, 0).unwrap();
    assert_eq!(clear.kick, Some(Kick::StraightKick { power: 4_000_000 }));
    assert!(clear.charge);
    let mut keeper = GoalKeeper::new(0);
    let mut wrapper = ActionWrapper::new();
    assert!(!keeper.step(&w, &mut wrapper));
    assert_eq!(move_of(&wrapper, 0).kick, clear.kick);
    assert_eq!(keeper.name(), "GoalKeeper");
}

#[test]
fn contester_comes_between_ball_and_goal() {
    let mut w = world();
    w.allies_bot.insert(ally(3, -2_000_000, 1_000_000, 1_000_000, 0));
    w.ball = Some(ball(0, 0, 0, 0));
    let go = contesting_decision(&w, 3).unwrap();
    assert_eq!(go.target, p(-111_500, 0));
    assert_eq!(go.kick, None);
    assert_eq!(go.dribbler, 0);
    let mut near = world();
    near.allies_bot.insert(ally(3, -500_000, 0, 1_000_000, 0));
    near.ball = Some(ball(0, 0, 0, 0));
    assert_eq!(contesting_decision(&near, 3).unwrap().dribbler, 1);
    let mut contester = BotContesting::new(3);
    let mut wrapper = ActionWrapper::new();
    assert!(!contester.step(&w, &mut wrapper));
    assert_eq!(move_of(&wrapper, 3).target, p(-111_500, 0));
    assert_eq!(contester.name(), "BotContesting");
}

#[test]
fn wall_stands_across_the_way_of_the_ball() {
    let mut w = world();
    w.allies_bot.insert(ally(1, -4_000_000, 500_000, 1_000_000, 0));
    w.allies_bot.insert(ally(2, -4_000_000, -500_000, 1_000_000, 0));
    w.ball = Some(ball(0, 0, 0, 0));
    let mut wall = DefenseWall::new(vec![1, 2, 9]);
    let mut wrapper = ActionWrapper::new();
    assert!(!wall.step(&w, &mut wrapper));
    // three places two radii apart, one metre in front of the goal; robot 9 is
    // not on the field
    assert_eq!(move_of(&wrapper, 1).target, p(-3_500_000, -180_000));
    assert_eq!(move_of(&wrapper, 2).target, p(-3_500_000, 0));
    assert_eq!(wrapper.front(9), None);
    let mut pair = DefenseWall::with_distance(vec![1, 2], 1_000_000);
    pair.step(&w, &mut wrapper);
    assert_eq!(move_of(&wrapper, 1).target, p(-3_500_000, -90_000));
    assert_eq!(move_of(&wrapper, 2).target, p(-3_500_000, 90_000));
    assert_eq!(move_of(&wrapper, 2).orientation, Delta { dx: 4_000_000, dy: 500_000 });
    assert_eq!(wall.name(), "DefenseWall");
    assert_eq!(wall.get_ids(), vec![1, 2, 9]);
    // without the ball the wall rests
    w.ball = None;
    wall.step(&w, &mut wrapper);
    assert_eq!(wrapper.len(), 0);
}

#[test]
fn goal_kick_formation() {
    let mut w = world();
    w.ball = Some(ball(1_000_000, 0, 0, 0));
    for id in [0u8, 1, 2, 5] {
        w.allies_bot.insert(ally(id, -2_000_000, id as i64 * 100_000, 1_000_000, 0));
    }
    let mut ours = PrepareGoalKick::new(true);
    ours.put_ids(vec![0, 1, 5, 9]);
    let mut wrapper = ActionWrapper::new();
    assert!(!ours.step(&w, &mut wrapper));
    // robot 2 is not of the formation, and the formation has no place for
    // robot 9
    assert_eq!(wrapper.len(), 3);
    assert_eq!(move_of(&wrapper, 0).target, p(-1_000_000, 2_000_000));
    assert_eq!(move_of(&wrapper, 1).target, p(0, 0));
    assert_eq!(move_of(&wrapper, 5).target, p(-4_000_000, 0));
    assert_eq!(move_of(&wrapper, 5).orientation, Delta { dx: 5_000_000, dy: 0 });
    assert_eq!(wrapper.front(2), None);
    assert_eq!(wrapper.front(9), None);
    // a formation without robots moves nobody
    let mut nobody = PrepareGoalKick::new(true);
    let mut wrapper = ActionWrapper::new();
    nobody.step(&w, &mut wrapper);
    assert_eq!(wrapper.len(), 0);

    let mut w = world();
    w.ball = Some(ball(1_000_000, 0, 0, 0));
    w.allies_bot.insert(ally(4, 0, 0, 1_000_000, 0));
    w.allies_bot.insert(ally(1, -2_000_000, 0, 1_000_000, 0));
    let mut theirs = PrepareGoalKick::new(false);
    theirs.put_ids(vec![4, 1, 2]);
    let mut wrapper = ActionWrapper::new();
    theirs.step(&w, &mut wrapper);
    // without an enemy on the field nothing is done
    assert_eq!(wrapper.len(), 0);
    w.enemies_bot.insert(enemy(1, 2_000_000, 0));
    theirs.step(&w, &mut wrapper);
    // the nearest ally stands behind the ball and the two defenders take
    // their places
    assert_eq!(wrapper.len(), 3);
    assert_eq!(move_of(&wrapper, 4).target, p(0, 0));
    assert_eq!(move_of(&wrapper, 1).target, p(-3_000_000, 200_000));
    assert_eq!(move_of(&wrapper, 2).target, p(-3_000_000, -200_000));
    // a defender that the formation does not own is left alone
    let mut fewer = PrepareGoalKick::new(false);
    fewer.put_ids(vec![4, 1]);
    let mut wrapper = ActionWrapper::new();
    fewer.step(&w, &mut wrapper);
    assert_eq!(wrapper.len(), 2);
    assert_eq!(wrapper.front(2), None);
    assert_eq!(theirs.name(), "PrepareGoalKick");
    assert_eq!(theirs.get_ids(), vec![4, 1, 2]);
}

#[test]
fn goal_kick_formation_skips_without_the_ball() {
    let stale = Action::MoveTo(MoveTo::new(p(1, 1), Delta { dx: 0, dy: 0 }, 0, false, None, false));
    for ally_kick in [true, false] {
        let mut w = world();
        for id in [0u8, 1, 2, 3, 4, 5] {
            w.allies_bot.insert(ally(id, -2_000_000, id as i64 * 100_000, 1_000_000, 0));
        }
        w.enemies_bot.insert(enemy(1, 2_000_000, 0));
        let mut formation = PrepareGoalKick::new(ally_kick);
        formation.put_ids(vec![1, 2, 5]);
        let mut wrapper = ActionWrapper::new();
        wrapper.push(1, stale);
        wrapper.push(7, stale);
        wrapper.push(5, stale);
        assert!(!formation.step(&w, &mut wrapper));
        // the queues of its robots are emptied and nothing is pushed
        assert_eq!(wrapper.len(), 1);
        assert_eq!(wrapper.front(7), Some(stale));
        for id in [0u8, 1, 2, 3, 4, 5] {
            assert_eq!(wrapper.front(id), None);
        }
    }
}

#[test]
fn free_kick_formation() {
    let mut w = world();
    w.ball = Some(ball(1_000_000, -500_000, 0, 0));
    w.allies_bot.insert(ally(4, 0, 0, 1_000_000, 0));
    w.allies_bot.insert(ally(6, 1_000_000, -400_000, 1_000_000, 0));
    let mut ours = PrepareFreeKick::new(true);
    ours.put_ids(vec![4, 5]);
    let mut wrapper = ActionWrapper::new();
    assert!(!ours.step(&w, &mut wrapper));
    // robot 6 is nearest but not of the formation, robot 5 is not on the
    // field: robot 4 takes the kick and nobody waits for the pass
    assert_eq!(wrapper.len(), 1);
    assert_eq!(move_of(&wrapper, 4).target, p(0, -500_000));
    w.allies_bot.insert(ally(5, 900_000, 0, 1_000_000, 0));
    let mut wrapper = ActionWrapper::new();
    ours.step(&w, &mut wrapper);
    assert_eq!(wrapper.len(), 2);
    assert_eq!(move_of(&wrapper, 5).target, p(0, -500_000));
    assert_eq!(move_of(&wrapper, 4).target, p(0, 1_500_000));
    // against their kick the three robots of the formation nearest to the
    // ball make a wall, the keeper left out
    w.allies_bot.insert(ally(0, 1_000_000, -450_000, 1_000_000, 0));
    w.allies_bot.insert(ally(1, -2_000_000, 0, 1_000_000, 0));
    w.allies_bot.insert(ally(2, -3_000_000, 0, 1_000_000, 0));
    let mut theirs = PrepareFreeKick::new(false);
    theirs.put_ids(vec![0, 1, 2, 4, 5]);
    let mut wrapper = ActionWrapper::new();
    theirs.step(&w, &mut wrapper);
    assert_eq!(wrapper.len(), 3);
    assert!(wrapper.front(5).is_some());
    assert!(wrapper.front(4).is_some());
    assert!(wrapper.front(1).is_some());
    assert_eq!(wrapper.front(0), None);
    assert_eq!(wrapper.front(2), None);
    assert_eq!(wrapper.front(6), None);
    assert_eq!(theirs.name(), "PrepareFreeKick");
    // without the ball both only empty the queues of their robots
    w.ball = None;
    ours.step(&w, &mut wrapper);
    assert_eq!(wrapper.len(), 1);
    assert!(wrapper.front(1).is_some());
    theirs.step(&w, &mut wrapper);
    assert_eq!(wrapper.len(), 0);
}

#[test]
fn robots_leave_the_way_of_a_placement() {
    let mut w = world();
    w.data.ref_orders = RefereeOrders::new(GameState::Stopped(StoppedState::BallPlacement(TeamColor::Yellow)), None);
    w.data.ref_orders.min_dist_from_ball = Some(1_500_000);
    w.ball = Some(ball(0, 0, 0, 0));
    w.allies_bot.insert(ally(4, 1_000_000, 300_000, 0, 1_000_000));
    w.allies_bot.insert(ally(5, 1_000_000, 3_000_000, 0, 1_000_000));
    let mut away = MoveAwayBallPlacement::new(vec![4, 5, 6], p(2_000_000, 0));
    let mut wrapper = ActionWrapper::new();
    assert!(!away.step(&w, &mut wrapper));
    assert_eq!(move_of(&wrapper, 4).target, p(1_000_000, 1_500_000));
    assert_eq!(move_of(&wrapper, 4).orientation, Delta { dx: 0, dy: 1_000_000 });
    assert_eq!(wrapper.front(5), None);
    // without an order to keep away nobody moves
    w.data.ref_orders.min_dist_from_ball = None;
    away.step(&w, &mut wrapper);
    assert_eq!(wrapper.len(), 0);
    // without the ball the queues of its robots are emptied and nothing more
    w.data.ref_orders.min_dist_from_ball = Some(1_500_000);
    away.step(&w, &mut wrapper);
    assert_eq!(wrapper.len(), 1);
    w.ball = None;
    away.step(&w, &mut wrapper);
    assert_eq!(wrapper.len(), 0);
    assert_eq!(away.name(), "MoveAwayBallPlacement");
}

#[test]
fn trial_of_moves_goes_forth_and_back() {
    let mut w = world();
    w.ball = Some(ball(3_000_000, 0, 0, 0));
    w.allies_bot.insert(ally(2, -1_000_000, 50_000, 1_000_000, 0));
    w.allies_bot.insert(ally(7, 0, 0, 1_000_000, 0));
    let mut trial = TestVisionMoveTo::new(vec![2]);
    let mut wrapper = ActionWrapper::new();
    let stale = Action::MoveTo(MoveTo::new(p(1, 1), Delta { dx: 0, dy: 0 }, 0, false, None, false));
    wrapper.push(9, stale);
    wrapper.push(2, stale);
    assert_eq!(trial.status(), TestVisionMoveToStatus::Placement);
    assert!(!trial.step(&w, &mut wrapper));
    // every queue is emptied, and robot 2 is sent to its column on the first
    // axis
    assert_eq!(wrapper.len(), 1);
    assert_eq!(wrapper.front(9), None);
    assert_eq!(move_of(&wrapper, 2).target, p(-1_000_000, 0));
    assert_eq!(move_of(&wrapper, 2).orientation, Delta { dx: 500_000, dy: 866_025 });
    // it stands within 0.1 m of it: the trial moves on
    assert_eq!(trial.status(), TestVisionMoveToStatus::MovingForward);
    trial.step(&w, &mut wrapper);
    assert_eq!(move_of(&wrapper, 2).target, p(-1_000_000, 1_000_000));
    assert_eq!(trial.status(), TestVisionMoveToStatus::MovingForward);
    w.allies_bot.insert(ally(2, -1_000_000, 1_000_000, 1_000_000, 0));
    // without the ball the trial rests: only the queue of its robot is
    // emptied, nothing is pushed, and the status stays
    w.ball = None;
    wrapper.push(9, stale);
    trial.step(&w, &mut wrapper);
    assert_eq!(wrapper.front(2), None);
    assert_eq!(wrapper.len(), 1);
    assert_eq!(wrapper.front(9), Some(stale));
    assert_eq!(trial.status(), TestVisionMoveToStatus::MovingForward);
    w.ball = Some(ball(3_000_000, 0, 0, 0));
    trial.step(&w, &mut wrapper);
    assert_eq!(trial.status(), TestVisionMoveToStatus::MovingBackwards);
    trial.step(&w, &mut wrapper);
    assert_eq!(move_of(&wrapper, 2).target, p(-1_000_000, -1_000_000));
    assert_eq!(twelfth(0), Delta { dx: 1_000_000, dy: 0 });
    assert_eq!(twelfth(15), Delta { dx: 0, dy: 1_000_000 });
    assert_eq!(twelfth(9), Delta { dx: 0, dy: -1_000_000 });
    let mut left = GoLeft::new(3);
    left.step(&w, &mut wrapper);
    assert_eq!(left.name(), "GoLeft");
}

#[test]
fn action_wrapper_queues() {
    let a = Action::MoveTo(MoveTo::new(p(1, 1), Delta { dx: 0, dy: 0 }, 0, false, None, false));
    let b = Action::MoveTo(MoveTo::new(p(2, 2), Delta { dx: 0, dy: 0 }, 0, false, None, false));
    let mut wrapper = ActionWrapper::new();
    wrapper.push(1, a);
    wrapper.push(2, b);
    wrapper.push(1, b);
    assert_eq!(wrapper.len(), 3);
    assert_eq!(wrapper.front(1), Some(a));
    wrapper.clear(1);
    assert_eq!(wrapper.front(1), None);
    assert_eq!(wrapper.front(2), Some(b));
    wrapper.replace(2, Some(MoveTo::new(p(1, 1), Delta { dx: 0, dy: 0 }, 0, false, None, false)));
    assert_eq!(wrapper.front(2), Some(a));
    assert_eq!(wrapper.len(), 1);
    wrapper.replace(2, None);
    assert_eq!(wrapper.len(), 0);
    wrapper.push(3, a);
    wrapper.clear_all();
    assert_eq!(wrapper.len(), 0);
}
