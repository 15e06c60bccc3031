//! The filter stage as a whole: one tick lays down what came in, runs the
//! filters and writes the view of the field.

use vstd::prelude::*;
use crate::ball_filter::spec_ball_of;
use crate::ball_filter::BallFilter;
use crate::filter::handle_camera_robots;
use crate::filter::map_camera_ball;
use crate::filter::map_camera_robots;
use crate::filter::spec_ball_seen;
use crate::filter::spec_map_camera_ball;
use crate::filter::spec_map_camera_robots;
use crate::filter::spec_robots_seen;
use crate::filter::CommonConfig;
use crate::filter::FilterConfig;
use crate::filter::FilterData;
use crate::filter::InboundData;
use crate::filter::SslDetectionBall;
use crate::filter::SslDetectionFrame;
use crate::filter::TrackedView;
use crate::filter::VisionPacket;
use crate::game_controller::GameControllerPostFilter;
use crate::game_controller::StateData;
use crate::passthrough::spec_ball_passed;
use crate::passthrough::spec_robot_passed;
use crate::filter::Filter;
use crate::passthrough::PassthroughFilter;
use crate::referee::Referee;
use crate::team_side::publish_robots;
use crate::team_side::spec_ball_side;
use crate::team_side::spec_published;
use crate::team_side::spec_robots_side;
use crate::team_side::TeamSideFilter;
use crate::world::AllyInfo;
use crate::world::Ball;
use crate::world::EnemyInfo;
use crate::world::Robot;
use crate::world::TeamColor;
use crate::world::World;

verus! {

/// What the filters keep between two ticks, as the contracts see it.
pub struct FilterView {
    pub allies: Seq<TrackedView<Robot<AllyInfo>>>,
    pub enemies: Seq<TrackedView<Robot<EnemyInfo>>>,
    pub ball: Option<TrackedView<Ball>>,
    pub referee: Seq<Referee>,
}

impl FilterData {
    /// What is kept, as the contracts see it.
    pub open spec fn view(&self) -> FilterView {
        FilterView {
            allies: self.allies@,
            enemies: self.enemies@,
            ball: self.spec_ball(),
            referee: self.referee@,
        }
    }
}

/// The followed ball after the first `upto` balls of a frame were laid down.
pub open spec fn spec_balls_seen(
    ball: Option<TrackedView<Ball>>,
    balls: Seq<SslDetectionBall>,
    camera_id: u32,
    frame_number: u32,
    time: i64,
    now: i64,
    upto: int,
) -> Option<TrackedView<Ball>>
    decreases upto,
{
    if upto <= 0 {
        ball
    } else {
        spec_ball_seen(
            spec_balls_seen(ball, balls, camera_id, frame_number, time, now, upto - 1),
            spec_map_camera_ball(balls[upto - 1], camera_id, frame_number, time),
            now,
        )
    }
}

/// What is kept after one frame was laid down: the robots in the colour of
/// our team with our robots, the others with theirs, the balls with the ball.
pub open spec fn spec_frame_seen(
    kept: FilterView,
    frame: SslDetectionFrame,
    yellow: bool,
    now: i64,
) -> FilterView {
    let in_yellow = spec_map_camera_robots(
        frame.robots_yellow@,
        frame.camera_id,
        frame.frame_number,
        frame.t_capture,
        frame.robots_yellow@.len() as int,
    );
    let in_blue = spec_map_camera_robots(
        frame.robots_blue@,
        frame.camera_id,
        frame.frame_number,
        frame.t_capture,
        frame.robots_blue@.len() as int,
    );
    let ours = if yellow {
        in_yellow
    } else {
        in_blue
    };
    let theirs = if yellow {
        in_blue
    } else {
        in_yellow
    };
    FilterView {
        allies: spec_robots_seen(kept.allies, ours, AllyInfo, now, ours.len() as int),
        enemies: spec_robots_seen(kept.enemies, theirs, EnemyInfo, now, theirs.len() as int),
        ball: spec_balls_seen(
            kept.ball,
            frame.balls@,
            frame.camera_id,
            frame.frame_number,
            frame.t_capture,
            now,
            frame.balls@.len() as int,
        ),
        referee: kept.referee,
    }
}

/// What is kept after the first `upto` packets of the vision were laid down.
pub open spec fn spec_packets_seen(
    kept: FilterView,
    packets: Seq<VisionPacket>,
    yellow: bool,
    now: i64,
    upto: int,
) -> FilterView
    decreases upto,
{
    if upto <= 0 {
        kept
    } else {
        let before = spec_packets_seen(kept, packets, yellow, now, upto - 1);
        match packets[upto - 1].detection {
            Some(frame) => spec_frame_seen(before, frame, yellow, now),
            None => before,
        }
    }
}

/// What is kept after the plainest filter.
pub open spec fn spec_passed(kept: FilterView) -> FilterView {
    FilterView {
        allies: Seq::new(kept.allies.len(), |i: int| spec_robot_passed(kept.allies[i])),
        enemies: Seq::new(kept.enemies.len(), |i: int| spec_robot_passed(kept.enemies[i])),
        ball: spec_ball_passed(kept.ball),
        referee: kept.referee,
    }
}

/// What is kept after the filter that turns the field round.
pub open spec fn spec_sided(kept: FilterView, world: World) -> FilterView {
    if world.team_color == world.data.positive_half {
        FilterView {
            allies: spec_robots_side(kept.allies, world.allies_bot@),
            enemies: spec_robots_side(kept.enemies, world.enemies_bot@),
            ball: match kept.ball {
                Some(followed) => Some(
                    TrackedView { data: spec_ball_side(followed.data, world.ball), ..followed },
                ),
                None => None,
            },
            referee: kept.referee,
        }
    } else {
        kept
    }
}

/// What is kept after one tick of the filter stage.
pub open spec fn spec_filtered(
    kept: FilterView,
    data: InboundData,
    yellow: bool,
    world: World,
    now: i64,
) -> FilterView {
    let seen = spec_packets_seen(
        kept,
        data.vision_packet@,
        yellow,
        now,
        data.vision_packet@.len() as int,
    );
    spec_sided(spec_passed(FilterView { referee: data.gc_packet@, ..seen }), world)
}

/// The filter stage.
pub struct FilterPipeline {
    pub passthrough: PassthroughFilter,
    pub team_side: TeamSideFilter,
    pub game_controller: GameControllerPostFilter,
    pub ball_filter: BallFilter,
    pub filter_data: FilterData,
    /// Whether our team plays in yellow.
    pub yellow: bool,
}

impl FilterPipeline {
    /// No window holds more than fifty detections.
    pub open spec fn wf(&self) -> bool {
        self.filter_data.wf()
    }

    /// A filter stage that follows nothing yet.
    pub fn with_config_boxed(_config: FilterConfig, common_config: &CommonConfig) -> (r: Box<
        FilterPipeline,
    >)
        ensures
            r.wf(),
            r.yellow == common_config.yellow,
            r.filter_data@ == (FilterView {
                allies: Seq::empty(),
                enemies: Seq::empty(),
                ball: None,
                referee: Seq::empty(),
            }),
            r.game_controller.spec_timer() is None,
            r.game_controller.spec_state_data() == StateData::spec_initial(),
    {
        Box::new(
            FilterPipeline {
                passthrough: PassthroughFilter,
                team_side: TeamSideFilter,
                game_controller: GameControllerPostFilter::new(),
                ball_filter: BallFilter,
                filter_data: FilterData::new(),
                yellow: common_config.yellow,
            },
        )
    }

    /// Lays one frame down.
    fn see_frame(&mut self, frame: &SslDetectionFrame, now: i64)
        requires
            old(self).wf(),
        ensures
            final(self).wf(),
            final(self).filter_data@ == spec_frame_seen(
                old(self).filter_data@,
                *frame,
                old(self).yellow,
                now,
            ),
            final(self).yellow == old(self).yellow,
            final(self).game_controller == old(self).game_controller,
    {
        let in_yellow = map_camera_robots(
            &frame.robots_yellow,
            frame.camera_id,
            frame.frame_number,
            frame.t_capture,
        );
        let in_blue = map_camera_robots(
            &frame.robots_blue,
            frame.camera_id,
            frame.frame_number,
            frame.t_capture,
        );
        if self.yellow {
            handle_camera_robots(&mut self.filter_data.allies, &in_yellow, AllyInfo, now);
            handle_camera_robots(&mut self.filter_data.enemies, &in_blue, EnemyInfo, now);
        } else {
            handle_camera_robots(&mut self.filter_data.allies, &in_blue, AllyInfo, now);
            handle_camera_robots(&mut self.filter_data.enemies, &in_yellow, EnemyInfo, now);
        }
        let mut i: usize = 0;
        while i < frame.balls.len()
            invariant
                0 <= i <= frame.balls.len(),
                self.wf(),
                self.yellow == old(self).yellow,
                self.game_controller == old(self).game_controller,
                self.filter_data.referee == old(self).filter_data.referee,
                self.filter_data.allies@ == spec_frame_seen(
                    old(self).filter_data@,
                    *frame,
                    old(self).yellow,
                    now,
                ).allies,
                self.filter_data.enemies@ == spec_frame_seen(
                    old(self).filter_data@,
                    *frame,
                    old(self).yellow,
                    now,
                ).enemies,
                self.filter_data.spec_ball() == spec_balls_seen(
                    old(self).filter_data.spec_ball(),
                    frame.balls@,
                    frame.camera_id,
                    frame.frame_number,
                    frame.t_capture,
                    now,
                    i as int,
                ),
            decreases frame.balls.len() - i,
        {
            let seen = map_camera_ball(
                &frame.balls[i],
                frame.camera_id,
                frame.frame_number,
                frame.t_capture,
            );
            self.filter_data.see_ball(seen, now);
            i += 1;
        }
    }

    /// One tick of the filter stage. What came in from the cameras is laid
    /// down; the plainest filter and the filter that turns the field round
    /// run; the followed robots are put into the view of the field; the
    /// commands of the referee are turned into the state of play; the ball is put into the view
    /// of the field with its owner.
    ///
    /// Every window still holds fifty detections at most, the orders stay
    /// consistent, and in a free kick, a kick-off or a penalty the ball
    /// belongs to the team that takes it.
    pub fn step(&mut self, data: InboundData, world: &mut World, now: i64) -> (r: Option<World>)
        requires
            old(self).wf(),
        ensures
            r is None,
            final(self).wf(),
            final(self).yellow == old(self).yellow,
            final(self).filter_data@ == spec_filtered(
                old(self).filter_data@,
                data,
                old(self).yellow,
                *old(world),
                now,
            ),
            final(world).allies_bot@ == spec_published(
                old(world).allies_bot@,
                final(self).filter_data@.allies,
                final(self).filter_data@.allies.len() as int,
            ),
            final(world).enemies_bot@ == spec_published(
                old(world).enemies_bot@,
                final(self).filter_data@.enemies,
                final(self).filter_data@.enemies.len() as int,
            ),
            old(world).allies_bot.wf() ==> final(world).allies_bot.wf(),
            old(world).enemies_bot.wf() ==> final(world).enemies_bot.wf(),
            final(world).geometry == old(world).geometry,
            final(world).team_color == old(world).team_color,
            old(world).data.ref_orders.consistent() ==> final(world).data.ref_orders.consistent(),
            data.gc_packet@.len() > 0 ==> {
                let outcome = GameControllerPostFilter::spec_step(
                    old(self).game_controller.spec_timer(),
                    old(self).game_controller.spec_state_data(),
                    data.gc_packet@.last(),
                    *old(world),
                    now,
                );
                &&& final(self).game_controller.spec_timer() == outcome.timer
                &&& final(self).game_controller.spec_state_data() == outcome.state_data
                &&& final(world).data.ref_orders == outcome.ref_orders
                &&& final(world).data.positive_half == outcome.positive_half
                &&& final(world).data.kicked_off_once == outcome.kicked_off_once
                &&& final(world).data.ally.score == outcome.ally_score
                &&& final(world).data.enemy.score == outcome.enemy_score
            },
            data.gc_packet@.len() == 0 ==> final(world).data == old(world).data
                && final(self).game_controller == old(self).game_controller,
            final(world).ball == spec_ball_of(
                match final(self).filter_data@.ball {
                    Some(followed) => Some(followed.data),
                    None => None,
                },
                old(world).ball,
                final(world).allies_bot@,
                final(world).enemies_bot@,
                final(world).data.ref_orders.state,
                final(world).team_color,
            ),
            forall|team: TeamColor|
                final(world).data.ref_orders.state.spec_awarded_team() == Some(team)
                    && final(world).ball is Some ==> final(world).ball.unwrap().possession
                    == Some(team),
    {
        let mut i: usize = 0;
        while i < data.vision_packet.len()
            invariant
                0 <= i <= data.vision_packet.len(),
                self.wf(),
                self.yellow == old(self).yellow,
                self.game_controller == old(self).game_controller,
                self.filter_data@ == spec_packets_seen(
                    old(self).filter_data@,
                    data.vision_packet@,
                    old(self).yellow,
                    now,
                    i as int,
                ),
            decreases data.vision_packet.len() - i,
        {
            match &data.vision_packet[i].detection {
                Some(frame) => {
                    self.see_frame(frame, now);
                },
                None => {},
            }
            i += 1;
        }
        self.filter_data.referee = data.gc_packet;
        self.passthrough.step(&mut self.filter_data, world);
        proof {
            let seen = spec_packets_seen(
                old(self).filter_data@,
                data.vision_packet@,
                old(self).yellow,
                now,
                data.vision_packet@.len() as int,
            );
            let before = FilterView { referee: data.gc_packet@, ..seen };
            assert(self.filter_data@.allies =~= spec_passed(before).allies);
            assert(self.filter_data@.enemies =~= spec_passed(before).enemies);
        }
        self.team_side.step(&mut self.filter_data, world);
        publish_robots(&self.filter_data.allies, &mut world.allies_bot);
        publish_robots(&self.filter_data.enemies, &mut world.enemies_bot);
        self.game_controller.step(&self.filter_data, world, now);
        self.ball_filter.step(&self.filter_data, world);
        None
    }
}

} // verus!
