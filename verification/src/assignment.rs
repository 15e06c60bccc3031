//! How the manager gives the robots their strategies while the ball is on
//! the field: the wall in front of our goal, the attacker or the contester,
//! and the markers.

use vstd::prelude::*;
use crate::attacker::Attacker;
use crate::bigbro::lemma_first_in_role;
use crate::bigbro::spec_first_in_role;
use crate::bigbro::BigBro;
use crate::bot_marking::BotMarking;
use crate::defensive::BotContesting;
use crate::defensive::DefenseWall;
use crate::defensive::GoalKeeper;
use crate::defensive::DEFAULT_WALL_DISTANCE;
use crate::partition::keeper_pinned;
use crate::origin::drawn;
use crate::origin::from_field;
use crate::origin::lemma_detach_all_drawn;
use crate::origin::lemma_drawn_chain;
use crate::origin::lemma_drawn_same;
use crate::origin::lemma_move_to_new_drawn;
use crate::origin::lemma_push_drawn;
use crate::partition::distinct;
use crate::partition::lemma_count_contains;
use crate::partition::lemma_counts_distinct;
use crate::partition::lemma_occurrences_push;
use crate::partition::spec_occurrences;
use crate::partition::lemma_detach_all;
use crate::partition::lemma_move_to_new_alone;
use crate::partition::lemma_move_to_new_keeper;
use crate::partition::lemma_move_to_new_there;
use crate::partition::lemma_move_to_new_well_formed;
use crate::partition::lemma_push_keeper;
use crate::partition::lemma_push_well_formed;
use crate::partition::owns_alone;
use crate::partition::shaped;
use crate::partition::spec_count_in;
use crate::partition::spec_detach_all;
use crate::partition::spec_fresh;
use crate::partition::spec_move_to_new;
use crate::partition::well_formed;
use crate::strategy::Role;
use crate::strategy::Strategy;
use crate::strategy::StrategyKind;
use crate::strategy::StrategyView;
use crate::utils::closest_bots_to_point;
use crate::utils::collect_refs;
use crate::utils::contains_id;
use crate::utils::copy_refs;
use crate::utils::filter_robots_behind_point;
use crate::utils::filter_robots_not_in_ids;
use crate::utils::all_of;
use crate::utils::ascending_by_distance;
use crate::utils::distinct_refs;
use crate::utils::lemma_all_of;
use crate::utils::lemma_behind_point;
use crate::utils::lemma_closest_bots;
use crate::utils::lemma_closest_distinct;
use crate::utils::lemma_closest_none;
use crate::utils::lemma_closest_same;
use crate::utils::lemma_filters_ascending;
use crate::utils::lemma_not_in_ids;
use crate::utils::lemma_not_in_ids_none;
use crate::utils::lemma_refs;
use crate::utils::lemma_robot_found;
use crate::utils::lemma_robot_in;
use crate::utils::lemma_robot_present;
use crate::utils::none_is;
use crate::utils::spec_closest_bots;
use crate::utils::spec_filter_robots_behind_point;
use crate::utils::spec_filter_robots_not_in_ids;
use crate::utils::spec_refs;
use crate::utils::ENEMY_KEEPER_ID;
use crate::utils::KEEPER_ID;
use crate::world::AllyInfo;
use crate::world::Ball;
use crate::world::EnemyInfo;
use crate::world::Robot;
use crate::world::World;

verus! {

/// Distance to the ball beyond which the attacker or the contester gives
/// way to a robot that is nearer (1.2 m).
pub const GIVE_WAY_DISTANCE: i64 = 1_200_000;

/// Number of robots in the wall in front of our goal.
pub const WALL_SIZE: usize = 2;

/// The identifiers of the first [`WALL_SIZE`] of the first `upto` robots of
/// `bots`, none taken twice.
pub open spec fn spec_first_two<'a>(bots: Seq<&'a Robot<AllyInfo>>, upto: int) -> Seq<u8>
    decreases upto,
{
    if upto <= 0 {
        Seq::empty()
    } else {
        let before = spec_first_two(bots, upto - 1);
        let id = bots[upto - 1].id;
        if before.len() < WALL_SIZE && !before.contains(id) {
            before.push(id)
        } else {
            before
        }
    }
}

/// `spec_first_two` gives at most two identifiers of `bots`, none twice.
pub proof fn lemma_first_two<'a>(bots: Seq<&'a Robot<AllyInfo>>, upto: int)
    requires
        0 <= upto <= bots.len(),
    ensures
        spec_first_two(bots, upto).len() <= WALL_SIZE,
        forall|id: u8| spec_count_in(spec_first_two(bots, upto), id) <= 1,
        forall|k: int|
            0 <= k < spec_first_two(bots, upto).len() ==> exists|j: int|
                0 <= j < upto && bots[j].id == #[trigger] spec_first_two(bots, upto)[k],
    decreases upto,
{
    if upto > 0 {
        lemma_first_two(bots, upto - 1);
        let before = spec_first_two(bots, upto - 1);
        let out = spec_first_two(bots, upto);
        let id = bots[upto - 1].id;
        assert forall|x: u8| spec_count_in(out, x) <= 1 by {
            assert(spec_count_in(before, x) <= 1);
            if before.len() < WALL_SIZE && !before.contains(id) {
                crate::partition::lemma_count_push(before, id, x);
                lemma_count_contains(before, id);
            }
        }
        assert forall|k: int| 0 <= k < out.len() implies exists|j: int|
            0 <= j < upto && bots[j].id == #[trigger] out[k] by {
            if k < before.len() {
                assert(out[k] == before[k]);
                let j = choose|j: int| 0 <= j < upto - 1 && bots[j].id == before[k];
                assert(bots[j].id == out[k]);
            } else {
                assert(bots[upto - 1].id == out[k]);
            }
        }
    }
}

/// Of robots without repetition, `spec_first_two` gives the first two, or
/// all if they are fewer.
pub proof fn lemma_first_two_distinct<'a>(bots: Seq<&'a Robot<AllyInfo>>, upto: int)
    requires
        0 <= upto <= bots.len(),
        distinct_refs(bots),
    ensures
        spec_first_two(bots, upto).len() == if upto < WALL_SIZE {
            upto
        } else {
            WALL_SIZE as int
        },
        forall|k: int|
            0 <= k < spec_first_two(bots, upto).len() ==> #[trigger] spec_first_two(bots, upto)[k]
                == bots[k].id,
    decreases upto,
{
    if upto > 0 {
        lemma_first_two_distinct(bots, upto - 1);
        let before = spec_first_two(bots, upto - 1);
        if before.len() < WALL_SIZE {
            if before.contains(bots[upto - 1].id) {
                let k = choose|k: int| 0 <= k < before.len() && before[k] == bots[upto - 1].id;
                assert(bots[k].id != bots[upto - 1].id);
            }
        }
    }
}

/// The robots that make a new wall: the two allies nearest to the middle of
/// our goal, the goalkeeper left out.
pub open spec fn spec_wall_picks(world: World) -> Seq<u8> {
    let nearest = spec_closest_bots(
        spec_filter_robots_not_in_ids(spec_refs::<AllyInfo>(world.allies_bot@), seq![KEEPER_ID]),
        world.geometry.ally_goal.spec_line().spec_center(),
    );
    spec_first_two(nearest, nearest.len() as int)
}

/// The number of allies on the field, the goalkeeper left out.
pub open spec fn spec_field_players(world: World) -> nat {
    spec_filter_robots_not_in_ids(spec_refs::<AllyInfo>(world.allies_bot@), seq![KEEPER_ID]).len()
}

/// Each of `picks` is on the field, and no ally on the field that is
/// neither the goalkeeper nor among `picks` is nearer to the middle of our
/// goal than one of them.
pub open spec fn nearest_to_goal(world: World, picks: Seq<u8>) -> bool {
    let goal = world.geometry.ally_goal.spec_line().spec_center();
    &&& forall|k: int| 0 <= k < picks.len() ==> world.allies_bot.spec_get(#[trigger] picks[k]) is Some
    &&& forall|k: int, id: u8|
        0 <= k < picks.len() && id != KEEPER_ID && !picks.contains(id) && world.allies_bot.spec_get(
            id,
        ) is Some ==> world.allies_bot.spec_get(#[trigger] picks[k]).unwrap().spec_dist2_to(goal)
            <= (#[trigger] world.allies_bot.spec_get(id)).unwrap().spec_dist2_to(goal)
}

/// The robots of a new wall are two, or all the allies but the goalkeeper
/// if those are fewer; none is the goalkeeper, none comes twice, and they
/// are the nearest to the middle of our goal.
pub proof fn lemma_wall_picks(world: World)
    ensures
        distinct(spec_wall_picks(world)),
        forall|k: int|
            0 <= k < spec_wall_picks(world).len() ==> #[trigger] spec_wall_picks(world)[k]
                != KEEPER_ID,
        world.allies_bot.wf() ==> spec_wall_picks(world).len() == if spec_field_players(world)
            < WALL_SIZE {
            spec_field_players(world)
        } else {
            WALL_SIZE as nat
        },
        world.allies_bot.wf() ==> nearest_to_goal(world, spec_wall_picks(world)),
{
    let team = world.allies_bot@;
    let goal = world.geometry.ally_goal.spec_line().spec_center();
    let allies = spec_refs::<AllyInfo>(team);
    let free = spec_filter_robots_not_in_ids(allies, seq![KEEPER_ID]);
    let nearest = spec_closest_bots(free, goal);
    let picks = spec_wall_picks(world);
    lemma_first_two(nearest, nearest.len() as int);
    lemma_counts_distinct(picks);
    lemma_single_contains(KEEPER_ID);
    lemma_not_in_ids_none(allies, seq![KEEPER_ID], KEEPER_ID);
    lemma_closest_none(free, goal, KEEPER_ID);
    assert forall|k: int| 0 <= k < picks.len() implies #[trigger] picks[k] != KEEPER_ID by {
        let j = choose|j: int| 0 <= j < nearest.len() && nearest[j].id == picks[k];
        assert(nearest[j].id != KEEPER_ID);
    }
    lemma_closest_bots(free, goal);
    if world.allies_bot.wf() {
        lemma_refs::<AllyInfo>(team);
        lemma_not_in_ids(allies, seq![KEEPER_ID]);
        lemma_closest_distinct(free, goal);
        lemma_closest_same(free, goal);
        lemma_first_two_distinct(nearest, nearest.len() as int);
        // each robot of `nearest` is the robot that the team has under its
        // identifier
        assert forall|t: int| 0 <= t < nearest.len() implies world.allies_bot.spec_get(
            (#[trigger] nearest[t]).id,
        ) == Some(*nearest[t]) by {
            assert(free.contains(nearest[t]));
            let f = choose|f: int| 0 <= f < free.len() && free[f] == nearest[t];
            assert(allies.contains(free[f]));
            let a = choose|a: int| 0 <= a < allies.len() && allies[a] == free[f];
            assert(team.contains(*allies[a]));
            lemma_robot_in(team, *nearest[t]);
        }
        assert forall|k: int| 0 <= k < picks.len() implies world.allies_bot.spec_get(
            #[trigger] picks[k],
        ) is Some by {
            assert(picks[k] == nearest[k].id);
        }
        assert forall|k: int, id: u8|
            0 <= k < picks.len() && id != KEEPER_ID && !picks.contains(id)
                && world.allies_bot.spec_get(id) is Some implies world.allies_bot.spec_get(
            #[trigger] picks[k],
        ).unwrap().spec_dist2_to(goal) <= (#[trigger] world.allies_bot.spec_get(
            id,
        )).unwrap().spec_dist2_to(goal) by {
            let robot = world.allies_bot.spec_get(id).unwrap();
            lemma_robot_found(team, id);
            let a = choose|a: int| 0 <= a < team.len() && team[a] == robot;
            assert(*allies[a] == robot);
            assert(!seq![KEEPER_ID].contains(allies[a].id)) by {
                if seq![KEEPER_ID].contains(allies[a].id) {
                    let w = choose|w: int| 0 <= w < 1 && seq![KEEPER_ID][w] == allies[a].id;
                }
            }
            assert(free.contains(allies[a]));
            let f = choose|f: int| 0 <= f < free.len() && free[f] == allies[a];
            assert(nearest.contains(free[f]));
            let t = choose|t: int| 0 <= t < nearest.len() && nearest[t] == free[f];
            assert(nearest[t].id == id);
            if t < picks.len() {
                assert(picks[t] == nearest[t].id);
            }
            assert(picks[k] == nearest[k].id);
            assert(world.allies_bot.spec_get(nearest[k].id) == Some(*nearest[k]));
            assert(nearest[k].spec_dist2_to(goal) <= nearest[t].spec_dist2_to(goal));
        }
    }
}

/// A strategy in the role `role` owns `ids` and nothing else.
pub open spec fn owns_all(strategies: Seq<StrategyView>, role: Role, ids: Seq<u8>) -> bool {
    exists|i: int|
        0 <= i < strategies.len() && (#[trigger] strategies[i]).kind.spec_role() == role
            && strategies[i].ids == ids
}

/// The strategies once there is a wall, with the robots of the wall: the
/// wall that is there stays; else the robots of `spec_wall_picks` leave their
/// strategies and make a wall, which comes last; without such robots nothing
/// changes.
pub open spec fn spec_attribute_defense_wall(strategies: Seq<StrategyView>, world: World) -> (
    Seq<StrategyView>,
    Seq<u8>,
) {
    let at = spec_first_in_role(strategies, Role::DefenseWall);
    if at < strategies.len() {
        (strategies, strategies[at].ids)
    } else {
        let picks = spec_wall_picks(world);
        if picks.len() == 0 {
            (strategies, picks)
        } else {
            (
                spec_detach_all(strategies, picks, picks.len() as int).push(
                    spec_fresh(StrategyKind::DefenseWall { distance: DEFAULT_WALL_DISTANCE }, picks),
                ),
                picks,
            )
        }
    }
}

/// Making the wall keeps the rule of the manager and the goalkeeper
/// strategy. Where it has robots, a wall owns exactly them, and under the
/// rule nobody else owns one of them; the strategies are drawn from those
/// before.
pub proof fn lemma_attribute_defense_wall(strategies: Seq<StrategyView>, world: World)
    ensures
        well_formed(strategies) ==> well_formed(
            spec_attribute_defense_wall(strategies, world).0,
        ),
        keeper_pinned(strategies) ==> keeper_pinned(
            spec_attribute_defense_wall(strategies, world).0,
        ),
        spec_attribute_defense_wall(strategies, world).1.len() > 0 ==> owns_all(
            spec_attribute_defense_wall(strategies, world).0,
            Role::DefenseWall,
            spec_attribute_defense_wall(strategies, world).1,
        ),
        well_formed(strategies) ==> forall|k: int|
            0 <= k < spec_attribute_defense_wall(strategies, world).1.len() ==> spec_occurrences(
                spec_attribute_defense_wall(strategies, world).0,
                #[trigger] spec_attribute_defense_wall(strategies, world).1[k],
            ) == 1,
        drawn(strategies, spec_attribute_defense_wall(strategies, world).0, world),
{
    let at = spec_first_in_role(strategies, Role::DefenseWall);
    lemma_first_in_role(strategies, Role::DefenseWall);
    let (after, ids) = spec_attribute_defense_wall(strategies, world);
    lemma_drawn_same(strategies, world);
    if at >= strategies.len() && ids.len() > 0 {
        let team = world.allies_bot@;
        let goal = world.geometry.ally_goal.spec_line().spec_center();
        let free = spec_filter_robots_not_in_ids(spec_refs::<AllyInfo>(team), seq![KEEPER_ID]);
        let nearest = spec_closest_bots(free, goal);
        let wall = spec_fresh(StrategyKind::DefenseWall { distance: DEFAULT_WALL_DISTANCE }, ids);
        lemma_refs::<AllyInfo>(team);
        lemma_all_of(spec_refs::<AllyInfo>(team), team, seq![KEEPER_ID], goal);
        lemma_all_of(free, team, seq![KEEPER_ID], goal);
        lemma_first_two(nearest, nearest.len() as int);
        assert forall|k: int| 0 <= k < ids.len() implies world.allies_bot.spec_get(
            #[trigger] ids[k],
        ) is Some by {
            let j = choose|j: int| 0 <= j < nearest.len() && nearest[j].id == ids[k];
            lemma_robot_present(team, *nearest[j]);
        }
        assert(from_field(wall, world));
        let loose = spec_detach_all(strategies, ids, ids.len() as int);
        lemma_detach_all_drawn(strategies, ids, ids.len() as int, world);
        lemma_push_drawn(loose, wall, world);
        lemma_drawn_chain(strategies, loose, loose.push(wall), world);
    }
    if at < strategies.len() {
        assert(after[at] == strategies[at]);
        if well_formed(strategies) {
            assert forall|k: int| 0 <= k < ids.len() implies spec_occurrences(
                after,
                #[trigger] ids[k],
            ) == 1 by {
                crate::partition::lemma_occurrences_at_least(strategies, at, at, ids[k]);
                lemma_count_contains(ids, ids[k]);
                assert(spec_occurrences(strategies, ids[k]) <= 1);
            }
        }
    } else if ids.len() > 0 {
        assert(after[after.len() - 1].ids == ids);
        if well_formed(strategies) {
            let nearest = spec_closest_bots(
                spec_filter_robots_not_in_ids(
                    spec_refs::<AllyInfo>(world.allies_bot@),
                    seq![KEEPER_ID],
                ),
                world.geometry.ally_goal.spec_line().spec_center(),
            );
            lemma_first_two(nearest, nearest.len() as int);
            lemma_detach_all(strategies, ids, ids.len() as int);
            let loose = spec_detach_all(strategies, ids, ids.len() as int);
            assert forall|k: int| 0 <= k < ids.len() implies spec_occurrences(
                after,
                #[trigger] ids[k],
            ) == 1 by {
                lemma_occurrences_push(loose, after[after.len() - 1], ids[k]);
                lemma_count_contains(ids, ids[k]);
                assert(spec_occurrences(loose, ids[k]) == 0);
            }
        }
    }
    if at >= strategies.len() {
        let allies = spec_refs::<AllyInfo>(world.allies_bot@);
        let free = spec_filter_robots_not_in_ids(allies, seq![KEEPER_ID]);
        let nearest = spec_closest_bots(free, world.geometry.ally_goal.spec_line().spec_center());
        let picks = spec_wall_picks(world);
        if picks.len() > 0 {
            let wall = spec_fresh(
                StrategyKind::DefenseWall { distance: DEFAULT_WALL_DISTANCE },
                picks,
            );
            lemma_first_two(nearest, nearest.len() as int);
            lemma_detach_all(strategies, picks, picks.len() as int);
            let loose = spec_detach_all(strategies, picks, picks.len() as int);
            if well_formed(strategies) {
                lemma_push_well_formed(loose, wall);
            }
            if keeper_pinned(strategies) {
                assert(seq![KEEPER_ID].contains(KEEPER_ID)) by {
                    assert(seq![KEEPER_ID][0] == KEEPER_ID);
                }
                lemma_not_in_ids_none(allies, seq![KEEPER_ID], KEEPER_ID);
                lemma_closest_none(
                    free,
                    world.geometry.ally_goal.spec_line().spec_center(),
                    KEEPER_ID,
                );
                assert forall|k: int| 0 <= k < picks.len() implies picks[k] != KEEPER_ID by {
                    let j = choose|j: int| 0 <= j < nearest.len() && nearest[j].id == picks[k];
                    assert(nearest[j].id != KEEPER_ID);
                }
                lemma_push_keeper(loose, wall);
            }
        }
    }
}

/// The strategies after the first `upto` of `markers` were given an enemy to
/// mark, with the enemies that are marked: each marker in turn gets the
/// enemy nearest to it that is not marked yet, and goes to a new marking
/// strategy; a marker for which no enemy is left keeps its strategy. The
/// goalkeeper of the enemy counts as marked from the start.
pub open spec fn spec_marking<'a>(
    strategies: Seq<StrategyView>,
    world: World,
    markers: Seq<&'a Robot<AllyInfo>>,
    upto: int,
) -> (Seq<StrategyView>, Seq<u8>)
    decreases upto,
{
    if upto <= 0 {
        (strategies, seq![ENEMY_KEEPER_ID])
    } else {
        let (before, marked) = spec_marking(strategies, world, markers, upto - 1);
        let ally = markers[upto - 1];
        let free = spec_filter_robots_not_in_ids(
            spec_closest_bots(spec_refs::<EnemyInfo>(world.enemies_bot@), ally.pose.position),
            marked,
        );
        if free.len() == 0 {
            (before, marked)
        } else {
            (
                spec_move_to_new(
                    before,
                    ally.id,
                    spec_fresh(StrategyKind::BotMarking { enemy_id: free[0].id }, seq![ally.id]),
                ),
                marked.push(free[0].id),
            )
        }
    }
}

/// Giving out the enemies to mark keeps the rule of the manager; it keeps
/// the goalkeeper strategy if the goalkeeper is not among the markers.
pub proof fn lemma_marking<'a>(
    strategies: Seq<StrategyView>,
    world: World,
    markers: Seq<&'a Robot<AllyInfo>>,
    upto: int,
)
    requires
        0 <= upto <= markers.len(),
    ensures
        well_formed(strategies) ==> well_formed(spec_marking(strategies, world, markers, upto).0),
        keeper_pinned(strategies) && none_is(markers, KEEPER_ID) ==> keeper_pinned(
            spec_marking(strategies, world, markers, upto).0,
        ),
    decreases upto,
{
    if upto > 0 {
        lemma_marking(strategies, world, markers, upto - 1);
        let (before, marked) = spec_marking(strategies, world, markers, upto - 1);
        let ally = markers[upto - 1];
        let free = spec_filter_robots_not_in_ids(
            spec_closest_bots(spec_refs::<EnemyInfo>(world.enemies_bot@), ally.pose.position),
            marked,
        );
        if free.len() > 0 {
            let new = spec_fresh(StrategyKind::BotMarking { enemy_id: free[0].id }, seq![ally.id]);
            if well_formed(strategies) {
                lemma_move_to_new_well_formed(before, ally.id, new);
            }
            if keeper_pinned(strategies) && none_is(markers, KEEPER_ID) {
                lemma_move_to_new_keeper(before, ally.id, new);
            }
        }
    }
}

/// Giving out the enemies to mark leaves a strategy that owns a robot and
/// nothing else as it is, if that robot is not among the markers.
pub proof fn lemma_marking_alone<'a>(
    strategies: Seq<StrategyView>,
    world: World,
    markers: Seq<&'a Robot<AllyInfo>>,
    upto: int,
    kind: StrategyKind,
    id: u8,
)
    requires
        0 <= upto <= markers.len(),
        owns_alone(strategies, kind, id),
        none_is(markers, id),
    ensures
        owns_alone(spec_marking(strategies, world, markers, upto).0, kind, id),
    decreases upto,
{
    if upto > 0 {
        lemma_marking_alone(strategies, world, markers, upto - 1, kind, id);
        let (before, marked) = spec_marking(strategies, world, markers, upto - 1);
        let ally = markers[upto - 1];
        let free = spec_filter_robots_not_in_ids(
            spec_closest_bots(spec_refs::<EnemyInfo>(world.enemies_bot@), ally.pose.position),
            marked,
        );
        if free.len() > 0 {
            lemma_move_to_new_alone(
                before,
                ally.id,
                spec_fresh(StrategyKind::BotMarking { enemy_id: free[0].id }, seq![ally.id]),
                kind,
                id,
            );
        }
    }
}

/// Giving out the enemies to mark to allies on the field leaves strategies
/// that are drawn from those before.
pub proof fn lemma_marking_drawn<'a>(
    strategies: Seq<StrategyView>,
    world: World,
    markers: Seq<&'a Robot<AllyInfo>>,
    upto: int,
)
    requires
        0 <= upto <= markers.len(),
        all_of(markers, world.allies_bot@),
    ensures
        drawn(strategies, spec_marking(strategies, world, markers, upto).0, world),
    decreases upto,
{
    if upto > 0 {
        lemma_marking_drawn(strategies, world, markers, upto - 1);
        let (before, marked) = spec_marking(strategies, world, markers, upto - 1);
        let ally = markers[upto - 1];
        let team = world.enemies_bot@;
        let sorted = spec_closest_bots(spec_refs::<EnemyInfo>(team), ally.pose.position);
        let free = spec_filter_robots_not_in_ids(sorted, marked);
        if free.len() > 0 {
            let new = spec_fresh(StrategyKind::BotMarking { enemy_id: free[0].id }, seq![ally.id]);
            lemma_refs::<EnemyInfo>(team);
            lemma_all_of(spec_refs::<EnemyInfo>(team), team, marked, ally.pose.position);
            lemma_all_of(sorted, team, marked, ally.pose.position);
            assert(team.contains(*free[0]));
            lemma_robot_present(team, *free[0]);
            assert(world.allies_bot@.contains(*markers[upto - 1]));
            lemma_robot_present(world.allies_bot@, *ally);
            assert(from_field(new, world));
            lemma_move_to_new_drawn(before, ally.id, new, world);
            lemma_drawn_chain(strategies, before, spec_move_to_new(before, ally.id, new), world);
        }
    } else {
        lemma_drawn_same(strategies, world);
    }
}

/// The robot that stays in the role: the robot of the first strategy in it,
/// if it is on the field and either no other robot is first in `order` or it
/// is within 1.2 m of the ball.
pub open spec fn spec_stays<'a>(
    strategies: Seq<StrategyView>,
    world: World,
    ball: Ball,
    role: Role,
    order: Seq<&'a Robot<AllyInfo>>,
) -> Option<u8> {
    let at = spec_first_in_role(strategies, role);
    if at < strategies.len() && strategies[at].ids.len() > 0 {
        let id = strategies[at].ids[0];
        match world.allies_bot.spec_get(id) {
            Some(robot) => if order.len() > 0 && order[0].id != id && robot.spec_dist2_to(
                ball.spec_position_2d(),
            ) > GIVE_WAY_DISTANCE * GIVE_WAY_DISTANCE {
                None
            } else {
                Some(id)
            },
            None => None,
        }
    } else {
        None
    }
}

/// The strategies after an attack was set up. `nearest` holds the allies
/// from the nearest to the ball to the farthest, `defenders` those that
/// defend. Of the others, the attacker stays if `spec_stays` tells so, else
/// the first becomes the attacker; the rest are given enemies to mark.
pub open spec fn spec_attack<'a>(
    strategies: Seq<StrategyView>,
    world: World,
    ball: Ball,
    defenders: Seq<u8>,
    nearest: Seq<&'a Robot<AllyInfo>>,
) -> Seq<StrategyView> {
    let free = spec_filter_robots_not_in_ids(nearest, defenders);
    match spec_stays(strategies, world, ball, Role::Attacker, free) {
        Some(id) => {
            let markers = spec_filter_robots_not_in_ids(free, seq![id]);
            spec_marking(strategies, world, markers, markers.len() as int).0
        },
        None => if free.len() > 0 {
            let id = free[0].id;
            let markers = spec_filter_robots_not_in_ids(free, seq![id]);
            spec_marking(
                spec_move_to_new(strategies, id, spec_fresh(StrategyKind::Attacker, seq![id])),
                world,
                markers,
                markers.len() as int,
            ).0
        } else {
            strategies
        },
    }
}

/// The strategies after a defence was set up. Of the allies behind the ball
/// other than the goalkeeper, the contester stays if `spec_stays` tells so,
/// else the nearest to the ball becomes the contester; the allies that do
/// not defend, the contester left out, are given enemies to mark.
pub open spec fn spec_defend<'a>(
    strategies: Seq<StrategyView>,
    world: World,
    ball: Ball,
    defenders: Seq<u8>,
    nearest: Seq<&'a Robot<AllyInfo>>,
) -> Seq<StrategyView> {
    let free = spec_filter_robots_not_in_ids(nearest, defenders);
    let behind = spec_filter_robots_not_in_ids(
        spec_filter_robots_behind_point(nearest, ball.spec_position_2d()),
        seq![KEEPER_ID],
    );
    match spec_stays(strategies, world, ball, Role::BotContesting, behind) {
        Some(id) => {
            let markers = spec_filter_robots_not_in_ids(free, seq![id]);
            spec_marking(strategies, world, markers, markers.len() as int).0
        },
        None => if behind.len() > 0 {
            let id = behind[0].id;
            let markers = spec_filter_robots_not_in_ids(free, seq![id]);
            spec_marking(
                spec_move_to_new(strategies, id, spec_fresh(StrategyKind::BotContesting, seq![id])),
                world,
                markers,
                markers.len() as int,
            ).0
        } else {
            strategies
        },
    }
}

/// A list of one identifier holds it.
pub proof fn lemma_single_contains(id: u8)
    ensures
        seq![id].contains(id),
{
    assert(seq![id][0] == id);
}

/// The robot that attacks once an attack was set up: the attacker that
/// stays, else the first of the allies that do not defend.
pub open spec fn spec_attacker<'a>(
    strategies: Seq<StrategyView>,
    world: World,
    ball: Ball,
    defenders: Seq<u8>,
    nearest: Seq<&'a Robot<AllyInfo>>,
) -> Option<u8> {
    let free = spec_filter_robots_not_in_ids(nearest, defenders);
    match spec_stays(strategies, world, ball, Role::Attacker, free) {
        Some(id) => Some(id),
        None => if free.len() > 0 {
            Some(free[0].id)
        } else {
            None
        },
    }
}

/// The robot that contests the ball once a defence was set up: the
/// contester that stays, else the first of the allies behind the ball other
/// than the goalkeeper.
pub open spec fn spec_contester<'a>(
    strategies: Seq<StrategyView>,
    world: World,
    ball: Ball,
    nearest: Seq<&'a Robot<AllyInfo>>,
) -> Option<u8> {
    let behind = spec_filter_robots_not_in_ids(
        spec_filter_robots_behind_point(nearest, ball.spec_position_2d()),
        seq![KEEPER_ID],
    );
    match spec_stays(strategies, world, ball, Role::BotContesting, behind) {
        Some(id) => Some(id),
        None => if behind.len() > 0 {
            Some(behind[0].id)
        } else {
            None
        },
    }
}

/// Whether the robot may contest a ball at `ball`: it is not the goalkeeper
/// and stands behind the ball.
pub open spec fn spec_may_contest(robot: Robot<AllyInfo>, ball: Ball) -> bool {
    robot.id != KEEPER_ID && robot.pose.position.sx() < ball.spec_position_2d().sx()
}

/// Where no strategy contests the ball yet and `nearest` holds the allies
/// in ascending order of their distance to the ball, the contester is an
/// ally that may contest, and no ally that may contest is nearer to the
/// ball; there is no contester only if no ally may contest.
pub proof fn lemma_new_contester<'a>(
    strategies: Seq<StrategyView>,
    world: World,
    ball: Ball,
    nearest: Seq<&'a Robot<AllyInfo>>,
)
    requires
        ascending_by_distance(nearest, ball.spec_position_2d()),
        spec_first_in_role(strategies, Role::BotContesting) >= strategies.len(),
    ensures
        match spec_contester(strategies, world, ball, nearest) {
            Some(id) => exists|k: int|
                0 <= k < nearest.len() && (#[trigger] nearest[k]).id == id && spec_may_contest(
                    *nearest[k],
                    ball,
                ) && forall|j: int|
                    0 <= j < nearest.len() && spec_may_contest(*#[trigger] nearest[j], ball)
                        ==> nearest[k].spec_dist2_to(ball.spec_position_2d())
                        <= nearest[j].spec_dist2_to(ball.spec_position_2d()),
            None => forall|j: int|
                0 <= j < nearest.len() ==> !spec_may_contest(*#[trigger] nearest[j], ball),
        },
{
    let point = ball.spec_position_2d();
    let side = spec_filter_robots_behind_point(nearest, point);
    let behind = spec_filter_robots_not_in_ids(side, seq![KEEPER_ID]);
    lemma_behind_point(nearest, point);
    lemma_not_in_ids(side, seq![KEEPER_ID]);
    lemma_single_contains(KEEPER_ID);
    lemma_not_in_ids_none(side, seq![KEEPER_ID], KEEPER_ID);
    lemma_filters_ascending(nearest, seq![KEEPER_ID], point, point);
    lemma_filters_ascending(side, seq![KEEPER_ID], point, point);
    // every ally that may contest is among those behind the ball
    assert forall|j: int|
        0 <= j < nearest.len() && spec_may_contest(*#[trigger] nearest[j], ball) implies behind.contains(
        nearest[j],
    ) by {
        assert(side.contains(nearest[j]));
        let w = choose|w: int| 0 <= w < side.len() && side[w] == nearest[j];
        assert(!seq![KEEPER_ID].contains(side[w].id)) by {
            if seq![KEEPER_ID].contains(side[w].id) {
                let v = choose|v: int| 0 <= v < 1 && seq![KEEPER_ID][v] == side[w].id;
            }
        }
    }
    if behind.len() > 0 {
        assert(side.contains(behind[0]));
        let w = choose|w: int| 0 <= w < side.len() && side[w] == behind[0];
        assert(nearest.contains(side[w]));
        let k = choose|k: int| 0 <= k < nearest.len() && nearest[k] == side[w];
        assert(nearest[k].id == behind[0].id);
        assert(spec_may_contest(*nearest[k], ball));
        assert forall|j: int|
            0 <= j < nearest.len() && spec_may_contest(
                *#[trigger] nearest[j],
                ball,
            ) implies nearest[k].spec_dist2_to(point) <= nearest[j].spec_dist2_to(point) by {
            assert(behind.contains(nearest[j]));
            let t = choose|t: int| 0 <= t < behind.len() && behind[t] == nearest[j];
            assert(behind[0].spec_dist2_to(point) <= behind[t].spec_dist2_to(point));
        }
    } else {
        assert forall|j: int| 0 <= j < nearest.len() implies !spec_may_contest(
            *#[trigger] nearest[j],
            ball,
        ) by {
            if spec_may_contest(*nearest[j], ball) {
                assert(behind.contains(nearest[j]));
            }
        }
    }
}

/// Under the rule of the manager, the robot that stays in a role of a
/// single robot is owned, alone, by a strategy in that role.
pub proof fn lemma_stays<'a>(
    strategies: Seq<StrategyView>,
    world: World,
    ball: Ball,
    role: Role,
    order: Seq<&'a Robot<AllyInfo>>,
    kind: StrategyKind,
)
    requires
        well_formed(strategies),
        kind == StrategyKind::Attacker && role == Role::Attacker || kind
            == StrategyKind::BotContesting && role == Role::BotContesting,
        spec_stays(strategies, world, ball, role, order) is Some,
    ensures
        owns_alone(strategies, kind, spec_stays(strategies, world, ball, role, order).unwrap()),
{
    let at = spec_first_in_role(strategies, role);
    lemma_first_in_role(strategies, role);
    assert(shaped(strategies[at]));
    assert(strategies[at].kind == kind);
    assert(strategies[at].ids =~= seq![strategies[at].ids[0]]);
}

/// Setting up an attack keeps the rule of the manager; it keeps the
/// goalkeeper strategy if the goalkeeper is among the defenders. Under the
/// rule the attacker is owned, alone, by an attacker strategy afterwards;
/// and where `nearest` holds allies on the field, the strategies are drawn
/// from those before.
pub proof fn lemma_attack<'a>(
    strategies: Seq<StrategyView>,
    world: World,
    ball: Ball,
    defenders: Seq<u8>,
    nearest: Seq<&'a Robot<AllyInfo>>,
)
    ensures
        well_formed(strategies) ==> well_formed(
            spec_attack(strategies, world, ball, defenders, nearest),
        ),
        keeper_pinned(strategies) && defenders.contains(KEEPER_ID) ==> keeper_pinned(
            spec_attack(strategies, world, ball, defenders, nearest),
        ),
        well_formed(strategies) && spec_attacker(strategies, world, ball, defenders, nearest)
            is Some ==> owns_alone(
            spec_attack(strategies, world, ball, defenders, nearest),
            StrategyKind::Attacker,
            spec_attacker(strategies, world, ball, defenders, nearest).unwrap(),
        ),
        all_of(nearest, world.allies_bot@) ==> drawn(
            strategies,
            spec_attack(strategies, world, ball, defenders, nearest),
            world,
        ),
{
    let free = spec_filter_robots_not_in_ids(nearest, defenders);
    lemma_not_in_ids_none(nearest, defenders, KEEPER_ID);
    lemma_drawn_same(strategies, world);
    if all_of(nearest, world.allies_bot@) {
        let team = world.allies_bot@;
        let point = ball.spec_position_2d();
        lemma_all_of(nearest, team, defenders, point);
        match spec_stays(strategies, world, ball, Role::Attacker, free) {
            Some(id) => {
                let markers = spec_filter_robots_not_in_ids(free, seq![id]);
                lemma_all_of(free, team, seq![id], point);
                lemma_marking_drawn(strategies, world, markers, markers.len() as int);
            },
            None => {
                if free.len() > 0 {
                    let id = free[0].id;
                    let new = spec_fresh(StrategyKind::Attacker, seq![id]);
                    let markers = spec_filter_robots_not_in_ids(free, seq![id]);
                    let moved = spec_move_to_new(strategies, id, new);
                    lemma_all_of(free, team, seq![id], point);
                    assert(team.contains(*free[0]));
                    lemma_robot_present(team, *free[0]);
                    assert(from_field(new, world));
                    lemma_move_to_new_drawn(strategies, id, new, world);
                    lemma_marking_drawn(moved, world, markers, markers.len() as int);
                    lemma_drawn_chain(
                        strategies,
                        moved,
                        spec_marking(moved, world, markers, markers.len() as int).0,
                        world,
                    );
                }
            },
        }
    }
    match spec_stays(strategies, world, ball, Role::Attacker, free) {
        Some(id) => {
            let markers = spec_filter_robots_not_in_ids(free, seq![id]);
            lemma_not_in_ids_none(free, seq![id], KEEPER_ID);
            lemma_marking(strategies, world, markers, markers.len() as int);
            if well_formed(strategies) {
                lemma_stays(strategies, world, ball, Role::Attacker, free, StrategyKind::Attacker);
                lemma_single_contains(id);
                lemma_not_in_ids_none(free, seq![id], id);
                lemma_marking_alone(
                    strategies,
                    world,
                    markers,
                    markers.len() as int,
                    StrategyKind::Attacker,
                    id,
                );
            }
        },
        None => {
            if free.len() > 0 {
                let id = free[0].id;
                let new = spec_fresh(StrategyKind::Attacker, seq![id]);
                let markers = spec_filter_robots_not_in_ids(free, seq![id]);
                lemma_not_in_ids_none(free, seq![id], KEEPER_ID);
                let moved = spec_move_to_new(strategies, id, new);
                if well_formed(strategies) {
                    lemma_move_to_new_well_formed(strategies, id, new);
                }
                if keeper_pinned(strategies) && defenders.contains(KEEPER_ID) {
                    assert(free[0].id != KEEPER_ID);
                    lemma_move_to_new_keeper(strategies, id, new);
                }
                lemma_marking(moved, world, markers, markers.len() as int);
                lemma_move_to_new_there(strategies, id, new);
                lemma_single_contains(id);
                lemma_not_in_ids_none(free, seq![id], id);
                lemma_marking_alone(
                    moved,
                    world,
                    markers,
                    markers.len() as int,
                    StrategyKind::Attacker,
                    id,
                );
            }
        },
    }
}

/// Setting up a defence keeps the rule of the manager; it keeps the
/// goalkeeper strategy if the goalkeeper is among the defenders. Under the
/// rule the contester is owned, alone, by a contesting strategy afterwards;
/// and where `nearest` holds allies on the field, the strategies are drawn
/// from those before.
pub proof fn lemma_defend<'a>(
    strategies: Seq<StrategyView>,
    world: World,
    ball: Ball,
    defenders: Seq<u8>,
    nearest: Seq<&'a Robot<AllyInfo>>,
)
    ensures
        well_formed(strategies) ==> well_formed(
            spec_defend(strategies, world, ball, defenders, nearest),
        ),
        keeper_pinned(strategies) && defenders.contains(KEEPER_ID) ==> keeper_pinned(
            spec_defend(strategies, world, ball, defenders, nearest),
        ),
        well_formed(strategies) && spec_contester(strategies, world, ball, nearest) is Some
            ==> owns_alone(
            spec_defend(strategies, world, ball, defenders, nearest),
            StrategyKind::BotContesting,
            spec_contester(strategies, world, ball, nearest).unwrap(),
        ),
        all_of(nearest, world.allies_bot@) ==> drawn(
            strategies,
            spec_defend(strategies, world, ball, defenders, nearest),
            world,
        ),
{
    lemma_drawn_same(strategies, world);
    if all_of(nearest, world.allies_bot@) {
        let team = world.allies_bot@;
        let point = ball.spec_position_2d();
        let free = spec_filter_robots_not_in_ids(nearest, defenders);
        let side = spec_filter_robots_behind_point(nearest, point);
        let behind = spec_filter_robots_not_in_ids(side, seq![KEEPER_ID]);
        lemma_all_of(nearest, team, defenders, point);
        lemma_all_of(side, team, seq![KEEPER_ID], point);
        match spec_stays(strategies, world, ball, Role::BotContesting, behind) {
            Some(id) => {
                let markers = spec_filter_robots_not_in_ids(free, seq![id]);
                lemma_all_of(free, team, seq![id], point);
                lemma_marking_drawn(strategies, world, markers, markers.len() as int);
            },
            None => {
                if behind.len() > 0 {
                    let id = behind[0].id;
                    let new = spec_fresh(StrategyKind::BotContesting, seq![id]);
                    let markers = spec_filter_robots_not_in_ids(free, seq![id]);
                    let moved = spec_move_to_new(strategies, id, new);
                    lemma_all_of(free, team, seq![id], point);
                    assert(team.contains(*behind[0]));
                    lemma_robot_present(team, *behind[0]);
                    assert(from_field(new, world));
                    lemma_move_to_new_drawn(strategies, id, new, world);
                    lemma_marking_drawn(moved, world, markers, markers.len() as int);
                    lemma_drawn_chain(
                        strategies,
                        moved,
                        spec_marking(moved, world, markers, markers.len() as int).0,
                        world,
                    );
                }
            },
        }
    }
    let free = spec_filter_robots_not_in_ids(nearest, defenders);
    let side = spec_filter_robots_behind_point(nearest, ball.spec_position_2d());
    let behind = spec_filter_robots_not_in_ids(side, seq![KEEPER_ID]);
    lemma_not_in_ids_none(nearest, defenders, KEEPER_ID);
    assert(seq![KEEPER_ID].contains(KEEPER_ID)) by {
        assert(seq![KEEPER_ID][0] == KEEPER_ID);
    }
    lemma_not_in_ids_none(side, seq![KEEPER_ID], KEEPER_ID);
    match spec_stays(strategies, world, ball, Role::BotContesting, behind) {
        Some(id) => {
            let markers = spec_filter_robots_not_in_ids(free, seq![id]);
            lemma_not_in_ids_none(free, seq![id], KEEPER_ID);
            lemma_marking(strategies, world, markers, markers.len() as int);
            if well_formed(strategies) {
                lemma_stays(
                    strategies,
                    world,
                    ball,
                    Role::BotContesting,
                    behind,
                    StrategyKind::BotContesting,
                );
                lemma_single_contains(id);
                lemma_not_in_ids_none(free, seq![id], id);
                lemma_marking_alone(
                    strategies,
                    world,
                    markers,
                    markers.len() as int,
                    StrategyKind::BotContesting,
                    id,
                );
            }
        },
        None => {
            if behind.len() > 0 {
                let id = behind[0].id;
                let new = spec_fresh(StrategyKind::BotContesting, seq![id]);
                let markers = spec_filter_robots_not_in_ids(free, seq![id]);
                lemma_not_in_ids_none(free, seq![id], KEEPER_ID);
                let moved = spec_move_to_new(strategies, id, new);
                if well_formed(strategies) {
                    lemma_move_to_new_well_formed(strategies, id, new);
                }
                if keeper_pinned(strategies) {
                    assert(behind[0].id != KEEPER_ID);
                    lemma_move_to_new_keeper(strategies, id, new);
                }
                lemma_marking(moved, world, markers, markers.len() as int);
                lemma_move_to_new_there(strategies, id, new);
                lemma_single_contains(id);
                lemma_not_in_ids_none(free, seq![id], id);
                lemma_marking_alone(
                    moved,
                    world,
                    markers,
                    markers.len() as int,
                    StrategyKind::BotContesting,
                    id,
                );
            }
        },
    }
}

/// The strategies once the goalkeeper is pinned: where no goalkeeper
/// strategy owns the goalkeeper and nothing else, the goalkeeper goes to a
/// new one.
pub open spec fn spec_pin_keeper(strategies: Seq<StrategyView>) -> Seq<StrategyView> {
    if keeper_pinned(strategies) {
        strategies
    } else {
        spec_move_to_new(
            strategies,
            KEEPER_ID,
            spec_fresh(StrategyKind::GoalKeeper, seq![KEEPER_ID]),
        )
    }
}

/// Pinning the goalkeeper keeps the rule of the manager, and afterwards a
/// goalkeeper strategy owns the goalkeeper and nothing else; the strategies
/// are drawn from those before, whatever is on the field.
pub proof fn lemma_pin_keeper(strategies: Seq<StrategyView>)
    ensures
        well_formed(strategies) ==> well_formed(spec_pin_keeper(strategies)),
        keeper_pinned(spec_pin_keeper(strategies)),
        forall|world: World| #[trigger] drawn(strategies, spec_pin_keeper(strategies), world),
{
    assert forall|world: World| #[trigger]
        drawn(strategies, spec_pin_keeper(strategies), world) by {
        lemma_drawn_same(strategies, world);
        let new = spec_fresh(StrategyKind::GoalKeeper, seq![KEEPER_ID]);
        assert(from_field(new, world));
        lemma_move_to_new_drawn(strategies, KEEPER_ID, new, world);
    }
    if !keeper_pinned(strategies) {
        let new = spec_fresh(StrategyKind::GoalKeeper, seq![KEEPER_ID]);
        if well_formed(strategies) {
            lemma_move_to_new_well_formed(strategies, KEEPER_ID, new);
        }
        lemma_move_to_new_there(strategies, KEEPER_ID, new);
    }
}

/// The strategies after the robots were given their strategies for a tick
/// with the ball on the field: the goalkeeper is pinned, the wall is made,
/// then an attack is set up if the ball is ours or nobody's, a defence if it
/// is theirs.
pub open spec fn spec_attribute_strategies(
    strategies: Seq<StrategyView>,
    world: World,
    ball: Ball,
) -> Seq<StrategyView> {
    let (walled, wall) = spec_attribute_defense_wall(spec_pin_keeper(strategies), world);
    let defenders = wall.push(KEEPER_ID);
    let nearest = spec_closest_bots(
        spec_refs::<AllyInfo>(world.allies_bot@),
        ball.spec_position_2d(),
    );
    match ball.possession {
        Some(color) => if color == world.team_color {
            spec_attack(walled, world, ball, defenders, nearest)
        } else {
            spec_defend(walled, world, ball, defenders, nearest)
        },
        None => spec_attack(walled, world, ball, defenders, nearest),
    }
}

/// Giving the robots their strategies keeps the rule of the manager, and
/// afterwards a goalkeeper strategy owns the goalkeeper and nothing else.
/// Each strategy afterwards is what is left of one that was there, or owns
/// allies on the field, the goalkeeper strategy left out, and marks an
/// enemy on the field if it marks one.
pub proof fn lemma_attribute_strategies(strategies: Seq<StrategyView>, world: World, ball: Ball)
    ensures
        well_formed(strategies) ==> well_formed(
            spec_attribute_strategies(strategies, world, ball),
        ),
        keeper_pinned(spec_attribute_strategies(strategies, world, ball)),
        drawn(strategies, spec_attribute_strategies(strategies, world, ball), world),
{
    lemma_pin_keeper(strategies);
    let pinned = spec_pin_keeper(strategies);
    lemma_attribute_defense_wall(pinned, world);
    let (walled, wall) = spec_attribute_defense_wall(pinned, world);
    let defenders = wall.push(KEEPER_ID);
    assert(defenders.contains(KEEPER_ID)) by {
        assert(defenders[wall.len() as int] == KEEPER_ID);
    }
    let nearest = spec_closest_bots(
        spec_refs::<AllyInfo>(world.allies_bot@),
        ball.spec_position_2d(),
    );
    lemma_refs::<AllyInfo>(world.allies_bot@);
    lemma_all_of(
        spec_refs::<AllyInfo>(world.allies_bot@),
        world.allies_bot@,
        defenders,
        ball.spec_position_2d(),
    );
    lemma_attack(walled, world, ball, defenders, nearest);
    lemma_defend(walled, world, ball, defenders, nearest);
    assert(drawn(strategies, pinned, world));
    lemma_drawn_chain(strategies, pinned, walled, world);
    lemma_drawn_chain(
        strategies,
        walled,
        spec_attribute_strategies(strategies, world, ball),
        world,
    );
}

/// A vector that holds `id` and nothing else.
pub fn only(id: u8) -> (r: Vec<u8>)
    ensures
        r@ == seq![id],
{
    let mut ids: Vec<u8> = Vec::new();
    ids.push(id);
    assert(ids@ =~= seq![id]);
    ids
}

impl BigBro {
    /// Makes sure that there is a wall in front of our goal and returns its
    /// robots: the wall that is there stays; else the two allies nearest to
    /// the middle of our goal, the goalkeeper left out, leave their
    /// strategies and make one.
    ///
    /// This keeps the rule of the manager and the goalkeeper strategy. Where
    /// robots are returned, a wall owns exactly them, and under the rule of
    /// the manager no other strategy owns one of them. The robots of a new
    /// wall are two, or all the allies on the field but the goalkeeper if
    /// those are fewer; none is the goalkeeper, none comes twice, and no
    /// other ally but the goalkeeper is nearer to the middle of our goal.
    pub fn attribute_defense_wall(&mut self, world: &World) -> (ids: Vec<u8>)
        ensures
            final(self)@ == spec_attribute_defense_wall(old(self)@, *world).0,
            ids@ == spec_attribute_defense_wall(old(self)@, *world).1,
            old(self).wf() ==> final(self).wf(),
            keeper_pinned(old(self)@) ==> keeper_pinned(final(self)@),
            drawn(old(self)@, final(self)@, *world),
            ids@.len() > 0 ==> owns_all(final(self)@, Role::DefenseWall, ids@),
            old(self).wf() ==> forall|k: int|
                0 <= k < ids@.len() ==> spec_occurrences(final(self)@, #[trigger] ids@[k]) == 1,
            spec_first_in_role(old(self)@, Role::DefenseWall) >= old(self)@.len() ==> {
                &&& distinct(ids@)
                &&& forall|k: int| 0 <= k < ids@.len() ==> #[trigger] ids@[k] != KEEPER_ID
                &&& world.allies_bot.wf() ==> nearest_to_goal(*world, ids@) && ids@.len() == if spec_field_players(
                    *world,
                ) < WALL_SIZE {
                    spec_field_players(*world)
                } else {
                    WALL_SIZE as nat
                }
            },
    {
        proof {
            lemma_attribute_defense_wall(self@, *world);
            lemma_wall_picks(*world);
        }
        match self.first_in_role(Role::DefenseWall) {
            Some(at) => {
                return self.get(at).get_ids();
            },
            None => {},
        }
        let available = filter_robots_not_in_ids(
            collect_refs(world.allies_bot.values()),
            &only(KEEPER_ID),
        );
        let nearest = closest_bots_to_point(available, world.geometry.ally_goal.line().center());
        let mut ids: Vec<u8> = Vec::new();
        let mut i: usize = 0;
        while i < nearest.len()
            invariant
                0 <= i <= nearest.len(),
                ids@ == spec_first_two(nearest@, i as int),
            decreases nearest.len() - i,
        {
            if ids.len() < WALL_SIZE && !contains_id(&ids, nearest[i].id) {
                ids.push(nearest[i].id);
            }
            i += 1;
        }
        if ids.len() == 0 {
            return ids;
        }
        let mut k: usize = 0;
        while k < ids.len()
            invariant
                0 <= k <= ids.len(),
                self@ == spec_detach_all(old(self)@, ids@, k as int),
            decreases ids.len() - k,
        {
            self.detach(ids[k]);
            k += 1;
        }
        let ghost loose = self@;
        let wall = Strategy::DefenseWall(DefenseWall::new(ids.clone()));
        assert(wall@ == spec_fresh(
            StrategyKind::DefenseWall { distance: DEFAULT_WALL_DISTANCE },
            ids@,
        ));
        self.strategies.push(wall);
        assert(self@ =~= loose.push(wall@));
        ids
    }

    /// Gives each of `allies_markers` in turn the enemy nearest to it that
    /// is not marked yet, and a marking strategy of its own.
    ///
    /// This keeps the rule of the manager, and it keeps the goalkeeper
    /// strategy if the goalkeeper is not among the markers. Where the
    /// markers are allies on the field, each new strategy owns such an ally
    /// and marks an enemy that is on the field.
    pub fn attribute_marking_bots(&mut self, world: &World, allies_markers: Vec<&Robot<AllyInfo>>)
        ensures
            final(self)@ == spec_marking(
                old(self)@,
                *world,
                allies_markers@,
                allies_markers@.len() as int,
            ).0,
            old(self).wf() ==> final(self).wf(),
            keeper_pinned(old(self)@) && none_is(allies_markers@, KEEPER_ID) ==> keeper_pinned(
                final(self)@,
            ),
            all_of(allies_markers@, world.allies_bot@) ==> drawn(old(self)@, final(self)@, *world),
    {
        proof {
            lemma_marking(self@, *world, allies_markers@, allies_markers@.len() as int);
            if all_of(allies_markers@, world.allies_bot@) {
                lemma_marking_drawn(self@, *world, allies_markers@, allies_markers@.len() as int);
            }
        }
        let mut marked = only(ENEMY_KEEPER_ID);
        let mut i: usize = 0;
        while i < allies_markers.len()
            invariant
                0 <= i <= allies_markers.len(),
                (self@, marked@) == spec_marking(old(self)@, *world, allies_markers@, i as int),
            decreases allies_markers.len() - i,
        {
            let ally = allies_markers[i];
            let nearest = closest_bots_to_point(
                collect_refs(world.enemies_bot.values()),
                ally.pose.position,
            );
            let free = filter_robots_not_in_ids(nearest, &marked);
            if free.len() > 0 {
                let enemy_id = free[0].id;
                marked.push(enemy_id);
                let strategy = Strategy::BotMarking(BotMarking::new(ally.id, enemy_id));
                assert(strategy@ == spec_fresh(
                    StrategyKind::BotMarking { enemy_id },
                    seq![ally.id],
                ));
                self.move_bot_to_new_strategy(ally.id, strategy);
            }
            i += 1;
        }
    }

    /// The robot that stays in the role.
    fn stays(&self, world: &World, ball: &Ball, role: Role, order: &Vec<&Robot<AllyInfo>>) -> (r:
        Option<u8>)
        ensures
            r == spec_stays(self@, *world, *ball, role, order@),
    {
        match self.first_in_role(role) {
            Some(at) => {
                let ids = self.get(at).get_ids();
                if ids.len() == 0 {
                    return None;
                }
                let id = ids[0];
                match world.allies_bot.get(id) {
                    Some(robot) => {
                        if order.len() > 0 && order[0].id != id && robot.dist2_to(
                            &ball.position_2d(),
                        ) > GIVE_WAY_DISTANCE * GIVE_WAY_DISTANCE {
                            None
                        } else {
                            Some(id)
                        }
                    },
                    None => None,
                }
            },
            None => None,
        }
    }

    /// Sets up an attack: of the allies that do not defend, the attacker
    /// stays if it is on the field and either nearest to the ball or within
    /// 1.2 m of it, else the nearest becomes the attacker; the rest are given
    /// enemies to mark.
    ///
    /// This keeps the rule of the manager, and it keeps the goalkeeper
    /// strategy if the goalkeeper is among the defenders. Under the rule of
    /// the manager the attacker strategy still owns the attacker, and
    /// nothing else, after the markers were given their enemies. Where the
    /// allies handed in are on the field, so are the robots of every new
    /// strategy.
    pub fn attaque(
        &mut self,
        world: &World,
        ball: &Ball,
        allies_defensor: &Vec<u8>,
        closest_allies_to_ball: &Vec<&Robot<AllyInfo>>,
    )
        ensures
            final(self)@ == spec_attack(
                old(self)@,
                *world,
                *ball,
                allies_defensor@,
                closest_allies_to_ball@,
            ),
            old(self).wf() ==> final(self).wf(),
            keeper_pinned(old(self)@) && allies_defensor@.contains(KEEPER_ID) ==> keeper_pinned(
                final(self)@,
            ),
            all_of(closest_allies_to_ball@, world.allies_bot@) ==> drawn(
                old(self)@,
                final(self)@,
                *world,
            ),
            old(self).wf() && spec_attacker(
                old(self)@,
                *world,
                *ball,
                allies_defensor@,
                closest_allies_to_ball@,
            ) is Some ==> owns_alone(
                final(self)@,
                StrategyKind::Attacker,
                spec_attacker(
                    old(self)@,
                    *world,
                    *ball,
                    allies_defensor@,
                    closest_allies_to_ball@,
                ).unwrap(),
            ),
    {
        proof {
            lemma_attack(self@, *world, *ball, allies_defensor@, closest_allies_to_ball@);
        }
        let free = filter_robots_not_in_ids(copy_refs(closest_allies_to_ball), allies_defensor);
        match self.stays(world, ball, Role::Attacker, &free) {
            Some(id) => {
                let markers = filter_robots_not_in_ids(free, &only(id));
                self.attribute_marking_bots(world, markers);
            },
            None => {
                if free.len() > 0 {
                    let id = free[0].id;
                    let strategy = Strategy::Attacker(Attacker::new(id));
                    assert(strategy@ == spec_fresh(StrategyKind::Attacker, seq![id]));
                    self.move_bot_to_new_strategy(id, strategy);
                    let markers = filter_robots_not_in_ids(free, &only(id));
                    self.attribute_marking_bots(world, markers);
                }
            },
        }
    }

    /// Sets up a defence: of the allies behind the ball other than the
    /// goalkeeper, the contester stays if it is on the field and either
    /// nearest to the ball or within 1.2 m of it, else the nearest becomes
    /// the contester; the allies that do not defend, the contester left out,
    /// are given enemies to mark.
    ///
    /// This keeps the rule of the manager, and it keeps the goalkeeper
    /// strategy if the goalkeeper is among the defenders. Under the rule of
    /// the manager the contesting strategy still owns the contester, and
    /// nothing else, after the markers were given their enemies. Where the
    /// allies handed in are on the field, so are the robots of every new
    /// strategy.
    pub fn defense(
        &mut self,
        world: &World,
        ball: &Ball,
        allies_defensor: &Vec<u8>,
        closest_allies_to_ball: &Vec<&Robot<AllyInfo>>,
    )
        ensures
            final(self)@ == spec_defend(
                old(self)@,
                *world,
                *ball,
                allies_defensor@,
                closest_allies_to_ball@,
            ),
            old(self).wf() ==> final(self).wf(),
            keeper_pinned(old(self)@) && allies_defensor@.contains(KEEPER_ID) ==> keeper_pinned(
                final(self)@,
            ),
            all_of(closest_allies_to_ball@, world.allies_bot@) ==> drawn(
                old(self)@,
                final(self)@,
                *world,
            ),
            old(self).wf() && spec_contester(old(self)@, *world, *ball, closest_allies_to_ball@)
                is Some ==> owns_alone(
                final(self)@,
                StrategyKind::BotContesting,
                spec_contester(old(self)@, *world, *ball, closest_allies_to_ball@).unwrap(),
            ),
    {
        proof {
            lemma_defend(self@, *world, *ball, allies_defensor@, closest_allies_to_ball@);
        }
        let free = filter_robots_not_in_ids(copy_refs(closest_allies_to_ball), allies_defensor);
        let behind = filter_robots_not_in_ids(
            filter_robots_behind_point(copy_refs(closest_allies_to_ball), &ball.position_2d()),
            &only(KEEPER_ID),
        );
        match self.stays(world, ball, Role::BotContesting, &behind) {
            Some(id) => {
                let markers = filter_robots_not_in_ids(free, &only(id));
                self.attribute_marking_bots(world, markers);
            },
            None => {
                if behind.len() > 0 {
                    let id = behind[0].id;
                    let strategy = Strategy::BotContesting(BotContesting::new(id));
                    assert(strategy@ == spec_fresh(StrategyKind::BotContesting, seq![id]));
                    self.move_bot_to_new_strategy(id, strategy);
                    let markers = filter_robots_not_in_ids(free, &only(id));
                    self.attribute_marking_bots(world, markers);
                }
            },
        }
    }

    /// Whether a goalkeeper strategy owns the goalkeeper and nothing else.
    pub fn keeper_is_pinned(&self) -> (r: bool)
        ensures
            r == keeper_pinned(self@),
    {
        let mut i: usize = 0;
        while i < self.len()
            invariant
                0 <= i <= self@.len(),
                forall|k: int|
                    0 <= k < i ==> !((#[trigger] self@[k]).kind == StrategyKind::GoalKeeper
                        && self@[k].ids == seq![KEEPER_ID]),
            decreases self@.len() - i,
        {
            let strategy = self.get(i);
            let ids = strategy.get_ids();
            if strategy.kind().role() == Role::GoalKeeper && ids.len() == 1 && ids[0] == KEEPER_ID {
                assert(ids@ =~= seq![KEEPER_ID]);
                assert(self@[i as int].kind == StrategyKind::GoalKeeper);
                return true;
            }
            assert(!(self@[i as int].kind == StrategyKind::GoalKeeper && self@[i as int].ids
                == seq![KEEPER_ID])) by {
                if self@[i as int].ids == seq![KEEPER_ID] {
                    assert(seq![KEEPER_ID].len() == 1);
                    assert(seq![KEEPER_ID][0] == KEEPER_ID);
                }
            }
            i += 1;
        }
        false
    }

    /// Pins the goalkeeper: where no goalkeeper strategy owns the goalkeeper
    /// and nothing else, the goalkeeper goes to a new one.
    pub fn pin_keeper(&mut self)
        ensures
            final(self)@ == spec_pin_keeper(old(self)@),
            keeper_pinned(final(self)@),
            old(self).wf() ==> final(self).wf(),
            forall|world: World| #[trigger] drawn(old(self)@, final(self)@, world),
    {
        proof {
            lemma_pin_keeper(self@);
        }
        if !self.keeper_is_pinned() {
            let strategy = Strategy::GoalKeeper(GoalKeeper::new(KEEPER_ID));
            assert(strategy@ == spec_fresh(StrategyKind::GoalKeeper, seq![KEEPER_ID]));
            self.move_bot_to_new_strategy(KEEPER_ID, strategy);
        }
    }

    /// Gives the robots their strategies for a tick with the ball on the
    /// field: the goalkeeper is pinned, the wall is made, then an attack is
    /// set up if the ball is ours or nobody's, a defence if it is theirs.
    ///
    /// This keeps the rule of the manager, and afterwards a goalkeeper
    /// strategy owns the goalkeeper and nothing else. Every strategy that is
    /// made owns allies that are on the field, and marks an enemy that is on
    /// the field if it marks one; the goalkeeper strategy alone is made
    /// whether its robot is seen or not.
    pub fn attribute_strategies(&mut self, world: &World, ball: &Ball)
        ensures
            final(self)@ == spec_attribute_strategies(old(self)@, *world, *ball),
            old(self).wf() ==> final(self).wf(),
            keeper_pinned(final(self)@),
            drawn(old(self)@, final(self)@, *world),
    {
        proof {
            lemma_attribute_strategies(self@, *world, *ball);
        }
        self.pin_keeper();
        let mut allies_defensor = self.attribute_defense_wall(world);
        allies_defensor.push(KEEPER_ID);
        let closest_allies_to_ball = closest_bots_to_point(
            collect_refs(world.allies_bot.values()),
            ball.position_2d(),
        );
        let ours = match ball.possession {
            Some(color) => color == world.team_color,
            None => true,
        };
        if ours {
            self.attaque(world, ball, &allies_defensor, &closest_allies_to_ball);
        } else {
            self.defense(world, ball, &allies_defensor, &closest_allies_to_ball);
        }
    }
}

} // verus!
